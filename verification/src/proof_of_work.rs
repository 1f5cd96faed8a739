//! Proof of work: the preimage a block is hashed over, the numeric
//! reading of a digest, and the search for a nonce whose digest falls
//! below the target.

use vstd::prelude::*;

use vstd::arithmetic::power2::lemma_pow2_adds;
use vstd::arithmetic::power2::lemma_pow2_pos;
use vstd::arithmetic::power2::pow2;

use crate::ascii::ascii_to_bytes;
use crate::ascii::chars_bytes;
use crate::block::Block;
use crate::block::BlockV;
use crate::block::spec_concat_ids;
use crate::bytesutil::push_all;
use crate::codec::enc_u64_be;
use crate::codec::spec_u64_be;
use crate::crypto::sha256_digest;
use crate::crypto::sha256_of;
use crate::hexcode::spec_hex;
use crate::hexcode::hex_encode;

verus! {

/// How many leading bits of a valid block digest must be zero.
pub const TARGET_BITS: u32 = 8;

/// The largest nonce the search will try.
pub const MAX_NONCE: i64 = i64::MAX;

/// The proof-of-work target: a digest is acceptable when, read as a
/// big-endian 256-bit integer, it is strictly below this bound.
pub open spec fn pow_target() -> int {
    pow2((256 - TARGET_BITS) as nat) as int
}

/// A byte sequence read as a big-endian unsigned integer.
pub open spec fn spec_uint_be(s: Seq<u8>) -> int
    decreases s.len(),
{
    if s.len() == 0 {
        0
    } else {
        s[0] * pow2((8 * (s.len() - 1)) as nat) + spec_uint_be(s.drop_first())
    }
}

/// The value of a byte sequence is bounded by the width of its digits.
pub proof fn lemma_uint_be_bounds(s: Seq<u8>)
    ensures
        0 <= spec_uint_be(s) < pow2((8 * s.len()) as nat),
    decreases s.len(),
{
    if s.len() == 0 {
        lemma_pow2_pos(0);
    } else {
        let p = pow2((8 * (s.len() - 1)) as nat);
        lemma_uint_be_bounds(s.drop_first());
        lemma_pow2_pos((8 * (s.len() - 1)) as nat);
        assert(spec_uint_be(s.drop_first()) < p);
        assert(s[0] * p >= 0) by (nonlinear_arith)
            requires
                s[0] >= 0,
                p > 0,
        ;
        assert(s[0] * p + p <= 256 * p) by (nonlinear_arith)
            requires
                s[0] <= 255,
                p > 0,
        ;
        lemma_pow2_adds(8, (8 * (s.len() - 1)) as nat);
        vstd::arithmetic::power2::lemma2_to64();
        assert(pow2((8 * s.len()) as nat) == 256 * p);
    }
}

/// For a 32-byte digest, falling below the target is exactly having a
/// zero leading byte.
pub proof fn lemma_meets_target_is_leading_zero(s: Seq<u8>)
    requires
        s.len() == 32,
    ensures
        (spec_uint_be(s) < pow_target()) == (s[0] == 0),
{
    let p = pow2(248);
    lemma_uint_be_bounds(s.drop_first());
    lemma_pow2_pos(248);
    if s[0] == 0 {
        assert(spec_uint_be(s) == spec_uint_be(s.drop_first()));
    } else {
        assert(s[0] * p >= p) by (nonlinear_arith)
            requires
                s[0] >= 1,
                p > 0,
        ;
    }
}

/// The preimage hashed during the search: the parent hash's bytes, the
/// digest of the transaction ids, and the timestamp and nonce in
/// big-endian form.
pub open spec fn spec_pow_data(v: BlockV, nonce: i64) -> Seq<u8> {
    chars_bytes(v.pre_block_hash) + sha256_of(spec_concat_ids(v.transactions)) + spec_u64_be(
        v.timestamp,
    ) + spec_u64_be(nonce as u64)
}

/// The digest a block with the given nonce hashes to.
pub open spec fn spec_pow_hash(v: BlockV, nonce: i64) -> Seq<u8> {
    sha256_of(spec_pow_data(v, nonce))
}

/// The proof-of-work search over one block.
pub struct ProofOfWork {
    block: Block,
}

impl ProofOfWork {
    /// A search over `block`, against the fixed target.
    pub fn new(block: Block) -> (r: ProofOfWork)
        ensures
            r.block_view() == block@,
    {
        ProofOfWork { block }
    }

    /// The block the search works on.
    pub closed spec fn block_view(&self) -> BlockV {
        self.block@
    }

    fn prepare_data(&self, nonce: i64) -> (r: Vec<u8>)
        requires
            nonce >= 0,
            vstd::utf8::is_ascii_chars(self.block_view().pre_block_hash),
        ensures
            r@ == spec_pow_data(self.block_view(), nonce),
    {
        let mut datas: Vec<u8> = Vec::new();
        let pre = self.block.get_pre_block_hash();
        let pre_bytes = ascii_to_bytes(pre.as_str());
        push_all(&mut datas, pre_bytes.as_slice());
        let tx_hash = self.block.hash_transactions();
        push_all(&mut datas, tx_hash.as_slice());
        enc_u64_be(&mut datas, self.block.get_timestamp());
        enc_u64_be(&mut datas, nonce as u64);
        assert(datas@ =~= spec_pow_data(self.block@, nonce));
        datas
    }

    /// Whether a digest falls below the target.
    fn meets_target(digest: &[u8]) -> (r: bool)
        requires
            digest@.len() == 32,
        ensures
            r == (spec_uint_be(digest@) < pow_target()),
    {
        proof {
            lemma_meets_target_is_leading_zero(digest@);
        }
        digest[0] == 0
    }

    /// Searches nonces from zero upward and returns the least nonce
    /// whose digest falls below the target. `None` only if every nonce up to
    /// `MAX_NONCE` fails, which the fixed target makes unreachable in
    /// practice.
    pub fn run(&self) -> (r: Option<(i64, String)>)
        requires
            vstd::utf8::is_ascii_chars(self.block_view().pre_block_hash),
        ensures
            r matches Some((nonce, hash)) ==> {
                &&& 0 <= nonce < MAX_NONCE
                &&& spec_uint_be(spec_pow_hash(self.block_view(), nonce)) < pow_target()
                &&& forall|n2: i64|
                    0 <= n2 < nonce ==> spec_uint_be(
                        #[trigger] spec_pow_hash(self.block_view(), n2),
                    ) >= pow_target()
                &&& hash@ == spec_hex(spec_pow_hash(self.block_view(), nonce))
                &&& vstd::utf8::is_ascii_chars(hash@)
            },
    {
        let mut nonce: i64 = 0;
        while nonce < MAX_NONCE
            invariant
                0 <= nonce,
                vstd::utf8::is_ascii_chars(self.block_view().pre_block_hash),
                forall|n2: i64|
                    0 <= n2 < nonce ==> spec_uint_be(
                        #[trigger] spec_pow_hash(self.block_view(), n2),
                    ) >= pow_target(),
            decreases MAX_NONCE - nonce,
        {
            let data = self.prepare_data(nonce);
            let hash = sha256_digest(data.as_slice());
            if Self::meets_target(hash.as_slice()) {
                let hash_hex = hex_encode(hash.as_slice());
                return Some((nonce, hash_hex));
            }
            nonce = nonce + 1;
        }
        None
    }
}

} // verus!
