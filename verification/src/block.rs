//! Blocks: the chained record of transactions, with the digest of the
//! contained transaction ids, a canonical serialization for the store
//! and the wire, and the fields the proof-of-work preimage draws on.

use vstd::prelude::*;

use crate::ascii::ascii_string_from_bytes;
use crate::ascii::ascii_to_bytes;
use crate::ascii::bytes_ascii;
use crate::ascii::bytes_chars;
use crate::ascii::chars_bytes;
use crate::ascii::lemma_chars_bytes_ascii;
use crate::bytesutil::push_all;
use crate::codec::dec_bytes;
use crate::codec::dec_u64;
use crate::codec::enc_bytes;
use crate::codec::enc_u64;
use crate::codec::lemma_bytes_enc_roundtrip;
use crate::codec::lemma_split_concat;
use crate::codec::lemma_u64_le_roundtrip;
use crate::codec::spec_bytes_enc;
use crate::codec::spec_dec_bytes;
use crate::codec::spec_u64_le;
use crate::codec::spec_u64_of_le;
use crate::crypto::sha256_digest;
use crate::crypto::sha256_of;
use crate::transaction::clone_txs;
use crate::transaction::lemma_tx_fits;
use crate::transaction::tx_views;
use crate::transaction::lemma_tx_roundtrip;
use crate::transaction::spec_dec_tx;
use crate::transaction::spec_tx_bytes;
use crate::transaction::tx_costs_ok;
use vstd::string::StringExecFns;
use crate::transaction::tx_fits;
use crate::transaction::Transaction;
use crate::transaction::TxV;

verus! {

/// The mathematical value of a block.
pub struct BlockV {
    pub timestamp: u64,
    pub nonce: i64,
    pub height: u64,
    pub hash: Seq<char>,
    pub pre_block_hash: Seq<char>,
    pub transactions: Seq<TxV>,
}

/// One block of the chain. `hash` is the lowercase hex spelling of the
/// proof-of-work digest; `pre_block_hash` names the parent, or reads
/// `None` for the genesis block.
pub struct Block {
    timestamp: u64,
    nonce: i64,
    height: usize,
    hash: String,
    pre_block_hash: String,
    transactions: Vec<Transaction>,
}

impl View for Block {
    type V = BlockV;

    closed spec fn view(&self) -> BlockV {
        BlockV {
            timestamp: self.timestamp,
            nonce: self.nonce,
            height: self.height as u64,
            hash: self.hash@,
            pre_block_hash: self.pre_block_hash@,
            transactions: tx_views(self.transactions@),
        }
    }
}

/// The bounds and shape under which a block encodes, decodes and is
/// hashed: ASCII name strings, a non-negative nonce, and transactions
/// whose amounts are non-negative.
pub open spec fn block_wf(v: BlockV) -> bool {
    &&& v.nonce >= 0
    &&& v.height <= usize::MAX as u64
    &&& vstd::utf8::is_ascii_chars(v.hash)
    &&& v.hash.len() < 0x1_0000_0000_0000_0000
    &&& vstd::utf8::is_ascii_chars(v.pre_block_hash)
    &&& v.pre_block_hash.len() < 0x1_0000_0000_0000_0000
    &&& v.transactions.len() <= usize::MAX
    &&& forall|i: int|
        0 <= i < v.transactions.len() ==> tx_fits(#[trigger] v.transactions[i])
}

/// The concatenated ids of a list of transactions.
pub open spec fn spec_concat_ids(s: Seq<TxV>) -> Seq<u8>
    decreases s.len(),
{
    if s.len() == 0 {
        Seq::empty()
    } else {
        s[0].id + spec_concat_ids(s.drop_first())
    }
}

/// Transaction ids concatenate piecewise.
pub proof fn lemma_concat_ids_concat(s1: Seq<TxV>, s2: Seq<TxV>)
    ensures
        spec_concat_ids(s1 + s2) =~= spec_concat_ids(s1) + spec_concat_ids(s2),
    decreases s1.len(),
{
    if s1.len() == 0 {
        assert(s1 + s2 =~= s2);
        assert(spec_concat_ids(s1) =~= Seq::<u8>::empty());
    } else {
        assert((s1 + s2)[0] == s1[0]);
        assert((s1 + s2).drop_first() =~= s1.drop_first() + s2);
        lemma_concat_ids_concat(s1.drop_first(), s2);
    }
}

/// The concatenated bytes of a list of transactions.
pub open spec fn spec_txs_bytes(s: Seq<TxV>) -> Seq<u8>
    decreases s.len(),
{
    if s.len() == 0 {
        Seq::empty()
    } else {
        spec_tx_bytes(s[0]) + spec_txs_bytes(s.drop_first())
    }
}

/// Transaction lists encode piecewise.
pub proof fn lemma_txs_bytes_concat(s1: Seq<TxV>, s2: Seq<TxV>)
    ensures
        spec_txs_bytes(s1 + s2) =~= spec_txs_bytes(s1) + spec_txs_bytes(s2),
    decreases s1.len(),
{
    if s1.len() == 0 {
        assert(s1 + s2 =~= s2);
        assert(spec_txs_bytes(s1) =~= Seq::<u8>::empty());
    } else {
        assert((s1 + s2)[0] == s1[0]);
        assert((s1 + s2).drop_first() =~= s1.drop_first() + s2);
        lemma_txs_bytes_concat(s1.drop_first(), s2);
    }
}

/// The canonical bytes of a block.
pub open spec fn spec_block_bytes(v: BlockV) -> Seq<u8> {
    spec_u64_le(v.timestamp) + spec_u64_le(v.nonce as u64) + spec_u64_le(v.height) + spec_bytes_enc(
        chars_bytes(v.hash),
    ) + spec_bytes_enc(chars_bytes(v.pre_block_hash)) + spec_u64_le(v.transactions.len() as u64)
        + spec_txs_bytes(v.transactions)
}

/// Reads back `n` transactions in order.
pub open spec fn spec_dec_txs(b: Seq<u8>, pos: int, n: nat) -> Option<(Seq<TxV>, int)>
    decreases n,
{
    if n == 0 {
        Some((Seq::empty(), pos))
    } else {
        match spec_dec_tx(b, pos) {
            None => None,
            Some((t, p1)) => match spec_dec_txs(b, p1, (n - 1) as nat) {
                None => None,
                Some((s, p2)) => Some((seq![t] + s, p2)),
            },
        }
    }
}

/// Reads back a whole block.
pub open spec fn spec_dec_block(b: Seq<u8>, pos: int) -> Option<(BlockV, int)> {
    if pos < 0 || pos + 24 > b.len() {
        None
    } else {
        let timestamp = spec_u64_of_le(b, pos);
        let nonce_w = spec_u64_of_le(b, pos + 8);
        let height_w = spec_u64_of_le(b, pos + 16);
        if nonce_w > i64::MAX as u64 || height_w > usize::MAX as u64 {
            None
        } else {
            match spec_dec_bytes(b, pos + 24) {
                None => None,
                Some((hash_b, p1)) => {
                    if !bytes_ascii(hash_b) {
                        None
                    } else {
                        match spec_dec_bytes(b, p1) {
                            None => None,
                            Some((pre_b, p2)) => {
                                if !bytes_ascii(pre_b) || p2 + 8 > b.len() {
                                    None
                                } else {
                                    let n_txs = spec_u64_of_le(b, p2);
                                    if n_txs > usize::MAX as u64 {
                                        None
                                    } else {
                                        match spec_dec_txs(b, p2 + 8, n_txs as nat) {
                                            None => None,
                                            Some((txs, p3)) => Some(
                                                (
                                                    BlockV {
                                                        timestamp,
                                                        nonce: nonce_w as i64,
                                                        height: height_w,
                                                        hash: bytes_chars(hash_b),
                                                        pre_block_hash: bytes_chars(pre_b),
                                                        transactions: txs,
                                                    },
                                                    p3,
                                                ),
                                            ),
                                        }
                                    }
                                }
                            },
                        }
                    }
                },
            }
        }
    }
}

impl Clone for Block {
    fn clone(&self) -> (res: Self)
        ensures
            res@ == self@,
    {
        let mut txs: Vec<Transaction> = Vec::new();
        let mut i: usize = 0;
        while i < self.transactions.len()
            invariant
                i <= self.transactions@.len(),
                tx_views(txs@) =~= tx_views(self.transactions@).take(i as int),
            decreases self.transactions@.len() - i,
        {
            let t = self.transactions[i].clone();
            proof {
                assert(t@ == self.transactions@[i as int]@);
                assert(tx_views(txs@).len() == tx_views(self.transactions@).take(i as int).len());
            }
            txs.push(t);
            proof {
                assert forall|k: int| 0 <= k < i + 1 implies tx_views(txs@)[k] == tx_views(
                    self.transactions@,
                ).take(i as int + 1)[k] by {
                    assert(tx_views(txs@)[k] == txs@[k]@);
                    assert(tx_views(self.transactions@).take(i as int + 1)[k]
                        == self.transactions@[k]@);
                }
                assert(tx_views(txs@) =~= tx_views(self.transactions@).take(i as int + 1));
            }
            i = i + 1;
        }
        proof {
            assert(tx_views(self.transactions@).take(self.transactions@.len() as int) =~= tx_views(
                self.transactions@,
            ));
        }
        Block {
            timestamp: self.timestamp,
            nonce: self.nonce,
            height: self.height,
            hash: self.hash.clone(),
            pre_block_hash: self.pre_block_hash.clone(),
            transactions: txs,
        }
    }
}

impl Block {
    /// Assembles a block from parts that already meet the shape rules.
    /// The proof-of-work driver fills `nonce` and `hash` afterwards.
    pub(crate) fn assemble(
        timestamp: u64,
        nonce: i64,
        height: usize,
        hash: String,
        pre_block_hash: String,
        transactions: Vec<Transaction>,
    ) -> (r: Block)
        ensures
            r@ == (BlockV {
                timestamp,
                nonce,
                height: height as u64,
                hash: hash@,
                pre_block_hash: pre_block_hash@,
                transactions: tx_views(transactions@),
            }),
    {
        Block { timestamp, nonce, height, hash, pre_block_hash, transactions }
    }

    /// A freshly mined block over `transactions` at `height`, chained
    /// to the parent named by `pre_block_hash`. The proof-of-work
    /// search fills the nonce and hash; `None` only if the search
    /// exhausts every nonce.
    pub fn new_block(pre_block_hash: String, transactions: &[Transaction], height: usize) -> (r:
        Option<Block>)
        requires
            vstd::utf8::is_ascii_chars(pre_block_hash@),
            forall|i: int|
                0 <= i < transactions@.len() ==> tx_costs_ok(
                    #[trigger] tx_views(transactions@)[i],
                ),
        ensures
            r matches Some(b) ==> {
                &&& b@.pre_block_hash == pre_block_hash@
                &&& b@.height == height as u64
                &&& b@.transactions == tx_views(transactions@)
                &&& 0 <= b@.nonce
                &&& crate::proof_of_work::spec_uint_be(
                    crate::proof_of_work::spec_pow_hash(b@, b@.nonce),
                ) < crate::proof_of_work::pow_target()
                &&& forall|n2: i64|
                    0 <= n2 < b@.nonce ==> crate::proof_of_work::spec_uint_be(
                        #[trigger] crate::proof_of_work::spec_pow_hash(b@, n2),
                    ) >= crate::proof_of_work::pow_target()
                &&& b@.hash == crate::hexcode::spec_hex(
                    crate::proof_of_work::spec_pow_hash(b@, b@.nonce),
                )
                &&& block_wf(b@)
            },
    {
        let timestamp = crate::crypto::current_timestamp();
        let txs = clone_txs(transactions);
        let pre_len = pre_block_hash.as_str().unicode_len();
        let block = Block {
            timestamp,
            nonce: 0,
            height,
            hash: String::new(),
            pre_block_hash,
            transactions: txs,
        };
        let ghost base = block@;
        let pow = crate::proof_of_work::ProofOfWork::new(block.clone());
        let (nonce, hash) = match pow.run() {
            Some(v) => v,
            None => {
                return None;
            },
        };
        let hash_len = hash.as_str().unicode_len();
        let mut block = block;
        block.nonce = nonce;
        block.hash = hash;
        proof {
            assert(block@ == (BlockV { nonce, hash: block.hash@, ..base }));
            assert(crate::proof_of_work::spec_pow_data(block@, nonce)
                == crate::proof_of_work::spec_pow_data(base, nonce));
            assert forall|n2: i64| 0 <= n2 < nonce implies crate::proof_of_work::spec_uint_be(
                #[trigger] crate::proof_of_work::spec_pow_hash(block@, n2),
            ) >= crate::proof_of_work::pow_target() by {
                assert(crate::proof_of_work::spec_uint_be(
                    crate::proof_of_work::spec_pow_hash(base, n2),
                ) >= crate::proof_of_work::pow_target());
                assert(crate::proof_of_work::spec_pow_data(block@, n2)
                    == crate::proof_of_work::spec_pow_data(base, n2));
            }
            assert forall|i: int| 0 <= i < block@.transactions.len() implies tx_costs_ok(
                #[trigger] block@.transactions[i],
            ) by {
                assert(block@.transactions[i] == tx_views(transactions@)[i]);
            }
            lemma_block_view_fits(block);
        }
        Some(block)
    }

    /// The first block of a chain: height zero, parent named `None`,
    /// holding exactly the given (coinbase) transaction.
    pub fn generate_genesis_bloc(transaction: &Transaction) -> (r: Option<Block>)
        requires
            tx_costs_ok(transaction@),
        ensures
            r matches Some(b) ==> {
                &&& b@.pre_block_hash == "None"@
                &&& b@.height == 0
                &&& b@.transactions =~= seq![transaction@]
                &&& 0 <= b@.nonce
                &&& crate::proof_of_work::spec_uint_be(
                    crate::proof_of_work::spec_pow_hash(b@, b@.nonce),
                ) < crate::proof_of_work::pow_target()
                &&& b@.hash == crate::hexcode::spec_hex(
                    crate::proof_of_work::spec_pow_hash(b@, b@.nonce),
                )
                &&& block_wf(b@)
            },
    {
        let mut txs: Vec<Transaction> = Vec::new();
        txs.push(transaction.clone());
        proof {
            reveal_strlit("None");
        }
        let pre = String::from_str("None");
        proof {
            assert(vstd::utf8::is_ascii_chars(pre@));
            assert(tx_views(txs@) =~= seq![transaction@]);
            assert forall|i: int| 0 <= i < txs@.len() implies tx_costs_ok(
                #[trigger] tx_views(txs@)[i],
            ) by {
                assert(tx_views(txs@)[i] == transaction@);
            }
        }
        Self::new_block(pre, txs.as_slice(), 0)
    }

    /// The parent's hash string.
    pub fn get_pre_block_hash(&self) -> (r: String)
        ensures
            r@ == self@.pre_block_hash,
    {
        self.pre_block_hash.clone()
    }

    /// The block's own hash string.
    pub fn get_hash(&self) -> (r: &str)
        ensures
            r@ == self@.hash,
    {
        self.hash.as_str()
    }

    /// The ASCII bytes of the block's hash string.
    pub fn get_hash_bytes(&self) -> (r: Vec<u8>)
        requires
            vstd::utf8::is_ascii_chars(self@.hash),
        ensures
            r@ == chars_bytes(self@.hash),
    {
        ascii_to_bytes(self.hash.as_str())
    }

    /// The block's creation time, in milliseconds since the epoch.
    pub fn get_timestamp(&self) -> (r: u64)
        ensures
            r == self@.timestamp,
    {
        self.timestamp
    }

    /// The block's height above the genesis block.
    pub fn get_height(&self) -> (r: usize)
        ensures
            r as u64 == self@.height,
    {
        self.height
    }

    /// The nonce found by the proof-of-work search.
    pub fn get_nonce(&self) -> (r: i64)
        ensures
            r == self@.nonce,
    {
        self.nonce
    }

    /// The contained transactions.
    pub fn get_transactions(&self) -> (r: &[Transaction])
        ensures
            tx_views(r@) == self@.transactions,
    {
        self.transactions.as_slice()
    }

    /// The SHA-256 digest of the concatenated transaction ids, the
    /// transaction part of the proof-of-work preimage.
    pub fn hash_transactions(&self) -> (r: Vec<u8>)
        ensures
            r@ == sha256_of(spec_concat_ids(self@.transactions)),
            r@.len() == 32,
    {
        let mut tx_hashes: Vec<u8> = Vec::new();
        let mut i: usize = 0;
        while i < self.transactions.len()
            invariant
                i <= self.transactions@.len(),
                tx_hashes@ =~= spec_concat_ids(tx_views(self.transactions@).take(i as int)),
            decreases self.transactions@.len() - i,
        {
            proof {
                let s = tx_views(self.transactions@);
                let single = seq![s[i as int]];
                assert(s.take(i as int + 1) =~= s.take(i as int) + single);
                lemma_concat_ids_concat(s.take(i as int), single);
                assert(single.drop_first() =~= Seq::<TxV>::empty());
                assert(spec_concat_ids(single.drop_first()) =~= Seq::<u8>::empty());
                assert(spec_concat_ids(single) =~= s[i as int].id);
            }
            push_all(&mut tx_hashes, self.transactions[i].get_id());
            i = i + 1;
        }
        proof {
            let s = tx_views(self.transactions@);
            assert(s.take(s.len() as int) =~= s);
        }
        sha256_digest(tx_hashes.as_slice())
    }

    /// The canonical bytes of this block.
    pub fn serialize(&self) -> (r: Vec<u8>)
        requires
            block_wf(self@),
        ensures
            r@ == spec_block_bytes(self@),
    {
        let mut out: Vec<u8> = Vec::new();
        enc_u64(&mut out, self.timestamp);
        enc_u64(&mut out, self.nonce as u64);
        enc_u64(&mut out, self.height as u64);
        let hash_b = ascii_to_bytes(self.hash.as_str());
        enc_bytes(&mut out, &hash_b);
        let pre_b = ascii_to_bytes(self.pre_block_hash.as_str());
        enc_bytes(&mut out, &pre_b);
        enc_u64(&mut out, self.transactions.len() as u64);
        let head = Ghost(out@);
        let mut i: usize = 0;
        while i < self.transactions.len()
            invariant
                i <= self.transactions@.len(),
                block_wf(View::view(self)),
                out@ =~= head@ + spec_txs_bytes(tx_views(self.transactions@).take(i as int)),
            decreases self.transactions@.len() - i,
        {
            proof {
                let s = tx_views(self.transactions@);
                let single = seq![s[i as int]];
                assert(s.take(i as int + 1) =~= s.take(i as int) + single);
                lemma_txs_bytes_concat(s.take(i as int), single);
                assert(single.drop_first() =~= Seq::<TxV>::empty());
                assert(spec_txs_bytes(single.drop_first()) =~= Seq::<u8>::empty());
                assert(spec_txs_bytes(single) =~= spec_tx_bytes(s[i as int]));
                assert(tx_fits(s[i as int]));
            }
            let data = self.transactions[i].serialize();
            push_all(&mut out, data.as_slice());
            i = i + 1;
        }
        proof {
            let s = tx_views(self.transactions@);
            assert(s.take(s.len() as int) =~= s);
        }
        out
    }

    /// The block encoded in `bytes`, when `bytes` is exactly one
    /// canonical block record.
    pub fn deserialize(bytes: &[u8]) -> (r: Option<Block>)
        ensures
            match r {
                Some(v) => spec_dec_block(bytes@, 0) == Some((v@, bytes@.len() as int))
                    && block_wf(v@),
                None => spec_dec_block(bytes@, 0) matches Some((v2, p2)) ==> p2 != bytes@.len(),
            },
    {
        let (timestamp, pa) = match dec_u64(bytes, 0) {
            Some(v) => v,
            None => {
                return None;
            },
        };
        let (nonce_w, pb) = match dec_u64(bytes, pa) {
            Some(v) => v,
            None => {
                return None;
            },
        };
        let (height_w, pc) = match dec_u64(bytes, pb) {
            Some(v) => v,
            None => {
                return None;
            },
        };
        if nonce_w > i64::MAX as u64 || height_w > usize::MAX as u64 {
            return None;
        }
        let (hash_b, p1) = match dec_bytes(bytes, pc) {
            Some(v) => v,
            None => {
                return None;
            },
        };
        let hash = match ascii_string_from_bytes(&hash_b) {
            Some(s) => s,
            None => {
                return None;
            },
        };
        let (pre_b, p2) = match dec_bytes(bytes, p1) {
            Some(v) => v,
            None => {
                return None;
            },
        };
        let pre_block_hash = match ascii_string_from_bytes(&pre_b) {
            Some(s) => s,
            None => {
                return None;
            },
        };
        let (n_txs, p2b) = match dec_u64(bytes, p2) {
            Some(v) => v,
            None => {
                return None;
            },
        };
        if n_txs > usize::MAX as u64 {
            return None;
        }
        let (transactions, p3) = match Self::dec_txs(bytes, p2b, n_txs as usize) {
            Some(v) => v,
            None => {
                return None;
            },
        };
        if p3 != bytes.len() {
            return None;
        }
        let ghost blen = bytes@.len();
        let b = Block {
            timestamp,
            nonce: nonce_w as i64,
            height: height_w as usize,
            hash,
            pre_block_hash,
            transactions,
        };
        proof {
            lemma_dec_txs_fits(bytes@, p2b as int, n_txs as nat);
            assert forall|i: int| 0 <= i < b@.transactions.len() implies tx_costs_ok(
                #[trigger] b@.transactions[i],
            ) by {
                assert(tx_fits(b@.transactions[i]));
            }
            assert(b@.hash.len() == hash_b@.len());
            assert(b@.pre_block_hash.len() == pre_b@.len());
            assert(vstd::std_specs::vec::spec_vec_len(&hash_b) == hash_b@.len());
            assert(vstd::std_specs::vec::spec_vec_len(&pre_b) == pre_b@.len());
            lemma_block_view_fits(b);
        }
        Some(b)
    }

    fn dec_txs(b: &[u8], pos: usize, n: usize) -> (r: Option<(Vec<Transaction>, usize)>)
        ensures
            match r {
                Some((s, p2)) => spec_dec_txs(b@, pos as int, n as nat) == Some(
                    (tx_views(s@), p2 as int),
                ),
                None => spec_dec_txs(b@, pos as int, n as nat) is None,
            },
        decreases n,
    {
        if n == 0 {
            let acc: Vec<Transaction> = Vec::new();
            assert(tx_views(acc@) =~= Seq::<TxV>::empty());
            return Some((acc, pos));
        }
        let (t, p1) = match Self::dec_one_tx(b, pos) {
            Some(v) => v,
            None => {
                return None;
            },
        };
        let (rest, p2) = match Self::dec_txs(b, p1, n - 1) {
            Some(v) => v,
            None => {
                return None;
            },
        };
        let ghost tv = t@;
        let mut acc: Vec<Transaction> = Vec::new();
        acc.push(t);
        let mut rest = rest;
        let ghost restv = rest@;
        acc.append(&mut rest);
        proof {
            assert(acc@ =~= seq![acc@[0]] + restv);
            assert forall|k: int| 0 <= k < acc@.len() implies tx_views(acc@)[k] == (seq![tv]
                + tx_views(restv))[k] by {
                assert(tx_views(acc@)[k] == acc@[k]@);
                if k > 0 {
                    assert(acc@[k] == restv[k - 1]);
                    assert(tx_views(restv)[k - 1] == restv[k - 1]@);
                }
            }
            assert(tx_views(acc@) =~= seq![tv] + tx_views(restv));
        }
        Some((acc, p2))
    }

    fn dec_one_tx(b: &[u8], pos: usize) -> (r: Option<(Transaction, usize)>)
        ensures
            match r {
                Some((t, p2)) => spec_dec_tx(b@, pos as int) == Some((t@, p2 as int)),
                None => spec_dec_tx(b@, pos as int) is None,
            },
    {
        crate::transaction::dec_tx_at(b, pos)
    }
}

/// Whatever decodes as a list of `n` transactions has `n` fitting
/// entries.
pub proof fn lemma_dec_txs_fits(b: Seq<u8>, pos: int, n: nat)
    requires
        b.len() <= usize::MAX,
        spec_dec_txs(b, pos, n) is Some,
    ensures
        spec_dec_txs(b, pos, n).unwrap().0.len() == n,
        forall|i: int|
            0 <= i < n ==> tx_fits(#[trigger] spec_dec_txs(b, pos, n).unwrap().0[i]),
    decreases n,
{
    if n == 0 {
    } else {
        crate::transaction::lemma_dec_tx_fits(b, pos);
        let p1 = spec_dec_tx(b, pos).unwrap().1;
        lemma_dec_txs_fits(b, p1, (n - 1) as nat);
    }
}

/// A list of transactions read back from its own bytes.
#[verifier::rlimit(50)]
pub proof fn lemma_txs_roundtrip(s: Seq<TxV>, b: Seq<u8>, pos: int)
    requires
        forall|i: int| 0 <= i < s.len() ==> tx_fits(#[trigger] s[i]),
        0 <= pos,
        pos + spec_txs_bytes(s).len() <= b.len(),
        b.subrange(pos, pos + spec_txs_bytes(s).len() as int) == spec_txs_bytes(s),
    ensures
        spec_dec_txs(b, pos, s.len()) == Some((s, pos + spec_txs_bytes(s).len())),
    decreases s.len(),
{
    if s.len() == 0 {
        assert(spec_dec_txs(b, pos, 0) == Some((Seq::<TxV>::empty(), pos)));
        assert(s =~= Seq::<TxV>::empty());
    } else {
        let hd = spec_tx_bytes(s[0]);
        let tl = spec_txs_bytes(s.drop_first());
        lemma_split_concat(b, pos, hd, tl);
        lemma_tx_roundtrip(s[0], b, pos);
        lemma_txs_roundtrip(s.drop_first(), b, pos + hd.len());
        assert(seq![s[0]] + s.drop_first() =~= s);
    }
}

/// A block read back from its own bytes, wherever they sit.
#[verifier::rlimit(50)]
pub proof fn lemma_block_roundtrip(v: BlockV, b: Seq<u8>, pos: int)
    requires
        block_wf(v),
        0 <= pos,
        pos + spec_block_bytes(v).len() <= b.len(),
        b.subrange(pos, pos + spec_block_bytes(v).len() as int) == spec_block_bytes(v),
    ensures
        spec_dec_block(b, pos) == Some((v, pos + spec_block_bytes(v).len())),
{
    let e_ts = spec_u64_le(v.timestamp);
    let e_no = spec_u64_le(v.nonce as u64);
    let e_he = spec_u64_le(v.height);
    let hash_b = chars_bytes(v.hash);
    let pre_b = chars_bytes(v.pre_block_hash);
    let e_ha = spec_bytes_enc(hash_b);
    let e_pr = spec_bytes_enc(pre_b);
    let e_n = spec_u64_le(v.transactions.len() as u64);
    let e_txs = spec_txs_bytes(v.transactions);
    assert(spec_block_bytes(v) == (((((e_ts + e_no) + e_he) + e_ha) + e_pr) + e_n) + e_txs);
    lemma_split_concat(b, pos, ((((e_ts + e_no) + e_he) + e_ha) + e_pr) + e_n, e_txs);
    lemma_split_concat(b, pos, (((e_ts + e_no) + e_he) + e_ha) + e_pr, e_n);
    lemma_split_concat(b, pos, ((e_ts + e_no) + e_he) + e_ha, e_pr);
    lemma_split_concat(b, pos, (e_ts + e_no) + e_he, e_ha);
    lemma_split_concat(b, pos, e_ts + e_no, e_he);
    lemma_split_concat(b, pos, e_ts, e_no);
    lemma_u64_le_roundtrip(v.timestamp, b, pos);
    lemma_u64_le_roundtrip(v.nonce as u64, b, pos + 8);
    lemma_u64_le_roundtrip(v.height, b, pos + 16);
    lemma_bytes_enc_roundtrip(hash_b, b, pos + 24);
    lemma_chars_bytes_ascii(v.hash);
    let p1 = pos + 24 + 8 + hash_b.len();
    lemma_bytes_enc_roundtrip(pre_b, b, p1);
    lemma_chars_bytes_ascii(v.pre_block_hash);
    let p2 = p1 + 8 + pre_b.len();
    lemma_u64_le_roundtrip(v.transactions.len() as u64, b, p2);
    lemma_txs_roundtrip(v.transactions, b, p2 + 8);
    let dec = spec_dec_block(b, pos).unwrap().0;
    assert(dec.hash =~= v.hash);
    assert(dec.pre_block_hash =~= v.pre_block_hash);
    assert(dec == v);
}

/// A serialized block deserializes to itself.
pub proof fn lemma_block_serialize_roundtrip(v: BlockV)
    requires
        block_wf(v),
    ensures
        spec_dec_block(spec_block_bytes(v), 0) == Some((v, spec_block_bytes(v).len() as int)),
        is_block_record(spec_block_bytes(v)),
{
    let b = spec_block_bytes(v);
    crate::transaction::lemma_subrange_full(b);
    lemma_block_roundtrip(v, b, 0);
}

/// Whether a byte string is exactly one canonical block record.
pub open spec fn is_block_record(bytes: Seq<u8>) -> bool {
    spec_dec_block(bytes, 0) matches Some((v, p)) && p == bytes.len()
}

/// The values of a sequence of blocks, element by element.
pub open spec fn block_views(s: Seq<Block>) -> Seq<BlockV> {
    Seq::new(s.len(), |i: int| s[i]@)
}

/// The value of a machine-held block meets the machine bounds as soon
/// as its strings are ASCII, its nonce is non-negative and its amounts
/// are non-negative.
pub proof fn lemma_block_view_fits(b: Block)
    requires
        b@.nonce >= 0,
        vstd::utf8::is_ascii_chars(b@.hash),
        b@.hash.len() < 0x1_0000_0000_0000_0000,
        vstd::utf8::is_ascii_chars(b@.pre_block_hash),
        b@.pre_block_hash.len() < 0x1_0000_0000_0000_0000,
        forall|i: int|
            0 <= i < b@.transactions.len() ==> tx_costs_ok(#[trigger] b@.transactions[i]),
    ensures
        block_wf(b@),
{
    assert(vstd::std_specs::vec::spec_vec_len(&b.transactions) == b.transactions@.len());
    assert forall|i: int| 0 <= i < b@.transactions.len() implies tx_fits(
        #[trigger] b@.transactions[i],
    ) by {
        assert(b@.transactions[i] == b.transactions@[i]@);
        lemma_tx_fits(b.transactions@[i]);
    }
}

} // verus!
