//! The block store: a persistent tree holding each block under its
//! hash and the current tip under a distinguished key, with the walk
//! from tip to genesis that the balance and verification paths use.

use vstd::prelude::*;

use crate::ascii::ascii_string_from_bytes;
use crate::ascii::ascii_to_bytes;
use crate::ascii::chars_bytes;
use crate::block::block_views;
use crate::block::block_wf;
use crate::block::is_block_record;
use crate::block::lemma_block_serialize_roundtrip;
use crate::block::spec_block_bytes;
use crate::block::spec_dec_block;
use crate::block::Block;
use crate::block::BlockV;
use crate::bytesutil::bytes_equal;
use crate::errors::ChainError;
use crate::hexcode::hex_encode;
use crate::hexcode::spec_hex;
use crate::utxoscan::assoc_matches;
use crate::utxoscan::scan_unspent;
use crate::utxoscan::spec_chain_utxo;
use crate::store::db_open_tree;
use crate::store::tree_contents;
use crate::store::tree_get;
use crate::store::tree_insert;
use crate::store::tree_len;
use crate::transaction::tx_costs_ok;
use crate::transaction::tx_views;
use crate::transaction::Transaction;
use crate::transaction::TxV;
use crate::txverify::spec_find_tx;
use crate::txverify::spec_tx_valid;

verus! {

/// The key under which the tip's hash is stored (the ASCII bytes of
/// `tip_block_hash`).
pub open spec fn spec_tip_key() -> Seq<u8> {
    seq![116u8, 105u8, 112u8, 95u8, 98u8, 108u8, 111u8, 99u8, 107u8, 95u8, 104u8, 97u8, 115u8,
        104u8]
}

fn tip_key() -> (r: Vec<u8>)
    ensures
        r@ == spec_tip_key(),
{
    let mut v: Vec<u8> = Vec::new();
    v.push(116);
    v.push(105);
    v.push(112);
    v.push(95);
    v.push(98);
    v.push(108);
    v.push(111);
    v.push(99);
    v.push(107);
    v.push(95);
    v.push(104);
    v.push(97);
    v.push(115);
    v.push(104);
    assert(v@ =~= spec_tip_key());
    v
}

fn blocks_tree_name() -> Vec<u8> {
    let mut v: Vec<u8> = Vec::new();
    v.push(98);
    v.push(108);
    v.push(111);
    v.push(99);
    v.push(107);
    v.push(115);
    v
}

/// The chain: a handle to the blocks tree and the cached tip hash.
pub struct Blockchain {
    tip_hash: String,
    db: sled::Db,
    blocks_tree: sled::Tree,
}

/// What one step of the tip-to-genesis walk finds under a hash string:
/// the block whose full record is stored under its ASCII bytes.
pub open spec fn chain_step(m: Map<Seq<u8>, Seq<u8>>, cur: Seq<char>) -> Option<BlockV> {
    if m.contains_key(chars_bytes(cur)) {
        match spec_dec_block(m[chars_bytes(cur)], 0) {
            Some((v, p)) => {
                if p == m[chars_bytes(cur)].len() {
                    Some(v)
                } else {
                    None
                }
            },
            None => None,
        }
    } else {
        None
    }
}

/// Whether `blocks` is exactly the walk from `cur` towards genesis:
/// each block is the stored record of the hash before it, and the walk
/// ends where no stored record answers.
pub open spec fn is_chain_from(
    m: Map<Seq<u8>, Seq<u8>>,
    cur: Seq<char>,
    blocks: Seq<BlockV>,
) -> bool
    decreases blocks.len(),
{
    if blocks.len() == 0 {
        chain_step(m, cur) is None
    } else {
        chain_step(m, cur) == Some(blocks[0]) && is_chain_from(
            m,
            blocks[0].pre_block_hash,
            blocks.drop_first(),
        )
    }
}

impl Blockchain {
    /// The stored entries: block records keyed by hash bytes, plus the
    /// tip pointer.
    pub closed spec fn blocks(&self) -> Map<Seq<u8>, Seq<u8>> {
        tree_contents(self.blocks_tree)
    }

    /// The cached tip hash.
    pub closed spec fn tip(&self) -> Seq<char> {
        self.tip_hash@
    }

    /// The store is usable: the tip pointer is recorded, names an
    /// ASCII hash, and a full block record is stored under it.
    pub open spec fn wf(&self) -> bool {
        &&& vstd::utf8::is_ascii_chars(self.tip())
        &&& self.blocks().dom().finite()
        &&& self.blocks().contains_key(spec_tip_key())
        &&& self.blocks()[spec_tip_key()] == chars_bytes(self.tip())
        &&& self.blocks().contains_key(chars_bytes(self.tip()))
        &&& is_block_record(self.blocks()[chars_bytes(self.tip())])
    }

    /// The block the tip names.
    pub open spec fn tip_block(&self) -> BlockV {
        spec_dec_block(self.blocks()[chars_bytes(self.tip())], 0).unwrap().0
    }

    /// Loads the tip recorded in `tree`, checking that a full block
    /// record stands under it.
    fn load_tip(db: sled::Db, tree: sled::Tree, tip_bytes: Vec<u8>) -> (r: Result<
        Blockchain,
        ChainError,
    >)
        requires
            tree_contents(tree).dom().finite(),
            tree_contents(tree).contains_key(spec_tip_key()),
            tree_contents(tree)[spec_tip_key()] == tip_bytes@,
        ensures
            r matches Ok(bc) ==> bc.wf(),
    {
        let tip_hash = match ascii_string_from_bytes(&tip_bytes) {
            Some(s) => s,
            None => {
                return Err(ChainError::Codec);
            },
        };
        let tip_hash_bytes = ascii_to_bytes(tip_hash.as_str());
        proof {
            crate::ascii::lemma_bytes_chars_roundtrip(tip_bytes@);
            assert(tip_hash_bytes@ == tip_bytes@);
        }
        let block_bytes = match tree_get(&tree, tip_hash_bytes.as_slice()) {
            Ok(Some(v)) => v,
            Ok(None) => {
                return Err(ChainError::NoChain);
            },
            Err(e) => {
                return Err(e);
            },
        };
        match Block::deserialize(block_bytes.as_slice()) {
            Some(_) => (),
            None => {
                return Err(ChainError::Codec);
            },
        }
        Ok(Blockchain { tip_hash, db, blocks_tree: tree })
    }

    /// Opens an existing chain; fails with `NoChain` when no tip has
    /// ever been recorded.
    pub fn open_blockchain(db: sled::Db) -> (r: Result<Blockchain, ChainError>)
        ensures
            r matches Ok(bc) ==> bc.wf(),
    {
        let name = blocks_tree_name();
        let tree = match db_open_tree(&db, name.as_slice()) {
            Ok(t) => t,
            Err(e) => {
                return Err(e);
            },
        };
        let tipk = tip_key();
        let tip_bytes = match tree_get(&tree, tipk.as_slice()) {
            Ok(Some(v)) => v,
            Ok(None) => {
                return Err(ChainError::NoChain);
            },
            Err(e) => {
                return Err(e);
            },
        };
        Self::load_tip(db, tree, tip_bytes)
    }

    /// Opens the chain, mining a genesis block holding one coinbase to
    /// `genesis_address` if no tip exists yet.
    pub fn create_blockchain(genesis_address: &str, db: sled::Db) -> (r: Result<
        Blockchain,
        ChainError,
    >)
        ensures
            r matches Ok(bc) ==> bc.wf(),
    {
        let name = blocks_tree_name();
        let mut tree = match db_open_tree(&db, name.as_slice()) {
            Ok(t) => t,
            Err(e) => {
                return Err(e);
            },
        };
        let tipk = tip_key();
        match tree_get(&tree, tipk.as_slice()) {
            Ok(Some(tip_bytes)) => Self::load_tip(db, tree, tip_bytes),
            Ok(None) => Self::mine_genesis(db, tree, tipk, genesis_address),
            Err(e) => Err(e),
        }
    }

    /// Mines and stores the genesis block of a store that has no tip
    /// yet: one coinbase to `genesis_address`, at height zero, under
    /// the parent name `None`.
    #[verifier::rlimit(100)]
    #[verifier::spinoff_prover]
    fn mine_genesis(db: sled::Db, tree: sled::Tree, tipk: Vec<u8>, genesis_address: &str) -> (r:
        Result<Blockchain, ChainError>)
        requires
            tree_contents(tree).dom().finite(),
            tipk@ == spec_tip_key(),
        ensures
            r matches Ok(bc) ==> bc.wf() && spec_genesis_block(bc.tip_block(), genesis_address@)
                && bc.blocks() == tree_contents(tree).insert(
                chars_bytes(bc.tip_block().hash),
                spec_block_bytes(bc.tip_block()),
            ).insert(spec_tip_key(), chars_bytes(bc.tip_block().hash)),
    {
        let mut tree = tree;
        let coinbase = match Transaction::new_coinbase_tx(genesis_address) {
            Some(t) => t,
            None => {
                return Err(ChainError::Codec);
            },
        };
        let block = match Block::generate_genesis_bloc(&coinbase) {
            Some(b) => b,
            None => {
                return Err(ChainError::Crypto);
            },
        };
        let hash_bytes = block.get_hash_bytes();
        let data = block.serialize();
        if bytes_equal(hash_bytes.as_slice(), tipk.as_slice()) {
            return Err(ChainError::Codec);
        }
        match tree_insert(&mut tree, hash_bytes.as_slice(), data.as_slice()) {
            Ok(()) => (),
            Err(e) => {
                return Err(e);
            },
        }
        match tree_insert(&mut tree, tipk.as_slice(), hash_bytes.as_slice()) {
            Ok(()) => (),
            Err(e) => {
                return Err(e);
            },
        }
        let tip_hash = block.get_hash().to_owned();
        proof {
            lemma_block_serialize_roundtrip(block@);
            assert(block@.transactions[0] == coinbase@);
        }
        Ok(Blockchain { tip_hash, db, blocks_tree: tree })
    }

    /// The handle to the underlying database.
    pub fn get_db(&self) -> &sled::Db {
        &self.db
    }

    /// The cached tip hash.
    pub fn get_tip_hash(&self) -> (r: String)
        ensures
            r@ == self.tip(),
    {
        self.tip_hash.clone()
    }

    /// Overwrites the cached tip hash alone; the caller is responsible
    /// for keeping the store in step.
    pub fn set_tip_hash(&mut self, new_tip_hash: &str)
        ensures
            final(self).tip() == new_tip_hash@,
            final(self).blocks() == old(self).blocks(),
    {
        self.tip_hash = new_tip_hash.to_owned();
    }

    /// The height of the tip block.
    pub fn get_best_height(&self) -> (r: Result<usize, ChainError>)
        requires
            self.wf(),
        ensures
            r matches Ok(h) ==> h as u64 == self.tip_block().height,
    {
        let tip_hash_bytes = ascii_to_bytes(self.tip_hash.as_str());
        let block_bytes = match tree_get(&self.blocks_tree, tip_hash_bytes.as_slice()) {
            Ok(Some(v)) => v,
            Ok(None) => {
                proof {
                    assert(false);
                }
                return Err(ChainError::Store);
            },
            Err(e) => {
                return Err(e);
            },
        };
        let tip_block = match Block::deserialize(block_bytes.as_slice()) {
            Some(b) => b,
            None => {
                proof {
                    assert(false);
                }
                return Err(ChainError::Codec);
            },
        };
        Ok(tip_block.get_height())
    }

    /// The stored block named by `block_hash` (ASCII hash bytes), if a
    /// full record stands under it.
    pub fn get_block(&self, block_hash: &[u8]) -> (r: Result<Option<Block>, ChainError>)
        ensures
            r matches Ok(o) ==> match o {
                Some(b) => self.blocks().contains_key(block_hash@) && spec_dec_block(
                    self.blocks()[block_hash@],
                    0,
                ) == Some((b@, self.blocks()[block_hash@].len() as int)) && block_wf(b@),
                None => !self.blocks().contains_key(block_hash@) || !is_block_record(
                    self.blocks()[block_hash@],
                ),
            },
    {
        let bytes = match tree_get(&self.blocks_tree, block_hash) {
            Ok(Some(v)) => v,
            Ok(None) => {
                return Ok(None);
            },
            Err(e) => {
                return Err(e);
            },
        };
        match Block::deserialize(bytes.as_slice()) {
            Some(b) => Ok(Some(b)),
            None => Ok(None),
        }
    }

    /// Inserts a block, ignoring one whose hash is already stored, and
    /// advances the tip exactly when the new block is higher.
    pub fn add_block(&mut self, block: &Block) -> (r: Result<(), ChainError>)
        requires
            old(self).wf(),
            block_wf(block@),
        ensures
            r is Ok ==> final(self).wf() && spec_added_block(*old(self), *final(self), block@),
    {
        let hash_bytes = block.get_hash_bytes();
        let tipk = tip_key();
        if bytes_equal(hash_bytes.as_slice(), tipk.as_slice()) {
            return Err(ChainError::Codec);
        }
        match tree_get(&self.blocks_tree, hash_bytes.as_slice()) {
            Ok(Some(_)) => {
                return Ok(());
            },
            Ok(None) => (),
            Err(e) => {
                return Err(e);
            },
        }
        let data = block.serialize();
        proof {
            lemma_block_serialize_roundtrip(block@);
        }
        let tip_hash_bytes = ascii_to_bytes(self.tip_hash.as_str());
        let tip_block_bytes = match tree_get(&self.blocks_tree, tip_hash_bytes.as_slice()) {
            Ok(Some(v)) => v,
            Ok(None) => {
                proof {
                    assert(false);
                }
                return Err(ChainError::Store);
            },
            Err(e) => {
                return Err(e);
            },
        };
        let tip_block = match Block::deserialize(tip_block_bytes.as_slice()) {
            Some(b) => b,
            None => {
                proof {
                    assert(false);
                }
                return Err(ChainError::Codec);
            },
        };
        match tree_insert(&mut self.blocks_tree, hash_bytes.as_slice(), data.as_slice()) {
            Ok(()) => (),
            Err(e) => {
                return Err(e);
            },
        }
        if block.get_height() > tip_block.get_height() {
            match tree_insert(&mut self.blocks_tree, tipk.as_slice(), hash_bytes.as_slice()) {
                Ok(()) => (),
                Err(e) => {
                    return Err(e);
                },
            }
            let new_tip = block.get_hash().to_owned();
            self.tip_hash = new_tip;
        }
        Ok(())
    }
}

/// What mining establishes: the new block extends the old tip by one
/// level, meets the proof-of-work bound, is stored under its hash with
/// the tip pointer moved to it, and every transaction it holds is
/// valid against the old chain.
#[verifier::opaque]
pub open spec fn spec_mined_block(
    old_bc: Blockchain,
    new_bc: Blockchain,
    b: BlockV,
    txs: Seq<TxV>,
) -> bool {
    &&& b.pre_block_hash == old_bc.tip()
    &&& b.height == old_bc.tip_block().height + 1
    &&& b.transactions == txs
    &&& crate::proof_of_work::spec_uint_be(crate::proof_of_work::spec_pow_hash(b, b.nonce))
        < crate::proof_of_work::pow_target()
    &&& new_bc.blocks() == old_bc.blocks().insert(chars_bytes(b.hash), spec_block_bytes(b)).insert(
        spec_tip_key(),
        chars_bytes(b.hash),
    )
    &&& new_bc.tip() == b.hash
    &&& new_bc.tip_block() == b
    &&& forall|ch: Seq<BlockV>|
        #[trigger] is_chain_from(old_bc.blocks(), old_bc.tip(), ch) ==> forall|i: int|
            0 <= i < txs.len() ==> spec_tx_valid(ch, #[trigger] txs[i])
}

/// The shape of a freshly mined genesis block: height zero, parent
/// named `None`, one single coinbase paying the subsidy to the given
/// address, and a digest below the proof-of-work target.
pub open spec fn spec_genesis_block(b: BlockV, genesis_address: Seq<char>) -> bool {
    &&& b.height == 0
    &&& b.pre_block_hash == "None"@
    &&& b.transactions.len() == 1
    &&& crate::transaction::spec_is_coinbase(b.transactions[0])
    &&& b.transactions[0].vout.len() == 1
    &&& b.transactions[0].vout[0].cost == crate::transaction::SUBSIDY
    &&& (forall|p: Seq<u8>|
        genesis_address == crate::crypto::base58_of(p) && p.len() >= 5 ==> (#[trigger] p.subrange(
            1,
            p.len() - 4,
        )) == b.transactions[0].vout[0].pub_key_hash)
    &&& crate::proof_of_work::spec_uint_be(crate::proof_of_work::spec_pow_hash(b, b.nonce))
        < crate::proof_of_work::pow_target()
}

/// What adding a block establishes: a duplicate leaves everything
/// alone; a new block is stored under its hash, with the tip pointer
/// moved exactly when the block is higher; the tip never goes down
/// and only ever moves to the added block.
pub open spec fn spec_added_block(o: Blockchain, n: Blockchain, b: BlockV) -> bool {
    &&& o.blocks().contains_key(chars_bytes(b.hash)) ==> n.blocks() == o.blocks() && n.tip()
        == o.tip()
    &&& !o.blocks().contains_key(chars_bytes(b.hash)) && b.height > o.tip_block().height
        ==> n.blocks() == o.blocks().insert(chars_bytes(b.hash), spec_block_bytes(b)).insert(
        spec_tip_key(),
        chars_bytes(b.hash),
    ) && n.tip() == b.hash && n.tip_block() == b
    &&& !o.blocks().contains_key(chars_bytes(b.hash)) && b.height <= o.tip_block().height
        ==> n.blocks() == o.blocks().insert(chars_bytes(b.hash), spec_block_bytes(b)) && n.tip()
        == o.tip()
    &&& n.tip_block().height >= o.tip_block().height
    &&& n.tip() == o.tip() || n.tip() == b.hash
}

/// Chain linkage: a mined block names a stored parent one level
/// below it — its parent hash is the old tip, whose full record the
/// store holds, and its height is that parent's height plus one.
pub proof fn lemma_chain_linkage(
    old_bc: Blockchain,
    new_bc: Blockchain,
    b: BlockV,
    txs: Seq<TxV>,
)
    requires
        old_bc.wf(),
        spec_mined_block(old_bc, new_bc, b, txs),
    ensures
        b.pre_block_hash == old_bc.tip(),
        old_bc.blocks().contains_key(chars_bytes(b.pre_block_hash)),
        chain_step(old_bc.blocks(), b.pre_block_hash) == Some(old_bc.tip_block()),
        b.height == old_bc.tip_block().height + 1,
{
    reveal(spec_mined_block);
}

/// The walk from a hash is unique: the store determines the chain.
pub proof fn lemma_chain_unique(
    m: Map<Seq<u8>, Seq<u8>>,
    cur: Seq<char>,
    a: Seq<BlockV>,
    b: Seq<BlockV>,
)
    requires
        is_chain_from(m, cur, a),
        is_chain_from(m, cur, b),
    ensures
        a == b,
    decreases a.len(),
{
    if a.len() == 0 {
        assert(b.len() == 0);
        assert(a =~= b);
    } else {
        assert(b.len() != 0);
        assert(a[0] == b[0]);
        lemma_chain_unique(m, a[0].pre_block_hash, a.drop_first(), b.drop_first());
        assert(a.drop_first() == b.drop_first());
        assert(a.len() == b.len());
        assert forall|k: int| 0 <= k < a.len() implies a[k] == b[k] by {
            if k > 0 {
                assert(a[k] == a.drop_first()[k - 1]);
                assert(b[k] == b.drop_first()[k - 1]);
            }
        }
        assert(a =~= b);
    }
}

/// Extending a collected prefix by the block one step yields keeps it
/// a prefix of the walk.
proof fn lemma_chain_extend_step(
    m: Map<Seq<u8>, Seq<u8>>,
    tipc: Seq<char>,
    prev_cur: Seq<char>,
    accv: Seq<BlockV>,
    bv: BlockV,
    tail: Seq<BlockV>,
)
    requires
        chain_step(m, prev_cur) == Some(bv),
        is_chain_from(m, bv.pre_block_hash, tail),
        forall|t2: Seq<BlockV>| #[trigger]
            is_chain_from(m, prev_cur, t2) ==> is_chain_from(m, tipc, accv + t2),
    ensures
        is_chain_from(m, tipc, (accv + seq![bv]) + tail),
{
    let ext = seq![bv] + tail;
    assert(ext.drop_first() =~= tail);
    assert(ext[0] == bv);
    assert(is_chain_from(m, prev_cur, ext));
    assert(is_chain_from(m, tipc, accv + ext));
    assert(accv + ext =~= (accv + seq![bv]) + tail);
}

/// A single-use walk from a hash back towards genesis.
pub struct BlockchainIterator<'a> {
    blockchain: &'a Blockchain,
    current_hash: String,
}

impl<'a> BlockchainIterator<'a> {
    /// The store being walked.
    pub closed spec fn chain(&self) -> &'a Blockchain {
        self.blockchain
    }

    /// The hash the next step will look up.
    pub closed spec fn current(&self) -> Seq<char> {
        self.current_hash@
    }

    /// The walk may proceed: the current hash is ASCII.
    pub open spec fn wf(&self) -> bool {
        vstd::utf8::is_ascii_chars(self.current())
    }

    /// A walk starting at `tip_hash`.
    pub fn new(tip_hash: String, blockchain: &'a Blockchain) -> (r: Self)
        ensures
            r.chain() == blockchain,
            r.current() == tip_hash@,
            vstd::utf8::is_ascii_chars(tip_hash@) ==> r.wf(),
    {
        BlockchainIterator { blockchain, current_hash: tip_hash }
    }

    /// The block the current hash names, stepping to its parent; or
    /// `None` where no full record is stored.
    pub fn next(&mut self) -> (r: Result<Option<Block>, ChainError>)
        requires
            old(self).wf(),
        ensures
            final(self).chain() == old(self).chain(),
            r matches Ok(o) ==> match o {
                Some(b) => chain_step(old(self).chain().blocks(), old(self).current()) == Some(b@)
                    && final(self).current() == b@.pre_block_hash && block_wf(b@)
                    && final(self).wf(),
                None => chain_step(old(self).chain().blocks(), old(self).current()) is None
                    && final(self).current() == old(self).current() && final(self).wf(),
            },
            r matches Err(e) ==> e == ChainError::Store,
    {
        let cur_bytes = ascii_to_bytes(self.current_hash.as_str());
        let data = match tree_get(&self.blockchain.blocks_tree, cur_bytes.as_slice()) {
            Ok(Some(v)) => v,
            Ok(None) => {
                return Ok(None);
            },
            Err(e) => {
                return Err(e);
            },
        };
        let block = match Block::deserialize(data.as_slice()) {
            Some(b) => b,
            None => {
                return Ok(None);
            },
        };
        self.current_hash = block.get_pre_block_hash();
        Ok(Some(block))
    }
}

impl Blockchain {
    /// A walk from the current tip back towards genesis.
    pub fn iterator(&self) -> (r: BlockchainIterator<'_>)
        requires
            self.wf(),
        ensures
            r.chain() == self,
            r.current() == self.tip(),
            r.wf(),
    {
        BlockchainIterator::new(self.get_tip_hash(), self)
    }

    /// The whole chain from the tip, tip first. Fails on a store
    /// error, or on a store whose walk revisits itself and so never
    /// reaches genesis.
    #[verifier::rlimit(60)]
    pub fn collect_chain(&self) -> (r: Result<Vec<Block>, ChainError>)
        requires
            self.wf(),
        ensures
            r matches Ok(v) ==> is_chain_from(self.blocks(), self.tip(), block_views(v@)) && (
            forall|i: int| 0 <= i < v@.len() ==> block_wf(#[trigger] block_views(v@)[i])),
            r matches Err(e) ==> e == ChainError::Store || e == ChainError::Codec,
    {
        let ghost m = self.blocks();
        let limit: u128 = tree_len(&self.blocks_tree) as u128;
        let mut acc: Vec<Block> = Vec::new();
        let mut it = self.iterator();
        let mut steps: u128 = 0;
        while steps <= limit
            invariant
                self.wf(),
                m == self.blocks(),
                limit <= usize::MAX as u128,
                it.chain() == self,
                it.wf(),
                forall|tail: Seq<BlockV>| #[trigger]
                    is_chain_from(m, it.current(), tail) ==> is_chain_from(
                        m,
                        self.tip(),
                        block_views(acc@) + tail,
                    ),
                forall|i: int| 0 <= i < acc@.len() ==> block_wf(#[trigger] block_views(acc@)[i]),
            decreases limit + 1 - steps,
        {
            proof {
                assert(steps + 1 <= u128::MAX) by {
                    assert(limit <= u64::MAX);
                }
            }
            let ghost prev_cur = it.current();
            let step = match it.next() {
                Ok(o) => o,
                Err(e) => {
                    return Err(e);
                },
            };
            match step {
                None => {
                    proof {
                        assert(is_chain_from(m, it.current(), Seq::<BlockV>::empty()));
                        assert(block_views(acc@) + Seq::<BlockV>::empty() =~= block_views(acc@));
                    }
                    return Ok(acc);
                },
                Some(b) => {
                    let ghost cur_before = b@;
                    let ghost acc_before = acc@;
                    acc.push(b);
                    proof {
                        assert(block_views(acc@) =~= block_views(acc_before) + seq![cur_before]);
                        assert forall|tail: Seq<BlockV>| #[trigger]
                            is_chain_from(m, it.current(), tail) implies is_chain_from(
                            m,
                            self.tip(),
                            block_views(acc@) + tail,
                        ) by {
                            lemma_chain_extend_step(
                                m,
                                self.tip(),
                                prev_cur,
                                block_views(acc_before),
                                cur_before,
                                tail,
                            );
                            assert((block_views(acc_before) + seq![cur_before]) + tail
                                =~= block_views(acc@) + tail);
                        }
                        assert forall|i: int| 0 <= i < acc@.len() implies block_wf(
                            #[trigger] block_views(acc@)[i],
                        ) by {
                            if i < acc_before.len() {
                                assert(block_views(acc@)[i] == block_views(acc_before)[i]);
                            } else {
                                assert(block_views(acc@)[i] == cur_before);
                            }
                        }
                    }
                },
            }
            steps = steps + 1;
        }
        Err(ChainError::Codec)
    }

    /// The hash bytes of every block, walking tip to genesis.
    pub fn get_block_hashes(&self) -> (r: Result<Vec<Vec<u8>>, ChainError>)
        requires
            self.wf(),
        ensures
            r matches Ok(hs) ==> exists|ch: Seq<BlockV>|
                is_chain_from(self.blocks(), self.tip(), ch) && hs@.len() == ch.len() && (forall|
                    i: int,
                |
                    0 <= i < ch.len() ==> (#[trigger] hs@[i])@ == chars_bytes(ch[i].hash)),
    {
        let blocks = match self.collect_chain() {
            Ok(v) => v,
            Err(e) => {
                return Err(e);
            },
        };
        let mut hashes: Vec<Vec<u8>> = Vec::new();
        let mut i: usize = 0;
        while i < blocks.len()
            invariant
                i <= blocks@.len(),
                hashes@.len() == i,
                forall|k: int|
                    0 <= k < i ==> (#[trigger] hashes@[k])@ == chars_bytes(
                        block_views(blocks@)[k].hash,
                    ),
                forall|k: int|
                    0 <= k < blocks@.len() ==> block_wf(#[trigger] block_views(blocks@)[k]),
            decreases blocks@.len() - i,
        {
            proof {
                assert(block_views(blocks@)[i as int] == blocks@[i as int]@);
            }
            let hb = blocks[i].get_hash_bytes();
            hashes.push(hb);
            i = i + 1;
        }
        proof {
            let ch = block_views(blocks@);
            assert(is_chain_from(self.blocks(), self.tip(), ch) && hashes@.len() == ch.len() && (
            forall|k: int| 0 <= k < ch.len() ==> (#[trigger] hashes@[k])@ == chars_bytes(
                ch[k].hash,
            )));
        }
        Ok(hashes)
    }

    /// The transaction with the given id on the chain, if any.
    pub fn find_transaction(&self, txid: &[u8]) -> (r: Result<Option<Transaction>, ChainError>)
        requires
            self.wf(),
        ensures
            r matches Ok(o) ==> forall|ch: Seq<BlockV>|
                #[trigger] is_chain_from(self.blocks(), self.tip(), ch) ==> match o {
                    Some(t) => spec_find_tx(ch, txid@) == Some(t@),
                    None => spec_find_tx(ch, txid@) is None,
                },
    {
        let blocks = match self.collect_chain() {
            Ok(v) => v,
            Err(e) => {
                return Err(e);
            },
        };
        let found = crate::txverify::find_transaction_in_blocks(&blocks, txid);
        proof {
            assert forall|ch: Seq<BlockV>|
                #[trigger] is_chain_from(self.blocks(), self.tip(), ch) implies ch == block_views(
                blocks@,
            ) by {
                lemma_chain_unique(self.blocks(), self.tip(), ch, block_views(blocks@));
            }
        }
        Ok(found)
    }

    /// Verifies every given transaction, then mines, stores and makes
    /// tip a block over them, chained to the old tip one level higher.
    /// The detailed relation between the old and new store is
    /// `spec_mined_block` (kept opaque so that callers who only need
    /// well-formedness stay light).
    pub fn mine_block(&mut self, transactions: &[Transaction]) -> (r: Result<Block, ChainError>)
        requires
            old(self).wf(),
            forall|i: int|
                0 <= i < transactions@.len() ==> tx_costs_ok(
                    #[trigger] tx_views(transactions@)[i],
                ),
        ensures
            r matches Ok(b) ==> final(self).wf() && block_wf(b@) && spec_mined_block(
                *old(self),
                *final(self),
                b@,
                tx_views(transactions@),
            ),
            r == Err::<Block, ChainError>(ChainError::InvalidTx) ==> final(self).blocks() == old(self).blocks() && final(self).tip() == old(self).tip(),
    {
        let blocks = match self.collect_chain() {
            Ok(v) => v,
            Err(e) => {
                return Err(e);
            },
        };
        let mut i: usize = 0;
        while i < transactions.len()
            invariant
                i <= transactions@.len(),
                forall|k: int|
                    0 <= k < transactions@.len() ==> tx_costs_ok(
                        #[trigger] tx_views(transactions@)[k],
                    ),
                forall|k: int|
                    0 <= k < i ==> spec_tx_valid(
                        block_views(blocks@),
                        #[trigger] tx_views(transactions@)[k],
                    ),
            decreases transactions@.len() - i,
        {
            proof {
                assert(tx_views(transactions@)[i as int] == transactions@[i as int]@);
            }
            if !transactions[i].verify_in_chain(&blocks) {
                return Err(ChainError::InvalidTx);
            }
            i = i + 1;
        }
        let best_height = match self.get_best_height() {
            Ok(h) => h,
            Err(e) => {
                return Err(e);
            },
        };
        if best_height == usize::MAX {
            return Err(ChainError::Codec);
        }
        let block = match Block::new_block(self.get_tip_hash(), transactions, best_height + 1) {
            Some(b) => b,
            None => {
                return Err(ChainError::Crypto);
            },
        };
        let hash_bytes = block.get_hash_bytes();
        let tipk = tip_key();
        if bytes_equal(hash_bytes.as_slice(), tipk.as_slice()) {
            return Err(ChainError::Codec);
        }
        let data = block.serialize();
        proof {
            lemma_block_serialize_roundtrip(block@);
        }
        match tree_insert(&mut self.blocks_tree, hash_bytes.as_slice(), data.as_slice()) {
            Ok(()) => (),
            Err(e) => {
                return Err(e);
            },
        }
        match tree_insert(&mut self.blocks_tree, tipk.as_slice(), hash_bytes.as_slice()) {
            Ok(()) => (),
            Err(e) => {
                return Err(e);
            },
        }
        let new_tip = block.get_hash().to_owned();
        self.tip_hash = new_tip;
        proof {
            assert forall|ch: Seq<BlockV>|
                #[trigger] is_chain_from(old(self).blocks(), old(self).tip(), ch) implies (forall|
                k: int,
            |
                0 <= k < transactions@.len() ==> spec_tx_valid(
                    ch,
                    #[trigger] tx_views(transactions@)[k],
                )) by {
                lemma_chain_unique(
                    old(self).blocks(),
                    old(self).tip(),
                    ch,
                    block_views(blocks@),
                );
            }
            reveal(spec_mined_block);
        }
        Ok(block)
    }
}

/// Whether a hex-keyed association list holds exactly the entries of
/// an unspent-output map, each key spelled in lowercase hex.
pub open spec fn hex_assoc_matches(
    s: Seq<(String, Vec<crate::transaction::TxOutput>)>,
    m: Map<Seq<u8>, Seq<crate::transaction::TxOutV>>,
) -> bool {
    &&& forall|i: int|
        0 <= i < s.len() ==> (crate::hexcode::spec_hex_decode((#[trigger] s[i]).0@)
            matches Some(k) && m.contains_pair(k, crate::transaction::vout_views(s[i].1@)))
    &&& forall|k: Seq<u8>|
        #[trigger] m.contains_key(k) ==> exists|i: int|
            0 <= i < s.len() && (#[trigger] s[i]).0@ == spec_hex(k)
    &&& forall|i: int, j: int|
        0 <= i < j < s.len() ==> (#[trigger] s[i]).0@ != (#[trigger] s[j]).0@
}

impl Blockchain {
    /// Every currently unspent output on the chain, grouped by the hex
    /// spelling of the transaction id that carries it.
    pub fn find_utxo(&self) -> (r: Result<
        Vec<(String, Vec<crate::transaction::TxOutput>)>,
        ChainError,
    >)
        requires
            self.wf(),
        ensures
            r matches Ok(v) ==> forall|ch: Seq<BlockV>|
                #[trigger] is_chain_from(self.blocks(), self.tip(), ch) ==> hex_assoc_matches(
                    v@,
                    spec_chain_utxo(ch),
                ),
            r matches Ok(v) ==> forall|i: int|
                0 <= i < v@.len() ==> crate::hexcode::spec_hex_decode((#[trigger] v@[i]).0@)
                    is Some,
            r matches Ok(v) ==> forall|i: int, j: int|
                0 <= i < j < v@.len() ==> (#[trigger] v@[i]).0@ != (#[trigger] v@[j]).0@,
    {
        let blocks = match self.collect_chain() {
            Ok(v) => v,
            Err(e) => {
                return Err(e);
            },
        };
        let raw = scan_unspent(&blocks);
        let ghost m = spec_chain_utxo(block_views(blocks@));
        let mut out: Vec<(String, Vec<crate::transaction::TxOutput>)> = Vec::new();
        let mut i: usize = 0;
        while i < raw.len()
            invariant
                i <= raw@.len(),
                out@.len() == i,
                m == spec_chain_utxo(block_views(blocks@)),
                crate::utxoscan::assoc_keys_distinct(raw@),
                assoc_matches(raw@, m),
                forall|k: int|
                    0 <= k < i ==> (#[trigger] out@[k]).0@ == spec_hex(raw@[k].0@)
                        && crate::transaction::vout_views(out@[k].1@)
                        == crate::transaction::vout_views(raw@[k].1@),
            decreases raw@.len() - i,
        {
            let key_hex = hex_encode(raw[i].0.as_slice());
            let outs = clone_outputs(&raw[i].1);
            out.push((key_hex, outs));
            i = i + 1;
        }
        proof {
            assert(out@.len() == raw@.len());
            {
                assert forall|i2: int| 0 <= i2 < out@.len() implies (
                crate::hexcode::spec_hex_decode((#[trigger] out@[i2]).0@) matches Some(k)
                    && m.contains_pair(k, crate::transaction::vout_views(out@[i2].1@))) by {
                    let kk = raw@[i2].0@;
                    assert(out@[i2].0@ == spec_hex(kk));
                    crate::hexcode::lemma_hex_roundtrip(kk);
                    assert(m.contains_pair(kk, crate::transaction::vout_views(raw@[i2].1@)));
                    assert(crate::transaction::vout_views(out@[i2].1@)
                        == crate::transaction::vout_views(raw@[i2].1@));
                }
                assert forall|k: Seq<u8>| m.contains_key(k) implies exists|i2: int| (0 <= i2
                    < out@.len() && (#[trigger] out@[i2]).0@ == spec_hex(k)) by {
                    let i2 = choose|i2: int|
                        0 <= i2 < raw@.len() && (#[trigger] raw@[i2]).0@ == k;
                    assert(out@[i2].0@ == spec_hex(k));
                }
                assert forall|a: int, b: int| 0 <= a < b < out@.len() implies ((
                #[trigger] out@[a]).0@ != (#[trigger] out@[b]).0@) by {
                    crate::hexcode::lemma_hex_roundtrip(raw@[a].0@);
                    crate::hexcode::lemma_hex_roundtrip(raw@[b].0@);
                    assert(out@[a].0@ == spec_hex(raw@[a].0@));
                    assert(out@[b].0@ == spec_hex(raw@[b].0@));
                    assert(raw@[a].0@ != raw@[b].0@);
                }
            }
            assert(hex_assoc_matches(out@, m));
            assert forall|ch: Seq<BlockV>|
                #[trigger] is_chain_from(self.blocks(), self.tip(), ch) implies hex_assoc_matches(
                out@,
                spec_chain_utxo(ch),
            ) by {
                lemma_chain_unique(self.blocks(), self.tip(), ch, block_views(blocks@));
                assert(spec_chain_utxo(ch) == m);
            }
        }
        Ok(out)
    }
}

/// An owned copy of a list of outputs.
fn clone_outputs(s: &Vec<crate::transaction::TxOutput>) -> (r: Vec<crate::transaction::TxOutput>)
    ensures
        crate::transaction::vout_views(r@) == crate::transaction::vout_views(s@),
{
    let mut r: Vec<crate::transaction::TxOutput> = Vec::new();
    let mut i: usize = 0;
    while i < s.len()
        invariant
            i <= s@.len(),
            crate::transaction::vout_views(r@) =~= crate::transaction::vout_views(s@).take(
                i as int,
            ),
        decreases s@.len() - i,
    {
        let o = s[i].clone();
        proof {
            assert(o@ == s@[i as int]@);
            assert(crate::transaction::vout_views(r@).len() == i);
        }
        r.push(o);
        proof {
            assert forall|k: int| 0 <= k < i + 1 implies crate::transaction::vout_views(r@)[k]
                == crate::transaction::vout_views(s@).take(i as int + 1)[k] by {
                assert(crate::transaction::vout_views(r@)[k] == r@[k]@);
                assert(crate::transaction::vout_views(s@).take(i as int + 1)[k] == s@[k]@);
            }
            assert(crate::transaction::vout_views(r@) =~= crate::transaction::vout_views(
                s@,
            ).take(i as int + 1));
        }
        i = i + 1;
    }
    proof {
        assert(crate::transaction::vout_views(s@).take(s@.len() as int)
            =~= crate::transaction::vout_views(s@));
    }
    r
}

} // verus!
