//! The unspent-output index: a second tree keyed by raw transaction
//! id, holding each transaction's currently unspent outputs as one
//! encoded list. It is rebuilt from the chain, or stepped forward one
//! block at a time.

use vstd::prelude::*;

use crate::block::Block;
use crate::block::BlockV;
use crate::blockchain::hex_assoc_matches;
use crate::blockchain::is_chain_from;
use crate::blockchain::Blockchain;
use crate::errors::ChainError;
use crate::hexcode::hex_decode;
use crate::store::db_open_tree;
use crate::store::iter_next;
use crate::store::tree_clear;
use crate::store::tree_contents;
use crate::store::tree_get;
use crate::store::tree_insert;
use crate::store::tree_iter;
use crate::store::tree_len;
use crate::store::tree_remove;
use crate::store::iter_items;
use crate::transaction::decode_outs;
use crate::transaction::encode_outs;
use crate::transaction::spec_dec_outs;
use crate::transaction::spec_is_coinbase;
use crate::transaction::spec_outs_bytes;
use crate::transaction::tx_views;
use crate::transaction::vin_views;
use crate::transaction::vout_views;
use crate::transaction::Transaction;
use crate::transaction::TxInV;
use crate::transaction::TxOutput;
use crate::transaction::TxOutV;
use crate::transaction::TxV;
use crate::utxoscan::spec_chain_utxo;

verus! {

/// Whether the index holds exactly the encoded entries of an
/// unspent-output map.
pub open spec fn utxo_encoded_matches(
    c: Map<Seq<u8>, Seq<u8>>,
    u: Map<Seq<u8>, Seq<TxOutV>>,
) -> bool {
    &&& forall|k: Seq<u8>| #[trigger] c.contains_key(k) ==> u.contains_key(k)
    &&& forall|k: Seq<u8>| #[trigger]
        u.contains_key(k) ==> c.contains_key(k) && c[k] == spec_outs_bytes(u[k])
}

/// The outputs of a list that are locked to the given key, in order.
pub open spec fn spec_locked_outs(outs: Seq<TxOutV>, pkh: Seq<u8>) -> Seq<TxOutV>
    decreases outs.len(),
{
    if outs.len() == 0 {
        Seq::empty()
    } else {
        let rest = spec_locked_outs(outs.drop_first(), pkh);
        if outs[0].pub_key_hash == pkh {
            seq![outs[0]] + rest
        } else {
            rest
        }
    }
}

/// Locked outputs filter piecewise.
pub proof fn lemma_locked_outs_concat(a: Seq<TxOutV>, b: Seq<TxOutV>, pkh: Seq<u8>)
    ensures
        spec_locked_outs(a + b, pkh) =~= spec_locked_outs(a, pkh) + spec_locked_outs(b, pkh),
    decreases a.len(),
{
    if a.len() == 0 {
        assert(a + b =~= b);
        assert(spec_locked_outs(a, pkh) =~= Seq::<TxOutV>::empty());
    } else {
        assert((a + b)[0] == a[0]);
        assert((a + b).drop_first() =~= a.drop_first() + b);
        lemma_locked_outs_concat(a.drop_first(), b, pkh);
    }
}

/// The locked outputs collected over a list of index entries, entry
/// by entry; `None` when an entry does not decode.
pub open spec fn spec_collect_locked(entries: Seq<(Seq<u8>, Seq<u8>)>, pkh: Seq<u8>) -> Option<
    Seq<TxOutV>,
>
    decreases entries.len(),
{
    if entries.len() == 0 {
        Some(Seq::empty())
    } else {
        match spec_dec_outs(entries[0].1) {
            None => None,
            Some(outs) => match spec_collect_locked(entries.drop_first(), pkh) {
                None => None,
                Some(rest) => Some(spec_locked_outs(outs, pkh) + rest),
            },
        }
    }
}

/// Indices as mathematical integers.
pub open spec fn idxs_as_int(s: Seq<usize>) -> Seq<int> {
    Seq::new(s.len(), |j: int| s[j] as int)
}

/// One entry's picks, scanning outputs from `idx` on: an output is
/// selected when it is locked to the key and the value gathered so
/// far is still below `amount`; a negative amount aborts the scan.
pub open spec fn spec_pick(
    outs: Seq<TxOutV>,
    idx: int,
    pkh: Seq<u8>,
    amount: int,
    acc: int,
) -> Option<(int, Seq<int>)>
    decreases outs.len(),
{
    if outs.len() == 0 {
        Some((acc, Seq::empty()))
    } else if outs[0].pub_key_hash == pkh && acc < amount {
        if outs[0].cost < 0 {
            None
        } else {
            match spec_pick(outs.drop_first(), idx + 1, pkh, amount, acc + outs[0].cost) {
                None => None,
                Some((a2, rest)) => Some((a2, seq![idx] + rest)),
            }
        }
    } else {
        spec_pick(outs.drop_first(), idx + 1, pkh, amount, acc)
    }
}

/// The selection over a list of index entries, entry by entry; only
/// entries that contribute picks appear in the result.
pub open spec fn spec_select(
    entries: Seq<(Seq<u8>, Seq<u8>)>,
    pkh: Seq<u8>,
    amount: int,
    acc: int,
) -> Option<(int, Seq<(Seq<u8>, Seq<int>)>)>
    decreases entries.len(),
{
    if entries.len() == 0 {
        Some((acc, Seq::empty()))
    } else {
        match spec_dec_outs(entries[0].1) {
            None => None,
            Some(outs) => match spec_pick(outs, 0, pkh, amount, acc) {
                None => None,
                Some((a1, picks)) => match spec_select(entries.drop_first(), pkh, amount, a1) {
                    None => None,
                    Some((a2, rest)) => Some(
                        (
                            a2,
                            if picks.len() == 0 {
                                rest
                            } else {
                                seq![(entries[0].0, picks)] + rest
                            },
                        ),
                    ),
                },
            },
        }
    }
}

/// A selection with its keys spelled in hex.
pub open spec fn sel_spelled(sel: Seq<(Seq<u8>, Seq<int>)>) -> Seq<(Seq<char>, Seq<int>)> {
    Seq::new(sel.len(), |j: int| (crate::hexcode::spec_hex((#[trigger] sel[j]).0), sel[j].1))
}

/// The values of the returned selection pairs.
pub open spec fn sel_views(s: Seq<(String, Vec<usize>)>) -> Seq<(Seq<char>, Seq<int>)> {
    Seq::new(s.len(), |j: int| ((#[trigger] s[j]).0@, idxs_as_int(s[j].1@)))
}

/// One selection pair flattened into (transaction id, output index)
/// references.
pub open spec fn pair_flat(e: (Seq<u8>, Seq<int>)) -> Seq<(Seq<u8>, int)> {
    Seq::new(e.1.len(), |j: int| (e.0, e.1[j]))
}

/// A whole selection flattened into input references, in order.
pub open spec fn spec_flatten(sel: Seq<(Seq<u8>, Seq<int>)>) -> Seq<(Seq<u8>, int)>
    decreases sel.len(),
{
    if sel.len() == 0 {
        Seq::empty()
    } else {
        pair_flat(sel[0]) + spec_flatten(sel.drop_first())
    }
}

/// Selections flatten piecewise.
pub proof fn lemma_flatten_concat(s1: Seq<(Seq<u8>, Seq<int>)>, s2: Seq<(Seq<u8>, Seq<int>)>)
    ensures
        spec_flatten(s1 + s2) =~= spec_flatten(s1) + spec_flatten(s2),
    decreases s1.len(),
{
    if s1.len() == 0 {
        assert(s1 + s2 =~= s2);
        assert(spec_flatten(s1) =~= Seq::<(Seq<u8>, int)>::empty());
    } else {
        assert((s1 + s2)[0] == s1[0]);
        assert((s1 + s2).drop_first() =~= s1.drop_first() + s2);
        lemma_flatten_concat(s1.drop_first(), s2);
    }
}

/// The summed amounts of a list of outputs.
pub open spec fn spec_sum_costs(s: Seq<TxOutV>) -> int
    decreases s.len(),
{
    if s.len() == 0 {
        0
    } else {
        s[0].cost + spec_sum_costs(s.drop_first())
    }
}

/// Summing one more output adds its amount.
pub proof fn lemma_sum_costs_push(s: Seq<TxOutV>, x: TxOutV)
    ensures
        spec_sum_costs(s.push(x)) == spec_sum_costs(s) + x.cost,
    decreases s.len(),
{
    if s.len() == 0 {
        assert(s.push(x)[0] == x);
        assert(s.push(x).drop_first() =~= Seq::<TxOutV>::empty());
        assert(spec_sum_costs(s.push(x).drop_first()) == 0);
    } else {
        assert(s.push(x)[0] == s[0]);
        assert(s.push(x).drop_first() =~= s.drop_first().push(x));
        lemma_sum_costs_push(s.drop_first(), x);
    }
}

/// A list with the entry at `i` taken out; the list itself when `i`
/// is out of range.
pub open spec fn spec_remove_at(s: Seq<TxOutV>, i: int) -> Seq<TxOutV> {
    if 0 <= i < s.len() {
        s.remove(i)
    } else {
        s
    }
}

/// One input's effect on the index: the referenced entry loses the
/// output at the input's position, and disappears when nothing stays.
/// `None` when the entry is absent or does not decode.
pub open spec fn spec_spend_one(m: Map<Seq<u8>, Seq<u8>>, txin: TxInV) -> Option<
    Map<Seq<u8>, Seq<u8>>,
> {
    if !m.contains_key(txin.txid) {
        None
    } else {
        match spec_dec_outs(m[txin.txid]) {
            None => None,
            Some(outs) => {
                let updated = spec_remove_at(outs, txin.outid as int);
                if updated.len() == 0 {
                    Some(m.remove(txin.txid))
                } else {
                    Some(m.insert(txin.txid, spec_outs_bytes(updated)))
                }
            },
        }
    }
}

/// Every input's effect, in order.
pub open spec fn spec_spend_all(m: Map<Seq<u8>, Seq<u8>>, vin: Seq<TxInV>) -> Option<
    Map<Seq<u8>, Seq<u8>>,
>
    decreases vin.len(),
{
    if vin.len() == 0 {
        Some(m)
    } else {
        match spec_spend_one(m, vin[0]) {
            None => None,
            Some(m2) => spec_spend_all(m2, vin.drop_first()),
        }
    }
}

/// One transaction's effect: its inputs spend (unless it is a
/// coinbase), then its whole output list is recorded under its id.
pub open spec fn spec_update_tx(m: Map<Seq<u8>, Seq<u8>>, t: TxV) -> Option<
    Map<Seq<u8>, Seq<u8>>,
> {
    let m1 = if spec_is_coinbase(t) {
        Some(m)
    } else {
        spec_spend_all(m, t.vin)
    };
    match m1 {
        None => None,
        Some(m2) => Some(m2.insert(t.id, spec_outs_bytes(t.vout))),
    }
}

/// A block's effect: each transaction in order.
pub open spec fn spec_update_txs(m: Map<Seq<u8>, Seq<u8>>, txs: Seq<TxV>) -> Option<
    Map<Seq<u8>, Seq<u8>>,
>
    decreases txs.len(),
{
    if txs.len() == 0 {
        Some(m)
    } else {
        match spec_update_tx(m, txs[0]) {
            None => None,
            Some(m2) => spec_update_txs(m2, txs.drop_first()),
        }
    }
}

/// Stepping the per-transaction fold.
pub proof fn lemma_update_txs_push(m: Map<Seq<u8>, Seq<u8>>, txs: Seq<TxV>, j: int)
    requires
        0 <= j < txs.len(),
        spec_update_txs(m, txs.take(j)) is Some,
    ensures
        spec_update_txs(m, txs.take(j + 1)) == spec_update_tx(
            spec_update_txs(m, txs.take(j)).unwrap(),
            txs[j],
        ),
    decreases j,
{
    if j == 0 {
        assert(txs.take(1)[0] == txs[0]);
        assert(txs.take(1).drop_first() =~= Seq::<TxV>::empty());
        assert(txs.take(0) =~= Seq::<TxV>::empty());
        if spec_update_tx(m, txs[0]) is Some {
            assert(spec_update_txs(spec_update_tx(m, txs[0]).unwrap(), Seq::<TxV>::empty())
                == Some(spec_update_tx(m, txs[0]).unwrap()));
        }
    } else {
        assert(txs.take(j + 1)[0] == txs[0]);
        assert(txs.take(j)[0] == txs[0]);
        assert(txs.take(j + 1).drop_first() =~= txs.drop_first().take(j));
        assert(txs.take(j).drop_first() =~= txs.drop_first().take(j - 1));
        lemma_update_txs_push(spec_update_tx(m, txs[0]).unwrap(), txs.drop_first(), j - 1);
        assert(txs.drop_first()[j - 1] == txs[j]);
    }
}

/// Stepping the per-input fold.
pub proof fn lemma_spend_all_push(m: Map<Seq<u8>, Seq<u8>>, vin: Seq<TxInV>, k: int)
    requires
        0 <= k < vin.len(),
        spec_spend_all(m, vin.take(k)) is Some,
    ensures
        spec_spend_all(m, vin.take(k + 1)) == (match spec_spend_one(
            spec_spend_all(m, vin.take(k)).unwrap(),
            vin[k],
        ) {
            None => None::<Map<Seq<u8>, Seq<u8>>>,
            Some(m2) => Some(m2),
        }),
    decreases k,
{
    if k == 0 {
        assert(vin.take(1)[0] == vin[0]);
        assert(vin.take(1).drop_first() =~= Seq::<TxInV>::empty());
        assert(vin.take(0) =~= Seq::<TxInV>::empty());
        if spec_spend_one(m, vin[0]) is Some {
            assert(spec_spend_all(spec_spend_one(m, vin[0]).unwrap(), Seq::<TxInV>::empty())
                == Some(spec_spend_one(m, vin[0]).unwrap()));
        }
    } else {
        assert(vin.take(k + 1)[0] == vin[0]);
        assert(vin.take(k)[0] == vin[0]);
        assert(vin.take(k + 1).drop_first() =~= vin.drop_first().take(k));
        assert(vin.take(k).drop_first() =~= vin.drop_first().take(k - 1));
        lemma_spend_all_push(spec_spend_one(m, vin[0]).unwrap(), vin.drop_first(), k - 1);
        assert(vin.drop_first()[k - 1] == vin[k]);
    }
}

/// One step of the unspent-output consistency law, for the minting
/// case: stepping the index by a block holding a single coinbase
/// whose id is new to the chain gives exactly the index a full
/// rebuild over the extended chain gives. (A step whose inputs spend
/// from a partially spent entry can shift stored positions away from
/// original output indices, so the law does not hold of every block.)
pub proof fn lemma_update_matches_rescan_coinbase(
    ch: Seq<BlockV>,
    b: BlockV,
    m: Map<Seq<u8>, Seq<u8>>,
)
    requires
        b.transactions.len() == 1,
        spec_is_coinbase(b.transactions[0]),
        b.transactions[0].vout.len() > 0,
        crate::utxoscan::id_fresh_in_chain(ch, b.transactions[0].id),
        utxo_encoded_matches(m, spec_chain_utxo(ch)),
    ensures
        spec_update_txs(m, b.transactions) == Some(
            m.insert(b.transactions[0].id, spec_outs_bytes(b.transactions[0].vout)),
        ),
        utxo_encoded_matches(
            m.insert(b.transactions[0].id, spec_outs_bytes(b.transactions[0].vout)),
            spec_chain_utxo(seq![b] + ch),
        ),
{
    let tx = b.transactions[0];
    let m2 = m.insert(tx.id, spec_outs_bytes(tx.vout));
    assert(spec_update_tx(m, tx) == Some(m2));
    assert(b.transactions.drop_first() =~= Seq::<TxV>::empty());
    assert(spec_update_txs(m2, Seq::<TxV>::empty()) == Some(m2));

    let e = crate::utxoscan::spec_empty_acc();
    let newch = seq![b] + ch;
    assert(newch[0] == b);
    assert(newch.drop_first() =~= ch);
    crate::utxoscan::lemma_unspent_all(tx.id, tx.vout, 0);
    let acc1 = crate::utxoscan::spec_scan_tx(e, tx);
    assert(acc1.spent == e.spent);
    assert(acc1.utxo == e.utxo.insert(tx.id, Seq::<TxOutV>::empty() + tx.vout));
    assert(Seq::<TxOutV>::empty() + tx.vout =~= tx.vout);
    assert(acc1.utxo == e.utxo.insert(tx.id, tx.vout));
    assert(crate::utxoscan::spec_scan_txs(acc1, b.transactions.drop_first()) == acc1);
    assert(crate::utxoscan::spec_scan_tx_acc(e, b) == acc1);
    assert(!e.utxo.contains_key(tx.id));
    crate::utxoscan::lemma_scan_blocks_frame(e, ch, tx.id, tx.vout);
    let u = spec_chain_utxo(ch);
    let u2 = u.insert(tx.id, tx.vout);
    assert(crate::utxoscan::spec_scan_blocks(acc1, ch).utxo =~= u2) by {
        assert(acc1 == (crate::utxoscan::UtxoAcc {
            utxo: e.utxo.insert(tx.id, tx.vout),
            spent: e.spent,
        }));
    }
    assert(spec_chain_utxo(newch) == crate::utxoscan::spec_scan_blocks(acc1, ch).utxo);
    assert(!u.contains_key(tx.id));
    assert forall|k: Seq<u8>| #[trigger] m2.contains_key(k) implies u2.contains_key(k) by {
        if k != tx.id {
            assert(m.contains_key(k));
        }
    }
    assert forall|k: Seq<u8>| #[trigger]
        u2.contains_key(k) implies m2.contains_key(k) && m2[k] == spec_outs_bytes(u2[k]) by {
        if k != tx.id {
            assert(u.contains_key(k));
        }
    }
    assert(spec_chain_utxo(newch) =~= u2);
}

/// The unspent-output index over a chain.
pub struct UTXOSet {
    blockchain: Blockchain,
    utxo_tree: sled::Tree,
}

impl UTXOSet {
    /// The index entries: encoded output lists keyed by transaction id.
    pub closed spec fn contents(&self) -> Map<Seq<u8>, Seq<u8>> {
        tree_contents(self.utxo_tree)
    }

    /// The chain the index follows.
    pub closed spec fn chain(&self) -> Blockchain {
        self.blockchain
    }

    /// Both the chain and the index tree are usable.
    pub open spec fn wf(&self) -> bool {
        self.chain().wf() && self.contents().dom().finite()
    }

    /// An index over the given chain, backed by the `chainstate` tree.
    pub fn new(blockchain: Blockchain) -> (r: Result<UTXOSet, ChainError>)
        requires
            blockchain.wf(),
        ensures
            r matches Ok(u) ==> u.wf() && u.chain() == blockchain,
    {
        let mut name: Vec<u8> = Vec::new();
        name.push(99);
        name.push(104);
        name.push(97);
        name.push(105);
        name.push(110);
        name.push(115);
        name.push(116);
        name.push(97);
        name.push(116);
        name.push(101);
        let utxo_tree = match db_open_tree(blockchain.get_db(), name.as_slice()) {
            Ok(t) => t,
            Err(e) => {
                return Err(e);
            },
        };
        Ok(UTXOSet { blockchain, utxo_tree })
    }

    /// Verifies, mines and stores a block over the given transactions,
    /// leaving the index untouched (callers rebuild it afterwards).
    #[verifier::rlimit(100)]
    #[verifier::spinoff_prover]
    pub fn mine_block(&mut self, transactions: &[Transaction]) -> (r: Result<Block, ChainError>)
        requires
            old(self).wf(),
            forall|i: int|
                0 <= i < transactions@.len() ==> crate::transaction::tx_costs_ok(
                    #[trigger] tx_views(transactions@)[i],
                ),
        ensures
            r matches Ok(b) ==> final(self).wf() && crate::block::block_wf(b@)
                && crate::blockchain::spec_mined_block(
                old(self).chain(),
                final(self).chain(),
                b@,
                tx_views(transactions@),
            ),
            final(self).contents() == old(self).contents(),
            r == Err::<Block, ChainError>(ChainError::InvalidTx) ==> final(self).chain().blocks()
                == old(self).chain().blocks() && final(self).chain().tip() == old(self).chain().tip(),
    {
        match self.blockchain.mine_block(transactions) {
            Ok(b) => Ok(b),
            Err(e) => Err(e),
        }
    }

    /// Exclusive access to the chain the index follows.
    pub fn chain_mut(&mut self) -> (r: &mut Blockchain)
        ensures
            *r == old(self).chain(),
            final(self).chain() == *final(r),
            final(self).contents() == old(self).contents(),
    {
        &mut self.blockchain
    }

    /// The chain the index follows.
    pub fn get_blockchain(&self) -> (r: &Blockchain)
        ensures
            *r == self.chain(),
    {
        &self.blockchain
    }

    /// Steps the index by one block: each non-coinbase input removes
    /// the output at its position from the referenced entry, then each
    /// transaction's outputs are recorded whole.
    pub fn update(&mut self, block: &Block) -> (r: Result<(), ChainError>)
        requires
            old(self).wf(),
            crate::block::block_wf(block@),
        ensures
            final(self).chain() == old(self).chain(),
            r is Ok ==> final(self).wf() && spec_update_txs(
                old(self).contents(),
                block@.transactions,
            ) == Some(final(self).contents()),
    {
        let txs = block.get_transactions();
        let ghost txsv = block@.transactions;
        let ghost m0 = self.contents();
        proof {
            assert(txsv.take(0) =~= Seq::<TxV>::empty());
        }
        let mut j: usize = 0;
        while j < txs.len()
            invariant
                j <= txs@.len(),
                txsv == tx_views(txs@),
                crate::block::block_wf(block@),
                txsv == block@.transactions,
                self.chain() == old(self).chain(),
                m0 == old(self).contents(),
                self.wf(),
                spec_update_txs(m0, txsv.take(j as int)) == Some(self.contents()),
            decreases txs@.len() - j,
        {
            proof {
                assert(txs@[j as int]@ == txsv[j as int]);
                assert(crate::transaction::tx_fits(txsv[j as int]));
            }
            match self.update_one_tx(&txs[j]) {
                Ok(()) => (),
                Err(e) => {
                    return Err(e);
                },
            }
            proof {
                lemma_update_txs_push(m0, txsv, j as int);
            }
            j = j + 1;
        }
        proof {
            assert(txsv.take(txs@.len() as int) =~= txsv);
        }
        Ok(())
    }

    fn update_one_tx(&mut self, tx: &Transaction) -> (r: Result<(), ChainError>)
        requires
            old(self).wf(),
            crate::transaction::tx_fits(tx@),
        ensures
            final(self).chain() == old(self).chain(),
            r is Ok ==> final(self).wf() && spec_update_tx(old(self).contents(), tx@) == Some(
                final(self).contents(),
            ),
    {
        let ghost m0 = self.contents();
        if !tx.is_coinbase() {
            let vin = tx.get_vin();
            let ghost vinv = tx@.vin;
            proof {
                assert(vinv.take(0) =~= Seq::<TxInV>::empty());
            }
            let mut k: usize = 0;
            while k < vin.len()
                invariant
                    k <= vin@.len(),
                    vinv == vin_views(vin@),
                    vinv == tx@.vin,
                    self.chain() == old(self).chain(),
                    m0 == old(self).contents(),
                    self.wf(),
                    spec_spend_all(m0, vinv.take(k as int)) == Some(self.contents()),
                decreases vin@.len() - k,
            {
                proof {
                    assert(vin@[k as int]@ == vinv[k as int]);
                }
                let txid = vin[k].get_txid();
                let outid = vin[k].get_outid();
                let out_bytes = match tree_get(&self.utxo_tree, txid) {
                    Ok(Some(v)) => v,
                    Ok(None) => {
                        return Err(ChainError::Codec);
                    },
                    Err(e) => {
                        return Err(e);
                    },
                };
                let outs = match decode_outs(out_bytes.as_slice()) {
                    Some(v) => v,
                    None => {
                        return Err(ChainError::Codec);
                    },
                };
                let mut updated_outs: Vec<TxOutput> = Vec::new();
                let mut idx: usize = 0;
                while idx < outs.len()
                    invariant
                        idx <= outs@.len(),
                        outid as u64 == vinv[k as int].outid,
                        vout_views(updated_outs@) =~= spec_remove_at(
                            vout_views(outs@).take(idx as int),
                            outid as int,
                        ),
                    decreases outs@.len() - idx,
                {
                    let ghost upto = vout_views(outs@).take(idx as int);
                    proof {
                        assert(vout_views(outs@).take(idx as int + 1) =~= upto.push(
                            vout_views(outs@)[idx as int],
                        ));
                        assert(outs@[idx as int]@ == vout_views(outs@)[idx as int]);
                        lemma_remove_at_push(upto, vout_views(outs@)[idx as int], outid as int);
                    }
                    if idx != outid {
                        let o = outs[idx].clone();
                        proof {
                            assert(o@ == vout_views(outs@)[idx as int]);
                            assert(vout_views(updated_outs@).len() == spec_remove_at(
                                upto,
                                outid as int,
                            ).len());
                        }
                        updated_outs.push(o);
                        proof {
                            assert forall|q: int|
                                0 <= q < vout_views(updated_outs@).len() implies vout_views(
                                updated_outs@,
                            )[q] == spec_remove_at(
                                vout_views(outs@).take(idx as int + 1),
                                outid as int,
                            )[q] by {
                                assert(vout_views(updated_outs@)[q] == updated_outs@[q]@);
                            }
                            assert(vout_views(updated_outs@) =~= spec_remove_at(
                                vout_views(outs@).take(idx as int + 1),
                                outid as int,
                            ));
                        }
                    }
                    idx = idx + 1;
                }
                proof {
                    assert(vout_views(outs@).take(outs@.len() as int) =~= vout_views(outs@));
                }
                let ghost m_before = self.contents();
                if updated_outs.len() == 0 {
                    match tree_remove(&mut self.utxo_tree, txid) {
                        Ok(()) => (),
                        Err(e) => {
                            return Err(e);
                        },
                    }
                } else {
                    let mut nonneg = true;
                    let mut c: usize = 0;
                    while c < updated_outs.len()
                        invariant
                            c <= updated_outs@.len(),
                            nonneg ==> forall|q: int|
                                0 <= q < c ==> (#[trigger] vout_views(updated_outs@)[q]).cost
                                    >= 0,
                        decreases updated_outs@.len() - c,
                    {
                        if updated_outs[c].get_cost() < 0 {
                            nonneg = false;
                        }
                        proof {
                            assert(updated_outs@[c as int]@ == vout_views(updated_outs@)[
                            c as int]);
                        }
                        c = c + 1;
                    }
                    if !nonneg {
                        return Err(ChainError::Codec);
                    }
                    let enc = encode_outs(&updated_outs);
                    match tree_insert(&mut self.utxo_tree, txid, enc.as_slice()) {
                        Ok(()) => (),
                        Err(e) => {
                            return Err(e);
                        },
                    }
                }
                proof {
                    assert(spec_spend_one(m_before, vinv[k as int]) == Some(self.contents()));
                    lemma_spend_all_push(m0, vinv, k as int);
                    assert(vinv.take(k as int + 1).len() > 0);
                }
                k = k + 1;
            }
            proof {
                assert(vinv.take(vin@.len() as int) =~= vinv);
            }
        }
        let new_outputs = tx.get_vout();
        let mut outs_vec: Vec<TxOutput> = Vec::new();
        let mut q: usize = 0;
        while q < new_outputs.len()
            invariant
                q <= new_outputs@.len(),
                crate::transaction::tx_fits(tx@),
                vout_views(new_outputs@) == tx@.vout,
                vout_views(outs_vec@) =~= tx@.vout.take(q as int),
            decreases new_outputs@.len() - q,
        {
            let o = new_outputs[q].clone();
            proof {
                assert(o@ == vout_views(new_outputs@)[q as int]);
                assert(vout_views(outs_vec@).len() == q);
            }
            outs_vec.push(o);
            proof {
                assert forall|w: int| 0 <= w < q + 1 implies vout_views(outs_vec@)[w]
                    == tx@.vout.take(q as int + 1)[w] by {
                    assert(vout_views(outs_vec@)[w] == outs_vec@[w]@);
                }
                assert(vout_views(outs_vec@) =~= tx@.vout.take(q as int + 1));
            }
            q = q + 1;
        }
        proof {
            assert(tx@.vout.take(new_outputs@.len() as int) =~= tx@.vout);
            assert forall|w: int| 0 <= w < outs_vec@.len() implies (#[trigger] vout_views(
                outs_vec@,
            )[w]).cost >= 0 by {
                assert(crate::transaction::txout_fits(tx@.vout[w]));
            }
        }
        let enc = encode_outs(&outs_vec);
        match tree_insert(&mut self.utxo_tree, tx.get_id(), enc.as_slice()) {
            Ok(()) => (),
            Err(e) => {
                return Err(e);
            },
        }
        Ok(())
    }

    /// How many transactions currently have unspent outputs.
    pub fn count_transactions(&self) -> (r: i32)
        requires
            self.wf(),
        ensures
            r == self.contents().dom().len() as u32 as i32,
    {
        let n = tree_len(&self.utxo_tree);
        #[verifier::truncate]
        let r = n as u32 as i32;
        proof {
            assert(n as u32 == self.contents().dom().len() as u32);
        }
        r
    }

    /// Every output in the index locked to `pub_key_hash`: exactly the
    /// locked outputs of the decoded entries, over some enumeration of
    /// the whole index.
    pub fn find_utxo(&self, pub_key_hash: &[u8]) -> (r: Result<Vec<TxOutput>, ChainError>)
        requires
            self.wf(),
        ensures
            r matches Ok(v) ==> forall|i: int|
                0 <= i < v@.len() ==> (#[trigger] vout_views(v@)[i]).pub_key_hash
                    == pub_key_hash@,
            r matches Ok(v) ==> exists|entries: Seq<(Seq<u8>, Seq<u8>)>| {
                &&& forall|i: int|
                    0 <= i < entries.len() ==> self.contents().contains_pair(
                        (#[trigger] entries[i]).0,
                        entries[i].1,
                    )
                &&& forall|k: Seq<u8>|
                    self.contents().contains_key(k) ==> exists|i: int|
                        0 <= i < entries.len() && (#[trigger] entries[i]).0 == k
                &&& spec_collect_locked(entries, pub_key_hash@) == Some(vout_views(v@))
            },
    {
        let mut utxos: Vec<TxOutput> = Vec::new();
        let mut it = tree_iter(&self.utxo_tree);
        let ghost items0 = iter_items(it);
        let ghost mut consumed: int = 0;
        proof {
            assert(items0.skip(0) =~= items0);
        }
        loop
            invariant
                0 <= consumed <= items0.len(),
                iter_items(it) == items0.skip(consumed),
                forall|i: int|
                    0 <= i < items0.len() ==> self.contents().contains_pair(
                        (#[trigger] items0[i]).0,
                        items0[i].1,
                    ),
                forall|k: Seq<u8>|
                    self.contents().contains_key(k) ==> exists|i: int|
                        0 <= i < items0.len() && (#[trigger] items0[i]).0 == k,
                spec_collect_locked(items0, pub_key_hash@) matches Some(w)
                    ==> (spec_collect_locked(items0.skip(consumed), pub_key_hash@) matches Some(t)
                    && w =~= vout_views(utxos@) + t),
                spec_collect_locked(items0, pub_key_hash@) is None ==> spec_collect_locked(
                    items0.skip(consumed),
                    pub_key_hash@,
                ) is None,
                forall|i: int|
                    0 <= i < utxos@.len() ==> (#[trigger] vout_views(utxos@)[i]).pub_key_hash
                        == pub_key_hash@,
            decreases iter_items(it).len(),
        {
            let entry = match iter_next(&mut it) {
                Ok(Some(kv)) => kv,
                Ok(None) => {
                    proof {
                        assert(items0.skip(consumed).len() == 0);
                        assert(spec_collect_locked(items0.skip(consumed), pub_key_hash@) == Some(
                            Seq::<TxOutV>::empty(),
                        ));
                        let w = spec_collect_locked(items0, pub_key_hash@).unwrap();
                        assert(w =~= vout_views(utxos@) + Seq::<TxOutV>::empty());
                        assert(vout_views(utxos@) + Seq::<TxOutV>::empty() =~= vout_views(
                            utxos@,
                        ));
                    }
                    return Ok(utxos);
                },
                Err(e) => {
                    return Err(e);
                },
            };
            proof {
                assert(items0.skip(consumed)[0] == (entry.0@, entry.1@));
                assert(items0.skip(consumed).drop_first() =~= items0.skip(consumed + 1));
            }
            let outs = match decode_outs(entry.1.as_slice()) {
                Some(v) => v,
                None => {
                    return Err(ChainError::Codec);
                },
            };
            let ghost base = vout_views(utxos@);
            let ghost outsv = vout_views(outs@);
            let mut w: usize = 0;
            proof {
                assert(outsv.take(0) =~= Seq::<TxOutV>::empty());
                assert(base + spec_locked_outs(outsv.take(0), pub_key_hash@) =~= base);
            }
            while w < outs.len()
                invariant
                    w <= outs@.len(),
                    outsv == vout_views(outs@),
                    base.len() <= vout_views(utxos@).len(),
                    vout_views(utxos@) =~= base + spec_locked_outs(
                        outsv.take(w as int),
                        pub_key_hash@,
                    ),
                    forall|i: int|
                        0 <= i < utxos@.len() ==> (#[trigger] vout_views(utxos@)[i]).pub_key_hash
                            == pub_key_hash@,
                decreases outs@.len() - w,
            {
                proof {
                    assert(outsv.take(w as int + 1) =~= outsv.take(w as int) + seq![outsv[
                    w as int]]);
                    lemma_locked_outs_concat(outsv.take(w as int), seq![outsv[w as int]], pub_key_hash@);
                    assert(seq![outsv[w as int]][0] == outsv[w as int]);
                    assert(seq![outsv[w as int]].drop_first() =~= Seq::<TxOutV>::empty());
                    assert(spec_locked_outs(Seq::<TxOutV>::empty(), pub_key_hash@)
                        =~= Seq::<TxOutV>::empty());
                    assert(outs@[w as int]@ == outsv[w as int]);
                }
                if outs[w].is_locked_with_key(pub_key_hash) {
                    let o = outs[w].clone();
                    let ghost before = utxos@;
                    proof {
                        assert(o@ == outsv[w as int]);
                    }
                    utxos.push(o);
                    proof {
                        assert forall|i: int| 0 <= i < utxos@.len() implies (
                        #[trigger] vout_views(utxos@)[i]) == (base + spec_locked_outs(
                            outsv.take(w as int + 1),
                            pub_key_hash@,
                        ))[i] by {
                            assert(vout_views(utxos@)[i] == utxos@[i]@);
                            if i < before.len() {
                                assert(utxos@[i] == before[i]);
                                assert(vout_views(before)[i] == before[i]@);
                            }
                        }
                        assert(vout_views(utxos@) =~= base + spec_locked_outs(
                            outsv.take(w as int + 1),
                            pub_key_hash@,
                        ));
                        assert forall|i: int| 0 <= i < utxos@.len() implies (
                        #[trigger] vout_views(utxos@)[i]).pub_key_hash == pub_key_hash@ by {
                            assert(vout_views(utxos@)[i] == utxos@[i]@);
                            if i < before.len() {
                                assert(utxos@[i] == before[i]);
                                assert(vout_views(before)[i] == before[i]@);
                            }
                        }
                    }
                } else {
                    proof {
                        assert(spec_locked_outs(outsv.take(w as int + 1), pub_key_hash@)
                            =~= spec_locked_outs(outsv.take(w as int), pub_key_hash@));
                    }
                }
                w = w + 1;
            }
            proof {
                assert(outsv.take(outs@.len() as int) =~= outsv);
                let full = spec_collect_locked(items0, pub_key_hash@);
                let head_entry = items0.skip(consumed)[0];
                assert(spec_dec_outs(head_entry.1) == Some(outsv));
                if full is Some {
                    let wfull = full.unwrap();
                    let t = spec_collect_locked(items0.skip(consumed), pub_key_hash@).unwrap();
                    let t2 = spec_collect_locked(items0.skip(consumed + 1), pub_key_hash@).unwrap();
                    assert(t =~= spec_locked_outs(outsv, pub_key_hash@) + t2);
                    assert(wfull =~= base + t);
                    assert(wfull =~= vout_views(utxos@) + t2) by {
                        assert(vout_views(utxos@) =~= base + spec_locked_outs(
                            outsv,
                            pub_key_hash@,
                        ));
                    }
                } else {
                    assert(spec_collect_locked(items0.skip(consumed + 1), pub_key_hash@)
                        is None);
                }
                consumed = consumed + 1;
            }
        }
    }

    /// Rebuilds the index from the chain: the entries become exactly
    /// the chain's unspent outputs, each list in its encoded form.
    pub fn reindex(&mut self) -> (r: Result<(), ChainError>)
        requires
            old(self).wf(),
        ensures
            final(self).chain() == old(self).chain(),
            r is Ok ==> final(self).wf() && forall|ch: Seq<BlockV>|
                #[trigger] is_chain_from(
                    final(self).chain().blocks(),
                    final(self).chain().tip(),
                    ch,
                ) ==> utxo_encoded_matches(final(self).contents(), spec_chain_utxo(ch)),
    {
        let utxo_map = match self.blockchain.find_utxo() {
            Ok(v) => v,
            Err(e) => {
                return Err(e);
            },
        };
        match tree_clear(&mut self.utxo_tree) {
            Ok(()) => (),
            Err(e) => {
                return Err(e);
            },
        }
        let ghost v = utxo_map@;
        let mut i: usize = 0;
        proof {
            assert(self.contents().dom() =~= Set::<Seq<u8>>::empty());
        }
        while i < utxo_map.len()
            invariant
                i <= v.len(),
                v == utxo_map@,
                self.chain() == old(self).chain(),
                self.chain().wf(),
                self.contents().dom().finite(),
                forall|ch: Seq<BlockV>|
                    #[trigger] is_chain_from(self.chain().blocks(), self.chain().tip(), ch)
                        ==> hex_assoc_matches(v, spec_chain_utxo(ch)),
                forall|j: int|
                    0 <= j < v.len() ==> crate::hexcode::spec_hex_decode((#[trigger] v[j]).0@)
                        is Some,
                forall|a: int, b: int|
                    0 <= a < b < v.len() ==> (#[trigger] v[a]).0@ != (#[trigger] v[b]).0@,
                forall|j: int|
                    0 <= j < i ==> (crate::hexcode::spec_hex_decode((#[trigger] v[j]).0@)
                        matches Some(kj) && self.contents().contains_pair(
                        kj,
                        spec_outs_bytes(vout_views(v[j].1@)),
                    )),
                forall|k: Seq<u8>|
                    self.contents().contains_key(k) ==> exists|j: int|
                        0 <= j < i && crate::hexcode::spec_hex_decode((#[trigger] v[j]).0@)
                            == Some(k),
            decreases v.len() - i,
        {
            let txid = match hex_decode(utxo_map[i].0.as_str()) {
                Some(k) => k,
                None => {
                    return Err(ChainError::Codec);
                },
            };
            let outs = &utxo_map[i].1;
            let mut nonneg = true;
            let mut c: usize = 0;
            while c < outs.len()
                invariant
                    c <= outs@.len(),
                    nonneg ==> forall|q: int|
                        0 <= q < c ==> (#[trigger] vout_views(outs@)[q]).cost >= 0,
                decreases outs@.len() - c,
            {
                if outs[c].get_cost() < 0 {
                    nonneg = false;
                }
                proof {
                    assert(outs@[c as int]@ == vout_views(outs@)[c as int]);
                }
                c = c + 1;
            }
            if !nonneg {
                return Err(ChainError::Codec);
            }
            let enc = encode_outs(outs);
            let ghost m_before = self.contents();
            match tree_insert(&mut self.utxo_tree, txid.as_slice(), enc.as_slice()) {
                Ok(()) => (),
                Err(e) => {
                    return Err(e);
                },
            }
            proof {
                assert forall|j: int| 0 <= j < i + 1 implies (crate::hexcode::spec_hex_decode((
                #[trigger] v[j]).0@) matches Some(kj) && self.contents().contains_pair(
                    kj,
                    spec_outs_bytes(vout_views(v[j].1@)),
                )) by {
                    if j < i {
                        let kj = crate::hexcode::spec_hex_decode(v[j].0@).unwrap();
                        let ki = crate::hexcode::spec_hex_decode(v[i as int].0@).unwrap();
                        if kj == ki {
                            crate::hexcode::lemma_hex_decode_canonical(v[j].0@);
                            crate::hexcode::lemma_hex_decode_canonical(v[i as int].0@);
                            assert(false);
                        }
                    } else {
                        assert(txid@ == crate::hexcode::spec_hex_decode(v[i as int].0@).unwrap());
                    }
                }
                assert forall|k: Seq<u8>| self.contents().contains_key(k) implies exists|j: int|
                    0 <= j < i + 1 && crate::hexcode::spec_hex_decode((#[trigger] v[j]).0@)
                        == Some(k) by {
                    if k != txid@ {
                        assert(m_before.contains_key(k));
                    } else {
                        assert(crate::hexcode::spec_hex_decode(v[i as int].0@) == Some(k));
                    }
                }
            }
            i = i + 1;
        }
        proof {
            assert forall|ch: Seq<BlockV>|
                #[trigger] is_chain_from(self.chain().blocks(), self.chain().tip(), ch) implies
            utxo_encoded_matches(self.contents(), spec_chain_utxo(ch)) by {
                let u = spec_chain_utxo(ch);
                assert(hex_assoc_matches(v, u));
                assert forall|k: Seq<u8>| #[trigger]
                    self.contents().contains_key(k) implies u.contains_key(k) by {
                    let j = choose|j: int|
                        0 <= j < v.len() && crate::hexcode::spec_hex_decode((#[trigger] v[j]).0@)
                            == Some(k);
                    assert(crate::hexcode::spec_hex_decode(v[j].0@) matches Some(kj)
                        && u.contains_pair(kj, vout_views(v[j].1@)));
                }
                assert forall|k: Seq<u8>| #[trigger]
                    u.contains_key(k) implies self.contents().contains_key(k)
                    && self.contents()[k] == spec_outs_bytes(u[k]) by {
                    let j = choose|j: int|
                        0 <= j < v.len() && (#[trigger] v[j]).0@ == crate::hexcode::spec_hex(k);
                    crate::hexcode::lemma_hex_roundtrip(k);
                    assert(crate::hexcode::spec_hex_decode(v[j].0@) == Some(k));
                    assert(self.contents().contains_pair(
                        k,
                        spec_outs_bytes(vout_views(v[j].1@)),
                    ));
                    assert(u.contains_pair(k, vout_views(v[j].1@)));
                }
            }
        }
        Ok(())
    }

    /// Spendable outputs of `pub_key_hash` until `amount` is covered:
    /// exactly the selection `spec_select` makes over some enumeration
    /// of the whole index — outputs locked to the key are taken, in
    /// entry order, while the gathered value is below `amount`, so the
    /// accumulated value is their sum and falls short of `amount` only
    /// when every locked output was taken.
    pub fn find_spendable_outputs(&self, pub_key_hash: &[u8], amount: i32) -> (r: Result<
        (i64, Vec<(String, Vec<usize>)>),
        ChainError,
    >)
        requires
            self.wf(),
        ensures
            r matches Ok(p) ==> p.0 >= 0 && (exists|entries: Seq<(Seq<u8>, Seq<u8>)>|
                #![trigger spec_select(entries, pub_key_hash@, amount as int, 0)]
                {
                    &&& forall|i: int|
                        0 <= i < entries.len() ==> self.contents().contains_pair(
                            (#[trigger] entries[i]).0,
                            entries[i].1,
                        )
                    &&& forall|k: Seq<u8>|
                        self.contents().contains_key(k) ==> exists|i: int|
                            0 <= i < entries.len() && (#[trigger] entries[i]).0 == k
                    &&& spec_select(entries, pub_key_hash@, amount as int, 0) matches Some(sel)
                        && p.0 == sel.0 && sel_spelled(sel.1) == sel_views(p.1@)
                }),
            r matches Err(e) ==> e == ChainError::Store || e == ChainError::Codec,
    {
        let mut accumulated: i64 = 0;
        let mut unspent_outputs: Vec<(String, Vec<usize>)> = Vec::new();
        let mut it = tree_iter(&self.utxo_tree);
        let ghost items0 = iter_items(it);
        let ghost mut consumed: int = 0;
        proof {
            assert(items0.skip(0) =~= items0);
            assert(sel_views(unspent_outputs@) =~= Seq::<(Seq<char>, Seq<int>)>::empty());
        }
        loop
            invariant
                0 <= accumulated <= 0x4000_0000_0000_0000i64,
                0 <= consumed <= items0.len(),
                iter_items(it) == items0.skip(consumed),
                forall|i: int|
                    0 <= i < items0.len() ==> self.contents().contains_pair(
                        (#[trigger] items0[i]).0,
                        items0[i].1,
                    ),
                forall|k: Seq<u8>|
                    self.contents().contains_key(k) ==> exists|i: int|
                        0 <= i < items0.len() && (#[trigger] items0[i]).0 == k,
                spec_select(items0, pub_key_hash@, amount as int, 0) matches Some(sel) ==> (
                spec_select(items0.skip(consumed), pub_key_hash@, amount as int, accumulated as int)
                    matches Some(selr) && sel.0 == selr.0 && sel_spelled(sel.1) =~= sel_views(
                    unspent_outputs@,
                ) + sel_spelled(selr.1)),
                spec_select(items0, pub_key_hash@, amount as int, 0) is None ==> spec_select(
                    items0.skip(consumed),
                    pub_key_hash@,
                    amount as int,
                    accumulated as int,
                ) is None,
            decreases iter_items(it).len(),
        {
            let entry = match iter_next(&mut it) {
                Ok(Some(kv)) => kv,
                Ok(None) => {
                    proof {
                        assert(items0.skip(consumed).len() == 0);
                        if spec_select(items0, pub_key_hash@, amount as int, 0) is Some {
                            let sel = spec_select(
                                items0,
                                pub_key_hash@,
                                amount as int,
                                0,
                            ).unwrap();
                            assert(sel_spelled(Seq::<(Seq<u8>, Seq<int>)>::empty())
                                =~= Seq::<(Seq<char>, Seq<int>)>::empty());
                            assert(sel_spelled(sel.1) =~= sel_views(unspent_outputs@));
                        } else {
                            assert(false);
                        }
                    }
                    return Ok((accumulated, unspent_outputs));
                },
                Err(e) => {
                    return Err(e);
                },
            };
            proof {
                assert(items0.skip(consumed)[0] == (entry.0@, entry.1@));
                assert(items0.skip(consumed).drop_first() =~= items0.skip(consumed + 1));
            }
            let txid_hex = crate::hexcode::hex_encode(entry.0.as_slice());
            let outs = match decode_outs(entry.1.as_slice()) {
                Some(v) => v,
                None => {
                    return Err(ChainError::Codec);
                },
            };
            let ghost outsv = vout_views(outs@);
            let ghost acc_start: int = accumulated as int;
            let mut idxs: Vec<usize> = Vec::new();
            let mut idx: usize = 0;
            proof {
                assert(outsv.skip(0) =~= outsv);
                assert(idxs_as_int(idxs@) =~= Seq::<int>::empty());
            }
            while idx < outs.len()
                invariant
                    idx <= outs@.len(),
                    0 <= accumulated <= 0x4000_0000_0000_0000i64,
                    outsv == vout_views(outs@),
                    spec_pick(outsv, 0, pub_key_hash@, amount as int, acc_start) matches Some(
                        pk,
                    ) ==> (spec_pick(
                        outsv.skip(idx as int),
                        idx as int,
                        pub_key_hash@,
                        amount as int,
                        accumulated as int,
                    ) matches Some(pkr) && pk.0 == pkr.0 && pk.1 =~= idxs_as_int(idxs@) + pkr.1),
                    spec_pick(outsv, 0, pub_key_hash@, amount as int, acc_start) is None
                        ==> spec_pick(
                        outsv.skip(idx as int),
                        idx as int,
                        pub_key_hash@,
                        amount as int,
                        accumulated as int,
                    ) is None,
                decreases outs@.len() - idx,
            {
                proof {
                    assert(outsv.skip(idx as int)[0] == outsv[idx as int]);
                    assert(outsv.skip(idx as int).drop_first() =~= outsv.skip(idx as int + 1));
                    assert(outs@[idx as int]@ == outsv[idx as int]);
                }
                if outs[idx].is_locked_with_key(pub_key_hash) && accumulated < amount as i64 {
                    let c = outs[idx].get_cost();
                    if c < 0 {
                        return Err(ChainError::Codec);
                    }
                    let ghost idxs_before = idxs@;
                    accumulated = accumulated + c as i64;
                    idxs.push(idx);
                    proof {
                        assert(idxs_as_int(idxs@) =~= idxs_as_int(idxs_before).push(idx as int));
                        assert forall|q: int|
                            0 <= q < idxs_as_int(idxs@).len() implies idxs_as_int(idxs@)[q] == (
                        idxs_as_int(idxs_before).push(idx as int))[q] by {
                            if q < idxs_before.len() {
                                assert(idxs@[q] == idxs_before[q]);
                            }
                        }
                        let full = spec_pick(outsv, 0, pub_key_hash@, amount as int, acc_start);
                        if full is Some {
                            let pk = full.unwrap();
                            let pkr_new = spec_pick(
                                outsv.skip(idx as int + 1),
                                idx as int + 1,
                                pub_key_hash@,
                                amount as int,
                                accumulated as int,
                            );
                            assert(pkr_new is Some);
                            assert(pk.1 =~= idxs_as_int(idxs@) + pkr_new.unwrap().1);
                        }
                    }
                }
                idx = idx + 1;
            }
            proof {
                assert(outsv.skip(outs@.len() as int) =~= Seq::<TxOutV>::empty());
            }
            if idxs.len() > 0 {
                let ghost out_before = unspent_outputs@;
                unspent_outputs.push((txid_hex, idxs));
                proof {
                    assert forall|q: int|
                        0 <= q < sel_views(unspent_outputs@).len() implies sel_views(
                        unspent_outputs@,
                    )[q] == (sel_views(out_before).push(
                        (crate::hexcode::spec_hex(entry.0@), idxs_as_int(idxs@)),
                    ))[q] by {
                        if q < out_before.len() {
                            assert(unspent_outputs@[q] == out_before[q]);
                        }
                    }
                    assert(sel_views(unspent_outputs@) =~= sel_views(out_before).push(
                        (crate::hexcode::spec_hex(entry.0@), idxs_as_int(idxs@)),
                    ));
                }
            }
            proof {
                consumed = consumed + 1;
            }
        }
    }
}

/// Removing a position commutes with appending later entries./// Removing a position commutes with appending later entries.
proof fn lemma_remove_at_push(s: Seq<TxOutV>, x: TxOutV, i: int)
    ensures
        i < s.len() ==> spec_remove_at(s.push(x), i) =~= spec_remove_at(s, i).push(x),
        i == s.len() ==> spec_remove_at(s.push(x), i) =~= s,
        i > s.len() ==> spec_remove_at(s.push(x), i) =~= s.push(x),
{
    if 0 <= i < s.len() {
        assert(spec_remove_at(s.push(x), i) =~= spec_remove_at(s, i).push(x));
    } else if i == s.len() {
        assert(s.push(x).remove(i) =~= s);
    }
}

} // verus!
