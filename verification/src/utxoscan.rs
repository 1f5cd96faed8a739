//! The full-chain scan for unspent outputs: walking tip-first, each
//! transaction's outputs are kept unless a later (higher) spender was
//! already seen, and each non-coinbase input marks its referenced
//! output as spent.

use vstd::prelude::*;

use crate::block::block_views;
use crate::block::Block;
use crate::block::BlockV;
use crate::bytesutil::bytes_equal;
use crate::transaction::spec_is_coinbase;
use crate::transaction::tx_views;
use crate::transaction::vout_views;
use crate::transaction::Transaction;
use crate::transaction::TxInV;
use crate::transaction::TxOutput;
use crate::transaction::TxOutV;
use crate::transaction::TxV;

verus! {

/// The scan state: unspent outputs per transaction id, and the set of
/// spent (transaction id, output index) pairs seen so far.
pub struct UtxoAcc {
    pub utxo: Map<Seq<u8>, Seq<TxOutV>>,
    pub spent: Set<(Seq<u8>, int)>,
}

/// The outputs of `vout` from index `idx` on that are not marked spent.
pub open spec fn spec_unspent(
    txid: Seq<u8>,
    vout: Seq<TxOutV>,
    idx: int,
    spent: Set<(Seq<u8>, int)>,
) -> Seq<TxOutV>
    decreases vout.len(),
{
    if vout.len() == 0 {
        Seq::empty()
    } else {
        let rest = spec_unspent(txid, vout.drop_first(), idx + 1, spent);
        if spent.contains((txid, idx)) {
            rest
        } else {
            seq![vout[0]] + rest
        }
    }
}

/// The spent set extended by every pair an input list references.
pub open spec fn spec_add_spends(spent: Set<(Seq<u8>, int)>, vin: Seq<TxInV>) -> Set<
    (Seq<u8>, int),
>
    decreases vin.len(),
{
    if vin.len() == 0 {
        spent
    } else {
        spec_add_spends(spent.insert((vin[0].txid, vin[0].outid as int)), vin.drop_first())
    }
}

/// One transaction's effect on the scan state: its unspent outputs are
/// recorded (appended to any entry already present), then its inputs
/// are marked spent unless it is a coinbase.
pub open spec fn spec_scan_tx(acc: UtxoAcc, t: TxV) -> UtxoAcc {
    let outs = spec_unspent(t.id, t.vout, 0, acc.spent);
    let prev = if acc.utxo.contains_key(t.id) {
        acc.utxo[t.id]
    } else {
        Seq::empty()
    };
    let utxo2 = if outs.len() == 0 {
        acc.utxo
    } else {
        acc.utxo.insert(t.id, prev + outs)
    };
    let spent2 = if spec_is_coinbase(t) {
        acc.spent
    } else {
        spec_add_spends(acc.spent, t.vin)
    };
    UtxoAcc { utxo: utxo2, spent: spent2 }
}

/// A transaction list's effect, first to last.
pub open spec fn spec_scan_txs(acc: UtxoAcc, txs: Seq<TxV>) -> UtxoAcc
    decreases txs.len(),
{
    if txs.len() == 0 {
        acc
    } else {
        spec_scan_txs(spec_scan_tx(acc, txs[0]), txs.drop_first())
    }
}

/// A block list's effect, tip first.
pub open spec fn spec_scan_blocks(acc: UtxoAcc, blocks: Seq<BlockV>) -> UtxoAcc
    decreases blocks.len(),
{
    if blocks.len() == 0 {
        acc
    } else {
        spec_scan_blocks(spec_scan_tx_acc(acc, blocks[0]), blocks.drop_first())
    }
}

/// One block's effect: its transaction list's effect.
pub open spec fn spec_scan_tx_acc(acc: UtxoAcc, b: BlockV) -> UtxoAcc {
    spec_scan_txs(acc, b.transactions)
}

/// The empty scan state.
pub open spec fn spec_empty_acc() -> UtxoAcc {
    UtxoAcc { utxo: Map::empty(), spent: Set::empty() }
}

/// The unspent outputs of a chain, keyed by raw transaction id.
pub open spec fn spec_chain_utxo(blocks: Seq<BlockV>) -> Map<Seq<u8>, Seq<TxOutV>> {
    spec_scan_blocks(spec_empty_acc(), blocks).utxo
}

/// Scanning one more transaction steps the fold.
pub proof fn lemma_scan_txs_push(acc: UtxoAcc, txs: Seq<TxV>, j: int)
    requires
        0 <= j < txs.len(),
    ensures
        spec_scan_txs(acc, txs.take(j + 1)) == spec_scan_tx(spec_scan_txs(acc, txs.take(j)), txs[j]),
    decreases j,
{
    if j == 0 {
        assert(txs.take(1)[0] == txs[0]);
        assert(txs.take(1).drop_first() =~= Seq::<TxV>::empty());
        assert(txs.take(0) =~= Seq::<TxV>::empty());
        assert(spec_scan_txs(spec_scan_tx(acc, txs[0]), Seq::<TxV>::empty()) == spec_scan_tx(
            acc,
            txs[0],
        ));
        assert(spec_scan_txs(acc, Seq::<TxV>::empty()) == acc);
    } else {
        assert(txs.take(j + 1)[0] == txs[0]);
        assert(txs.take(j)[0] == txs[0]);
        assert(txs.take(j + 1).drop_first() =~= txs.drop_first().take(j));
        assert(txs.take(j).drop_first() =~= txs.drop_first().take(j - 1));
        lemma_scan_txs_push(spec_scan_tx(acc, txs[0]), txs.drop_first(), j - 1);
        assert(txs.drop_first()[j - 1] == txs[j]);
    }
}

/// Scanning one more block steps the fold.
pub proof fn lemma_scan_blocks_push(acc: UtxoAcc, blocks: Seq<BlockV>, i: int)
    requires
        0 <= i < blocks.len(),
    ensures
        spec_scan_blocks(acc, blocks.take(i + 1)) == spec_scan_tx_acc(
            spec_scan_blocks(acc, blocks.take(i)),
            blocks[i],
        ),
    decreases i,
{
    if i == 0 {
        assert(blocks.take(1)[0] == blocks[0]);
        assert(blocks.take(1).drop_first() =~= Seq::<BlockV>::empty());
        assert(blocks.take(0) =~= Seq::<BlockV>::empty());
        assert(spec_scan_blocks(spec_scan_tx_acc(acc, blocks[0]), Seq::<BlockV>::empty())
            == spec_scan_tx_acc(acc, blocks[0]));
        assert(spec_scan_blocks(acc, Seq::<BlockV>::empty()) == acc);
    } else {
        assert(blocks.take(i + 1)[0] == blocks[0]);
        assert(blocks.take(i)[0] == blocks[0]);
        assert(blocks.take(i + 1).drop_first() =~= blocks.drop_first().take(i));
        assert(blocks.take(i).drop_first() =~= blocks.drop_first().take(i - 1));
        lemma_scan_blocks_push(spec_scan_tx_acc(acc, blocks[0]), blocks.drop_first(), i - 1);
        assert(blocks.drop_first()[i - 1] == blocks[i]);
    }
}

/// Adding spends one at a time lands in the set one at a time.
pub proof fn lemma_add_spends_insert(spent: Set<(Seq<u8>, int)>, vin: Seq<TxInV>, p: (Seq<u8>, int))
    ensures
        spec_add_spends(spent.insert(p), vin) == spec_add_spends(spent, vin).insert(p),
    decreases vin.len(),
{
    if vin.len() == 0 {
    } else {
        let q = (vin[0].txid, vin[0].outid as int);
        assert(spent.insert(p).insert(q) =~= spent.insert(q).insert(p));
        lemma_add_spends_insert(spent.insert(q), vin.drop_first(), p);
    }
}

/// Stepping the spends fold.
pub proof fn lemma_add_spends_push(spent: Set<(Seq<u8>, int)>, vin: Seq<TxInV>, k: int)
    requires
        0 <= k < vin.len(),
    ensures
        spec_add_spends(spent, vin.take(k + 1)) == spec_add_spends(spent, vin.take(k)).insert(
            (vin[k].txid, vin[k].outid as int),
        ),
    decreases k,
{
    if k == 0 {
        assert(vin.take(1)[0] == vin[0]);
        assert(vin.take(1).drop_first() =~= Seq::<TxInV>::empty());
        assert(vin.take(0) =~= Seq::<TxInV>::empty());
        lemma_add_spends_insert(spent, Seq::<TxInV>::empty(), (vin[0].txid, vin[0].outid as int));
    } else {
        assert(vin.take(k + 1)[0] == vin[0]);
        assert(vin.take(k)[0] == vin[0]);
        assert(vin.take(k + 1).drop_first() =~= vin.drop_first().take(k));
        assert(vin.take(k).drop_first() =~= vin.drop_first().take(k - 1));
        lemma_add_spends_push(
            spent.insert((vin[0].txid, vin[0].outid as int)),
            vin.drop_first(),
            k - 1,
        );
        assert(vin.drop_first()[k - 1] == vin[k]);
    }
}

/// The set a spent-pair list denotes.
pub open spec fn spent_set_of(s: Seq<(Vec<u8>, usize)>) -> Set<(Seq<u8>, int)> {
    Set::new(
        |p: (Seq<u8>, int)|
            exists|i: int|
                0 <= i < s.len() && (#[trigger] s[i]).0@ == p.0 && s[i].1 as int == p.1,
    )
}

/// Whether the list already records the pair.
fn spent_contains(spent: &Vec<(Vec<u8>, usize)>, txid: &[u8], idx: usize) -> (r: bool)
    ensures
        r == spent_set_of(spent@).contains((txid@, idx as int)),
{
    let n = spent.len();
    let mut i: usize = 0;
    while i < n
        invariant
            n == spent@.len(),
            i <= n,
            forall|k: int|
                0 <= k < i ==> !((#[trigger] spent@[k]).0@ == txid@ && spent@[k].1 == idx),
        decreases n - i,
    {
        if bytes_equal(spent[i].0.as_slice(), txid) && spent[i].1 == idx {
            return true;
        }
        i = i + 1;
    }
    assert(!spent_set_of(spent@).contains((txid@, idx as int)));
    false
}

/// Appending a pair to the list inserts it into the denoted set.
pub proof fn lemma_spent_push(s: Seq<(Vec<u8>, usize)>, e: (Vec<u8>, usize))
    ensures
        spent_set_of(s.push(e)) =~= spent_set_of(s).insert((e.0@, e.1 as int)),
{
    let s2 = s.push(e);
    assert forall|p: (Seq<u8>, int)| spent_set_of(s2).contains(p) implies spent_set_of(
        s,
    ).insert((e.0@, e.1 as int)).contains(p) by {
        let i = choose|i: int| 0 <= i < s2.len() && (#[trigger] s2[i]).0@ == p.0 && s2[i].1 as int
            == p.1;
        if i < s.len() {
            assert(s[i] == s2[i]);
        }
    }
    assert forall|p: (Seq<u8>, int)|
        spent_set_of(s).insert((e.0@, e.1 as int)).contains(p) implies spent_set_of(s2).contains(
        p,
    ) by {
        if p == (e.0@, e.1 as int) {
            assert(s2[s.len() as int] == e);
        } else {
            let i = choose|i: int| 0 <= i < s.len() && (#[trigger] s[i]).0@ == p.0 && s[i].1 as int
                == p.1;
            assert(s2[i] == s[i]);
        }
    }
}

/// Whether an association list's keys are pairwise distinct.
pub open spec fn assoc_keys_distinct(s: Seq<(Vec<u8>, Vec<TxOutput>)>) -> bool {
    forall|i: int, j: int|
        0 <= i < j < s.len() ==> (#[trigger] s[i]).0@ != (#[trigger] s[j]).0@
}

/// Whether an association list holds exactly the entries of a map.
pub open spec fn assoc_matches(
    s: Seq<(Vec<u8>, Vec<TxOutput>)>,
    m: Map<Seq<u8>, Seq<TxOutV>>,
) -> bool {
    &&& forall|i: int|
        0 <= i < s.len() ==> m.contains_pair((#[trigger] s[i]).0@, vout_views(s[i].1@))
    &&& forall|k: Seq<u8>|
        m.contains_key(k) ==> exists|i: int| 0 <= i < s.len() && (#[trigger] s[i]).0@ == k
}

/// The position of a key in the association list.
fn assoc_find(utxo: &Vec<(Vec<u8>, Vec<TxOutput>)>, key: &[u8]) -> (r: Option<usize>)
    ensures
        match r {
            Some(i) => i < utxo@.len() && utxo@[i as int].0@ == key@,
            None => forall|i: int| 0 <= i < utxo@.len() ==> (#[trigger] utxo@[i]).0@ != key@,
        },
{
    let n = utxo.len();
    let mut i: usize = 0;
    while i < n
        invariant
            n == utxo@.len(),
            i <= n,
            forall|k: int| 0 <= k < i ==> (#[trigger] utxo@[k]).0@ != key@,
        decreases n - i,
    {
        if bytes_equal(utxo[i].0.as_slice(), key) {
            return Some(i);
        }
        i = i + 1;
    }
    None
}

fn collect_unspent_outs(txid: &[u8], tx: &Transaction, spent: &Vec<(Vec<u8>, usize)>) -> (r: Vec<
    TxOutput,
>)
    ensures
        vout_views(r@) == spec_unspent(txid@, tx@.vout, 0, spent_set_of(spent@)),
{
    let ghost sp = spent_set_of(spent@);
    let vout = tx.get_vout();
    let ghost voutv = tx@.vout;
    let n = vout.len();
    let mut r: Vec<TxOutput> = Vec::new();
    let mut v: usize = 0;
    proof {
        assert(voutv.skip(0) =~= voutv);
        assert(vout_views(r@) =~= Seq::<TxOutV>::empty());
    }
    while v < n
        invariant
            v <= n,
            n == voutv.len(),
            sp == spent_set_of(spent@),
            voutv == tx@.vout,
            vout_views(vout@) == voutv,
            spec_unspent(txid@, voutv, 0, sp) =~= vout_views(r@) + spec_unspent(
                txid@,
                voutv.skip(v as int),
                v as int,
                sp,
            ),
        decreases n - v,
    {
        let is_spent = spent_contains(spent, txid, v);
        let ghost r_before = r@;
        proof {
            assert(voutv.skip(v as int)[0] == voutv[v as int]);
            assert(voutv.skip(v as int).drop_first() =~= voutv.skip(v as int + 1));
            assert(vout@[v as int]@ == voutv[v as int]);
        }
        if !is_spent {
            r.push(vout[v].clone());
            proof {
                assert(vout_views(r@) =~= vout_views(r_before) + seq![voutv[v as int]]);
                assert(vout_views(r_before) + (seq![voutv[v as int]] + spec_unspent(
                    txid@,
                    voutv.skip(v as int + 1),
                    v as int + 1,
                    sp,
                )) =~= vout_views(r@) + spec_unspent(txid@, voutv.skip(v as int + 1), v as int + 1, sp));
            }
        }
        v = v + 1;
    }
    proof {
        assert(voutv.skip(n as int) =~= Seq::<TxOutV>::empty());
        assert(spec_unspent(txid@, voutv.skip(n as int), n as int, sp) =~= Seq::<TxOutV>::empty());
        assert(vout_views(r@) + Seq::<TxOutV>::empty() =~= vout_views(r@));
        assert(vout_views(r@) =~= spec_unspent(txid@, voutv, 0, sp));
    }
    r
}

fn record_spends(spent: &mut Vec<(Vec<u8>, usize)>, tx: &Transaction)
    ensures
        spent_set_of(final(spent)@) == spec_add_spends(spent_set_of(old(spent)@), tx@.vin),
{
    let ghost orig = spent_set_of(old(spent)@);
    let ghost vinv = tx@.vin;
    let vin = tx.get_vin();
    let n = vin.len();
    let mut k: usize = 0;
    proof {
        assert(vinv.take(0) =~= Seq::<TxInV>::empty());
        assert(spec_add_spends(orig, Seq::<TxInV>::empty()) == orig);
    }
    while k < n
        invariant
            k <= n,
            n == vinv.len(),
            vinv == tx@.vin,
            crate::transaction::vin_views(vin@) == vinv,
            spent_set_of(spent@) == spec_add_spends(orig, vinv.take(k as int)),
        decreases n - k,
    {
        proof {
            assert(vin@[k as int]@ == vinv[k as int]);
        }
        let txid = vstd::slice::slice_to_vec(vin[k].get_txid());
        let outid = vin[k].get_outid();
        let ghost s_before = spent@;
        spent.push((txid, outid));
        proof {
            lemma_spent_push(s_before, (spent@[s_before.len() as int].0, outid));
            assert(spent@[s_before.len() as int].0@ == vinv[k as int].txid);
            assert(outid as int == vinv[k as int].outid as int);
            lemma_add_spends_push(orig, vinv, k as int);
            assert(spent_set_of(spent@) =~= spec_add_spends(orig, vinv.take(k as int + 1)));
        }
        k = k + 1;
    }
    proof {
        assert(vinv.take(n as int) =~= vinv);
    }
}

/// Applies one transaction to the running scan state, mirroring
/// `spec_scan_tx`.
fn apply_tx(
    utxo: &mut Vec<(Vec<u8>, Vec<TxOutput>)>,
    spent: &mut Vec<(Vec<u8>, usize)>,
    tx: &Transaction,
    Ghost(m): Ghost<Map<Seq<u8>, Seq<TxOutV>>>,
)
    requires
        assoc_keys_distinct(old(utxo)@),
        assoc_matches(old(utxo)@, m),
    ensures
        assoc_keys_distinct(final(utxo)@),
        assoc_matches(
            final(utxo)@,
            spec_scan_tx((UtxoAcc { utxo: m, spent: spent_set_of(old(spent)@) }), tx@).utxo,
        ),
        spent_set_of(final(spent)@) == spec_scan_tx(
            (UtxoAcc { utxo: m, spent: spent_set_of(old(spent)@) }),
            tx@,
        ).spent,
{
    let ghost acc = UtxoAcc { utxo: m, spent: spent_set_of(spent@) };
    let txid = tx.get_id_bytes();
    let outs = collect_unspent_outs(txid.as_slice(), tx, spent);
    let ghost outsv = vout_views(outs@);
    if outs.len() > 0 {
        match assoc_find(utxo, txid.as_slice()) {
            Some(i) => {
                let ghost u_before = utxo@;
                let (key, mut old_outs) = utxo.remove(i);
                let ghost prev = vout_views(old_outs@);
                proof {
                    assert(m.contains_pair(u_before[i as int].0@, vout_views(
                        u_before[i as int].1@,
                    )));
                    assert(prev == m[tx@.id]);
                }
                let mut outs = outs;
                old_outs.append(&mut outs);
                proof {
                    assert forall|k2: int| 0 <= k2 < old_outs@.len() implies vout_views(
                        old_outs@,
                    )[k2] == (prev + outsv)[k2] by {
                        assert(vout_views(old_outs@)[k2] == old_outs@[k2]@);
                    }
                    assert(vout_views(old_outs@) =~= prev + outsv);
                }
                utxo.push((key, old_outs));
                proof {
                    let m2 = m.insert(tx@.id, prev + outsv);
                    let u_now = utxo@;
                    assert(u_now =~= u_before.remove(i as int).push(u_now[u_now.len() - 1]));
                    assert forall|a: int, b: int| 0 <= a < b < u_now.len() implies (
                    #[trigger] u_now[a]).0@ != (#[trigger] u_now[b]).0@ by {
                        lemma_remove_index(u_before, i as int, a);
                        if b == u_now.len() - 1 {
                            assert(u_now[b].0@ == u_before[i as int].0@);
                        } else {
                            lemma_remove_index(u_before, i as int, b);
                        }
                    }
                    assert forall|k2: int| 0 <= k2 < u_now.len() implies m2.contains_pair(
                        (#[trigger] u_now[k2]).0@,
                        vout_views(u_now[k2].1@),
                    ) by {
                        if k2 < u_now.len() - 1 {
                            lemma_remove_index(u_before, i as int, k2);
                        }
                    }
                    assert forall|k2: Seq<u8>| m2.contains_key(k2) implies exists|i2: int|
                        0 <= i2 < u_now.len() && (#[trigger] u_now[i2]).0@ == k2 by {
                        if k2 == tx@.id {
                            assert(u_now[u_now.len() - 1].0@ == k2);
                        } else {
                            let i2 = choose|i2: int|
                                0 <= i2 < u_before.len() && (#[trigger] u_before[i2]).0@ == k2;
                            assert(i2 != i);
                            if i2 < i {
                                assert(u_now[i2] == u_before[i2]);
                            } else {
                                assert(u_now[i2 - 1] == u_before[i2]);
                            }
                        }
                    }
                    assert(assoc_matches(u_now, m2));
                }
            },
            None => {
                proof {
                    assert(!m.contains_key(tx@.id));
                }
                let ghost u_before = utxo@;
                utxo.push((txid, outs));
                proof {
                    let m2 = m.insert(tx@.id, Seq::<TxOutV>::empty() + outsv);
                    assert(Seq::<TxOutV>::empty() + outsv =~= outsv);
                    let u_now = utxo@;
                    assert forall|k2: int| 0 <= k2 < u_now.len() implies m2.contains_pair(
                        (#[trigger] u_now[k2]).0@,
                        vout_views(u_now[k2].1@),
                    ) by {
                        if k2 < u_before.len() {
                            assert(u_now[k2] == u_before[k2]);
                        }
                    }
                    assert forall|k2: Seq<u8>| m2.contains_key(k2) implies exists|i2: int|
                        0 <= i2 < u_now.len() && (#[trigger] u_now[i2]).0@ == k2 by {
                        if k2 == tx@.id {
                            assert(u_now[u_now.len() - 1].0@ == k2);
                        } else {
                            let i2 = choose|i2: int|
                                0 <= i2 < u_before.len() && (#[trigger] u_before[i2]).0@ == k2;
                            assert(u_now[i2] == u_before[i2]);
                        }
                    }
                    assert(assoc_matches(u_now, m2));
                }
            },
        }
    }
    if !tx.is_coinbase() {
        record_spends(spent, tx);
    }
}

/// Removing an entry shifts the later entries down by one.
proof fn lemma_remove_index(s: Seq<(Vec<u8>, Vec<TxOutput>)>, i: int, k: int)
    requires
        0 <= i < s.len(),
        0 <= k < s.len() - 1,
    ensures
        k < i ==> s.remove(i)[k] == s[k],
        k >= i ==> s.remove(i)[k] == s[k + 1],
{
}

/// The unspent outputs of the given blocks (tip first), keyed by raw
/// transaction id, with pairwise distinct keys.
pub fn scan_unspent(blocks: &Vec<Block>) -> (r: Vec<(Vec<u8>, Vec<TxOutput>)>)
    ensures
        assoc_keys_distinct(r@),
        assoc_matches(r@, spec_chain_utxo(block_views(blocks@))),
{
    let ghost chain = block_views(blocks@);
    let mut utxo: Vec<(Vec<u8>, Vec<TxOutput>)> = Vec::new();
    let mut spent: Vec<(Vec<u8>, usize)> = Vec::new();
    let mut i: usize = 0;
    proof {
        assert(chain.take(0) =~= Seq::<BlockV>::empty());
        assert(spent_set_of(spent@) =~= Set::<(Seq<u8>, int)>::empty());
        assert(assoc_matches(utxo@, spec_scan_blocks(spec_empty_acc(), chain.take(0)).utxo));
        assert(spent_set_of(spent@) =~= spec_scan_blocks(spec_empty_acc(), chain.take(0)).spent);
    }
    while i < blocks.len()
        invariant
            i <= blocks@.len(),
            chain == block_views(blocks@),
            assoc_keys_distinct(utxo@),
            assoc_matches(utxo@, spec_scan_blocks(spec_empty_acc(), chain.take(i as int)).utxo),
            spent_set_of(spent@) == spec_scan_blocks(
                spec_empty_acc(),
                chain.take(i as int),
            ).spent,
        decreases blocks@.len() - i,
    {
        let ghost acc_i = spec_scan_blocks(spec_empty_acc(), chain.take(i as int));
        let txs = blocks[i].get_transactions();
        let ghost txsv = chain[i as int].transactions;
        proof {
            assert(chain[i as int] == blocks@[i as int]@);
            assert(txsv.take(0) =~= Seq::<TxV>::empty());
            assert(spec_scan_txs(acc_i, txsv.take(0)) == acc_i);
        }
        let mut j: usize = 0;
        while j < txs.len()
            invariant
                j <= txs@.len(),
                i < blocks@.len(),
                chain == block_views(blocks@),
                txsv == chain[i as int].transactions,
                txsv == tx_views(txs@),
                acc_i == spec_scan_blocks(spec_empty_acc(), chain.take(i as int)),
                assoc_keys_distinct(utxo@),
                assoc_matches(utxo@, spec_scan_txs(acc_i, txsv.take(j as int)).utxo),
                spent_set_of(spent@) == spec_scan_txs(acc_i, txsv.take(j as int)).spent,
            decreases txs@.len() - j,
        {
            let ghost acc_j = spec_scan_txs(acc_i, txsv.take(j as int));
            proof {
                assert(txs@[j as int]@ == txsv[j as int]);
            }
            apply_tx(&mut utxo, &mut spent, &txs[j], Ghost(acc_j.utxo));
            proof {
                lemma_scan_txs_push(acc_i, txsv, j as int);
                assert(spec_scan_tx(acc_j, txsv[j as int]) == spec_scan_txs(
                    acc_i,
                    txsv.take(j as int + 1),
                ));
            }
            j = j + 1;
        }
        proof {
            assert(txsv.take(txs@.len() as int) =~= txsv);
            lemma_scan_blocks_push(spec_empty_acc(), chain, i as int);
        }
        i = i + 1;
    }
    proof {
        assert(chain.take(blocks@.len() as int) =~= chain);
    }
    utxo
}

/// With nothing marked spent, every output is unspent.
pub proof fn lemma_unspent_all(txid: Seq<u8>, vout: Seq<TxOutV>, idx: int)
    ensures
        spec_unspent(txid, vout, idx, Set::empty()) =~= vout,
    decreases vout.len(),
{
    if vout.len() == 0 {
    } else {
        lemma_unspent_all(txid, vout.drop_first(), idx + 1);
        assert(seq![vout[0]] + vout.drop_first() =~= vout);
    }
}

/// No transaction of the list carries the given id.
pub open spec fn id_fresh_in_txs(txs: Seq<TxV>, k: Seq<u8>) -> bool {
    forall|j: int| 0 <= j < txs.len() ==> (#[trigger] txs[j]).id != k
}

/// No transaction of any block of the chain carries the given id.
pub open spec fn id_fresh_in_chain(ch: Seq<BlockV>, k: Seq<u8>) -> bool {
    forall|i: int| 0 <= i < ch.len() ==> id_fresh_in_txs((#[trigger] ch[i]).transactions, k)
}

/// An entry under an id no scanned transaction carries just rides
/// along: scanning with it present yields the scan without it, plus
/// the entry.
pub proof fn lemma_scan_txs_frame(acc: UtxoAcc, txs: Seq<TxV>, k: Seq<u8>, v: Seq<TxOutV>)
    requires
        id_fresh_in_txs(txs, k),
        !acc.utxo.contains_key(k),
    ensures
        spec_scan_txs(
            (UtxoAcc { utxo: acc.utxo.insert(k, v), spent: acc.spent }),
            txs,
        ).utxo =~= spec_scan_txs(acc, txs).utxo.insert(k, v),
        spec_scan_txs((UtxoAcc { utxo: acc.utxo.insert(k, v), spent: acc.spent }), txs).spent
            == spec_scan_txs(acc, txs).spent,
        !spec_scan_txs(acc, txs).utxo.contains_key(k),
    decreases txs.len(),
{
    if txs.len() == 0 {
    } else {
        let t = txs[0];
        let a1 = spec_scan_tx(acc, t);
        let b0 = UtxoAcc { utxo: acc.utxo.insert(k, v), spent: acc.spent };
        let b1 = spec_scan_tx(b0, t);
        assert(t.id != k);
        let outs = spec_unspent(t.id, t.vout, 0, acc.spent);
        assert(b1.spent == a1.spent);
        assert(b1.utxo =~= a1.utxo.insert(k, v)) by {
            if outs.len() == 0 {
            } else {
                assert(acc.utxo.insert(k, v).contains_key(t.id) == acc.utxo.contains_key(t.id));
                if acc.utxo.contains_key(t.id) {
                    assert(acc.utxo.insert(k, v)[t.id] == acc.utxo[t.id]);
                }
            }
        }
        assert(!a1.utxo.contains_key(k));
        assert(id_fresh_in_txs(txs.drop_first(), k)) by {
            assert forall|j: int| 0 <= j < txs.drop_first().len() implies (#[trigger] txs.drop_first()[j]).id
                != k by {
                assert(txs.drop_first()[j] == txs[j + 1]);
            }
        }
        lemma_scan_txs_frame(a1, txs.drop_first(), k, v);
        assert(spec_scan_txs(b0, txs) == spec_scan_txs(b1, txs.drop_first()));
        assert(b1.utxo == a1.utxo.insert(k, v));
        assert(spec_scan_txs(
            (UtxoAcc { utxo: a1.utxo.insert(k, v), spent: a1.spent }),
            txs.drop_first(),
        ).utxo =~= spec_scan_txs(a1, txs.drop_first()).utxo.insert(k, v));
        assert(b1 == (UtxoAcc { utxo: a1.utxo.insert(k, v), spent: a1.spent }));
    }
}

/// The frame property, lifted over whole blocks.
pub proof fn lemma_scan_blocks_frame(acc: UtxoAcc, ch: Seq<BlockV>, k: Seq<u8>, v: Seq<TxOutV>)
    requires
        id_fresh_in_chain(ch, k),
        !acc.utxo.contains_key(k),
    ensures
        spec_scan_blocks(
            (UtxoAcc { utxo: acc.utxo.insert(k, v), spent: acc.spent }),
            ch,
        ).utxo =~= spec_scan_blocks(acc, ch).utxo.insert(k, v),
        !spec_scan_blocks(acc, ch).utxo.contains_key(k),
    decreases ch.len(),
{
    if ch.len() == 0 {
    } else {
        let a1 = spec_scan_tx_acc(acc, ch[0]);
        let b0 = UtxoAcc { utxo: acc.utxo.insert(k, v), spent: acc.spent };
        lemma_scan_txs_frame(acc, ch[0].transactions, k, v);
        assert(id_fresh_in_chain(ch.drop_first(), k)) by {
            assert forall|i: int| 0 <= i < ch.drop_first().len() implies id_fresh_in_txs(
                (#[trigger] ch.drop_first()[i]).transactions,
                k,
            ) by {
                assert(ch.drop_first()[i] == ch[i + 1]);
            }
        }
        lemma_scan_blocks_frame(a1, ch.drop_first(), k, v);
        assert(spec_scan_tx_acc(b0, ch[0]) == (UtxoAcc {
            utxo: a1.utxo.insert(k, v),
            spent: a1.spent,
        })) by {
            assert(spec_scan_txs(b0, ch[0].transactions).utxo =~= a1.utxo.insert(k, v));
        }
    }
}

} // verus!
