//! The transaction memory pool (pending transfers keyed by the hex
//! spelling of their id) and the in-transit queue of block hashes that
//! have been requested but not yet received.

use vstd::prelude::*;

use crate::bytesutil::bytes_equal;
use crate::bytesutil::clone_bytes;
use crate::hexcode::hex_encode;
use crate::hexcode::spec_hex;
use crate::transaction::Transaction;
use crate::transaction::TxV;

verus! {

/// Pending transactions, keyed by hex id.
pub struct MemoryPool {
    inner: Vec<(String, Transaction)>,
}

impl MemoryPool {
    /// Whether a key is present.
    pub closed spec fn spec_contains(&self, k: Seq<char>) -> bool {
        exists|i: int| 0 <= i < self.inner@.len() && (#[trigger] self.inner@[i]).0@ == k
    }

    /// How many transactions are pending.
    pub closed spec fn spec_len(&self) -> nat {
        self.inner@.len()
    }

    /// The transaction stored under a key, when the keys are distinct.
    pub closed spec fn spec_value(&self, k: Seq<char>) -> Option<TxV> {
        if self.spec_contains(k) {
            let i = choose|i: int|
                0 <= i < self.inner@.len() && (#[trigger] self.inner@[i]).0@ == k;
            Some(self.inner@[i].1@)
        } else {
            None
        }
    }

    /// Under distinct keys, any entry with key `k` gives the stored
    /// value.
    proof fn lemma_value_at(&self, i: int)
        requires
            self.wf(),
            0 <= i < self.inner@.len(),
        ensures
            self.spec_value(self.inner@[i].0@) == Some(self.inner@[i].1@),
    {
        let k = self.inner@[i].0@;
        assert(self.spec_contains(k));
        let j = choose|j: int| 0 <= j < self.inner@.len() && (#[trigger] self.inner@[j]).0@ == k;
        if i != j {
            if i < j {
                assert(self.inner@[i].0@ != self.inner@[j].0@);
            } else {
                assert(self.inner@[j].0@ != self.inner@[i].0@);
            }
        }
    }

    /// Keys are pairwise distinct.
    pub closed spec fn wf(&self) -> bool {
        forall|i: int, j: int|
            0 <= i < j < self.inner@.len() ==> (#[trigger] self.inner@[i]).0@ != (
            #[trigger] self.inner@[j]).0@
    }

    /// An empty pool.
    pub fn new() -> (r: MemoryPool)
        ensures
            r.wf(),
            r.spec_len() == 0,
    {
        MemoryPool { inner: Vec::new() }
    }

    fn position(&self, txid_hex: &str) -> (r: Option<usize>)
        ensures
            match r {
                Some(i) => i < self.inner@.len() && self.inner@[i as int].0@ == txid_hex@,
                None => !self.spec_contains(txid_hex@),
            },
    {
        let key = txid_hex.to_owned();
        let n = self.inner.len();
        let mut i: usize = 0;
        while i < n
            invariant
                n == self.inner@.len(),
                key@ == txid_hex@,
                i <= n,
                forall|k: int| 0 <= k < i ==> (#[trigger] self.inner@[k]).0@ != txid_hex@,
            decreases n - i,
        {
            if self.inner[i].0 == key {
                return Some(i);
            }
            i = i + 1;
        }
        None
    }

    /// Whether the pool holds a transaction under the given hex id.
    pub fn contains(&self, txid_hex: &str) -> (r: bool)
        ensures
            r == self.spec_contains(txid_hex@),
    {
        match self.position(txid_hex) {
            Some(_) => true,
            None => false,
        }
    }

    /// Records a transaction under the hex spelling of its id,
    /// replacing any transaction already there.
    pub fn add(&mut self, tx: Transaction)
        requires
            old(self).wf(),
        ensures
            final(self).wf(),
            final(self).spec_contains(spec_hex(tx@.id)),
            final(self).spec_value(spec_hex(tx@.id)) == Some(tx@),
            forall|k: Seq<char>|
                k != spec_hex(tx@.id) ==> final(self).spec_contains(k) == old(self).spec_contains(k),
            forall|k: Seq<char>|
                k != spec_hex(tx@.id) ==> final(self).spec_value(k) == old(self).spec_value(k),
            final(self).spec_len() == old(self).spec_len() + (if old(self).spec_contains(
                spec_hex(tx@.id),
            ) {
                0int
            } else {
                1int
            }),
    {
        let txid_hex = hex_encode(tx.get_id());
        match self.position(txid_hex.as_str()) {
            Some(i) => {
                let ghost before = self.inner@;
                self.inner.remove(i);
                self.inner.push((txid_hex, tx));
                proof {
                    let now = self.inner@;
                    let n2 = now.len() - 1;
                    assert(now[n2].0@ == spec_hex(tx@.id));
                    assert forall|a: int, b: int| 0 <= a < b < now.len() implies (
                    #[trigger] now[a]).0@ != (#[trigger] now[b]).0@ by {
                        if b < n2 {
                            let a0 = if a < i as int { a } else { a + 1 };
                            let b0 = if b < i as int { b } else { b + 1 };
                            assert(now[a] == before[a0] && now[b] == before[b0]);
                        } else {
                            let a0 = if a < i as int { a } else { a + 1 };
                            assert(now[a] == before[a0]);
                            assert(a0 != i as int);
                            assert(before[i as int].0@ == spec_hex(tx@.id));
                        }
                    }
                    assert forall|k: Seq<char>|
                        k != spec_hex(tx@.id) && final(self).spec_contains(k) implies old(self).spec_contains(k) by {
                        let j = choose|j: int|
                            0 <= j < now.len() && (#[trigger] now[j]).0@ == k;
                        assert(j < n2);
                        let j0 = if j < i as int { j } else { j + 1 };
                        assert(before[j0] == now[j]);
                    }
                    assert forall|k: Seq<char>|
                        k != spec_hex(tx@.id) && old(self).spec_contains(k) implies final(self).spec_contains(k) by {
                        let j = choose|j: int|
                            0 <= j < before.len() && (#[trigger] before[j]).0@ == k;
                        assert(j != i as int);
                        let j1 = if j < i as int { j } else { j - 1 };
                        assert(now[j1] == before[j]);
                    }
                }
            },
            None => {
                self.inner.push((txid_hex, tx));
                proof {
                    let n = self.inner@.len() - 1;
                    assert(self.inner@[n].0@ == spec_hex(tx@.id));
                    assert forall|k: Seq<char>|
                        k != spec_hex(tx@.id) && final(self).spec_contains(k) implies old(self).spec_contains(k) by {
                        let i = choose|i: int|
                            0 <= i < self.inner@.len() && (#[trigger] self.inner@[i]).0@ == k;
                        assert(i < n);
                        assert(old(self).inner@[i] == self.inner@[i]);
                    }
                    assert forall|k: Seq<char>|
                        k != spec_hex(tx@.id) && old(self).spec_contains(k) implies final(self).spec_contains(k) by {
                        let i = choose|i: int|
                            0 <= i < old(self).inner@.len() && (#[trigger] old(self).inner@[i]).0@ == k;
                        assert(self.inner@[i] == old(self).inner@[i]);
                    }
                }
            },
        }
    }

    /// The pending transaction under the given hex id, if any.
    pub fn get(&self, txid_hex: &str) -> (r: Option<Transaction>)
        requires
            self.wf(),
        ensures
            match r {
                Some(t) => self.spec_contains(txid_hex@) && self.spec_value(txid_hex@) == Some(
                    t@,
                ),
                None => !self.spec_contains(txid_hex@) && self.spec_value(txid_hex@) is None,
            },
    {
        match self.position(txid_hex) {
            Some(i) => {
                let t = self.inner[i].1.clone();
                proof {
                    self.lemma_value_at(i as int);
                }
                Some(t)
            },
            None => None,
        }
    }

    /// Drops the transaction under the given hex id, if any.
    pub fn remove(&mut self, txid_hex: &str)
        requires
            old(self).wf(),
        ensures
            final(self).wf(),
            !final(self).spec_contains(txid_hex@),
            forall|k: Seq<char>|
                k != txid_hex@ ==> final(self).spec_contains(k) == old(self).spec_contains(k),
            forall|k: Seq<char>|
                k != txid_hex@ ==> final(self).spec_value(k) == old(self).spec_value(k),
            final(self).spec_len() == old(self).spec_len() - (if old(self).spec_contains(
                txid_hex@,
            ) {
                1int
            } else {
                0int
            }),
    {
        match self.position(txid_hex) {
            Some(i) => {
                let ghost before = self.inner@;
                self.inner.remove(i);
                proof {
                    assert forall|j: int|
                        0 <= j < self.inner@.len() implies #[trigger] self.inner@[j] == (if j
                        < i as int {
                        before[j]
                    } else {
                        before[j + 1]
                    }) by {}
                    assert forall|k: Seq<char>|
                        final(self).spec_contains(k) implies k != txid_hex@ && old(self).spec_contains(k) by {
                        let j = choose|j: int|
                            0 <= j < self.inner@.len() && (#[trigger] self.inner@[j]).0@ == k;
                        if j < i as int {
                            assert(before[j].0@ == k);
                        } else {
                            assert(before[j + 1].0@ == k);
                        }
                    }
                    assert forall|k: Seq<char>|
                        k != txid_hex@ && old(self).spec_contains(k) implies final(self).spec_contains(k) by {
                        let j = choose|j: int|
                            0 <= j < before.len() && (#[trigger] before[j]).0@ == k;
                        if j < i as int {
                            assert(self.inner@[j].0@ == k);
                        } else {
                            assert(j != i as int);
                            assert(self.inner@[j - 1].0@ == k);
                        }
                    }
                }
            },
            None => (),
        }
    }

    /// Every pending transaction.
    pub fn get_all(&self) -> (r: Vec<Transaction>)
        requires
            self.wf(),
        ensures
            r@.len() == self.spec_len(),
            forall|i: int|
                0 <= i < r@.len() ==> self.spec_contains(self.key_at(i)) && self.spec_value(
                    self.key_at(i),
                ) == Some((#[trigger] r@[i])@),
    {
        let mut txs: Vec<Transaction> = Vec::new();
        let mut i: usize = 0;
        while i < self.inner.len()
            invariant
                self.wf(),
                i <= self.inner@.len(),
                txs@.len() == i,
                forall|k: int|
                    0 <= k < i ==> self.spec_contains(self.key_at(k)) && self.spec_value(
                        self.key_at(k),
                    ) == Some((#[trigger] txs@[k])@),
            decreases self.inner@.len() - i,
        {
            let t = self.inner[i].1.clone();
            proof {
                self.lemma_value_at(i as int);
            }
            txs.push(t);
            i = i + 1;
        }
        txs
    }

    /// The key stored at a position.
    pub closed spec fn key_at(&self, i: int) -> Seq<char> {
        self.inner@[i].0@
    }

    /// How many transactions are pending.
    pub fn len(&self) -> (r: usize)
        ensures
            r == self.spec_len(),
    {
        self.inner.len()
    }
}

/// Block hashes that have been requested and not yet received, in
/// request order.
pub struct BlockInTransit {
    inner: Vec<Vec<u8>>,
}

impl BlockInTransit {
    /// The queued hashes, in order.
    pub closed spec fn view_hashes(&self) -> Seq<Seq<u8>> {
        Seq::new(self.inner@.len(), |i: int| self.inner@[i]@)
    }

    /// An empty queue.
    pub fn new() -> (r: BlockInTransit)
        ensures
            r.view_hashes().len() == 0,
    {
        BlockInTransit { inner: Vec::new() }
    }

    /// Appends every given hash.
    pub fn add_blocks(&mut self, blocks: &[Vec<u8>])
        ensures
            final(self).view_hashes() =~= old(self).view_hashes() + Seq::new(
                blocks@.len(),
                |i: int| blocks@[i]@,
            ),
    {
        let mut i: usize = 0;
        while i < blocks.len()
            invariant
                i <= blocks@.len(),
                self.view_hashes() =~= old(self).view_hashes() + Seq::new(
                    blocks@.len(),
                    |k: int| blocks@[k]@,
                ).take(i as int),
            decreases blocks@.len() - i,
        {
            let h = clone_bytes(&blocks[i]);
            let ghost pre = self.view_hashes();
            let ghost pre_inner = self.inner@;
            self.inner.push(h);
            proof {
                let target = old(self).view_hashes() + Seq::new(
                    blocks@.len(),
                    |q: int| blocks@[q]@,
                ).take(i as int + 1);
                assert(Seq::new(blocks@.len(), |q: int| blocks@[q]@)[i as int] == blocks@[
                i as int]@);
                assert(pre.len() == old(self).view_hashes().len() + i);
                assert(self.view_hashes().len() == pre.len() + 1);
                assert(target.len() == old(self).view_hashes().len() + i + 1);
                assert forall|k: int| 0 <= k < self.view_hashes().len() implies self.view_hashes()[
                k] == target[k] by {
                    assert(self.view_hashes()[k] == self.inner@[k]@);
                    if k < pre.len() {
                        assert(self.inner@[k] == pre_inner[k]);
                        assert(pre[k] == pre_inner[k]@);
                    } else {
                        assert(self.inner@[k] == self.inner@[self.inner@.len() - 1]);
                    }
                }
                assert(self.view_hashes() =~= target);
            }
            i = i + 1;
        }
        proof {
            assert(Seq::new(blocks@.len(), |q: int| blocks@[q]@).take(blocks@.len() as int)
                =~= Seq::new(blocks@.len(), |q: int| blocks@[q]@));
        }
    }

    /// The first queued hash, if any.
    pub fn first(&self) -> (r: Option<Vec<u8>>)
        ensures
            match r {
                Some(h) => self.view_hashes().len() > 0 && h@ == self.view_hashes()[0],
                None => self.view_hashes().len() == 0,
            },
    {
        if self.inner.len() == 0 {
            return None;
        }
        Some(clone_bytes(&self.inner[0]))
    }

    /// Drops the first queued copy of the given hash, if any.
    pub fn remove(&mut self, block_hash: &[u8])
        ensures
            (forall|j: int|
                0 <= j < old(self).view_hashes().len() ==> #[trigger] old(self).view_hashes()[j]
                    != block_hash@) ==> final(self).view_hashes() == old(self).view_hashes(),
            (exists|j: int|
                0 <= j < old(self).view_hashes().len() && #[trigger] old(self).view_hashes()[j]
                    == block_hash@) ==> exists|j: int|
                {
                    &&& 0 <= j < old(self).view_hashes().len()
                    &&& old(self).view_hashes()[j] == block_hash@
                    &&& (forall|q: int|
                        0 <= q < j ==> #[trigger] old(self).view_hashes()[q] != block_hash@)
                    &&& final(self).view_hashes() == old(self).view_hashes().remove(j)
                },
    {
        let n = self.inner.len();
        let mut i: usize = 0;
        while i < n
            invariant
                n == self.inner@.len(),
                self.inner@ == old(self).inner@,
                i <= n,
                forall|q: int|
                    0 <= q < i ==> #[trigger] old(self).view_hashes()[q] != block_hash@,
            decreases n - i,
        {
            proof {
                assert(self.view_hashes()[i as int] == self.inner@[i as int]@);
            }
            if bytes_equal(self.inner[i].as_slice(), block_hash) {
                let ghost pre = self.view_hashes();
                self.inner.remove(i);
                proof {
                    assert forall|k: int| 0 <= k < self.view_hashes().len() implies self.view_hashes()[
                    k] == pre.remove(i as int)[k] by {
                        assert(self.view_hashes()[k] == self.inner@[k]@);
                        if k < i {
                            assert(self.inner@[k] == old(self).inner@[k]);
                        } else {
                            assert(self.inner@[k] == old(self).inner@[k + 1]);
                        }
                    }
                    assert(self.view_hashes() =~= pre.remove(i as int));
                }
                return ;
            }
            i = i + 1;
        }
    }

    /// Empties the queue.
    pub fn clear(&mut self)
        ensures
            final(self).view_hashes().len() == 0,
    {
        self.inner = Vec::new();
    }

    /// How many hashes are queued.
    pub fn len(&self) -> (r: usize)
        ensures
            r == self.view_hashes().len(),
    {
        self.inner.len()
    }
}

} // verus!
