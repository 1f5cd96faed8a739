//! The address book of locally held wallets, keyed by address. The
//! surrounding program persists it to the wallet file.

use vstd::prelude::*;

use crate::crypto::is_valid_p256_pkcs8;
use crate::crypto::public_key_of;
use crate::errors::ChainError;
use crate::wallet::spec_convert_address;
use crate::wallet::spec_hash_pub_key;
use crate::wallet::Wallet;
use crate::wallet::WalletV;

verus! {

/// Locally held wallets, keyed by their address.
pub struct Wallets {
    wallets: Vec<(String, Wallet)>,
}

impl Wallets {
    /// Whether an address is present.
    pub closed spec fn spec_contains(&self, a: Seq<char>) -> bool {
        exists|i: int| 0 <= i < self.wallets@.len() && (#[trigger] self.wallets@[i]).0@ == a
    }

    /// How many wallets are held.
    pub closed spec fn spec_len(&self) -> nat {
        self.wallets@.len()
    }

    /// Addresses are pairwise distinct.
    pub closed spec fn wf(&self) -> bool {
        forall|i: int, j: int|
            0 <= i < j < self.wallets@.len() ==> (#[trigger] self.wallets@[i]).0@ != (
            #[trigger] self.wallets@[j]).0@
    }

    /// The wallet stored under an address, when the addresses are
    /// distinct.
    pub closed spec fn spec_wallet(&self, a: Seq<char>) -> Option<WalletV> {
        if self.spec_contains(a) {
            let i = choose|i: int|
                0 <= i < self.wallets@.len() && (#[trigger] self.wallets@[i]).0@ == a;
            Some(self.wallets@[i].1@)
        } else {
            None
        }
    }

    /// Under distinct addresses, any entry with address `a` gives the
    /// stored wallet.
    proof fn lemma_wallet_at(&self, i: int)
        requires
            self.wf(),
            0 <= i < self.wallets@.len(),
        ensures
            self.spec_wallet(self.wallets@[i].0@) == Some(self.wallets@[i].1@),
    {
        let a = self.wallets@[i].0@;
        assert(self.spec_contains(a));
        let j = choose|j: int|
            0 <= j < self.wallets@.len() && (#[trigger] self.wallets@[j]).0@ == a;
        if i != j {
            if i < j {
                assert(self.wallets@[i].0@ != self.wallets@[j].0@);
            } else {
                assert(self.wallets@[j].0@ != self.wallets@[i].0@);
            }
        }
    }

    /// An empty address book.
    pub fn new() -> (r: Wallets)
        ensures
            r.wf(),
            r.spec_len() == 0,
    {
        Wallets { wallets: Vec::new() }
    }

    fn position(&self, address: &str) -> (r: Option<usize>)
        ensures
            match r {
                Some(i) => i < self.wallets@.len() && self.wallets@[i as int].0@ == address@,
                None => !self.spec_contains(address@),
            },
    {
        let key = address.to_owned();
        let n = self.wallets.len();
        let mut i: usize = 0;
        while i < n
            invariant
                n == self.wallets@.len(),
                key@ == address@,
                i <= n,
                forall|k: int| 0 <= k < i ==> (#[trigger] self.wallets@[k]).0@ != address@,
            decreases n - i,
        {
            if self.wallets[i].0 == key {
                return Some(i);
            }
            i = i + 1;
        }
        None
    }

    /// Generates a wallet, records it under its address, and hands the
    /// address back: the fresh wallet's own address, under which
    /// `get_wallet` now yields a well-formed key pair; every other
    /// entry is untouched.
    pub fn create_wallet(&mut self) -> (r: Result<String, ChainError>)
        requires
            old(self).wf(),
        ensures
            final(self).wf(),
            r matches Ok(a) ==> {
                &&& final(self).spec_contains(a@)
                &&& final(self).spec_wallet(a@) matches Some(wv) && is_valid_p256_pkcs8(wv.pkcs8)
                    && wv.public_key == public_key_of(wv.pkcs8) && a@ == spec_convert_address(
                    spec_hash_pub_key(wv.public_key),
                )
                &&& forall|k: Seq<char>|
                    k != a@ ==> final(self).spec_wallet(k) == old(self).spec_wallet(k)
            },
    {
        let wallet = match Wallet::new() {
            Ok(w) => w,
            Err(e) => {
                return Err(e);
            },
        };
        let address = wallet.get_address();
        let addr_copy = address.clone();
        self.insert_wallet(wallet);
        Ok(addr_copy)
    }

    /// Records a wallet under its address, replacing any wallet
    /// already there; every other entry is untouched.
    pub fn insert_wallet(&mut self, wallet: Wallet)
        requires
            old(self).wf(),
        ensures
            final(self).wf(),
            final(self).spec_wallet(
                spec_convert_address(spec_hash_pub_key(wallet@.public_key)),
            ) == Some(wallet@),
            forall|k: Seq<char>|
                k != spec_convert_address(spec_hash_pub_key(wallet@.public_key)) ==> final(self).spec_wallet(k) == old(self).spec_wallet(k),
            forall|k: Seq<char>|
                k != spec_convert_address(spec_hash_pub_key(wallet@.public_key)) ==> final(self).spec_contains(k) == old(self).spec_contains(k),
    {
        let address = wallet.get_address();
        let ghost av = address@;
        let ghost before = self.wallets@;
        match self.position(address.as_str()) {
            Some(i) => {
                self.wallets.remove(i);
                self.wallets.push((address, wallet));
                proof {
                    let now = self.wallets@;
                    let n2 = now.len() - 1;
                    assert(now[n2].0@ == av);
                    assert forall|a2: int, b2: int| 0 <= a2 < b2 < now.len() implies (
                    #[trigger] now[a2]).0@ != (#[trigger] now[b2]).0@ by {
                        let a0 = if a2 < i as int { a2 } else { a2 + 1 };
                        if b2 < n2 {
                            let b0 = if b2 < i as int { b2 } else { b2 + 1 };
                            assert(now[a2] == before[a0] && now[b2] == before[b0]);
                        } else {
                            assert(now[a2] == before[a0]);
                            assert(a0 != i as int);
                            assert(before[i as int].0@ == av);
                        }
                    }
                    self.lemma_wallet_at(n2);
                    assert forall|k: Seq<char>|
                        k != av implies final(self).spec_wallet(k) == old(self).spec_wallet(k)
                        && final(self).spec_contains(k) == old(self).spec_contains(k) by {
                        if final(self).spec_contains(k) {
                            let j = choose|j: int|
                                0 <= j < now.len() && (#[trigger] now[j]).0@ == k;
                            assert(j < n2);
                            let j0 = if j < i as int { j } else { j + 1 };
                            assert(before[j0] == now[j]);
                            self.lemma_wallet_at(j);
                            old(self).lemma_wallet_at(j0);
                        } else {
                            if old(self).spec_contains(k) {
                                let j0 = choose|j0: int|
                                    0 <= j0 < before.len() && (#[trigger] before[j0]).0@ == k;
                                assert(j0 != i);
                                let j = if j0 < i as int { j0 } else { j0 - 1 };
                                assert(now[j] == before[j0]);
                            }
                        }
                    }
                }
            },
            None => {
                self.wallets.push((address, wallet));
                proof {
                    let now = self.wallets@;
                    let n2 = now.len() - 1;
                    assert(now[n2].0@ == av);
                    assert forall|a2: int, b2: int| 0 <= a2 < b2 < now.len() implies (
                    #[trigger] now[a2]).0@ != (#[trigger] now[b2]).0@ by {
                        if b2 < n2 {
                            assert(now[a2] == before[a2] && now[b2] == before[b2]);
                        } else {
                            assert(now[a2] == before[a2]);
                        }
                    }
                    self.lemma_wallet_at(n2);
                    assert forall|k: Seq<char>|
                        k != av implies final(self).spec_wallet(k) == old(self).spec_wallet(k)
                        && final(self).spec_contains(k) == old(self).spec_contains(k) by {
                        if final(self).spec_contains(k) {
                            let j = choose|j: int|
                                0 <= j < now.len() && (#[trigger] now[j]).0@ == k;
                            assert(j < n2);
                            assert(now[j] == before[j]);
                            self.lemma_wallet_at(j);
                            old(self).lemma_wallet_at(j);
                        } else {
                            if old(self).spec_contains(k) {
                                let j0 = choose|j0: int|
                                    0 <= j0 < before.len() && (#[trigger] before[j0]).0@ == k;
                                assert(now[j0] == before[j0]);
                            }
                        }
                    }
                }
            },
        }
    }

    /// Every held address.
    pub fn get_addresses(&self) -> (r: Vec<String>)
        ensures
            r@.len() == self.spec_len(),
    {
        let mut out: Vec<String> = Vec::new();
        let mut i: usize = 0;
        while i < self.wallets.len()
            invariant
                i <= self.wallets@.len(),
                out@.len() == i,
            decreases self.wallets@.len() - i,
        {
            out.push(self.wallets[i].0.clone());
            i = i + 1;
        }
        out
    }

    /// The wallet held under an address, if any.
    pub fn get_wallet(&self, address: &str) -> (r: Option<&Wallet>)
        requires
            self.wf(),
        ensures
            match r {
                Some(w) => self.spec_wallet(address@) == Some(w@),
                None => !self.spec_contains(address@),
            },
    {
        match self.position(address) {
            Some(i) => {
                proof {
                    self.lemma_wallet_at(i as int);
                }
                Some(&self.wallets[i].1)
            },
            None => None,
        }
    }
}

} // verus!
