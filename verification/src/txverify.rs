//! Transaction signing and verification against the chain, built on
//! the trimmed-copy digest: for each input, the transaction is hashed
//! with every signature and key blanked except that input's key slot,
//! which carries the referenced output's public-key hash.

use vstd::prelude::*;

use crate::block::block_views;
use crate::block::Block;
use crate::block::BlockV;
use crate::blockchain::is_chain_from;
use crate::blockchain::lemma_chain_unique;
use crate::blockchain::Blockchain;
use crate::bytesutil::bytes_equal;
use crate::crypto::ecdsa_p256_sha256_sign_digest;
use crate::crypto::ecdsa_p256_sha256_sign_verify;
use crate::crypto::ecdsa_verifies;
use crate::crypto::public_key_of;
use crate::crypto::sha256_of;
use crate::errors::ChainError;
use crate::hexcode::hex_decode;
use crate::transaction::TxInput;
use crate::transaction::TxOutput;
use crate::utxo_set::UTXOSet;
use crate::wallet::Wallet;
use crate::wallet::hash_pub_key;
use crate::wallet::spec_hash_pub_key;
use crate::transaction::spec_is_coinbase;
use crate::transaction::spec_trimmed;
use crate::transaction::spec_tx_bytes;
use crate::transaction::tx_costs_ok;
use crate::transaction::tx_views;
use crate::transaction::vin_views;
use crate::transaction::Transaction;
use crate::transaction::TxInV;
use crate::transaction::TxV;

verus! {

/// The first transaction with the given id in a list, if any.
pub open spec fn spec_find_tx_in(txs: Seq<TxV>, txid: Seq<u8>) -> Option<TxV>
    decreases txs.len(),
{
    if txs.len() == 0 {
        None
    } else if txs[0].id == txid {
        Some(txs[0])
    } else {
        spec_find_tx_in(txs.drop_first(), txid)
    }
}

/// The first transaction with the given id along the chain, walking
/// from the tip.
pub open spec fn spec_find_tx(chain: Seq<BlockV>, txid: Seq<u8>) -> Option<TxV>
    decreases chain.len(),
{
    if chain.len() == 0 {
        None
    } else {
        match spec_find_tx_in(chain[0].transactions, txid) {
            Some(t) => Some(t),
            None => spec_find_tx(chain.drop_first(), txid),
        }
    }
}

/// The digest signed for input `i`: the transaction is trimmed (all
/// signatures and keys blank), input `i`'s key slot carries `pkh`, the
/// id is cleared, and the canonical bytes are hashed.
pub open spec fn spec_signing_digest(t: TxV, i: int, pkh: Seq<u8>) -> Seq<u8> {
    let base = spec_trimmed(t);
    sha256_of(
        spec_tx_bytes(
            TxV {
                id: Seq::empty(),
                vin: base.vin.update(i, (TxInV { pub_key: pkh, ..base.vin[i] })),
                vout: base.vout,
            },
        ),
    )
}

/// Whether input `i` of `t` is valid against the chain: its referenced
/// transaction is on the chain, the referenced output exists, and the
/// carried signature verifies under the carried key over the
/// trimmed-copy digest.
pub open spec fn spec_input_valid(chain: Seq<BlockV>, t: TxV, i: int) -> bool {
    match spec_find_tx(chain, t.vin[i].txid) {
        Some(prev) => t.vin[i].outid < prev.vout.len() && ecdsa_verifies(
            t.vin[i].pub_key,
            spec_signing_digest(t, i, prev.vout[t.vin[i].outid as int].pub_key_hash),
            t.vin[i].signature,
        ),
        None => false,
    }
}

/// Whether a transaction is valid against the chain: a coinbase is
/// accepted unconditionally, anything else needs every input valid.
pub open spec fn spec_tx_valid(chain: Seq<BlockV>, t: TxV) -> bool {
    spec_is_coinbase(t) || (forall|i: int| 0 <= i < t.vin.len() ==> spec_input_valid(chain, t, i))
}

/// A coinbase transaction is valid against every chain.
pub proof fn lemma_coinbase_always_valid(chain: Seq<BlockV>, t: TxV)
    requires
        spec_is_coinbase(t),
    ensures
        spec_tx_valid(chain, t),
{
}

/// A transaction each of whose inputs references an output on the
/// chain and carries the signing key's public key together with a
/// signature of its trimmed-copy digest under that key is valid: what
/// `sign` produces, `verify` accepts.
pub proof fn lemma_signature_roundtrip(chain: Seq<BlockV>, t: TxV, pkcs8: Seq<u8>)
    requires
        forall|i: int|
            0 <= i < t.vin.len() ==> {
                &&& #[trigger] spec_find_tx(chain, t.vin[i].txid) matches Some(prev)
                &&& t.vin[i].outid < spec_find_tx(chain, t.vin[i].txid).unwrap().vout.len()
                &&& t.vin[i].pub_key == public_key_of(pkcs8)
                &&& ecdsa_verifies(
                    public_key_of(pkcs8),
                    spec_signing_digest(
                        t,
                        i,
                        spec_find_tx(chain, t.vin[i].txid).unwrap().vout[t.vin[i].outid as int].pub_key_hash,
                    ),
                    t.vin[i].signature,
                )
            },
    ensures
        spec_tx_valid(chain, t),
{
    assert forall|i: int| 0 <= i < t.vin.len() implies spec_input_valid(chain, t, i) by {
        assert(spec_find_tx(chain, t.vin[i].txid) matches Some(prev));
    }
}

/// The first transaction with the given id among the given blocks.
pub fn find_transaction_in_blocks(blocks: &Vec<Block>, txid: &[u8]) -> (r: Option<Transaction>)
    ensures
        match r {
            Some(t) => spec_find_tx(block_views(blocks@), txid@) == Some(t@),
            None => spec_find_tx(block_views(blocks@), txid@) is None,
        },
{
    let ghost chain = block_views(blocks@);
    proof {
        assert(chain.skip(0) =~= chain);
    }
    let mut i: usize = 0;
    while i < blocks.len()
        invariant
            i <= blocks@.len(),
            chain == block_views(blocks@),
            spec_find_tx(chain, txid@) == spec_find_tx(chain.skip(i as int), txid@),
        decreases blocks@.len() - i,
    {
        let txs = blocks[i].get_transactions();
        let ghost txsv = block_views(blocks@)[i as int].transactions;
        proof {
            assert(txsv.skip(0) =~= txsv);
            assert(txsv == block_views(blocks@)[i as int].transactions);
        }
        let mut j: usize = 0;
        while j < txs.len()
            invariant
                j <= txs@.len(),
                i < blocks@.len(),
                chain == block_views(blocks@),
                txsv == tx_views(txs@),
                txsv == chain[i as int].transactions,
                spec_find_tx(chain, txid@) == spec_find_tx(chain.skip(i as int), txid@),
                spec_find_tx_in(txsv, txid@) == spec_find_tx_in(txsv.skip(j as int), txid@),
            decreases txs@.len() - j,
        {
            if bytes_equal(txs[j].get_id(), txid) {
                proof {
                    assert(txsv.skip(j as int)[0] == txsv[j as int]);
                    assert(spec_find_tx_in(txsv.skip(j as int), txid@) == Some(txsv[j as int]));
                    assert(spec_find_tx_in(txsv, txid@) == Some(txsv[j as int]));
                    assert(chain.skip(i as int)[0] == chain[i as int]);
                    assert(chain[i as int].transactions == txsv);
                    assert(chain.skip(i as int)[0].transactions == txsv);
                    assert(spec_find_tx(chain.skip(i as int), txid@) == Some(txsv[j as int]));
                    assert(txsv[j as int] == txs@[j as int]@);
                }
                return Some(txs[j].clone());
            }
            proof {
                assert(txsv.skip(j as int)[0] == txsv[j as int]);
                assert(txsv[j as int] == txs@[j as int]@);
                assert(txsv[j as int].id != txid@);
                assert(txsv.skip(j as int).drop_first() =~= txsv.skip(j as int + 1));
            }
            j = j + 1;
        }
        proof {
            assert(txsv.skip(txs@.len() as int) =~= Seq::<TxV>::empty());
            assert(spec_find_tx_in(txsv, txid@) is None);
            assert(chain.skip(i as int)[0] == chain[i as int]);
            assert(chain[i as int].transactions == txsv);
            assert(chain.skip(i as int).drop_first() =~= chain.skip(i as int + 1));
        }
        i = i + 1;
    }
    proof {
        assert(chain.skip(blocks@.len() as int) =~= Seq::<BlockV>::empty());
    }
    None
}

/// The trimmed-copy digest for input `i` of `t`, with `pkh` in the
/// input's key slot.
fn signing_digest(t: &Transaction, i: usize, pkh: &[u8]) -> (r: Vec<u8>)
    requires
        tx_costs_ok(t@),
        i < t@.vin.len(),
    ensures
        r@ == spec_signing_digest(t@, i as int, pkh@),
        r@.len() == 32,
{
    let mut copy = t.trimmed_copy();
    copy.set_vin_pub_key(i, vstd::slice::slice_to_vec(pkh));
    let id: Vec<u8> = Vec::new();
    copy.set_id(id);
    proof {
        assert(tx_costs_ok(copy@));
        assert((TxV { id: Seq::empty(), ..copy@ }) == copy@);
    }
    copy.hash()
}

impl Transaction {
    /// Whether this transaction is valid against the given blocks
    /// (tip-first, as `collect_chain` yields them).
    pub fn verify_in_chain(&self, blocks: &Vec<Block>) -> (r: bool)
        requires
            tx_costs_ok(self@),
        ensures
            r == spec_tx_valid(block_views(blocks@), self@),
    {
        if self.is_coinbase() {
            return true;
        }
        let ghost chain = block_views(blocks@);
        let vin = self.get_vin();
        let n = vin.len();
        let mut i: usize = 0;
        while i < n
            invariant
                i <= n,
                n == self@.vin.len(),
                !spec_is_coinbase(View::view(self)),
                tx_costs_ok(View::view(self)),
                vin_views(vin@) == self@.vin,
                chain == block_views(blocks@),
                forall|k: int| 0 <= k < i ==> spec_input_valid(chain, View::view(self), k),
            decreases n - i,
        {
            let txid = vin[i].get_txid();
            proof {
                assert(vin@[i as int]@ == self@.vin[i as int]);
            }
            let prev = match find_transaction_in_blocks(blocks, txid) {
                Some(p) => p,
                None => {
                    assert(!spec_input_valid(chain, View::view(self), i as int));
                    return false;
                },
            };
            let outid = vin[i].get_outid();
            let prev_vout = prev.get_vout();
            if outid >= prev_vout.len() {
                proof {
                    assert(prev@.vout.len() == prev_vout@.len());
                    assert(!spec_input_valid(chain, View::view(self), i as int));
                }
                return false;
            }
            proof {
                assert(prev_vout@[outid as int]@ == prev@.vout[outid as int]);
            }
            let pkh = prev_vout[outid].get_pub_key_hash();
            let digest = signing_digest(self, i, pkh);
            let ok = ecdsa_p256_sha256_sign_verify(
                vin[i].get_pub_key(),
                vin[i].get_signature(),
                digest.as_slice(),
            );
            if !ok {
                assert(!spec_input_valid(chain, View::view(self), i as int));
                return false;
            }
            assert(spec_input_valid(chain, View::view(self), i as int));
            i = i + 1;
        }
        true
    }

    /// Whether this transaction is valid against the chain held by
    /// `blockchain`. A coinbase is always accepted.
    pub fn verify(&self, blockchain: &Blockchain) -> (r: Result<bool, ChainError>)
        requires
            blockchain.wf(),
            tx_costs_ok(self@),
        ensures
            r matches Ok(b) ==> forall|ch: Seq<BlockV>|
                is_chain_from(blockchain.blocks(), blockchain.tip(), ch) ==> b == spec_tx_valid(
                    ch,
                    self@,
                ),
            spec_is_coinbase(self@) ==> r == Ok::<bool, ChainError>(true),
    {
        if self.is_coinbase() {
            return Ok(true);
        }
        let blocks = match blockchain.collect_chain() {
            Ok(v) => v,
            Err(e) => {
                return Err(e);
            },
        };
        let ok = self.verify_in_chain(&blocks);
        proof {
            assert forall|ch: Seq<BlockV>|
                is_chain_from(blockchain.blocks(), blockchain.tip(), ch) implies ok
                == spec_tx_valid(ch, self@) by {
                lemma_chain_unique(
                    blockchain.blocks(),
                    blockchain.tip(),
                    ch,
                    block_views(blocks@),
                );
            }
        }
        Ok(ok)
    }

    /// Signs every input with the key pair in `pkcs8`: each input's
    /// signature becomes an ECDSA signature of that input's
    /// trimmed-copy digest. Fails if a referenced transaction is not
    /// on the chain, a referenced output does not exist, or the key is
    /// rejected.
    pub fn sign(&mut self, blockchain: &Blockchain, pkcs8: &[u8]) -> (r: Result<(), ChainError>)
        requires
            blockchain.wf(),
            tx_costs_ok(old(self)@),
        ensures
            final(self)@.id == old(self)@.id,
            final(self)@.vout == old(self)@.vout,
            final(self)@.vin.len() == old(self)@.vin.len(),
            forall|i: int|
                0 <= i < old(self)@.vin.len() ==> (#[trigger] final(self)@.vin[i]).txid == old(self)@.vin[i].txid && final(self)@.vin[i].outid == old(self)@.vin[i].outid && final(self)@.vin[i].pub_key == old(self)@.vin[i].pub_key,
            r matches Err(e) ==> e == ChainError::MissingTx || e == ChainError::Crypto || e
                == ChainError::Store || e == ChainError::Codec,
            r == Err::<(), ChainError>(ChainError::MissingTx) ==> forall|ch: Seq<BlockV>|
                #[trigger] is_chain_from(blockchain.blocks(), blockchain.tip(), ch)
                    ==> exists|i: int|
                    0 <= i < old(self)@.vin.len() && (spec_find_tx(
                        ch,
                        (#[trigger] old(self)@.vin[i]).txid,
                    ) is None || !(old(self)@.vin[i].outid < spec_find_tx(
                        ch,
                        old(self)@.vin[i].txid,
                    ).unwrap().vout.len())),
            r is Ok ==> forall|ch: Seq<BlockV>|
                #[trigger] is_chain_from(blockchain.blocks(), blockchain.tip(), ch)
                    ==> forall|i: int|
                    0 <= i < final(self)@.vin.len() ==> {
                        &&& #[trigger] spec_find_tx(ch, final(self)@.vin[i].txid) matches Some(
                            prev,
                        )
                        &&& final(self)@.vin[i].outid < spec_find_tx(
                            ch,
                            final(self)@.vin[i].txid,
                        ).unwrap().vout.len()
                        &&& ecdsa_verifies(
                            public_key_of(pkcs8@),
                            spec_signing_digest(
                                final(self)@,
                                i,
                                spec_find_tx(ch, final(self)@.vin[i].txid).unwrap().vout[final(self)@.vin[i].outid as int].pub_key_hash,
                            ),
                            final(self)@.vin[i].signature,
                        )
                    },
    {
        let blocks = match blockchain.collect_chain() {
            Ok(v) => v,
            Err(e) => {
                return Err(e);
            },
        };
        let ghost chain = block_views(blocks@);
        let n = self.get_vin().len();
        let mut i: usize = 0;
        while i < n
            invariant
                i <= n,
                n == self@.vin.len(),
                tx_costs_ok(View::view(self)),
                chain == block_views(blocks@),
                is_chain_from(blockchain.blocks(), blockchain.tip(), chain),
                spec_trimmed(View::view(self)) == spec_trimmed(old(self)@),
                View::view(self).id == old(self)@.id,
                View::view(self).vout == old(self)@.vout,
                View::view(self).vin.len() == old(self)@.vin.len(),
                forall|k: int|
                    0 <= k < old(self)@.vin.len() ==> (#[trigger] View::view(self).vin[k]).txid
                        == old(self)@.vin[k].txid && View::view(self).vin[k].outid == old(self)@.vin[k].outid && View::view(self).vin[k].pub_key == old(self)@.vin[k].pub_key,
                forall|k: int|
                    0 <= k < i ==> {
                        &&& #[trigger] spec_find_tx(chain, View::view(self).vin[k].txid)
                            matches Some(prev)
                        &&& View::view(self).vin[k].outid < spec_find_tx(
                            chain,
                            View::view(self).vin[k].txid,
                        ).unwrap().vout.len()
                        &&& ecdsa_verifies(
                            public_key_of(pkcs8@),
                            spec_signing_digest(
                                View::view(self),
                                k,
                                spec_find_tx(chain, View::view(self).vin[k].txid).unwrap().vout[
                                    View::view(self).vin[k].outid as int].pub_key_hash,
                            ),
                            View::view(self).vin[k].signature,
                        )
                    },
            decreases n - i,
        {
            let txid: Vec<u8>;
            let outid: usize;
            {
                let vin = self.get_vin();
                proof {
                    assert(vin_views(vin@) == self@.vin);
                    assert(vin@[i as int]@ == self@.vin[i as int]);
                }
                txid = vstd::slice::slice_to_vec(vin[i].get_txid());
                outid = vin[i].get_outid();
            }
            let prev = match find_transaction_in_blocks(&blocks, txid.as_slice()) {
                Some(p) => p,
                None => {
                    proof {
                        assert forall|ch: Seq<BlockV>|
                            #[trigger] is_chain_from(
                                blockchain.blocks(),
                                blockchain.tip(),
                                ch,
                            ) implies exists|i2: int|
                            0 <= i2 < old(self)@.vin.len() && (spec_find_tx(
                                ch,
                                (#[trigger] old(self)@.vin[i2]).txid,
                            ) is None || !(old(self)@.vin[i2].outid < spec_find_tx(
                                ch,
                                old(self)@.vin[i2].txid,
                            ).unwrap().vout.len())) by {
                            lemma_chain_unique(
                                blockchain.blocks(),
                                blockchain.tip(),
                                ch,
                                chain,
                            );
                            assert(old(self)@.vin[i as int].txid == View::view(self).vin[
                            i as int].txid);
                            assert(spec_find_tx(ch, old(self)@.vin[i as int].txid) is None);
                        }
                    }
                    return Err(ChainError::MissingTx);
                },
            };
            let prev_vout = prev.get_vout();
            if outid >= prev_vout.len() {
                proof {
                    assert forall|ch: Seq<BlockV>|
                        #[trigger] is_chain_from(
                            blockchain.blocks(),
                            blockchain.tip(),
                            ch,
                        ) implies exists|i2: int|
                        0 <= i2 < old(self)@.vin.len() && (spec_find_tx(
                            ch,
                            (#[trigger] old(self)@.vin[i2]).txid,
                        ) is None || !(old(self)@.vin[i2].outid < spec_find_tx(
                            ch,
                            old(self)@.vin[i2].txid,
                        ).unwrap().vout.len())) by {
                        lemma_chain_unique(blockchain.blocks(), blockchain.tip(), ch, chain);
                        assert(old(self)@.vin[i as int].txid == View::view(self).vin[
                        i as int].txid);
                        assert(old(self)@.vin[i as int].outid == View::view(self).vin[
                        i as int].outid);
                        assert(spec_find_tx(ch, old(self)@.vin[i as int].txid) == Some(prev@));
                        assert(prev_vout@.len() == prev@.vout.len());
                    }
                }
                return Err(ChainError::MissingTx);
            }
            proof {
                assert(prev_vout@[outid as int]@ == prev@.vout[outid as int]);
            }
            let pkh = vstd::slice::slice_to_vec(prev_vout[outid].get_pub_key_hash());
            let digest = signing_digest(self, i, pkh.as_slice());
            let sig = match ecdsa_p256_sha256_sign_digest(pkcs8, digest.as_slice()) {
                Ok(s) => s,
                Err(e) => {
                    return Err(e);
                },
            };
            let ghost before = View::view(self);
            self.set_vin_signature(i, sig);
            proof {
                assert(spec_trimmed(View::view(self)).vin =~= spec_trimmed(before).vin);
                assert(spec_trimmed(View::view(self)) == spec_trimmed(before));
                assert forall|k: int| 0 <= k < i + 1 implies {
                    &&& #[trigger] spec_find_tx(chain, View::view(self).vin[k].txid)
                        matches Some(prev2)
                    &&& View::view(self).vin[k].outid < spec_find_tx(
                        chain,
                        View::view(self).vin[k].txid,
                    ).unwrap().vout.len()
                    &&& ecdsa_verifies(
                        public_key_of(pkcs8@),
                        spec_signing_digest(
                            View::view(self),
                            k,
                            spec_find_tx(chain, View::view(self).vin[k].txid).unwrap().vout[
                                View::view(self).vin[k].outid as int].pub_key_hash,
                        ),
                        View::view(self).vin[k].signature,
                    )
                } by {
                    lemma_signing_digest_trim(before, View::view(self), k);
                    if k < i {
                        assert(View::view(self).vin[k] == before.vin[k]);
                    }
                }
            }
            i = i + 1;
        }
        proof {
            assert forall|ch: Seq<BlockV>|
                #[trigger] is_chain_from(blockchain.blocks(), blockchain.tip(), ch) implies (
            forall|i2: int|
                0 <= i2 < View::view(self).vin.len() ==> {
                    &&& #[trigger] spec_find_tx(ch, View::view(self).vin[i2].txid) matches Some(
                        prev,
                    )
                    &&& View::view(self).vin[i2].outid < spec_find_tx(
                        ch,
                        View::view(self).vin[i2].txid,
                    ).unwrap().vout.len()
                    &&& ecdsa_verifies(
                        public_key_of(pkcs8@),
                        spec_signing_digest(
                            View::view(self),
                            i2,
                            spec_find_tx(ch, View::view(self).vin[i2].txid).unwrap().vout[
                                View::view(self).vin[i2].outid as int].pub_key_hash,
                        ),
                        View::view(self).vin[i2].signature,
                    )
                }) by {
                lemma_chain_unique(blockchain.blocks(), blockchain.tip(), ch, chain);
            }
        }
        Ok(())
    }
}

/// Transactions with the same trimmed shape have the same signing
/// digests: a signature set on one input does not move any input's
/// digest.
proof fn lemma_signing_digest_trim(a: TxV, b: TxV, i: int)
    requires
        spec_trimmed(a) == spec_trimmed(b),
    ensures
        forall|pkh: Seq<u8>|
            spec_signing_digest(a, i, pkh) == #[trigger] spec_signing_digest(b, i, pkh),
{
}

impl Transaction {
    /// A transfer of `amount` from the wallet's outputs to `to`:
    /// inputs chosen from the spendable outputs of the wallet's key,
    /// one output of `amount` to `to`, change back to the wallet, and
    /// every input signed. Fails with `NotEnoughFunds` when the
    /// spendable outputs do not cover `amount`.
    /// A transfer of `amount` from the wallet's outputs to `to`. The
    /// inputs reference exactly the outputs `spec_select` picks from
    /// the index for the wallet's key, each carrying the wallet's
    /// public key; the first output pays `amount` to `to`, and a
    /// change output back to the wallet exists exactly when the picked
    /// value exceeds `amount`. Every input is signed, so for a
    /// well-formed wallet the result verifies against the chain.
    /// `NotEnoughFunds` exactly when the picked value falls short.
    #[verifier::rlimit(100)]
    #[verifier::spinoff_prover]
    pub fn new_utxo_transaction(wallet: &Wallet, to: &str, amount: i32, utxo_set: &UTXOSet) -> (r:
        Result<Transaction, ChainError>)
        requires
            utxo_set.wf(),
            amount > 0,
        ensures
            r matches Ok(t) ==> {
                &&& tx_costs_ok(t@)
                &&& t@.id.len() == 32
                &&& (forall|p: Seq<u8>|
                    to@ == crate::crypto::base58_of(p) && p.len() >= 5 ==> (
                    #[trigger] p.subrange(1, p.len() - 4)) == t@.vout[0].pub_key_hash)
                &&& exists|entries: Seq<(Seq<u8>, Seq<u8>)>|
                    #![trigger crate::utxo_set::spec_select(entries, spec_hash_pub_key(wallet@.public_key), amount as int, 0)]
                    {
                        &&& forall|i: int|
                            0 <= i < entries.len() ==> utxo_set.contents().contains_pair(
                                (#[trigger] entries[i]).0,
                                entries[i].1,
                            )
                        &&& forall|k: Seq<u8>|
                            utxo_set.contents().contains_key(k) ==> exists|i: int|
                                0 <= i < entries.len() && (#[trigger] entries[i]).0 == k
                        &&& crate::utxo_set::spec_select(
                            entries,
                            spec_hash_pub_key(wallet@.public_key),
                            amount as int,
                            0,
                        ) matches Some(sel) && {
                            let flat = crate::utxo_set::spec_flatten(sel.1);
                            &&& sel.0 >= amount
                            &&& t@.vin.len() == flat.len()
                            &&& forall|i: int|
                                0 <= i < t@.vin.len() ==> (#[trigger] t@.vin[i]).txid == flat[i].0
                                    && t@.vin[i].outid as int == flat[i].1 && t@.vin[i].pub_key
                                    == wallet@.public_key
                            &&& t@.vout[0].cost == amount
                            &&& (t@.vout.len() == 2 <==> sel.0 > amount)
                            &&& t@.vout.len() <= 2
                            &&& (sel.0 > amount ==> t@.vout[1].cost == sel.0 - amount
                                && t@.vout[1].pub_key_hash == spec_hash_pub_key(
                                wallet@.public_key,
                            ))
                        }
                    }
                &&& (wallet.wf() ==> forall|ch: Seq<BlockV>|
                    #[trigger] is_chain_from(
                        utxo_set.chain().blocks(),
                        utxo_set.chain().tip(),
                        ch,
                    ) ==> spec_tx_valid(ch, t@))
            },
            r == Err::<Transaction, ChainError>(ChainError::NotEnoughFunds) ==> exists|
                entries: Seq<(Seq<u8>, Seq<u8>)>,
            |
                #![trigger crate::utxo_set::spec_select(entries, spec_hash_pub_key(wallet@.public_key), amount as int, 0)]
                {
                    &&& forall|i: int|
                        0 <= i < entries.len() ==> utxo_set.contents().contains_pair(
                            (#[trigger] entries[i]).0,
                            entries[i].1,
                        )
                    &&& forall|k: Seq<u8>|
                        utxo_set.contents().contains_key(k) ==> exists|i: int|
                            0 <= i < entries.len() && (#[trigger] entries[i]).0 == k
                    &&& crate::utxo_set::spec_select(
                        entries,
                        spec_hash_pub_key(wallet@.public_key),
                        amount as int,
                        0,
                    ) matches Some(sel2) && sel2.0 < amount
                },
    {
        let pub_key_hash = hash_pub_key(wallet.get_public_key());
        let (accumulated, valid_outputs) = match utxo_set.find_spendable_outputs(
            pub_key_hash.as_slice(),
            amount,
        ) {
            Ok(p) => p,
            Err(e) => {
                return Err(e);
            },
        };
        let ghost entries = choose|entries: Seq<(Seq<u8>, Seq<u8>)>|
            #![trigger crate::utxo_set::spec_select(entries, spec_hash_pub_key(wallet@.public_key), amount as int, 0)]
            {
                &&& forall|i: int|
                    0 <= i < entries.len() ==> utxo_set.contents().contains_pair(
                        (#[trigger] entries[i]).0,
                        entries[i].1,
                    )
                &&& forall|k: Seq<u8>|
                    utxo_set.contents().contains_key(k) ==> exists|i: int|
                        0 <= i < entries.len() && (#[trigger] entries[i]).0 == k
                &&& crate::utxo_set::spec_select(
                    entries,
                    spec_hash_pub_key(wallet@.public_key),
                    amount as int,
                    0,
                ) matches Some(sel) && accumulated as int == sel.0
                    && crate::utxo_set::sel_spelled(sel.1) == crate::utxo_set::sel_views(
                    valid_outputs@,
                )
            };
        let ghost sel = crate::utxo_set::spec_select(
            entries,
            spec_hash_pub_key(wallet@.public_key),
            amount as int,
            0,
        ).unwrap();
        proof {
            assert(crate::utxo_set::sel_spelled(sel.1).len() == sel.1.len());
            assert(crate::utxo_set::sel_views(valid_outputs@).len() == valid_outputs@.len());
            assert(valid_outputs@.len() == sel.1.len());
        }
        if accumulated < amount as i64 {
            return Err(ChainError::NotEnoughFunds);
        }
        let mut inputs: Vec<TxInput> = Vec::new();
        let mut e: usize = 0;
        proof {
            assert(sel.1.take(0) =~= Seq::<(Seq<u8>, Seq<int>)>::empty());
            assert(crate::utxo_set::spec_flatten(sel.1.take(0)) =~= Seq::<(Seq<u8>, int)>::empty());
        }
        while e < valid_outputs.len()
            invariant
                e <= valid_outputs@.len(),
                valid_outputs@.len() == sel.1.len(),
                crate::utxo_set::sel_spelled(sel.1) == crate::utxo_set::sel_views(valid_outputs@),
                vin_views(inputs@).len() == crate::utxo_set::spec_flatten(
                    sel.1.take(e as int),
                ).len(),
                forall|i: int|
                    0 <= i < vin_views(inputs@).len() ==> {
                        let flat = crate::utxo_set::spec_flatten(sel.1.take(e as int));
                        (#[trigger] vin_views(inputs@)[i]).txid == flat[i].0 && vin_views(
                            inputs@,
                        )[i].outid as int == flat[i].1 && vin_views(inputs@)[i].pub_key
                            == wallet@.public_key && vin_views(inputs@)[i].signature.len() == 0
                    },
            decreases valid_outputs@.len() - e,
        {
            proof {
                assert(crate::utxo_set::sel_views(valid_outputs@)[e as int]
                    == crate::utxo_set::sel_spelled(sel.1)[e as int]);
                assert(valid_outputs@[e as int].0@ == crate::hexcode::spec_hex(sel.1[e as int].0));
                crate::hexcode::lemma_hex_roundtrip(sel.1[e as int].0);
            }
            let txid = match hex_decode(valid_outputs[e].0.as_str()) {
                Some(v) => v,
                None => {
                    proof {
                        assert(false);
                    }
                    return Err(ChainError::Codec);
                },
            };
            proof {
                assert(txid@ == sel.1[e as int].0);
            }
            let outs = &valid_outputs[e].1;
            let ghost picks = sel.1[e as int].1;
            proof {
                assert(crate::utxo_set::idxs_as_int(outs@) == picks);
            }
            let mut w: usize = 0;
            proof {
                assert(sel.1.take(e as int + 1) =~= sel.1.take(e as int).push(sel.1[e as int]));
                crate::utxo_set::lemma_flatten_concat(
                    sel.1.take(e as int),
                    seq![sel.1[e as int]],
                );
                assert(sel.1.take(e as int) + seq![sel.1[e as int]] =~= sel.1.take(e as int + 1));
                assert(seq![sel.1[e as int]].drop_first() =~= Seq::<(Seq<u8>, Seq<int>)>::empty());
                assert(seq![sel.1[e as int]][0] == sel.1[e as int]);
                assert(crate::utxo_set::spec_flatten(Seq::<(Seq<u8>, Seq<int>)>::empty())
                    =~= Seq::<(Seq<u8>, int)>::empty());
                assert(crate::utxo_set::spec_flatten(seq![sel.1[e as int]])
                    =~= crate::utxo_set::pair_flat(sel.1[e as int]));
            }
            while w < outs.len()
                invariant
                    w <= outs@.len(),
                    e < valid_outputs@.len(),
                    txid@ == sel.1[e as int].0,
                    picks == sel.1[e as int].1,
                    crate::utxo_set::idxs_as_int(outs@) == picks,
                    crate::utxo_set::spec_flatten(sel.1.take(e as int + 1))
                        =~= crate::utxo_set::spec_flatten(sel.1.take(e as int))
                        + crate::utxo_set::pair_flat(sel.1[e as int]),
                    vin_views(inputs@).len() == crate::utxo_set::spec_flatten(
                        sel.1.take(e as int),
                    ).len() + w,
                    forall|i: int|
                        0 <= i < vin_views(inputs@).len() ==> {
                            let flat = crate::utxo_set::spec_flatten(sel.1.take(e as int + 1));
                            (#[trigger] vin_views(inputs@)[i]).txid == flat[i].0 && vin_views(
                                inputs@,
                            )[i].outid as int == flat[i].1 && vin_views(inputs@)[i].pub_key
                                == wallet@.public_key && vin_views(inputs@)[i].signature.len()
                                == 0
                        },
                decreases outs@.len() - w,
        {
                let mut input = TxInput::new(txid.as_slice(), outs[w]);
                input.set_pub_key(vstd::slice::slice_to_vec(wallet.get_public_key()));
                let ghost before = inputs@;
                proof {
                    assert(crate::utxo_set::pair_flat(sel.1[e as int])[w as int] == (
                    sel.1[e as int].0,
                    sel.1[e as int].1[w as int],
                    ));
                    assert(crate::utxo_set::idxs_as_int(outs@)[w as int] == outs@[w as int] as int);
                }
                inputs.push(input);
                proof {
                    assert forall|i: int| 0 <= i < vin_views(inputs@).len() implies {
                        let flat = crate::utxo_set::spec_flatten(sel.1.take(e as int + 1));
                        (#[trigger] vin_views(inputs@)[i]).txid == flat[i].0 && vin_views(
                            inputs@,
                        )[i].outid as int == flat[i].1 && vin_views(inputs@)[i].pub_key
                            == wallet@.public_key && vin_views(inputs@)[i].signature.len() == 0
                    } by {
                        assert(vin_views(inputs@)[i] == inputs@[i]@);
                        if i < before.len() {
                            assert(inputs@[i] == before[i]);
                            assert(vin_views(before)[i] == before[i]@);
                        }
                    }
                }
                w = w + 1;
            }
            proof {
                assert(vin_views(inputs@).len() == crate::utxo_set::spec_flatten(
                    sel.1.take(e as int + 1),
                ).len());
            }
            e = e + 1;
        }
        proof {
            assert(sel.1.take(sel.1.len() as int) =~= sel.1);
        }
        let first_out = match TxOutput::new(amount, to) {
            Some(o) => o,
            None => {
                return Err(ChainError::Codec);
            },
        };
        let mut outputs: Vec<TxOutput> = Vec::new();
        outputs.push(first_out);
        if accumulated > amount as i64 {
            let change = accumulated - amount as i64;
            if change > i32::MAX as i64 {
                return Err(ChainError::Codec);
            }
            let own_address = wallet.get_address();
            let change_out = match TxOutput::new(change as i32, own_address.as_str()) {
                Some(o) => o,
                None => {
                    return Err(ChainError::Codec);
                },
            };
            proof {
                crate::wallet::lemma_payload_carries_hash(
                    spec_hash_pub_key(wallet@.public_key),
                );
                let p = crate::wallet::spec_address_payload(
                    spec_hash_pub_key(wallet@.public_key),
                );
                assert(own_address@ == crate::crypto::base58_of(p));
                assert(change_out@.pub_key_hash == p.subrange(1, p.len() - 4));
                assert(change_out@.pub_key_hash == spec_hash_pub_key(wallet@.public_key));
            }
            outputs.push(change_out);
        }
        proof {
            assert forall|i: int| 0 <= i < crate::transaction::vout_views(outputs@).len() implies (
            #[trigger] crate::transaction::vout_views(outputs@)[i]).cost >= 0 by {
                assert(crate::transaction::vout_views(outputs@)[i] == outputs@[i]@);
            }
        }
        let mut tx = Transaction::from_parts(Vec::new(), inputs, outputs);
        let id = tx.hash();
        let ghost before = tx@;
        tx.set_id(id);
        proof {
            assert((TxV { id: Seq::empty(), ..tx@ }) == (TxV { id: Seq::empty(), ..before }));
        }
        match tx.sign(utxo_set.get_blockchain(), wallet.get_pkcs8()) {
            Ok(()) => (),
            Err(e2) => {
                return Err(e2);
            },
        }
        proof {
            if wallet.wf() {
                assert forall|ch: Seq<BlockV>|
                    #[trigger] is_chain_from(
                        utxo_set.chain().blocks(),
                        utxo_set.chain().tip(),
                        ch,
                    ) implies spec_tx_valid(ch, tx@) by {
                    lemma_signature_roundtrip(ch, tx@, wallet@.pkcs8);
                }
            }
        }
        Ok(tx)
    }
}

} // verus!
