//! Transactions: inputs that spend previous outputs, outputs locked to
//! a public-key hash, coinbase minting, canonical serialization, and
//! the trimmed-copy signing digest.

use vstd::prelude::*;

use crate::bytesutil::clone_bytes;
use crate::bytesutil::bytes_equal;
use crate::codec::dec_bytes;
use crate::codec::dec_u64;
use crate::codec::enc_bytes;
use crate::codec::enc_u64;
use crate::codec::lemma_bytes_enc_roundtrip;
use crate::codec::lemma_split_concat;
use crate::codec::lemma_u64_le_roundtrip;
use crate::codec::spec_bytes_enc;
use crate::codec::spec_dec_bytes;
use crate::codec::spec_u64_le;
use crate::codec::spec_u64_of_le;
use crate::crypto::base58_of;
use crate::crypto::base58_decode;
use crate::crypto::new_uuid_bytes;
use crate::crypto::sha256_digest;
use crate::crypto::sha256_of;
use crate::wallet::spec_hash_pub_key;

verus! {

/// The mining reward carried by a coinbase transaction.
pub const SUBSIDY: i32 = 10;

/// The mathematical value of a transaction input.
pub struct TxInV {
    pub txid: Seq<u8>,
    pub outid: u64,
    pub signature: Seq<u8>,
    pub pub_key: Seq<u8>,
}

/// The mathematical value of a transaction output.
pub struct TxOutV {
    pub cost: i32,
    pub pub_key_hash: Seq<u8>,
}

/// The mathematical value of a transaction.
pub struct TxV {
    pub id: Seq<u8>,
    pub vin: Seq<TxInV>,
    pub vout: Seq<TxOutV>,
}

/// The values of a sequence of inputs, element by element.
pub open spec fn vin_views(s: Seq<TxInput>) -> Seq<TxInV> {
    Seq::new(s.len(), |i: int| s[i]@)
}

/// The values of a sequence of outputs, element by element.
pub open spec fn vout_views(s: Seq<TxOutput>) -> Seq<TxOutV> {
    Seq::new(s.len(), |i: int| s[i]@)
}

/// One input of a transaction: a reference to an output of a previous
/// transaction, plus the signature and public key that unlock it.
pub struct TxInput {
    txid: Vec<u8>,
    outid: usize,
    signature: Vec<u8>,
    pub_key: Vec<u8>,
}

/// One output of a transaction: an amount locked to a public-key hash.
pub struct TxOutput {
    cost: i32,
    pub_key_hash: Vec<u8>,
}

/// A transfer: its id is the SHA-256 digest of its serialization with
/// the id field cleared.
pub struct Transaction {
    id: Vec<u8>,
    vin: Vec<TxInput>,
    vout: Vec<TxOutput>,
}

impl View for TxInput {
    type V = TxInV;

    closed spec fn view(&self) -> TxInV {
        TxInV {
            txid: self.txid@,
            outid: self.outid as u64,
            signature: self.signature@,
            pub_key: self.pub_key@,
        }
    }
}

impl View for TxOutput {
    type V = TxOutV;

    closed spec fn view(&self) -> TxOutV {
        TxOutV { cost: self.cost, pub_key_hash: self.pub_key_hash@ }
    }
}

impl View for Transaction {
    type V = TxV;

    closed spec fn view(&self) -> TxV {
        TxV {
            id: self.id@,
            vin: vin_views(self.vin@),
            vout: vout_views(self.vout@),
        }
    }
}

impl Clone for TxInput {
    fn clone(&self) -> (res: Self)
        ensures
            res@ == self@,
    {
        TxInput {
            txid: clone_bytes(&self.txid),
            outid: self.outid,
            signature: clone_bytes(&self.signature),
            pub_key: clone_bytes(&self.pub_key),
        }
    }
}

impl Clone for TxOutput {
    fn clone(&self) -> (res: Self)
        ensures
            res@ == self@,
    {
        TxOutput { cost: self.cost, pub_key_hash: clone_bytes(&self.pub_key_hash) }
    }
}

impl Clone for Transaction {
    fn clone(&self) -> (res: Self)
        ensures
            res@ == self@,
    {
        let mut vin: Vec<TxInput> = Vec::new();
        let mut i: usize = 0;
        while i < self.vin.len()
            invariant
                i <= self.vin@.len(),
                vin_views(vin@) =~= vin_views(self.vin@).take(i as int),
            decreases self.vin@.len() - i,
        {
            let x = self.vin[i].clone();
            proof {
                assert(x@ == self.vin@[i as int]@);
                assert(vin_views(vin@).len() == vin@.len());
                assert(vin_views(vin@).len() == vin_views(self.vin@).take(i as int).len());
                assert(vin@.len() == i as int);
            }
            vin.push(x);
            proof {
                let nv = vin@;
                assert(nv.len() == i + 1);
                assert forall|k: int| 0 <= k < i + 1 implies vin_views(nv)[k] == vin_views(
                    self.vin@,
                ).take(i as int + 1)[k] by {
                    assert(vin_views(nv)[k] == nv[k]@);
                    assert(vin_views(self.vin@).take(i as int + 1)[k] == self.vin@[k]@);
                    if k < i {
                        assert(nv[k] == vin@[k]);
                    }
                }
                assert(vin_views(vin@) =~= vin_views(self.vin@).take(i as int + 1));
            }
            i = i + 1;
        }
        let mut vout: Vec<TxOutput> = Vec::new();
        let mut j: usize = 0;
        while j < self.vout.len()
            invariant
                j <= self.vout@.len(),
                vout_views(vout@) =~= vout_views(self.vout@).take(j as int),
            decreases self.vout@.len() - j,
        {
            let o = self.vout[j].clone();
            proof {
                assert(o@ == self.vout@[j as int]@);
                assert(vout_views(vout@).len() == vout_views(self.vout@).take(j as int).len());
            }
            vout.push(o);
            proof {
                assert forall|k: int| 0 <= k < j + 1 implies vout_views(vout@)[k] == vout_views(
                    self.vout@,
                ).take(j as int + 1)[k] by {
                    assert(vout_views(vout@)[k] == vout@[k]@);
                    assert(vout_views(self.vout@).take(j as int + 1)[k] == self.vout@[k]@);
                }
                assert(vout_views(vout@) =~= vout_views(self.vout@).take(j as int + 1));
            }
            j = j + 1;
        }
        let res = Transaction { id: clone_bytes(&self.id), vin, vout };
        proof {
            assert(vin_views(self.vin@).take(self.vin@.len() as int) =~= vin_views(self.vin@));
            assert(vout_views(self.vout@).take(self.vout@.len() as int) =~= vout_views(
                self.vout@,
            ));
        }
        res
    }
}

impl TxInput {
    /// A fresh input referencing output `vout` of transaction `txid`,
    /// with empty signature and public key.
    pub fn new(txid: &[u8], vout: usize) -> (r: Self)
        ensures
            r@.txid == txid@,
            r@.outid == vout as u64,
            r@.signature.len() == 0,
            r@.pub_key.len() == 0,
    {
        TxInput {
            txid: vstd::slice::slice_to_vec(txid),
            outid: vout,
            signature: Vec::new(),
            pub_key: Vec::new(),
        }
    }

    /// The id of the referenced transaction.
    pub fn get_txid(&self) -> (r: &[u8])
        ensures
            r@ == self@.txid,
    {
        self.txid.as_slice()
    }

    /// The index of the referenced output.
    pub fn get_outid(&self) -> (r: usize)
        ensures
            r as u64 == self@.outid,
    {
        self.outid
    }

    /// The public key carried by this input.
    pub fn get_pub_key(&self) -> (r: &[u8])
        ensures
            r@ == self@.pub_key,
    {
        self.pub_key.as_slice()
    }

    /// The signature carried by this input.
    pub fn get_signature(&self) -> (r: &[u8])
        ensures
            r@ == self@.signature,
    {
        self.signature.as_slice()
    }

    /// Replaces the carried public key.
    pub(crate) fn set_pub_key(&mut self, pub_key: Vec<u8>)
        ensures
            final(self)@ == (TxInV { pub_key: pub_key@, ..old(self)@ }),
    {
        self.pub_key = pub_key;
    }

    /// Whether this input's key hashes to `pub_key_hash`.
    pub fn uses_key(&self, pub_key_hash: &[u8]) -> (r: bool)
        ensures
            r == (spec_hash_pub_key(self@.pub_key) == pub_key_hash@),
    {
        let locking_hash = crate::wallet::hash_pub_key(self.pub_key.as_slice());
        bytes_equal(locking_hash.as_slice(), pub_key_hash)
    }
}

impl TxOutput {
    /// An output of `value` locked to the owner of `address`.
    ///
    /// The lock is the public-key hash carried inside the address, the
    /// payload between the version byte and the four checksum bytes;
    /// `None` if the address does not decode to at least that frame.
    pub fn new(value: i32, address: &str) -> (r: Option<Self>)
        ensures
            r matches Some(o) ==> o@.cost == value && (exists|payload: Seq<u8>|
                address@ == base58_of(payload) && payload.len() >= 5 && o@.pub_key_hash
                    == payload.subrange(1, payload.len() - 4)),
            r matches Some(o) ==> forall|payload: Seq<u8>|
                address@ == base58_of(payload) && payload.len() >= 5 ==> o@.pub_key_hash
                    == payload.subrange(1, payload.len() - 4),
            r is None ==> forall|payload: Seq<u8>|
                address@ == base58_of(payload) ==> payload.len() < 5,
    {
        let payload = match base58_decode(address) {
            Some(p) => p,
            None => {
                return None;
            },
        };
        if payload.len() < 5 {
            proof {
                assert forall|p: Seq<u8>| address@ == base58_of(p) implies p.len() < 5 by {
                    assert(p == payload@);
                }
            }
            return None;
        }
        let pub_key_hash = vstd::slice::slice_to_vec(
            vstd::slice::slice_subrange(payload.as_slice(), 1, payload.len() - 4),
        );
        let r = TxOutput { cost: value, pub_key_hash };
        proof {
            assert forall|p: Seq<u8>|
                address@ == base58_of(p) && p.len() >= 5 implies r@.pub_key_hash == p.subrange(
                1,
                p.len() - 4,
            ) by {
                assert(p == payload@);
            }
        }
        Some(r)
    }

    /// Whether this output is locked to `key_hash`.
    pub fn is_locked_with_key(&self, key_hash: &[u8]) -> (r: bool)
        ensures
            r == (self@.pub_key_hash == key_hash@),
    {
        bytes_equal(self.pub_key_hash.as_slice(), key_hash)
    }

    /// The hash this output is locked to.
    pub fn get_pub_key_hash(&self) -> (r: &[u8])
        ensures
            r@ == self@.pub_key_hash,
    {
        self.pub_key_hash.as_slice()
    }

    /// The amount carried by this output.
    pub fn get_cost(&self) -> (r: i32)
        ensures
            r == self@.cost,
    {
        self.cost
    }
}

/// A transaction is a coinbase exactly when it has one single input and
/// that input carries no public key.
pub open spec fn spec_is_coinbase(t: TxV) -> bool {
    t.vin.len() == 1 && t.vin[0].pub_key.len() == 0
}

/// The trimmed copy used as the base of every signing digest: the same
/// transaction with every input's signature and public key cleared.
pub open spec fn spec_trimmed(t: TxV) -> TxV {
    TxV {
        id: t.id,
        vin: t.vin.map_values(
            |x: TxInV|
                TxInV {
                    txid: x.txid,
                    outid: x.outid,
                    signature: Seq::empty(),
                    pub_key: Seq::empty(),
                },
        ),
        vout: t.vout,
    }
}

impl Transaction {
    /// The transaction id.
    pub fn get_id(&self) -> (r: &[u8])
        ensures
            r@ == self@.id,
    {
        self.id.as_slice()
    }

    /// An owned copy of the transaction id.
    pub fn get_id_bytes(&self) -> (r: Vec<u8>)
        ensures
            r@ == self@.id,
    {
        clone_bytes(&self.id)
    }

    /// The inputs.
    pub fn get_vin(&self) -> (r: &[TxInput])
        ensures
            vin_views(r@) == self@.vin,
    {
        self.vin.as_slice()
    }

    /// The outputs.
    pub fn get_vout(&self) -> (r: &[TxOutput])
        ensures
            vout_views(r@) == self@.vout,
    {
        self.vout.as_slice()
    }

    /// Whether this transaction mints the reward: exactly one input,
    /// and that input has an empty public key.
    pub fn is_coinbase(&self) -> (r: bool)
        ensures
            r == spec_is_coinbase(self@),
    {
        self.vin.len() == 1 && self.vin[0].pub_key.len() == 0
    }

    /// The trimmed copy of this transaction.
    pub(crate) fn trimmed_copy(&self) -> (r: Transaction)
        ensures
            r@ == spec_trimmed(self@),
    {
        let mut vin: Vec<TxInput> = Vec::new();
        let mut i: usize = 0;
        while i < self.vin.len()
            invariant
                i <= self.vin@.len(),
                vin_views(vin@) =~= spec_trimmed(View::view(self)).vin.take(i as int),
            decreases self.vin@.len() - i,
        {
            let x = TxInput::new(self.vin[i].get_txid(), self.vin[i].get_outid());
            proof {
                assert(vin_views(vin@).len() == spec_trimmed(View::view(self)).vin.take(
                    i as int,
                ).len());
                assert(x@.signature =~= Seq::<u8>::empty());
                assert(x@.pub_key =~= Seq::<u8>::empty());
                assert(x@ == (TxInV {
                    txid: self.vin@[i as int]@.txid,
                    outid: self.vin@[i as int]@.outid,
                    signature: Seq::empty(),
                    pub_key: Seq::empty(),
                }));
            }
            vin.push(x);
            proof {
                assert forall|k: int| 0 <= k < i + 1 implies vin_views(vin@)[k] == spec_trimmed(
                    View::view(self),
                ).vin.take(i as int + 1)[k] by {
                    assert(vin_views(vin@)[k] == vin@[k]@);
                    assert(spec_trimmed(View::view(self)).vin.take(i as int + 1)[k]
                        == spec_trimmed(View::view(self)).vin[k]);
                    assert(spec_trimmed(View::view(self)).vin[k] == TxInV {
                        txid: View::view(self).vin[k].txid,
                        outid: View::view(self).vin[k].outid,
                        signature: Seq::empty(),
                        pub_key: Seq::empty(),
                    });
                    assert(View::view(self).vin[k] == self.vin@[k]@);
                }
                assert(vin_views(vin@) =~= spec_trimmed(View::view(self)).vin.take(i as int + 1));
            }
            i = i + 1;
        }
        let mut vout: Vec<TxOutput> = Vec::new();
        let mut j: usize = 0;
        while j < self.vout.len()
            invariant
                j <= self.vout@.len(),
                vout_views(vout@) =~= self@.vout.take(j as int),
            decreases self.vout@.len() - j,
        {
            let o = self.vout[j].clone();
            proof {
                assert(o@ == self.vout@[j as int]@);
                assert(vout_views(vout@).len() == self@.vout.take(j as int).len());
            }
            vout.push(o);
            proof {
                assert forall|k: int| 0 <= k < j + 1 implies vout_views(vout@)[k]
                    == self@.vout.take(j as int + 1)[k] by {
                    assert(vout_views(vout@)[k] == vout@[k]@);
                    assert(self@.vout.take(j as int + 1)[k] == self.vout@[k]@);
                }
                assert(vout_views(vout@) =~= self@.vout.take(j as int + 1));
            }
            j = j + 1;
        }
        let r = Transaction { id: clone_bytes(&self.id), vin, vout };
        proof {
            assert(spec_trimmed(self@).vin.take(self.vin@.len() as int) =~= spec_trimmed(
                self@,
            ).vin);
            assert(self@.vout.take(self.vout@.len() as int) =~= self@.vout);
        }
        r
    }
}

/// The canonical bytes of one input.
pub open spec fn spec_txin_bytes(x: TxInV) -> Seq<u8> {
    spec_bytes_enc(x.txid) + spec_u64_le(x.outid) + spec_bytes_enc(x.signature) + spec_bytes_enc(
        x.pub_key,
    )
}

/// The canonical bytes of one output.
pub open spec fn spec_txout_bytes(o: TxOutV) -> Seq<u8> {
    spec_u64_le(o.cost as u64) + spec_bytes_enc(o.pub_key_hash)
}

/// The concatenated bytes of a list of inputs.
pub open spec fn spec_vin_bytes(s: Seq<TxInV>) -> Seq<u8>
    decreases s.len(),
{
    if s.len() == 0 {
        Seq::empty()
    } else {
        spec_txin_bytes(s[0]) + spec_vin_bytes(s.drop_first())
    }
}

/// The concatenated bytes of a list of outputs.
pub open spec fn spec_vout_bytes(s: Seq<TxOutV>) -> Seq<u8>
    decreases s.len(),
{
    if s.len() == 0 {
        Seq::empty()
    } else {
        spec_txout_bytes(s[0]) + spec_vout_bytes(s.drop_first())
    }
}

/// The canonical bytes of a whole transaction: framed id, then each
/// list with its length prefix.
pub open spec fn spec_tx_bytes(t: TxV) -> Seq<u8> {
    spec_bytes_enc(t.id) + spec_u64_le(t.vin.len() as u64) + spec_vin_bytes(t.vin) + spec_u64_le(
        t.vout.len() as u64,
    ) + spec_vout_bytes(t.vout)
}

/// The id a transaction must carry: the SHA-256 digest of its bytes
/// with the id field cleared.
pub open spec fn spec_tx_id(t: TxV) -> Seq<u8> {
    sha256_of(spec_tx_bytes(TxV { id: Seq::empty(), ..t }))
}

/// The machine bounds under which an input encodes and decodes.
pub open spec fn txin_fits(x: TxInV) -> bool {
    x.txid.len() < 0x1_0000_0000_0000_0000 && x.signature.len() < 0x1_0000_0000_0000_0000
        && x.pub_key.len() < 0x1_0000_0000_0000_0000 && x.outid <= usize::MAX as u64
}

/// The bounds under which an output encodes and decodes: the amount is
/// not negative and the hash fits a length prefix.
pub open spec fn txout_fits(o: TxOutV) -> bool {
    o.cost >= 0 && o.pub_key_hash.len() < 0x1_0000_0000_0000_0000
}

/// The bounds under which a transaction encodes and decodes.
pub open spec fn tx_fits(t: TxV) -> bool {
    &&& t.id.len() < 0x1_0000_0000_0000_0000
    &&& t.vin.len() <= usize::MAX
    &&& t.vout.len() <= usize::MAX
    &&& forall|i: int| 0 <= i < t.vin.len() ==> txin_fits(#[trigger] t.vin[i])
    &&& forall|i: int| 0 <= i < t.vout.len() ==> txout_fits(#[trigger] t.vout[i])
}

/// Every output of the transaction carries a non-negative amount.
pub open spec fn tx_costs_ok(t: TxV) -> bool {
    forall|i: int| 0 <= i < t.vout.len() ==> (#[trigger] t.vout[i]).cost >= 0
}

/// The value of a machine-held input always meets the machine bounds.
pub proof fn lemma_txin_fits(x: TxInput)
    ensures
        txin_fits(x@),
{
    assert(vstd::std_specs::vec::spec_vec_len(&x.txid) == x.txid@.len());
    assert(vstd::std_specs::vec::spec_vec_len(&x.signature) == x.signature@.len());
    assert(vstd::std_specs::vec::spec_vec_len(&x.pub_key) == x.pub_key@.len());
}

/// The value of a machine-held transaction meets the machine bounds as
/// soon as its amounts are non-negative.
pub proof fn lemma_tx_fits(t: Transaction)
    requires
        tx_costs_ok(t@),
    ensures
        tx_fits(t@),
{
    assert(vstd::std_specs::vec::spec_vec_len(&t.id) == t.id@.len());
    assert(vstd::std_specs::vec::spec_vec_len(&t.vin) == t.vin@.len());
    assert(vstd::std_specs::vec::spec_vec_len(&t.vout) == t.vout@.len());
    assert forall|i: int| 0 <= i < t@.vin.len() implies txin_fits(#[trigger] t@.vin[i]) by {
        lemma_txin_fits(t.vin@[i]);
    }
    assert forall|i: int| 0 <= i < t@.vout.len() implies txout_fits(#[trigger] t@.vout[i]) by {
        let o = t.vout@[i];
        assert(vstd::std_specs::vec::spec_vec_len(&o.pub_key_hash) == o.pub_key_hash@.len());
        assert(t@.vout[i] == o@);
    }
}

/// Reads back one input: `Some((value, next position))`.
pub open spec fn spec_dec_txin(b: Seq<u8>, pos: int) -> Option<(TxInV, int)> {
    match spec_dec_bytes(b, pos) {
        None => None,
        Some((txid, p1)) => {
            if p1 + 8 > b.len() {
                None
            } else {
                let outid = spec_u64_of_le(b, p1);
                if outid > usize::MAX as u64 {
                    None
                } else {
                    match spec_dec_bytes(b, p1 + 8) {
                        None => None,
                        Some((sig, p2)) => match spec_dec_bytes(b, p2) {
                            None => None,
                            Some((pk, p3)) => Some(
                                (TxInV { txid, outid, signature: sig, pub_key: pk }, p3),
                            ),
                        },
                    }
                }
            }
        },
    }
}

/// Reads back one output.
pub open spec fn spec_dec_txout(b: Seq<u8>, pos: int) -> Option<(TxOutV, int)> {
    if pos < 0 || pos + 8 > b.len() {
        None
    } else {
        let v = spec_u64_of_le(b, pos);
        if v > i32::MAX as u64 {
            None
        } else {
            match spec_dec_bytes(b, pos + 8) {
                None => None,
                Some((pkh, p1)) => Some((TxOutV { cost: v as i32, pub_key_hash: pkh }, p1)),
            }
        }
    }
}

/// Reads back `n` inputs in order.
pub open spec fn spec_dec_vin(b: Seq<u8>, pos: int, n: nat) -> Option<(Seq<TxInV>, int)>
    decreases n,
{
    if n == 0 {
        Some((Seq::empty(), pos))
    } else {
        match spec_dec_txin(b, pos) {
            None => None,
            Some((x, p1)) => match spec_dec_vin(b, p1, (n - 1) as nat) {
                None => None,
                Some((s, p2)) => Some((seq![x] + s, p2)),
            },
        }
    }
}

/// Reads back `n` outputs in order.
pub open spec fn spec_dec_vout(b: Seq<u8>, pos: int, n: nat) -> Option<(Seq<TxOutV>, int)>
    decreases n,
{
    if n == 0 {
        Some((Seq::empty(), pos))
    } else {
        match spec_dec_txout(b, pos) {
            None => None,
            Some((o, p1)) => match spec_dec_vout(b, p1, (n - 1) as nat) {
                None => None,
                Some((s, p2)) => Some((seq![o] + s, p2)),
            },
        }
    }
}

/// Reads back a whole transaction.
pub open spec fn spec_dec_tx(b: Seq<u8>, pos: int) -> Option<(TxV, int)> {
    match spec_dec_bytes(b, pos) {
        None => None,
        Some((id, p1)) => {
            if p1 + 8 > b.len() {
                None
            } else {
                let n_vin = spec_u64_of_le(b, p1);
                if n_vin > usize::MAX as u64 {
                    None
                } else {
                    match spec_dec_vin(b, p1 + 8, n_vin as nat) {
                        None => None,
                        Some((vin, p2)) => {
                            if p2 + 8 > b.len() {
                                None
                            } else {
                                let n_vout = spec_u64_of_le(b, p2);
                                if n_vout > usize::MAX as u64 {
                                    None
                                } else {
                                    match spec_dec_vout(b, p2 + 8, n_vout as nat) {
                                        None => None,
                                        Some((vout, p3)) => Some((TxV { id, vin, vout }, p3)),
                                    }
                                }
                            }
                        },
                    }
                }
            }
        },
    }
}

fn enc_txin(out: &mut Vec<u8>, x: &TxInput)
    ensures
        final(out)@ =~= old(out)@ + spec_txin_bytes(x@),
{
    enc_bytes(out, &x.txid);
    enc_u64(out, x.outid as u64);
    enc_bytes(out, &x.signature);
    enc_bytes(out, &x.pub_key);
}

fn enc_txout(out: &mut Vec<u8>, o: &TxOutput)
    requires
        o@.cost >= 0,
    ensures
        final(out)@ =~= old(out)@ + spec_txout_bytes(o@),
{
    enc_u64(out, o.cost as u64);
    enc_bytes(out, &o.pub_key_hash);
}

fn dec_txin(b: &[u8], pos: usize) -> (r: Option<(TxInput, usize)>)
    ensures
        match r {
            Some((x, p2)) => spec_dec_txin(b@, pos as int) == Some((x@, p2 as int)),
            None => spec_dec_txin(b@, pos as int) is None,
        },
{
    let (txid, p1) = match dec_bytes(b, pos) {
        Some(v) => v,
        None => {
            return None;
        },
    };
    let (outid_w, p1b) = match dec_u64(b, p1) {
        Some(v) => v,
        None => {
            return None;
        },
    };
    if outid_w > usize::MAX as u64 {
        return None;
    }
    let (sig, p2) = match dec_bytes(b, p1b) {
        Some(v) => v,
        None => {
            return None;
        },
    };
    let (pk, p3) = match dec_bytes(b, p2) {
        Some(v) => v,
        None => {
            return None;
        },
    };
    let x = TxInput { txid, outid: outid_w as usize, signature: sig, pub_key: pk };
    Some((x, p3))
}

fn dec_txout(b: &[u8], pos: usize) -> (r: Option<(TxOutput, usize)>)
    ensures
        match r {
            Some((o, p2)) => spec_dec_txout(b@, pos as int) == Some((o@, p2 as int)),
            None => spec_dec_txout(b@, pos as int) is None,
        },
{
    let (v, p1) = match dec_u64(b, pos) {
        Some(v) => v,
        None => {
            return None;
        },
    };
    if v > i32::MAX as u64 {
        return None;
    }
    let (pkh, p2) = match dec_bytes(b, p1) {
        Some(v) => v,
        None => {
            return None;
        },
    };
    Some((TxOutput { cost: v as i32, pub_key_hash: pkh }, p2))
}

fn dec_vin(b: &[u8], pos: usize, n: usize) -> (r: Option<(Vec<TxInput>, usize)>)
    ensures
        match r {
            Some((s, p2)) => spec_dec_vin(b@, pos as int, n as nat) == Some(
                (vin_views(s@), p2 as int),
            ),
            None => spec_dec_vin(b@, pos as int, n as nat) is None,
        },
    decreases n,
{
    if n == 0 {
        let acc: Vec<TxInput> = Vec::new();
        assert(vin_views(acc@) =~= Seq::<TxInV>::empty());
        return Some((acc, pos));
    }
    let (x, p1) = match dec_txin(b, pos) {
        Some(v) => v,
        None => {
            return None;
        },
    };
    let (rest, p2) = match dec_vin(b, p1, n - 1) {
        Some(v) => v,
        None => {
            return None;
        },
    };
    let ghost xv = x@;
    let mut acc: Vec<TxInput> = Vec::new();
    acc.push(x);
    let mut rest = rest;
    let ghost restv = rest@;
    acc.append(&mut rest);
    proof {
        assert(acc@ =~= seq![acc@[0]] + restv);
        assert forall|k: int| 0 <= k < acc@.len() implies vin_views(acc@)[k] == (seq![xv]
            + vin_views(restv))[k] by {
            assert(vin_views(acc@)[k] == acc@[k]@);
            if k > 0 {
                assert(acc@[k] == restv[k - 1]);
                assert(vin_views(restv)[k - 1] == restv[k - 1]@);
            }
        }
        assert(vin_views(acc@) =~= seq![xv] + vin_views(restv));
    }
    Some((acc, p2))
}

fn dec_vout(b: &[u8], pos: usize, n: usize) -> (r: Option<(Vec<TxOutput>, usize)>)
    ensures
        match r {
            Some((s, p2)) => spec_dec_vout(b@, pos as int, n as nat) == Some(
                (vout_views(s@), p2 as int),
            ),
            None => spec_dec_vout(b@, pos as int, n as nat) is None,
        },
    decreases n,
{
    if n == 0 {
        let acc: Vec<TxOutput> = Vec::new();
        assert(vout_views(acc@) =~= Seq::<TxOutV>::empty());
        return Some((acc, pos));
    }
    let (o, p1) = match dec_txout(b, pos) {
        Some(v) => v,
        None => {
            return None;
        },
    };
    let (rest, p2) = match dec_vout(b, p1, n - 1) {
        Some(v) => v,
        None => {
            return None;
        },
    };
    let ghost ov = o@;
    let mut acc: Vec<TxOutput> = Vec::new();
    acc.push(o);
    let mut rest = rest;
    let ghost restv = rest@;
    acc.append(&mut rest);
    proof {
        assert(acc@ =~= seq![acc@[0]] + restv);
        assert forall|k: int| 0 <= k < acc@.len() implies vout_views(acc@)[k] == (seq![ov]
            + vout_views(restv))[k] by {
            assert(vout_views(acc@)[k] == acc@[k]@);
            if k > 0 {
                assert(acc@[k] == restv[k - 1]);
                assert(vout_views(restv)[k - 1] == restv[k - 1]@);
            }
        }
        assert(vout_views(acc@) =~= seq![ov] + vout_views(restv));
    }
    Some((acc, p2))
}

/// One input read back from its own bytes, wherever they sit.
pub proof fn lemma_txin_roundtrip(x: TxInV, b: Seq<u8>, pos: int)
    requires
        txin_fits(x),
        0 <= pos,
        pos + spec_txin_bytes(x).len() <= b.len(),
        b.subrange(pos, pos + spec_txin_bytes(x).len() as int) == spec_txin_bytes(x),
    ensures
        spec_dec_txin(b, pos) == Some((x, pos + spec_txin_bytes(x).len())),
{
    let a = spec_bytes_enc(x.txid);
    let o = spec_u64_le(x.outid);
    let s = spec_bytes_enc(x.signature);
    let p = spec_bytes_enc(x.pub_key);
    assert(spec_txin_bytes(x) == ((a + o) + s) + p);
    lemma_split_concat(b, pos, (a + o) + s, p);
    lemma_split_concat(b, pos, a + o, s);
    lemma_split_concat(b, pos, a, o);
    lemma_bytes_enc_roundtrip(x.txid, b, pos);
    let p1 = pos + a.len();
    assert(b.subrange(p1, p1 + 8) =~= o);
    lemma_u64_le_roundtrip(x.outid, b, p1);
    lemma_bytes_enc_roundtrip(x.signature, b, p1 + 8);
    let p2 = p1 + 8 + s.len();
    lemma_bytes_enc_roundtrip(x.pub_key, b, p2);
}

/// One output read back from its own bytes.
pub proof fn lemma_txout_roundtrip(o: TxOutV, b: Seq<u8>, pos: int)
    requires
        txout_fits(o),
        0 <= pos,
        pos + spec_txout_bytes(o).len() <= b.len(),
        b.subrange(pos, pos + spec_txout_bytes(o).len() as int) == spec_txout_bytes(o),
    ensures
        spec_dec_txout(b, pos) == Some((o, pos + spec_txout_bytes(o).len())),
{
    let c = spec_u64_le(o.cost as u64);
    let h = spec_bytes_enc(o.pub_key_hash);
    lemma_split_concat(b, pos, c, h);
    lemma_u64_le_roundtrip(o.cost as u64, b, pos);
    lemma_bytes_enc_roundtrip(o.pub_key_hash, b, pos + 8);
}

/// A list of inputs read back from its own bytes.
pub proof fn lemma_vin_roundtrip(s: Seq<TxInV>, b: Seq<u8>, pos: int)
    requires
        forall|i: int| 0 <= i < s.len() ==> txin_fits(#[trigger] s[i]),
        0 <= pos,
        pos + spec_vin_bytes(s).len() <= b.len(),
        b.subrange(pos, pos + spec_vin_bytes(s).len() as int) == spec_vin_bytes(s),
    ensures
        spec_dec_vin(b, pos, s.len()) == Some((s, pos + spec_vin_bytes(s).len())),
    decreases s.len(),
{
    if s.len() == 0 {
        assert(spec_dec_vin(b, pos, 0) == Some((Seq::<TxInV>::empty(), pos)));
        assert(s =~= Seq::<TxInV>::empty());
    } else {
        let hd = spec_txin_bytes(s[0]);
        let tl = spec_vin_bytes(s.drop_first());
        lemma_split_concat(b, pos, hd, tl);
        lemma_txin_roundtrip(s[0], b, pos);
        lemma_vin_roundtrip(s.drop_first(), b, pos + hd.len());
        assert(seq![s[0]] + s.drop_first() =~= s);
    }
}

/// A list of outputs read back from its own bytes.
pub proof fn lemma_vout_roundtrip(s: Seq<TxOutV>, b: Seq<u8>, pos: int)
    requires
        forall|i: int| 0 <= i < s.len() ==> txout_fits(#[trigger] s[i]),
        0 <= pos,
        pos + spec_vout_bytes(s).len() <= b.len(),
        b.subrange(pos, pos + spec_vout_bytes(s).len() as int) == spec_vout_bytes(s),
    ensures
        spec_dec_vout(b, pos, s.len()) == Some((s, pos + spec_vout_bytes(s).len())),
    decreases s.len(),
{
    if s.len() == 0 {
        assert(spec_dec_vout(b, pos, 0) == Some((Seq::<TxOutV>::empty(), pos)));
        assert(s =~= Seq::<TxOutV>::empty());
    } else {
        let hd = spec_txout_bytes(s[0]);
        let tl = spec_vout_bytes(s.drop_first());
        lemma_split_concat(b, pos, hd, tl);
        lemma_txout_roundtrip(s[0], b, pos);
        lemma_vout_roundtrip(s.drop_first(), b, pos + hd.len());
        assert(seq![s[0]] + s.drop_first() =~= s);
    }
}

/// A transaction read back from its own bytes, wherever they sit.
pub proof fn lemma_tx_roundtrip(t: TxV, b: Seq<u8>, pos: int)
    requires
        tx_fits(t),
        0 <= pos,
        pos + spec_tx_bytes(t).len() <= b.len(),
        b.subrange(pos, pos + spec_tx_bytes(t).len() as int) == spec_tx_bytes(t),
    ensures
        spec_dec_tx(b, pos) == Some((t, pos + spec_tx_bytes(t).len())),
{
    let e_id = spec_bytes_enc(t.id);
    let e_nvin = spec_u64_le(t.vin.len() as u64);
    let e_vin = spec_vin_bytes(t.vin);
    let e_nvout = spec_u64_le(t.vout.len() as u64);
    let e_vout = spec_vout_bytes(t.vout);
    assert(spec_tx_bytes(t) == (((e_id + e_nvin) + e_vin) + e_nvout) + e_vout);
    lemma_split_concat(b, pos, ((e_id + e_nvin) + e_vin) + e_nvout, e_vout);
    lemma_split_concat(b, pos, (e_id + e_nvin) + e_vin, e_nvout);
    lemma_split_concat(b, pos, e_id + e_nvin, e_vin);
    lemma_split_concat(b, pos, e_id, e_nvin);
    lemma_bytes_enc_roundtrip(t.id, b, pos);
    let p1 = pos + e_id.len();
    lemma_u64_le_roundtrip(t.vin.len() as u64, b, p1);
    lemma_vin_roundtrip(t.vin, b, p1 + 8);
    let p2 = p1 + 8 + e_vin.len();
    lemma_u64_le_roundtrip(t.vout.len() as u64, b, p2);
    lemma_vout_roundtrip(t.vout, b, p2 + 8);
}

/// A serialized transaction deserializes to itself: the canonical
/// encoding round-trips.
/// A sequence is its own full subrange.
pub proof fn lemma_subrange_full(s: Seq<u8>)
    ensures
        s.subrange(0, s.len() as int) == s,
{
    assert(s.subrange(0, s.len() as int) =~= s);
}

pub proof fn lemma_tx_serialize_roundtrip(t: TxV)
    requires
        tx_fits(t),
    ensures
        spec_dec_tx(spec_tx_bytes(t), 0) == Some((t, spec_tx_bytes(t).len() as int)),
{
    let b = spec_tx_bytes(t);
    lemma_subrange_full(b);
    lemma_tx_roundtrip(t, b, 0);
}

impl Transaction {
    /// The canonical bytes of this transaction.
    pub fn serialize(&self) -> (r: Vec<u8>)
        requires
            tx_costs_ok(self@),
        ensures
            r@ == spec_tx_bytes(self@),
    {
        let mut out: Vec<u8> = Vec::new();
        enc_bytes(&mut out, &self.id);
        enc_u64(&mut out, self.vin.len() as u64);
        let head = Ghost(out@);
        let mut i: usize = 0;
        while i < self.vin.len()
            invariant
                i <= self.vin@.len(),
                out@ =~= head@ + spec_vin_bytes(self@.vin.take(i as int)),
            decreases self.vin@.len() - i,
        {
            proof {
                lemma_vin_bytes_push(self@.vin, i as int);
            }
            enc_txin(&mut out, &self.vin[i]);
            proof {
                let ghost elem = self@.vin[i as int];
                assert(self@.vin.take(i as int + 1) =~= self@.vin.take(i as int).push(elem));
            }
            i = i + 1;
        }
        proof {
            assert(self@.vin.take(self.vin@.len() as int) =~= self@.vin);
        }
        enc_u64(&mut out, self.vout.len() as u64);
        let head2 = Ghost(out@);
        let mut j: usize = 0;
        while j < self.vout.len()
            invariant
                j <= self.vout@.len(),
                tx_costs_ok(View::view(self)),
                out@ =~= head2@ + spec_vout_bytes(self@.vout.take(j as int)),
            decreases self.vout@.len() - j,
        {
            proof {
                lemma_vout_bytes_push(self@.vout, j as int);
                assert(self@.vout[j as int].cost >= 0);
            }
            enc_txout(&mut out, &self.vout[j]);
            proof {
                let ghost elem = self@.vout[j as int];
                assert(self@.vout.take(j as int + 1) =~= self@.vout.take(j as int).push(elem));
            }
            j = j + 1;
        }
        proof {
            assert(self@.vout.take(self.vout@.len() as int) =~= self@.vout);
        }
        out
    }

    /// The transaction encoded in `bytes`, when `bytes` is exactly one
    /// canonical transaction record.
    pub fn deserialize(bytes: &[u8]) -> (r: Option<Transaction>)
        ensures
            match r {
                Some(t) => spec_dec_tx(bytes@, 0) == Some((t@, bytes@.len() as int)),
                None => spec_dec_tx(bytes@, 0) matches Some((t2, p2)) ==> p2 != bytes@.len(),
            },
    {
        let (t, p) = match dec_tx_at(bytes, 0) {
            Some(v) => v,
            None => {
                return None;
            },
        };
        if p != bytes.len() {
            return None;
        }
        Some(t)
    }

    /// The minting transaction of a block: a single input with no
    /// public key and a random signature seed, and one output of
    /// `SUBSIDY` locked to `to`. `None` when `to` is not a usable
    /// address.
    pub fn new_coinbase_tx(to: &str) -> (r: Option<Transaction>)
        ensures
            r matches Some(t) ==> {
                &&& spec_is_coinbase(t@)
                &&& t@.vin[0].txid.len() == 0
                &&& t@.vin[0].signature.len() == 16
                &&& t@.vout.len() == 1
                &&& t@.vout[0].cost == SUBSIDY
                &&& (exists|payload: Seq<u8>|
                    to@ == base58_of(payload) && payload.len() >= 5 && t@.vout[0].pub_key_hash
                        == payload.subrange(1, payload.len() - 4))
                &&& (forall|payload: Seq<u8>|
                    to@ == base58_of(payload) && payload.len() >= 5 ==> (#[trigger] payload.subrange(
                        1,
                        payload.len() - 4,
                    )) == t@.vout[0].pub_key_hash)
                &&& t@.id == spec_tx_id(t@)
                &&& tx_costs_ok(t@)
            },
            r is None ==> forall|payload: Seq<u8>| to@ == base58_of(payload) ==> payload.len() < 5,
    {
        let tx_out = match TxOutput::new(SUBSIDY, to) {
            Some(o) => o,
            None => {
                return None;
            },
        };
        let mut tx_in = TxInput::new(&[], 0);
        tx_in.signature = new_uuid_bytes();
        let mut vin: Vec<TxInput> = Vec::new();
        vin.push(tx_in);
        let mut vout: Vec<TxOutput> = Vec::new();
        vout.push(tx_out);
        let mut tx = Transaction { id: Vec::new(), vin, vout };
        proof {
            assert(tx_costs_ok(tx@));
        }
        let id = tx.hash();
        let ghost before = tx@;
        tx.id = id;
        proof {
            assert(tx@ == (TxV { id: tx.id@, ..before }));
            assert((TxV { id: Seq::empty(), ..tx@ }) == (TxV { id: Seq::empty(), ..before }));
            assert(spec_is_coinbase(tx@));
        }
        Some(tx)
    }

    /// Builds a transaction from parts.
    pub(crate) fn from_parts(id: Vec<u8>, vin: Vec<TxInput>, vout: Vec<TxOutput>) -> (r:
        Transaction)
        ensures
            r@ == (TxV { id: id@, vin: vin_views(vin@), vout: vout_views(vout@) }),
    {
        Transaction { id, vin, vout }
    }

    /// Replaces the id.
    pub(crate) fn set_id(&mut self, id: Vec<u8>)
        ensures
            final(self)@ == (TxV { id: id@, ..old(self)@ }),
    {
        self.id = id;
    }

    /// Replaces the signature of input `i`.
    pub(crate) fn set_vin_signature(&mut self, i: usize, sig: Vec<u8>)
        requires
            i < old(self)@.vin.len(),
        ensures
            final(self)@ == (TxV {
                vin: old(self)@.vin.update(
                    i as int,
                    (TxInV { signature: sig@, ..old(self)@.vin[i as int] }),
                ),
                ..old(self)@
            }),
    {
        let ghost oldview = self@;
        let x = &mut self.vin[i];
        x.signature = sig;
        proof {
            assert forall|k: int| 0 <= k < self@.vin.len() implies self@.vin[k]
                == oldview.vin.update(
                i as int,
                (TxInV { signature: self@.vin[i as int].signature, ..oldview.vin[i as int] }),
            )[k] by {
                assert(self@.vin[k] == self.vin@[k]@);
            }
            assert(self@.vin =~= oldview.vin.update(
                i as int,
                (TxInV { signature: self@.vin[i as int].signature, ..oldview.vin[i as int] }),
            ));
        }
    }

    /// Replaces the public key of input `i`.
    pub(crate) fn set_vin_pub_key(&mut self, i: usize, pub_key: Vec<u8>)
        requires
            i < old(self)@.vin.len(),
        ensures
            final(self)@ == (TxV {
                vin: old(self)@.vin.update(
                    i as int,
                    (TxInV { pub_key: pub_key@, ..old(self)@.vin[i as int] }),
                ),
                ..old(self)@
            }),
    {
        let ghost oldview = self@;
        let x = &mut self.vin[i];
        x.pub_key = pub_key;
        proof {
            assert forall|k: int| 0 <= k < self@.vin.len() implies self@.vin[k]
                == oldview.vin.update(
                i as int,
                (TxInV { pub_key: self@.vin[i as int].pub_key, ..oldview.vin[i as int] }),
            )[k] by {
                assert(self@.vin[k] == self.vin@[k]@);
            }
            assert(self@.vin =~= oldview.vin.update(
                i as int,
                (TxInV { pub_key: self@.vin[i as int].pub_key, ..oldview.vin[i as int] }),
            ));
        }
    }

    /// Whether every output carries a non-negative amount.
    pub fn costs_nonneg(&self) -> (r: bool)
        ensures
            r == tx_costs_ok(self@),
    {
        let vout = self.get_vout();
        let mut i: usize = 0;
        while i < vout.len()
            invariant
                i <= vout@.len(),
                vout_views(vout@) == self@.vout,
                forall|k: int| 0 <= k < i ==> (#[trigger] self@.vout[k]).cost >= 0,
            decreases vout@.len() - i,
        {
            proof {
                assert(vout@[i as int]@ == self@.vout[i as int]);
            }
            if vout[i].get_cost() < 0 {
                return false;
            }
            i = i + 1;
        }
        true
    }

    /// The id this transaction must carry: the digest of its bytes with
    /// the id cleared.
    pub fn hash(&self) -> (r: Vec<u8>)
        requires
            tx_costs_ok(self@),
        ensures
            r@ == spec_tx_id(self@),
            r@.len() == 32,
    {
        let copy = Transaction {
            id: Vec::new(),
            vin: self.vin_clone(),
            vout: self.vout_clone(),
        };
        proof {
            assert(copy@ == (TxV { id: Seq::empty(), ..View::view(self) }));
        }
        let data = copy.serialize();
        sha256_digest(data.as_slice())
    }

    fn vin_clone(&self) -> (r: Vec<TxInput>)
        ensures
            vin_views(r@) == self@.vin,
    {
        let mut vin: Vec<TxInput> = Vec::new();
        let mut i: usize = 0;
        while i < self.vin.len()
            invariant
                i <= self.vin@.len(),
                vin_views(vin@) =~= vin_views(self.vin@).take(i as int),
            decreases self.vin@.len() - i,
        {
            let x = self.vin[i].clone();
            proof {
                assert(x@ == self.vin@[i as int]@);
                assert(vin_views(vin@).len() == vin_views(self.vin@).take(i as int).len());
            }
            vin.push(x);
            proof {
                assert forall|k: int| 0 <= k < i + 1 implies vin_views(vin@)[k] == vin_views(
                    self.vin@,
                ).take(i as int + 1)[k] by {
                    assert(vin_views(vin@)[k] == vin@[k]@);
                    assert(vin_views(self.vin@).take(i as int + 1)[k] == self.vin@[k]@);
                }
                assert(vin_views(vin@) =~= vin_views(self.vin@).take(i as int + 1));
            }
            i = i + 1;
        }
        proof {
            assert(vin_views(self.vin@).take(self.vin@.len() as int) =~= vin_views(self.vin@));
        }
        vin
    }

    fn vout_clone(&self) -> (r: Vec<TxOutput>)
        ensures
            vout_views(r@) == self@.vout,
    {
        let mut vout: Vec<TxOutput> = Vec::new();
        let mut j: usize = 0;
        while j < self.vout.len()
            invariant
                j <= self.vout@.len(),
                vout_views(vout@) =~= vout_views(self.vout@).take(j as int),
            decreases self.vout@.len() - j,
        {
            let o = self.vout[j].clone();
            proof {
                assert(o@ == self.vout@[j as int]@);
                assert(vout_views(vout@).len() == vout_views(self.vout@).take(j as int).len());
            }
            vout.push(o);
            proof {
                assert forall|k: int| 0 <= k < j + 1 implies vout_views(vout@)[k] == vout_views(
                    self.vout@,
                ).take(j as int + 1)[k] by {
                    assert(vout_views(vout@)[k] == vout@[k]@);
                    assert(vout_views(self.vout@).take(j as int + 1)[k] == self.vout@[k]@);
                }
                assert(vout_views(vout@) =~= vout_views(self.vout@).take(j as int + 1));
            }
            j = j + 1;
        }
        proof {
            assert(vout_views(self.vout@).take(self.vout@.len() as int) =~= vout_views(
                self.vout@,
            ));
        }
        vout
    }
}

/// Reads one transaction record starting at `pos`.
pub(crate) fn dec_tx_at(bytes: &[u8], pos: usize) -> (r: Option<(Transaction, usize)>)
    ensures
        match r {
            Some((t, p2)) => spec_dec_tx(bytes@, pos as int) == Some((t@, p2 as int)),
            None => spec_dec_tx(bytes@, pos as int) is None,
        },
{
    let (id, p1) = match dec_bytes(bytes, pos) {
        Some(v) => v,
        None => {
            return None;
        },
    };
    let (n_vin, p1b) = match dec_u64(bytes, p1) {
        Some(v) => v,
        None => {
            return None;
        },
    };
    if n_vin > usize::MAX as u64 {
        return None;
    }
    let (vin, p2) = match dec_vin(bytes, p1b, n_vin as usize) {
        Some(v) => v,
        None => {
            return None;
        },
    };
    let (n_vout, p2b) = match dec_u64(bytes, p2) {
        Some(v) => v,
        None => {
            return None;
        },
    };
    if n_vout > usize::MAX as u64 {
        return None;
    }
    let (vout, p3) = match dec_vout(bytes, p2b, n_vout as usize) {
        Some(v) => v,
        None => {
            return None;
        },
    };
    Some((Transaction { id, vin, vout }, p3))
}

/// The values of a sequence of transactions, element by element.
pub open spec fn tx_views(s: Seq<Transaction>) -> Seq<TxV> {
    Seq::new(s.len(), |i: int| s[i]@)
}

/// An owned copy of a list of transactions.
pub fn clone_txs(s: &[Transaction]) -> (r: Vec<Transaction>)
    ensures
        tx_views(r@) == tx_views(s@),
{
    let mut txs: Vec<Transaction> = Vec::new();
    let mut i: usize = 0;
    while i < s.len()
        invariant
            i <= s@.len(),
            tx_views(txs@) =~= tx_views(s@).take(i as int),
        decreases s@.len() - i,
    {
        let t = s[i].clone();
        proof {
            assert(t@ == s@[i as int]@);
            assert(tx_views(txs@).len() == tx_views(s@).take(i as int).len());
        }
        txs.push(t);
        proof {
            assert forall|k: int| 0 <= k < i + 1 implies tx_views(txs@)[k] == tx_views(s@).take(
                i as int + 1,
            )[k] by {
                assert(tx_views(txs@)[k] == txs@[k]@);
                assert(tx_views(s@).take(i as int + 1)[k] == s@[k]@);
            }
            assert(tx_views(txs@) =~= tx_views(s@).take(i as int + 1));
        }
        i = i + 1;
    }
    proof {
        assert(tx_views(s@).take(s@.len() as int) =~= tx_views(s@));
    }
    txs
}

/// The canonical bytes of a standalone list of outputs, as the
/// unspent-output index stores them: a count, then each output.
pub open spec fn spec_outs_bytes(s: Seq<TxOutV>) -> Seq<u8> {
    spec_u64_le(s.len() as u64) + spec_vout_bytes(s)
}

/// Reads back a standalone list of outputs occupying the whole string.
pub open spec fn spec_dec_outs(b: Seq<u8>) -> Option<Seq<TxOutV>> {
    if b.len() < 8 {
        None
    } else {
        let n = spec_u64_of_le(b, 0);
        if n > usize::MAX as u64 {
            None
        } else {
            match spec_dec_vout(b, 8, n as nat) {
                None => None,
                Some((s, p)) => if p == b.len() {
                    Some(s)
                } else {
                    None
                },
            }
        }
    }
}

/// Encodes a standalone list of outputs.
pub fn encode_outs(outs: &Vec<TxOutput>) -> (r: Vec<u8>)
    requires
        forall|i: int| 0 <= i < outs@.len() ==> (#[trigger] vout_views(outs@)[i]).cost >= 0,
    ensures
        r@ == spec_outs_bytes(vout_views(outs@)),
{
    let mut out: Vec<u8> = Vec::new();
    enc_u64(&mut out, outs.len() as u64);
    let head = Ghost(out@);
    let mut j: usize = 0;
    while j < outs.len()
        invariant
            j <= outs@.len(),
            forall|i: int| 0 <= i < outs@.len() ==> (#[trigger] vout_views(outs@)[i]).cost >= 0,
            out@ =~= head@ + spec_vout_bytes(vout_views(outs@).take(j as int)),
        decreases outs@.len() - j,
    {
        proof {
            lemma_vout_bytes_push(vout_views(outs@), j as int);
            assert(vout_views(outs@)[j as int] == outs@[j as int]@);
        }
        enc_txout(&mut out, &outs[j]);
        j = j + 1;
    }
    proof {
        assert(vout_views(outs@).take(outs@.len() as int) =~= vout_views(outs@));
    }
    out
}

/// Decodes a standalone list of outputs.
pub fn decode_outs(b: &[u8]) -> (r: Option<Vec<TxOutput>>)
    ensures
        match r {
            Some(v) => spec_dec_outs(b@) == Some(vout_views(v@)),
            None => spec_dec_outs(b@) is None,
        },
{
    let (n, p) = match dec_u64(b, 0) {
        Some(v) => v,
        None => {
            return None;
        },
    };
    if n > usize::MAX as u64 {
        return None;
    }
    let (outs, p2) = match dec_vout(b, p, n as usize) {
        Some(v) => v,
        None => {
            return None;
        },
    };
    if p2 != b.len() {
        return None;
    }
    Some(outs)
}

/// A serialized output list reads back to itself.
pub proof fn lemma_outs_roundtrip(s: Seq<TxOutV>)
    requires
        forall|i: int| 0 <= i < s.len() ==> txout_fits(#[trigger] s[i]),
        s.len() <= usize::MAX,
    ensures
        spec_dec_outs(spec_outs_bytes(s)) == Some(s),
{
    let b = spec_outs_bytes(s);
    lemma_subrange_full(b);
    lemma_split_concat(b, 0, spec_u64_le(s.len() as u64), spec_vout_bytes(s));
    lemma_u64_le_roundtrip(s.len() as u64, b, 0);
    lemma_vout_roundtrip(s, b, 8);
}

/// Whatever decodes as an output meets the machine bounds.
pub proof fn lemma_dec_txout_fits(b: Seq<u8>, pos: int)
    requires
        b.len() <= usize::MAX,
        spec_dec_txout(b, pos) is Some,
    ensures
        txout_fits(spec_dec_txout(b, pos).unwrap().0),
        pos <= spec_dec_txout(b, pos).unwrap().1 <= b.len(),
{
}

/// Whatever decodes as an input meets the machine bounds.
pub proof fn lemma_dec_txin_fits(b: Seq<u8>, pos: int)
    requires
        b.len() <= usize::MAX,
        spec_dec_txin(b, pos) is Some,
    ensures
        txin_fits(spec_dec_txin(b, pos).unwrap().0),
        pos <= spec_dec_txin(b, pos).unwrap().1 <= b.len(),
{
}

/// Whatever decodes as a list of `n` inputs has `n` fitting entries.
pub proof fn lemma_dec_vin_fits(b: Seq<u8>, pos: int, n: nat)
    requires
        b.len() <= usize::MAX,
        spec_dec_vin(b, pos, n) is Some,
    ensures
        spec_dec_vin(b, pos, n).unwrap().0.len() == n,
        forall|i: int|
            0 <= i < n ==> txin_fits(#[trigger] spec_dec_vin(b, pos, n).unwrap().0[i]),
        pos <= spec_dec_vin(b, pos, n).unwrap().1 <= b.len() || n == 0,
    decreases n,
{
    if n == 0 {
    } else {
        lemma_dec_txin_fits(b, pos);
        let p1 = spec_dec_txin(b, pos).unwrap().1;
        lemma_dec_vin_fits(b, p1, (n - 1) as nat);
    }
}

/// Whatever decodes as a list of `n` outputs has `n` fitting entries.
pub proof fn lemma_dec_vout_fits(b: Seq<u8>, pos: int, n: nat)
    requires
        b.len() <= usize::MAX,
        spec_dec_vout(b, pos, n) is Some,
    ensures
        spec_dec_vout(b, pos, n).unwrap().0.len() == n,
        forall|i: int|
            0 <= i < n ==> txout_fits(#[trigger] spec_dec_vout(b, pos, n).unwrap().0[i]),
        pos <= spec_dec_vout(b, pos, n).unwrap().1 <= b.len() || n == 0,
    decreases n,
{
    if n == 0 {
    } else {
        lemma_dec_txout_fits(b, pos);
        let p1 = spec_dec_txout(b, pos).unwrap().1;
        lemma_dec_vout_fits(b, p1, (n - 1) as nat);
    }
}

/// Whatever decodes as a transaction meets the machine bounds.
pub proof fn lemma_dec_tx_fits(b: Seq<u8>, pos: int)
    requires
        b.len() <= usize::MAX,
        spec_dec_tx(b, pos) is Some,
    ensures
        tx_fits(spec_dec_tx(b, pos).unwrap().0),
        tx_costs_ok(spec_dec_tx(b, pos).unwrap().0),
    decreases b.len(),
{
    let id_dec = spec_dec_bytes(b, pos).unwrap();
    let p1 = id_dec.1;
    let n_vin = spec_u64_of_le(b, p1);
    lemma_dec_vin_fits(b, p1 + 8, n_vin as nat);
    let p2 = spec_dec_vin(b, p1 + 8, n_vin as nat).unwrap().1;
    let n_vout = spec_u64_of_le(b, p2);
    lemma_dec_vout_fits(b, p2 + 8, n_vout as nat);
    let t = spec_dec_tx(b, pos).unwrap().0;
    assert forall|i: int| 0 <= i < t.vout.len() implies (#[trigger] t.vout[i]).cost >= 0 by {
        assert(txout_fits(t.vout[i]));
    }
}

/// Input lists encode piecewise: the bytes of a concatenation are the
/// concatenated bytes.
pub proof fn lemma_vin_bytes_concat(s1: Seq<TxInV>, s2: Seq<TxInV>)
    ensures
        spec_vin_bytes(s1 + s2) =~= spec_vin_bytes(s1) + spec_vin_bytes(s2),
    decreases s1.len(),
{
    if s1.len() == 0 {
        assert(s1 + s2 =~= s2);
        assert(spec_vin_bytes(s1) =~= Seq::<u8>::empty());
    } else {
        assert((s1 + s2)[0] == s1[0]);
        assert((s1 + s2).drop_first() =~= s1.drop_first() + s2);
        lemma_vin_bytes_concat(s1.drop_first(), s2);
    }
}

/// Output lists encode piecewise.
pub proof fn lemma_vout_bytes_concat(s1: Seq<TxOutV>, s2: Seq<TxOutV>)
    ensures
        spec_vout_bytes(s1 + s2) =~= spec_vout_bytes(s1) + spec_vout_bytes(s2),
    decreases s1.len(),
{
    if s1.len() == 0 {
        assert(s1 + s2 =~= s2);
        assert(spec_vout_bytes(s1) =~= Seq::<u8>::empty());
    } else {
        assert((s1 + s2)[0] == s1[0]);
        assert((s1 + s2).drop_first() =~= s1.drop_first() + s2);
        lemma_vout_bytes_concat(s1.drop_first(), s2);
    }
}

/// Encoding one more input appends its bytes.
pub proof fn lemma_vin_bytes_push(s: Seq<TxInV>, i: int)
    requires
        0 <= i < s.len(),
    ensures
        spec_vin_bytes(s.take(i + 1)) =~= spec_vin_bytes(s.take(i)) + spec_txin_bytes(s[i]),
{
    let single = seq![s[i]];
    assert(s.take(i + 1) =~= s.take(i) + single);
    lemma_vin_bytes_concat(s.take(i), single);
    assert(single.drop_first() =~= Seq::<TxInV>::empty());
    assert(spec_vin_bytes(single.drop_first()) =~= Seq::<u8>::empty());
    assert(spec_vin_bytes(single) =~= spec_txin_bytes(s[i]));
}

/// Encoding one more output appends its bytes.
pub proof fn lemma_vout_bytes_push(s: Seq<TxOutV>, i: int)
    requires
        0 <= i < s.len(),
    ensures
        spec_vout_bytes(s.take(i + 1)) =~= spec_vout_bytes(s.take(i)) + spec_txout_bytes(s[i]),
{
    let single = seq![s[i]];
    assert(s.take(i + 1) =~= s.take(i) + single);
    lemma_vout_bytes_concat(s.take(i), single);
    assert(single.drop_first() =~= Seq::<TxOutV>::empty());
    assert(spec_vout_bytes(single.drop_first()) =~= Seq::<u8>::empty());
    assert(spec_vout_bytes(single) =~= spec_txout_bytes(s[i]));
}

} // verus!
