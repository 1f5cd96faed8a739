//! Wallets: a P-256 key pair and the Base58 address derived from the
//! public key's hash.
//!
//! An address spells `version byte, RIPEMD-160(SHA-256(public key)),
//! four checksum bytes` in Base58; validation re-derives the checksum.

use vstd::prelude::*;

use crate::bytesutil::push_all;
use crate::bytesutil::bytes_equal;
use crate::bytesutil::clone_bytes;
use crate::crypto::base58_decode;
use crate::crypto::base58_encode;
use crate::crypto::base58_of;
use crate::crypto::is_valid_p256_pkcs8;
use crate::crypto::new_key_pair;
use crate::crypto::public_key_from_pkcs8;
use crate::crypto::public_key_of;
use crate::crypto::ripemd160_digest;
use crate::crypto::ripemd160_of;
use crate::crypto::sha256_digest;
use crate::crypto::sha256_of;
use crate::errors::ChainError;

verus! {

/// The version byte prefixed to every address payload.
pub const VERSION: u8 = 0x00;

/// How many checksum bytes end an address payload.
pub const ADDRESS_CHECKSUM_LEN: usize = 4;

/// The public-key hash that outputs are locked to.
pub open spec fn spec_hash_pub_key(pub_key: Seq<u8>) -> Seq<u8> {
    ripemd160_of(sha256_of(pub_key))
}

/// The four checksum bytes of an address payload prefix.
pub open spec fn spec_checksum(payload: Seq<u8>) -> Seq<u8> {
    Seq::new(ADDRESS_CHECKSUM_LEN as nat, |i: int| sha256_of(sha256_of(payload))[i])
}

/// The full address payload for a public-key hash.
pub open spec fn spec_address_payload(pub_key_hash: Seq<u8>) -> Seq<u8> {
    let prefix = seq![VERSION] + pub_key_hash;
    prefix + spec_checksum(prefix)
}

/// The address spelled for a public-key hash.
pub open spec fn spec_convert_address(pub_key_hash: Seq<u8>) -> Seq<char> {
    base58_of(spec_address_payload(pub_key_hash))
}

/// Whether a decoded payload carries a checksum that matches its prefix.
pub open spec fn spec_payload_checked(p: Seq<u8>) -> bool {
    p.len() >= 5 && p.subrange(p.len() - 4, p.len() as int) == spec_checksum(
        p.subrange(0, p.len() - 4),
    )
}

/// Whether a string is a valid address: it decodes from Base58 and its
/// checksum matches.
pub open spec fn spec_address_valid(a: Seq<char>) -> bool {
    exists|p: Seq<u8>| a == base58_of(p) && spec_payload_checked(p)
}

/// RIPEMD-160 over SHA-256 of a public key.
pub fn hash_pub_key(pub_key: &[u8]) -> (r: Vec<u8>)
    ensures
        r@ == spec_hash_pub_key(pub_key@),
        r@.len() == 20,
{
    let pub_key_sha256 = sha256_digest(pub_key);
    ripemd160_digest(pub_key_sha256.as_slice())
}

/// The first four bytes of the double SHA-256 of `payload`.
pub fn checksum(payload: &[u8]) -> (r: Vec<u8>)
    ensures
        r@ == spec_checksum(payload@),
        r@.len() == 4,
{
    let first_sha = sha256_digest(payload);
    let second_sha = sha256_digest(first_sha.as_slice());
    let r = vstd::slice::slice_to_vec(
        vstd::slice::slice_subrange(second_sha.as_slice(), 0, ADDRESS_CHECKSUM_LEN),
    );
    assert(r@ =~= spec_checksum(payload@));
    r
}

/// Whether `address` decodes from Base58 into a payload whose checksum
/// matches: true exactly on valid addresses.
pub fn validate_address(address: &str) -> (r: bool)
    ensures
        r == spec_address_valid(address@),
{
    let payload = match base58_decode(address) {
        Some(p) => p,
        None => {
            return false;
        },
    };
    if payload.len() < 5 {
        proof {
            assert forall|p: Seq<u8>| address@ == base58_of(p) implies !spec_payload_checked(
                p,
            ) by {
                assert(p == payload@);
            }
        }
        return false;
    }
    let n = payload.len();
    let actual_checksum = vstd::slice::slice_subrange(payload.as_slice(), n - 4, n);
    let version_and_hash = vstd::slice::slice_subrange(payload.as_slice(), 0, n - 4);
    let target_checksum = checksum(version_and_hash);
    let ok = bytes_equal(actual_checksum, target_checksum.as_slice());
    proof {
        if ok {
            assert(spec_payload_checked(payload@));
        } else {
            assert forall|p: Seq<u8>| address@ == base58_of(p) implies !spec_payload_checked(
                p,
            ) by {
                assert(p == payload@);
            }
        }
    }
    ok
}

/// The address that spells `pub_hash_key` with its version byte and
/// checksum in Base58.
pub fn convert_address(pub_hash_key: &[u8]) -> (r: String)
    ensures
        r@ == spec_convert_address(pub_hash_key@),
        vstd::utf8::is_ascii_chars(r@),
{
    let mut payload: Vec<u8> = Vec::new();
    payload.push(VERSION);
    push_all(&mut payload, pub_hash_key);
    assert(payload@ =~= seq![VERSION] + pub_hash_key@);
    let cs = checksum(payload.as_slice());
    push_all(&mut payload, cs.as_slice());
    assert(payload@ =~= spec_address_payload(pub_hash_key@));
    base58_encode(payload.as_slice())
}

/// The address payload frames exactly the public-key hash between
/// the version byte and the checksum.
pub proof fn lemma_payload_carries_hash(pub_key_hash: Seq<u8>)
    ensures
        spec_address_payload(pub_key_hash).len() == pub_key_hash.len() + 5,
        spec_address_payload(pub_key_hash).subrange(
            1,
            spec_address_payload(pub_key_hash).len() - 4,
        ) =~= pub_key_hash,
{
    let prefix = seq![VERSION] + pub_key_hash;
    let p = spec_address_payload(pub_key_hash);
    assert(p.len() == pub_key_hash.len() + 5);
}

/// A freshly spelled address always validates: the payload it encodes
/// carries the checksum of its own prefix.
pub proof fn lemma_address_roundtrip(pub_key_hash: Seq<u8>)
    ensures
        spec_address_valid(spec_convert_address(pub_key_hash)),
{
    let p = spec_address_payload(pub_key_hash);
    let prefix = seq![VERSION] + pub_key_hash;
    assert(p.len() == prefix.len() + 4);
    assert(p.subrange(0, p.len() - 4) =~= prefix);
    assert(p.subrange(p.len() - 4, p.len() as int) =~= spec_checksum(prefix));
    assert(spec_payload_checked(p));
    assert(spec_convert_address(pub_key_hash) == base58_of(p));
}

/// The mathematical value of a wallet.
pub struct WalletV {
    pub pkcs8: Seq<u8>,
    pub public_key: Seq<u8>,
}

/// A key pair held locally: the PKCS#8 document and the public key
/// extracted from it.
pub struct Wallet {
    pkcs8: Vec<u8>,
    public_key: Vec<u8>,
}

impl View for Wallet {
    type V = WalletV;

    closed spec fn view(&self) -> WalletV {
        WalletV { pkcs8: self.pkcs8@, public_key: self.public_key@ }
    }
}

impl Clone for Wallet {
    fn clone(&self) -> (res: Self)
        ensures
            res@ == self@,
    {
        Wallet { pkcs8: clone_bytes(&self.pkcs8), public_key: clone_bytes(&self.public_key) }
    }
}

impl Wallet {
    /// The wallet's key pair parses, and its public key is the one the
    /// document embeds.
    pub open spec fn wf(&self) -> bool {
        is_valid_p256_pkcs8(self@.pkcs8) && self@.public_key == public_key_of(self@.pkcs8)
    }

    /// A wallet over a freshly generated key pair.
    pub fn new() -> (r: Result<Wallet, ChainError>)
        ensures
            r matches Ok(w) ==> w.wf(),
    {
        let pkcs8 = match new_key_pair() {
            Ok(v) => v,
            Err(e) => {
                return Err(e);
            },
        };
        let public_key = match public_key_from_pkcs8(pkcs8.as_slice()) {
            Ok(v) => v,
            Err(e) => {
                return Err(e);
            },
        };
        Ok(Wallet { pkcs8, public_key })
    }

    /// A wallet rebuilt from a stored PKCS#8 document; fails when the
    /// document does not parse as a key pair.
    pub fn from_pkcs8(pkcs8: Vec<u8>) -> (r: Result<Wallet, ChainError>)
        ensures
            r matches Ok(w) ==> w.wf() && w@.pkcs8 == pkcs8@,
    {
        let public_key = match public_key_from_pkcs8(pkcs8.as_slice()) {
            Ok(v) => v,
            Err(e) => {
                return Err(e);
            },
        };
        Ok(Wallet { pkcs8, public_key })
    }

    /// The raw public key.
    pub fn get_public_key(&self) -> (r: &[u8])
        ensures
            r@ == self@.public_key,
    {
        self.public_key.as_slice()
    }

    /// The PKCS#8 document holding the key pair.
    pub fn get_pkcs8(&self) -> (r: &[u8])
        ensures
            r@ == self@.pkcs8,
    {
        self.pkcs8.as_slice()
    }

    /// The wallet's address: the Base58 spelling of its public-key hash.
    pub fn get_address(&self) -> (r: String)
        ensures
            r@ == spec_convert_address(spec_hash_pub_key(self@.public_key)),
            vstd::utf8::is_ascii_chars(r@),
    {
        let pub_key_hash = hash_pub_key(self.public_key.as_slice());
        convert_address(pub_key_hash.as_slice())
    }
}

} // verus!
