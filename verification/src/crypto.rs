//! Cryptographic primitives, taken on trust from their providers.
//!
//! Each digest or signature result is given a name (an uninterpreted
//! spec function of the inputs alone); the wrappers state, over those
//! names, exactly what the outside calls return, and the rest of the
//! library is verified against those statements.

use vstd::prelude::*;

use crate::errors::ChainError;
use crypto::digest::Digest;
use ring::signature::KeyPair;

verus! {

/// The SHA-256 digest of a byte sequence.
pub uninterp spec fn sha256_of(data: Seq<u8>) -> Seq<u8>;

/// The RIPEMD-160 digest of a byte sequence.
pub uninterp spec fn ripemd160_of(data: Seq<u8>) -> Seq<u8>;

/// The Base58 (Bitcoin alphabet) spelling of a byte sequence.
pub uninterp spec fn base58_of(data: Seq<u8>) -> Seq<char>;

/// Whether a PKCS#8 document parses as a P-256 ECDSA key pair.
pub uninterp spec fn is_valid_p256_pkcs8(pkcs8: Seq<u8>) -> bool;

/// The fixed-format public key embedded in a valid PKCS#8 document.
pub uninterp spec fn public_key_of(pkcs8: Seq<u8>) -> Seq<u8>;

/// Whether `signature` is a valid ECDSA P-256 (SHA-256, fixed format)
/// signature of `message` under `public_key`.
pub uninterp spec fn ecdsa_verifies(public_key: Seq<u8>, message: Seq<u8>, signature: Seq<u8>)
    -> bool;

/// Milliseconds since the Unix epoch. The result depends on the clock,
/// so nothing is stated of it.
///
/// Relies on std::time::SystemTime for the current time.
#[verifier::external_body]
pub fn current_timestamp() -> u64 {
    match std::time::SystemTime::now().duration_since(std::time::UNIX_EPOCH) {
        Ok(d) => d.as_millis() as u64,
        Err(_) => 0,
    }
}

/// Relies on ring's SHA-256 (`ring::digest`): a 32-byte digest that is a
/// function of the input bytes alone.
#[verifier::external_body]
pub fn sha256_digest(data: &[u8]) -> (r: Vec<u8>)
    ensures
        r@ == sha256_of(data@),
        r@.len() == 32,
{
    let mut context = ring::digest::Context::new(&ring::digest::SHA256);
    context.update(data);
    context.finish().as_ref().to_vec()
}

/// Relies on rust-crypto's RIPEMD-160 (`crypto::ripemd160::Ripemd160`): a
/// 20-byte digest that is a function of the input bytes alone.
#[verifier::external_body]
pub fn ripemd160_digest(data: &[u8]) -> (r: Vec<u8>)
    ensures
        r@ == ripemd160_of(data@),
        r@.len() == 20,
{
    let mut ripemd160 = crypto::ripemd160::Ripemd160::new();
    ripemd160.input(data);
    let mut buf: Vec<u8> = vec![0u8; ripemd160.output_bytes()];
    ripemd160.result(&mut buf);
    buf
}

/// Relies on `bs58::encode` with the default (Bitcoin) alphabet: the
/// spelling is a function of the input bytes alone, and its characters
/// come from that ASCII alphabet.
#[verifier::external_body]
pub fn base58_encode(data: &[u8]) -> (r: String)
    ensures
        r@ == base58_of(data@),
        vstd::utf8::is_ascii_chars(r@),
{
    bs58::encode(data).into_string()
}

/// Relies on `bs58::decode` with the default (Bitcoin) alphabet: decoding
/// inverts `bs58::encode` (every encoded string decodes back to the bytes
/// that were encoded), and a decoded value re-encodes to the input, since
/// the encoding is canonical.
#[verifier::external_body]
pub fn base58_decode(data: &str) -> (r: Option<Vec<u8>>)
    ensures
        r matches Some(v) ==> data@ == base58_of(v@),
        r is None ==> forall|d: Seq<u8>| data@ != base58_of(d),
        r matches Some(v) ==> forall|d: Seq<u8>| data@ == base58_of(d) ==> v@ == d,
{
    bs58::decode(data).into_vec().ok()
}

/// Relies on `ring::signature::EcdsaKeyPair::generate_pkcs8`: the
/// generated document (which depends on the system's randomness) is a
/// valid P-256 key pair in PKCS#8 v1 form.
#[verifier::external_body]
pub fn new_key_pair() -> (r: Result<Vec<u8>, ChainError>)
    ensures
        r matches Ok(v) ==> is_valid_p256_pkcs8(v@),
        r matches Err(e) ==> e == ChainError::Crypto,
{
    let rng = ring::rand::SystemRandom::new();
    let alg = &ring::signature::ECDSA_P256_SHA256_FIXED_SIGNING;
    match ring::signature::EcdsaKeyPair::generate_pkcs8(alg, &rng) {
        Ok(doc) => Ok(doc.as_ref().to_vec()),
        Err(_) => Err(ChainError::Crypto),
    }
}

/// Relies on `ring::signature::EcdsaKeyPair::from_pkcs8` and
/// `ring::signature::KeyPair::public_key`: parsing succeeds exactly on
/// valid documents, and the returned public key is the one embedded in
/// the document.
#[verifier::external_body]
pub fn public_key_from_pkcs8(pkcs8: &[u8]) -> (r: Result<Vec<u8>, ChainError>)
    ensures
        r matches Ok(v) ==> is_valid_p256_pkcs8(pkcs8@) && v@ == public_key_of(pkcs8@),
        r matches Err(e) ==> e == ChainError::Crypto,
{
    let rng = ring::rand::SystemRandom::new();
    let alg = &ring::signature::ECDSA_P256_SHA256_FIXED_SIGNING;
    match ring::signature::EcdsaKeyPair::from_pkcs8(alg, pkcs8, &rng) {
        Ok(kp) => Ok(kp.public_key().as_ref().to_vec()),
        Err(_) => Err(ChainError::Crypto),
    }
}

/// Relies on `ring::signature::EcdsaKeyPair::sign`: any signature it
/// produces (the signature itself depends on a random nonce) verifies
/// under the key pair's public key for the signed message.
#[verifier::external_body]
pub fn ecdsa_p256_sha256_sign_digest(pkcs8: &[u8], message: &[u8]) -> (r: Result<
    Vec<u8>,
    ChainError,
>)
    ensures
        r matches Ok(sig) ==> is_valid_p256_pkcs8(pkcs8@) && ecdsa_verifies(
            public_key_of(pkcs8@),
            message@,
            sig@,
        ),
        r matches Err(e) ==> e == ChainError::Crypto,
{
    let rng = ring::rand::SystemRandom::new();
    let alg = &ring::signature::ECDSA_P256_SHA256_FIXED_SIGNING;
    let kp = match ring::signature::EcdsaKeyPair::from_pkcs8(alg, pkcs8, &rng) {
        Ok(kp) => kp,
        Err(_) => return Err(ChainError::Crypto),
    };
    match kp.sign(&rng, message) {
        Ok(sig) => Ok(sig.as_ref().to_vec()),
        Err(_) => Err(ChainError::Crypto),
    }
}

/// Relies on `ring::signature::UnparsedPublicKey::verify` with the
/// `ECDSA_P256_SHA256_FIXED` algorithm: acceptance is a function of key,
/// message and signature alone.
#[verifier::external_body]
pub fn ecdsa_p256_sha256_sign_verify(pub_key: &[u8], signature: &[u8], message: &[u8]) -> (r: bool)
    ensures
        r == ecdsa_verifies(pub_key@, message@, signature@),
{
    let alg = &ring::signature::ECDSA_P256_SHA256_FIXED;
    let peer_pub_key = ring::signature::UnparsedPublicKey::new(alg, pub_key);
    peer_pub_key.verify(message, signature).is_ok()
}

/// Relies on `uuid::Uuid::new_v4`: a random 16-byte value.
#[verifier::external_body]
pub fn new_uuid_bytes() -> (r: Vec<u8>)
    ensures
        r@.len() == 16,
{
    uuid::Uuid::new_v4().as_bytes().to_vec()
}

} // verus!
