//! Ed25519 keys and signatures, certificate fingerprints and session tokens, each from
//! the crate that provides it.
use vstd::prelude::*;
use ed25519_dalek::{ExpandedSecretKey, PublicKey, SecretKey, Signature, Verifier};
use sha2::Digest;

verus! {

/// Length of an Ed25519 secret or public key, in bytes.
pub const KEY_LEN: usize = 32;

/// Length of an Ed25519 signature, in bytes.
pub const SIG_LEN: usize = 64;

/// The Ed25519 public key that belongs to a 32-byte secret key.
pub uninterp spec fn ed25519_public(secret: Seq<u8>) -> Seq<u8>;

/// The Ed25519 signature of `msg` under a 32-byte secret key.
pub uninterp spec fn ed25519_sig(secret: Seq<u8>, msg: Seq<u8>) -> Seq<u8>;

/// Whether `sig` is a valid Ed25519 signature of `msg` under the public key `pk`.
pub uninterp spec fn ed25519_valid(pk: Seq<u8>, msg: Seq<u8>, sig: Seq<u8>) -> bool;

/// The SHA-256 digest of `b`.
pub uninterp spec fn sha256_of(b: Seq<u8>) -> Seq<u8>;

/// A fresh 32-byte secret key.
/// Relies on `ed25519_dalek::SecretKey::generate` with the operating system's random source.
#[verifier::external_body]
pub fn generate_secret() -> (r: Vec<u8>)
    ensures
        r@.len() == KEY_LEN,
{
    let mut rng = rand::rngs::OsRng;
    SecretKey::generate(&mut rng).to_bytes().to_vec()
}

/// The public key of a secret key.
/// Relies on `SecretKey::from_bytes`, which accepts any 32 bytes, and
/// `PublicKey::from(&SecretKey)`.
#[verifier::external_body]
pub fn public_key_of(secret: &[u8]) -> (r: Vec<u8>)
    requires
        secret@.len() == KEY_LEN,
    ensures
        r@ == ed25519_public(secret@),
        r@.len() == KEY_LEN,
{
    match SecretKey::from_bytes(secret) {
        Ok(sk) => PublicKey::from(&sk).to_bytes().to_vec(),
        Err(_) => Vec::new(),
    }
}

/// The signature of `msg` under a secret key.
/// Relies on `ExpandedSecretKey::sign`, the deterministic Ed25519 signature, with the
/// public key derived from the same secret.
#[verifier::external_body]
pub fn sign_bytes(secret: &[u8], msg: &[u8]) -> (r: Vec<u8>)
    requires
        secret@.len() == KEY_LEN,
    ensures
        r@ == ed25519_sig(secret@, msg@),
        r@.len() == SIG_LEN,
{
    match SecretKey::from_bytes(secret) {
        Ok(sk) => ExpandedSecretKey::from(&sk).sign(msg, &PublicKey::from(&sk)).to_bytes().to_vec(),
        Err(_) => Vec::new(),
    }
}

/// Whether `sig` verifies for `msg` under the public key `pk`.
/// Relies on `PublicKey::from_bytes`, `Signature::from_bytes` and `PublicKey::verify`:
/// malformed keys or signatures do not verify, and a signature made with a secret key
/// verifies under that key's public key.
#[verifier::external_body]
pub fn verify_bytes(pk: &[u8], msg: &[u8], sig: &[u8]) -> (r: bool)
    ensures
        r == ed25519_valid(pk@, msg@, sig@),
        forall|secret: Seq<u8>|
            secret.len() == KEY_LEN && pk@ == ed25519_public(secret) && sig@ == ed25519_sig(
                secret,
                msg@,
            ) ==> r,
{
    let key = match PublicKey::from_bytes(pk) {
        Ok(k) => k,
        Err(_) => return false,
    };
    let signature = match Signature::from_bytes(sig) {
        Ok(s) => s,
        Err(_) => return false,
    };
    key.verify(msg, &signature).is_ok()
}

/// The SHA-256 digest of `b`.
/// Relies on `sha2::Sha256::digest`: 32 bytes that depend on `b` alone.
#[verifier::external_body]
pub fn sha256(b: &[u8]) -> (r: Vec<u8>)
    ensures
        r@ == sha256_of(b@),
        r@.len() == 32,
{
    sha2::Sha256::digest(b).to_vec()
}

/// A lower-case hexadecimal digit.
pub open spec fn hex_digit(d: nat) -> char {
    if d < 10 {
        ((d + '0' as u32) as u32) as char
    } else {
        ((d - 10 + 'a' as u32) as u32) as char
    }
}

/// Two lower-case hexadecimal digits for each byte of `b`, high digit first.
pub open spec fn hex_of(b: Seq<u8>) -> Seq<char>
    decreases b.len(),
{
    if b.len() == 0 {
        Seq::empty()
    } else {
        hex_of(b.drop_last()) + seq![hex_digit(b.last() as nat / 16), hex_digit(b.last() as nat % 16)]
    }
}

/// The lower-case hexadecimal text of `b`.
/// Relies on `hex::encode`: two lower-case digits for each byte, high digit first.
#[verifier::external_body]
pub fn hex_text(b: &[u8]) -> (r: String)
    ensures
        r@ == hex_of(b@),
{
    hex::encode(b)
}

/// A fresh random session token.
/// Relies on `uuid::Uuid::new_v4` and its hyphenated text form, which is 36 characters.
#[verifier::external_body]
pub fn new_token() -> (r: String)
    ensures
        r@.len() == 36,
{
    uuid::Uuid::new_v4().to_string()
}

} // verus!
