//! Calls into the cryptographic, CBOR, base-58, randomness and clock crates.
//!
//! Every function here is trusted: its body makes one outside call and its
//! contract states what that crate documents. Everything built on top of
//! these functions is verified.

use vstd::prelude::*;
use crate::text::base58_text;
use crate::cbor::{CborItem, cbor_entries_bytes, cbor_head, MAJOR_MAP};

verus! {

/// The 32-byte BLAKE3 digest of `data`.
pub uninterp spec fn blake3_digest(data: Seq<u8>) -> Seq<u8>;

/// The Ed25519 public key derived from a 32-byte secret key.
pub uninterp spec fn ed25519_public_key_of(secret: Seq<u8>) -> Seq<u8>;

/// The (deterministic) Ed25519 signature of `message` under `secret`.
pub uninterp spec fn ed25519_signature_of(secret: Seq<u8>, message: Seq<u8>) -> Seq<u8>;

/// Whether `public_key` decodes to a curve point and `signature` is a valid
/// Ed25519 signature of `message` under it.
pub uninterp spec fn ed25519_verifies(public_key: Seq<u8>, message: Seq<u8>, signature: Seq<u8>) -> bool;

/// `blake3::hash`: the BLAKE3 hash of `data`, as its 32 output bytes.
/// Trusted to be a function of `data` alone and 32 bytes long.
#[verifier::external_body]
pub fn blake3_hash(data: &[u8]) -> (res: Vec<u8>)
    ensures
        res@ == blake3_digest(data@),
        res@.len() == 32,
{
    blake3::hash(data).as_bytes().to_vec()
}

/// `bs58::encode(..).into_string()` with the default (Bitcoin) alphabet:
/// one `'1'` per leading zero byte, then the base-58 digits of the rest.
#[verifier::external_body]
pub fn base58_encode(data: &[u8]) -> (res: String)
    ensures
        res@ == base58_text(data@),
{
    bs58::encode(data).into_string()
}

/// `SigningKey::from_bytes(secret).verifying_key().to_bytes()`: the public
/// key of a secret key, a function of the secret alone.
#[verifier::external_body]
pub fn ed25519_public_key(secret: &[u8; 32]) -> (res: [u8; 32])
    ensures
        res@ == ed25519_public_key_of(secret@),
{
    ed25519_dalek::SigningKey::from_bytes(secret).verifying_key().to_bytes()
}

/// `SigningKey::sign`: Ed25519 signing is deterministic, and a signature made
/// with a secret key verifies under that key's public key.
#[verifier::external_body]
pub fn ed25519_sign(secret: &[u8; 32], message: &[u8]) -> (res: [u8; 64])
    ensures
        res@ == ed25519_signature_of(secret@, message@),
        ed25519_verifies(ed25519_public_key_of(secret@), message@, res@),
{
    ed25519_dalek::Signer::sign(&ed25519_dalek::SigningKey::from_bytes(secret), message).to_bytes()
}

/// `VerifyingKey::from_bytes` followed by `VerifyingKey::verify`: true when
/// the key bytes decode to a valid point and the signature checks out.
#[verifier::external_body]
pub fn ed25519_verify(public_key: &[u8], message: &[u8], signature: &[u8]) -> (res: bool)
    requires
        public_key@.len() == 32,
        signature@.len() == 64,
    ensures
        res == ed25519_verifies(public_key@, message@, signature@),
{
    let key_bytes: [u8; 32] = public_key.try_into().unwrap();
    let sig_bytes: [u8; 64] = signature.try_into().unwrap();
    match ed25519_dalek::VerifyingKey::from_bytes(&key_bytes) {
        Ok(key) => ed25519_dalek::Verifier::verify(&key, message, &ed25519_dalek::Signature::from_bytes(&sig_bytes)).is_ok(),
        Err(_) => false,
    }
}

/// `SigningKey::generate` with the thread-local RNG, as its secret bytes.
/// The result is random: nothing is promised of it.
#[verifier::external_body]
pub fn ed25519_generate_secret() -> (res: [u8; 32]) {
    ed25519_dalek::SigningKey::generate(&mut rand::thread_rng()).to_bytes()
}

/// `RngCore::fill_bytes` on the thread-local RNG: overwrites every byte of
/// `buf` with random data, keeping its length.
#[verifier::external_body]
pub fn fill_random(buf: &mut Vec<u8>)
    ensures
        final(buf)@.len() == old(buf)@.len(),
{
    rand::RngCore::fill_bytes(&mut rand::thread_rng(), buf.as_mut_slice())
}

/// `Uuid::new_v4().as_u128()`: a random version-4 UUID. Its version nibble
/// is 4; the rest is random.
#[verifier::external_body]
pub fn new_uuid_v4() -> (res: u128)
    ensures
        (res >> 76u128) & 0xfu128 == 4,
{
    uuid::Uuid::new_v4().as_u128()
}

/// `ciborium::into_writer` of a `ciborium::Value::Map` whose keys are the
/// texts of `entries` and whose values are their items, in the given
/// order: a definite-length map head, then each key and its value, every
/// head in its shortest form and every integer unsigned. Writing into a
/// `Vec` cannot fail, so the error of the call is dropped.
#[verifier::external_body]
pub fn cbor_map_bytes(entries: Vec<(String, CborItem)>) -> (res: Vec<u8>)
    ensures
        res@ == cbor_head(MAJOR_MAP, entries@.len()) + cbor_entries_bytes(entries@),
{
    let value = ciborium::Value::Map(entries.into_iter().map(|(k, v)| (ciborium::Value::Text(k), match v {
        CborItem::Text(t) => ciborium::Value::Text(t),
        CborItem::Bytes(b) => ciborium::Value::Bytes(b),
        CborItem::Uint(n) => ciborium::Value::Integer(n.into()),
    })).collect());
    let mut buf = Vec::new();
    let _ = ciborium::into_writer(&value, &mut buf);
    buf
}

/// `SystemTime::now()` as microseconds since the Unix epoch. The value
/// depends on the machine's clock: nothing is promised of it. A clock set
/// before the epoch reads as 0 rather than stopping the process, so every
/// descriptor then looks as if it came from the future.
#[verifier::external_body]
pub fn now_micros() -> (res: u64) {
    std::time::SystemTime::now()
        .duration_since(std::time::UNIX_EPOCH)
        .map(|d| d.as_micros() as u64)
        .unwrap_or(0)
}

/// Whether `t` is a value that `now_micros()` can return: a reading of
/// the system clock.
pub open spec fn clock_reading(t: u64) -> bool {
    call_ensures(now_micros, (), t)
}

} // verus!
