//! DID-Auth challenge-response: the hub issues a challenge, and an identity
//! proves itself by signing the challenge's canonical bytes.

use vstd::prelude::*;
use vstd::string::StringSliceAdditionalSpecFns;
use vstd::utf8::encode_utf8;
use crate::cbor::{cbor_bytes, cbor_entries_bytes, cbor_head, cbor_text, cbor_uint, CborItem, MAJOR_MAP};
use crate::error::{concat, mesh_error_text};
use crate::identity::{Identity, signature_valid};
use crate::primitives::{cbor_map_bytes, clock_reading, fill_random, new_uuid_v4, now_micros};

verus! {

/// Challenge validity window: 5 minutes in microseconds.
pub const CHALLENGE_TTL_MICROS: u64 = 300_000_000;

/// A DID-Auth challenge issued by the hub.
#[derive(Debug, Clone)]
pub struct DIDAuthChallenge {
    /// The challenge's UUID, as its 128-bit value.
    pub id: u128,
    pub nonce: [u8; 32],
    pub hub_did: String,
    pub action: String,
    pub issued_at: u64,
    pub expiry: u64,
}

/// The UTF-8 bytes of the four map keys.
pub open spec fn key_nonce() -> Seq<u8> { encode_utf8("nonce"@) }
pub open spec fn key_action() -> Seq<u8> { encode_utf8("action"@) }
pub open spec fn key_hub_did() -> Seq<u8> { encode_utf8("hub_did"@) }
pub open spec fn key_issued_at() -> Seq<u8> { encode_utf8("issued_at"@) }

/// The canonical signable bytes of a challenge: a CBOR map of four entries
/// with keys in deterministic order (shorter keys first): nonce (bytes),
/// action (text), hub_did (text), issued_at (unsigned).
pub open spec fn signable_bytes(nonce: Seq<u8>, action: Seq<char>, hub_did: Seq<char>, issued_at: u64) -> Seq<u8> {
    cbor_head(MAJOR_MAP, 4)
        + cbor_text(key_nonce()) + cbor_bytes(nonce)
        + cbor_text(key_action()) + cbor_text(encode_utf8(action))
        + cbor_text(key_hub_did()) + cbor_text(encode_utf8(hub_did))
        + cbor_text(key_issued_at()) + cbor_uint(issued_at as nat)
}

impl DIDAuthChallenge {
    /// Create a new challenge with a random id and nonce, issued now and
    /// expiring five minutes later (at the end of time at the latest).
    pub fn new(hub_did: &str, action: &str) -> (res: DIDAuthChallenge)
        ensures
            res.hub_did@ == hub_did@,
            res.action@ == action@,
            clock_reading(res.issued_at),
            res.expiry == if res.issued_at + CHALLENGE_TTL_MICROS <= u64::MAX {
                (res.issued_at + CHALLENGE_TTL_MICROS) as u64
            } else {
                u64::MAX
            },
    {
        let mut buf: Vec<u8> = Vec::new();
        let mut i: usize = 0;
        while i < 32
            invariant
                i <= 32,
                buf@.len() == i,
            decreases 32 - i,
        {
            buf.push(0);
            i = i + 1;
        }
        fill_random(&mut buf);
        let mut nonce = [0u8; 32];
        let mut j: usize = 0;
        while j < 32
            invariant
                j <= 32,
                buf@.len() == 32,
            decreases 32 - j,
        {
            nonce[j] = buf[j];
            j = j + 1;
        }
        let issued_at = now_micros();
        let expiry = issued_at.saturating_add(CHALLENGE_TTL_MICROS);
        DIDAuthChallenge {
            id: new_uuid_v4(),
            nonce,
            hub_did: hub_did.to_owned(),
            action: action.to_owned(),
            issued_at,
            expiry,
        }
    }

    /// The canonical bytes an identity signs to answer this challenge.
    pub fn to_signable_bytes(&self) -> (res: Vec<u8>)
        ensures
            res@ == signable_bytes(self.nonce@, self.action@, self.hub_did@, self.issued_at),
    {
        let mut nonce: Vec<u8> = Vec::new();
        crate::bytes::append_bytes(&mut nonce, &self.nonce);
        let mut entries: Vec<(String, CborItem)> = Vec::new();
        entries.push(("nonce".to_owned(), CborItem::Bytes(nonce)));
        entries.push(("action".to_owned(), CborItem::Text(self.action.clone())));
        entries.push(("hub_did".to_owned(), CborItem::Text(self.hub_did.clone())));
        entries.push(("issued_at".to_owned(), CborItem::Uint(self.issued_at)));
        proof {
            reveal_with_fuel(cbor_entries_bytes, 5);
        }
        let buf = cbor_map_bytes(entries);
        assert(buf@ =~= signable_bytes(self.nonce@, self.action@, self.hub_did@, self.issued_at));
        buf
    }

    /// Verify `signature` over this challenge's signable bytes by `identity`.
    pub fn verify(&self, identity: &Identity, signature: &[u8]) -> (res: Result<(), String>)
        ensures
            res is Ok <==> signature_valid(identity@, signable_bytes(self.nonce@, self.action@, self.hub_did@, self.issued_at), signature@),
            res matches Err(m) ==> m@ == "signature verification failed: "@ + if identity.algorithm != crate::identity::ALG_ED25519 {
                mesh_error_text(crate::error::MeshError::UnknownAlgorithm(identity.algorithm))
            } else {
                mesh_error_text(crate::error::MeshError::InvalidSignature)
            },
    {
        let signable = self.to_signable_bytes();
        match identity.verify(signable.as_slice(), signature) {
            Ok(()) => Ok(()),
            Err(e) => {
                let text = e.message();
                Err(concat("signature verification failed: ".to_owned(), text.as_str()))
            },
        }
    }

    /// Whether this challenge has expired at `now_micros`.
    pub fn is_expired(&self, now_micros: u64) -> (res: bool)
        ensures
            res == (now_micros >= self.expiry),
    {
        now_micros >= self.expiry
    }
}

} // verus!
