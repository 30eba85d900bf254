//! The byte keys under which the hub's disk store and limiters index
//! hashes, identities and descriptor slots.

use vstd::prelude::*;
use crate::bytes::append_bytes;
use crate::descriptor::Descriptor;
use crate::primitives::{blake3_hash, blake3_digest};
use vstd::utf8::encode_utf8;

verus! {

/// The key of a hash: its algorithm byte, then its digest.
pub open spec fn hash_key(h: (u8, Seq<u8>)) -> Seq<u8> {
    seq![h.0] + h.1
}

/// The key of an identity: its algorithm byte, then its public key.
pub open spec fn identity_key(id: (u8, Seq<u8>)) -> Seq<u8> {
    seq![id.0] + id.1
}

/// The key bytes of a hash.
pub fn hash_bytes(h: &crate::hash::Hash) -> (res: Vec<u8>)
    ensures
        res@ == hash_key(h@),
{
    let mut bytes: Vec<u8> = Vec::new();
    bytes.push(h.algorithm);
    append_bytes(&mut bytes, h.digest.as_slice());
    assert(bytes@ =~= hash_key(h@));
    bytes
}

/// The key bytes of an identity.
pub fn identity_bytes(id: &crate::identity::Identity) -> (res: Vec<u8>)
    ensures
        res@ == identity_key(id@),
{
    let mut bytes: Vec<u8> = Vec::new();
    bytes.push(id.algorithm);
    append_bytes(&mut bytes, id.public_key.as_slice());
    assert(bytes@ =~= identity_key(id@));
    bytes
}

/// The key of a descriptor slot: BLAKE3 of the publisher's key, the schema
/// hash's key and the topic's UTF-8 bytes, one after the other.
pub open spec fn slot_key(publisher: (u8, Seq<u8>), schema: (u8, Seq<u8>), topic_bytes: Seq<u8>) -> Seq<u8> {
    blake3_digest(identity_key(publisher) + hash_key(schema) + topic_bytes)
}

/// The slot key of a descriptor.
pub fn dedup_key(desc: &Descriptor) -> (res: Vec<u8>)
    ensures
        res@ == slot_key(desc.publisher@, desc.schema_hash@, encode_utf8(desc.topic@)),
{
    let mut input = identity_bytes(&desc.publisher);
    let schema = hash_bytes(&desc.schema_hash);
    append_bytes(&mut input, schema.as_slice());
    append_bytes(&mut input, desc.topic.as_str().as_bytes());
    assert(input@ =~= identity_key(desc.publisher@) + hash_key(desc.schema_hash@) + encode_utf8(desc.topic@));
    blake3_hash(input.as_slice())
}

} // verus!
