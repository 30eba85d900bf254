//! The descriptor envelope: the signed, content-addressed unit of data on
//! the mesh, and its validation.

use vstd::prelude::*;
use vstd::string::StringExecFns;
use vstd::string::StringSliceAdditionalSpecFns;
use vstd::utf8::encode_utf8;
use crate::cbor::{cbor_head, cbor_text, cbor_uint, cbor_uint_array, push_head, push_text, push_uint, push_uint_array, MAJOR_ARRAY, MAJOR_MAP};
use crate::error::{MeshError, mesh_error_text};
use crate::hash::blake3_of;
use crate::identity::{Identity, Keypair, signature_valid};
use crate::primitives::ed25519_signature_of;
use crate::text::decimal_string;
use crate::text::{decimal_text, hex_lower};

verus! {

/// Maximum payload size in bytes (64 KB).
pub const MAX_PAYLOAD_SIZE: usize = 65_536;
/// Maximum topic length in bytes.
pub const MAX_TOPIC_SIZE: usize = 255;
/// Maximum number of routing keys per descriptor.
pub const MAX_ROUTING_KEYS: usize = 8;
/// Maximum clock skew tolerance in seconds.
pub const MAX_CLOCK_SKEW_SECS: u64 = 120;
/// Minimum TTL in seconds.
pub const MIN_TTL_SECS: u32 = 60;
/// Maximum TTL in seconds (24 hours).
pub const MAX_TTL_SECS: u32 = 86_400;

/// The descriptor envelope.
#[derive(Debug)]
pub struct Descriptor {
    /// Content-hash of the schema this payload conforms to.
    pub schema_hash: crate::hash::Hash,
    /// Publisher-chosen descriptor slot (UTF-8, max 255 bytes).
    pub topic: String,
    /// Opaque payload, interpreted according to schema.
    pub payload: Vec<u8>,
    /// Who published this descriptor.
    pub publisher: Identity,
    /// Microseconds since Unix epoch.
    pub timestamp: u64,
    /// Monotonic per publisher, for ordering.
    pub sequence: u64,
    /// Seconds until expiry.
    pub ttl: u32,
    /// DHT key ranges where this should be stored (max 8).
    pub routing_keys: Vec<crate::hash::Hash>,
    /// BLAKE3 of the canonical CBOR of all fields above.
    pub id: crate::hash::Hash,
    /// Signature over `id.digest` by the publisher's private key.
    pub signature: Vec<u8>,
}

/// The value of a descriptor.
pub struct DescriptorModel {
    pub schema_hash: (u8, Seq<u8>),
    pub topic: Seq<char>,
    pub payload: Seq<u8>,
    pub publisher: (u8, Seq<u8>),
    pub timestamp: u64,
    pub sequence: u64,
    pub ttl: u32,
    pub routing_keys: Seq<(u8, Seq<u8>)>,
    pub id: (u8, Seq<u8>),
    pub signature: Seq<u8>,
}

/// The values of a sequence of hashes.
pub open spec fn hash_views(s: Seq<crate::hash::Hash>) -> Seq<(u8, Seq<u8>)> {
    s.map_values(|h: crate::hash::Hash| h@)
}

impl View for Descriptor {
    type V = DescriptorModel;

    open spec fn view(&self) -> DescriptorModel {
        DescriptorModel {
            schema_hash: self.schema_hash@,
            topic: self.topic@,
            payload: self.payload@,
            publisher: self.publisher@,
            timestamp: self.timestamp,
            sequence: self.sequence,
            ttl: self.ttl,
            routing_keys: hash_views(self.routing_keys@),
            id: self.id@,
            signature: self.signature@,
        }
    }
}

// Map keys of the hashed fields, as UTF-8 bytes.
pub open spec fn key_algorithm() -> Seq<u8> { seq![97u8, 108, 103, 111, 114, 105, 116, 104, 109] }
pub open spec fn key_digest() -> Seq<u8> { seq![100u8, 105, 103, 101, 115, 116] }
pub open spec fn key_public_key() -> Seq<u8> { seq![112u8, 117, 98, 108, 105, 99, 95, 107, 101, 121] }
pub open spec fn key_payload() -> Seq<u8> { seq![112u8, 97, 121, 108, 111, 97, 100] }
pub open spec fn key_publisher() -> Seq<u8> { seq![112u8, 117, 98, 108, 105, 115, 104, 101, 114] }
pub open spec fn key_routing_keys() -> Seq<u8> { seq![114u8, 111, 117, 116, 105, 110, 103, 95, 107, 101, 121, 115] }
pub open spec fn key_schema_hash() -> Seq<u8> { seq![115u8, 99, 104, 101, 109, 97, 95, 104, 97, 115, 104] }
pub open spec fn key_sequence() -> Seq<u8> { seq![115u8, 101, 113, 117, 101, 110, 99, 101] }
pub open spec fn key_timestamp() -> Seq<u8> { seq![116u8, 105, 109, 101, 115, 116, 97, 109, 112] }
pub open spec fn key_topic() -> Seq<u8> { seq![116u8, 111, 112, 105, 99] }
pub open spec fn key_ttl() -> Seq<u8> { seq![116u8, 116, 108] }

/// A hash serialized as a map `{algorithm, digest}`.
pub open spec fn cbor_hash(h: (u8, Seq<u8>)) -> Seq<u8> {
    cbor_head(MAJOR_MAP, 2) + cbor_text(key_algorithm()) + cbor_uint(h.0 as nat)
        + cbor_text(key_digest()) + cbor_uint_array(h.1)
}

/// An identity serialized as a map `{algorithm, public_key}`.
pub open spec fn cbor_identity(id: (u8, Seq<u8>)) -> Seq<u8> {
    cbor_head(MAJOR_MAP, 2) + cbor_text(key_algorithm()) + cbor_uint(id.0 as nat)
        + cbor_text(key_public_key()) + cbor_uint_array(id.1)
}

/// The concatenated encodings of a sequence of hashes.
pub open spec fn cbor_hashes(keys: Seq<(u8, Seq<u8>)>) -> Seq<u8>
    decreases keys.len(),
{
    if keys.len() == 0 { Seq::empty() } else { cbor_hashes(keys.drop_last()) + cbor_hash(keys.last()) }
}

/// The canonical CBOR of the hashed descriptor fields: a map with keys in
/// alphabetical order.
pub open spec fn hash_input_cbor(
    schema_hash: (u8, Seq<u8>),
    topic: Seq<u8>,
    payload: Seq<u8>,
    publisher: (u8, Seq<u8>),
    timestamp: u64,
    sequence: u64,
    ttl: u32,
    routing_keys: Seq<(u8, Seq<u8>)>,
) -> Seq<u8> {
    cbor_head(MAJOR_MAP, 8)
        + cbor_text(key_payload()) + cbor_uint_array(payload)
        + cbor_text(key_publisher()) + cbor_identity(publisher)
        + cbor_text(key_routing_keys()) + cbor_head(MAJOR_ARRAY, routing_keys.len()) + cbor_hashes(routing_keys)
        + cbor_text(key_schema_hash()) + cbor_hash(schema_hash)
        + cbor_text(key_sequence()) + cbor_uint(sequence as nat)
        + cbor_text(key_timestamp()) + cbor_uint(timestamp as nat)
        + cbor_text(key_topic()) + cbor_text(topic)
        + cbor_text(key_ttl()) + cbor_uint(ttl as nat)
}

/// The content id of a descriptor's fields: BLAKE3 of their canonical CBOR.
pub open spec fn content_id(
    schema_hash: (u8, Seq<u8>),
    topic: Seq<u8>,
    payload: Seq<u8>,
    publisher: (u8, Seq<u8>),
    timestamp: u64,
    sequence: u64,
    ttl: u32,
    routing_keys: Seq<(u8, Seq<u8>)>,
) -> (u8, Seq<u8>) {
    blake3_of(hash_input_cbor(schema_hash, topic, payload, publisher, timestamp, sequence, ttl, routing_keys))
}

fn push_hash(buf: &mut Vec<u8>, h: &crate::hash::Hash)
    ensures
        final(buf)@ == old(buf)@ + cbor_hash(h@),
{
    push_head(buf, MAJOR_MAP, 2);
    push_text(buf, &[97u8, 108, 103, 111, 114, 105, 116, 104, 109]);
    push_uint(buf, h.algorithm as u64);
    push_text(buf, &[100u8, 105, 103, 101, 115, 116]);
    push_uint_array(buf, h.digest.as_slice());
    assert(buf@ =~= old(buf)@ + cbor_hash(h@));
}

fn push_identity(buf: &mut Vec<u8>, id: &Identity)
    ensures
        final(buf)@ == old(buf)@ + cbor_identity(id@),
{
    push_head(buf, MAJOR_MAP, 2);
    push_text(buf, &[97u8, 108, 103, 111, 114, 105, 116, 104, 109]);
    push_uint(buf, id.algorithm as u64);
    push_text(buf, &[112u8, 117, 98, 108, 105, 99, 95, 107, 101, 121]);
    push_uint_array(buf, id.public_key.as_slice());
    assert(buf@ =~= old(buf)@ + cbor_identity(id@));
}


/// A copy of a sequence of hashes.
pub fn clone_hashes(v: &Vec<crate::hash::Hash>) -> (res: Vec<crate::hash::Hash>)
    ensures
        hash_views(res@) == hash_views(v@),
        forall|i: int| 0 <= i < v@.len() ==> (#[trigger] res@[i])@ == v@[i]@,
        res@.len() == v@.len(),
{
    let mut out: Vec<crate::hash::Hash> = Vec::with_capacity(v.len());
    let mut i: usize = 0;
    while i < v.len()
        invariant
            i <= v@.len(),
            out@.len() == i,
            forall|j: int| 0 <= j < i ==> (#[trigger] out@[j])@ == v@[j]@,
        decreases v@.len() - i,
    {
        out.push(v[i].clone());
        i = i + 1;
    }
    assert(hash_views(out@) =~= hash_views(v@));
    out
}

/// The content id that a descriptor's fields determine.
pub open spec fn computed_id(m: DescriptorModel) -> (u8, Seq<u8>) {
    content_id(m.schema_hash, encode_utf8(m.topic), m.payload, m.publisher, m.timestamp, m.sequence, m.ttl, m.routing_keys)
}

/// The TTL in microseconds.
pub open spec fn ttl_micros(ttl: u32) -> int {
    ttl as int * 1_000_000
}

/// Expired: the effective start `min(timestamp, now)` plus the TTL is not
/// after `now`. Taking the minimum denies a future-dated descriptor any
/// bonus lifetime.
pub open spec fn is_expired(timestamp: u64, ttl: u32, now: u64) -> bool {
    (if timestamp < now { timestamp as int } else { now as int }) + ttl_micros(ttl) <= now
}

/// The timestamp lies more than the allowed clock skew after `now`.
pub open spec fn is_too_far_in_future(timestamp: u64, now: u64) -> bool {
    timestamp > now + MAX_CLOCK_SKEW_SECS * 1_000_000
}

/// The TTL lies outside `[MIN_TTL_SECS, MAX_TTL_SECS]`.
pub open spec fn ttl_out_of_range(ttl: u32) -> bool {
    ttl < MIN_TTL_SECS || ttl > MAX_TTL_SECS
}

/// The checks of descriptor validation, in the order they are applied.
pub open spec fn id_matches(m: DescriptorModel) -> bool {
    computed_id(m) == m.id
}

pub open spec fn signature_checks(m: DescriptorModel) -> bool {
    signature_valid(m.publisher, m.id.1, m.signature)
}

/// Whether a descriptor passes every validation check at time `now`.
pub open spec fn descriptor_valid(m: DescriptorModel, now: u64) -> bool {
    &&& id_matches(m)
    &&& signature_checks(m)
    &&& !is_expired(m.timestamp, m.ttl, now)
    &&& !is_too_far_in_future(m.timestamp, now)
    &&& !ttl_out_of_range(m.ttl)
    &&& m.routing_keys.len() != 0
    &&& m.routing_keys.len() <= MAX_ROUTING_KEYS
    &&& m.payload.len() <= MAX_PAYLOAD_SIZE
    &&& encode_utf8(m.topic).len() <= MAX_TOPIC_SIZE
}

impl Clone for Descriptor {
    fn clone(&self) -> (res: Self)
        ensures
            res@ == self@,
    {
        Descriptor {
            schema_hash: self.schema_hash.clone(),
            topic: self.topic.clone(),
            payload: crate::bytes::copy_bytes(&self.payload),
            publisher: self.publisher.clone(),
            timestamp: self.timestamp,
            sequence: self.sequence,
            ttl: self.ttl,
            routing_keys: clone_hashes(&self.routing_keys),
            id: self.id.clone(),
            signature: crate::bytes::copy_bytes(&self.signature),
        }
    }
}

impl Descriptor {
    /// Compute the content hash of a descriptor's fields: BLAKE3 of their
    /// canonical CBOR.
    #[verifier::rlimit(30)]
    pub fn compute_id(
        schema_hash: &crate::hash::Hash,
        topic: &str,
        payload: &[u8],
        publisher: &Identity,
        timestamp: u64,
        sequence: u64,
        ttl: u32,
        routing_keys: &[crate::hash::Hash],
    ) -> (res: Result<crate::hash::Hash, MeshError>)
        ensures
            res matches Ok(h) && h@ == content_id(schema_hash@, topic.spec_bytes(), payload@, publisher@,
                timestamp, sequence, ttl, hash_views(routing_keys@)),
    {
        let mut buf: Vec<u8> = Vec::new();
        push_head(&mut buf, MAJOR_MAP, 8);
        push_text(&mut buf, &[112u8, 97, 121, 108, 111, 97, 100]);
        push_uint_array(&mut buf, payload);
        push_text(&mut buf, &[112u8, 117, 98, 108, 105, 115, 104, 101, 114]);
        push_identity(&mut buf, publisher);
        push_text(&mut buf, &[114u8, 111, 117, 116, 105, 110, 103, 95, 107, 101, 121, 115]);
        push_head(&mut buf, MAJOR_ARRAY, routing_keys.len() as u64);
        let ghost start = buf@;
        let mut i: usize = 0;
        while i < routing_keys.len()
            invariant
                i <= routing_keys@.len(),
                buf@ == start + cbor_hashes(hash_views(routing_keys@).take(i as int)),
            decreases routing_keys@.len() - i,
        {
            push_hash(&mut buf, &routing_keys[i]);
            assert(hash_views(routing_keys@).take(i as int + 1).drop_last() =~= hash_views(routing_keys@).take(i as int));
            i = i + 1;
            assert(buf@ =~= start + cbor_hashes(hash_views(routing_keys@).take(i as int)));
        }
        assert(hash_views(routing_keys@).take(routing_keys@.len() as int) =~= hash_views(routing_keys@));
        push_text(&mut buf, &[115u8, 99, 104, 101, 109, 97, 95, 104, 97, 115, 104]);
        push_hash(&mut buf, schema_hash);
        push_text(&mut buf, &[115u8, 101, 113, 117, 101, 110, 99, 101]);
        push_uint(&mut buf, sequence);
        push_text(&mut buf, &[116u8, 105, 109, 101, 115, 116, 97, 109, 112]);
        push_uint(&mut buf, timestamp);
        push_text(&mut buf, &[116u8, 111, 112, 105, 99]);
        push_text(&mut buf, topic.as_bytes());
        push_text(&mut buf, &[116u8, 116, 108]);
        push_uint(&mut buf, ttl as u64);
        assert(buf@ =~= hash_input_cbor(schema_hash@, topic.spec_bytes(), payload@, publisher@,
            timestamp, sequence, ttl, hash_views(routing_keys@)));
        Ok(crate::hash::Hash::blake3(buf.as_slice()))
    }

    /// Create a new descriptor, computing its id and signing it. The result
    /// carries its computed id and a signature that verifies.
    pub fn create(
        keypair: &Keypair,
        schema_hash: crate::hash::Hash,
        topic: String,
        payload: Vec<u8>,
        timestamp: u64,
        sequence: u64,
        ttl: u32,
        routing_keys: Vec<crate::hash::Hash>,
    ) -> (res: Result<Descriptor, MeshError>)
        ensures
            res matches Ok(d) && {
                &&& d.schema_hash@ == schema_hash@
                &&& d.topic@ == topic@
                &&& d.payload@ == payload@
                &&& d.publisher@ == keypair.identity_view()
                &&& d.timestamp == timestamp
                &&& d.sequence == sequence
                &&& d.ttl == ttl
                &&& hash_views(d.routing_keys@) == hash_views(routing_keys@)
                &&& d.id@ == computed_id(d@)
                &&& d.signature@ == ed25519_signature_of(keypair.secret_view(), d.id.digest@)
                &&& id_matches(d@)
                &&& signature_checks(d@)
            },
    {
        let publisher = keypair.identity();
        let id = match Descriptor::compute_id(
            &schema_hash,
            topic.as_str(),
            payload.as_slice(),
            &publisher,
            timestamp,
            sequence,
            ttl,
            routing_keys.as_slice(),
        ) {
            Ok(h) => h,
            Err(e) => return Err(e),
        };
        let signature = keypair.sign(id.digest.as_slice());
        Ok(Descriptor {
            schema_hash,
            topic,
            payload,
            publisher,
            timestamp,
            sequence,
            ttl,
            routing_keys,
            id,
            signature,
        })
    }
}


impl Descriptor {
    /// Validate a descriptor at time `now_micros`: the id must be the content
    /// hash of the fields, the signature must verify, and the descriptor must
    /// be unexpired, not too far in the future, with a TTL in range, one to
    /// eight routing keys, a payload of at most 64 KiB and a topic of at most
    /// 255 bytes. The first failing check gives the error. Sequence ordering
    /// needs external state and is not checked here.
    pub fn validate(&self, now_micros: u64) -> (res: Result<(), MeshError>)
        ensures
            res is Ok <==> descriptor_valid(self@, now_micros),
            res matches Err(e) ==> mesh_error_text(e) == validation_error_text(self@, now_micros),
            !id_matches(self@) ==> (res matches Err(MeshError::IdMismatch { expected, actual })
                && expected@ == hex_lower(self.id.digest@) && actual@ == hex_lower(computed_id(self@).1)),
            id_matches(self@) && self.publisher.algorithm != crate::identity::ALG_ED25519
                ==> res == Err::<(), MeshError>(MeshError::UnknownAlgorithm(self.publisher.algorithm)),
            id_matches(self@) && self.publisher.algorithm == crate::identity::ALG_ED25519 && !signature_checks(self@)
                ==> res == Err::<(), MeshError>(MeshError::InvalidSignature),
            id_matches(self@) && signature_checks(self@) && is_expired(self.timestamp, self.ttl, now_micros)
                ==> res is Err && res->Err_0 is Expired,
            id_matches(self@) && signature_checks(self@) && !is_expired(self.timestamp, self.ttl, now_micros)
                && is_too_far_in_future(self.timestamp, now_micros)
                ==> res == Err::<(), MeshError>(MeshError::TimestampFuture { max_skew_secs: MAX_CLOCK_SKEW_SECS }),
            id_matches(self@) && signature_checks(self@) && !is_expired(self.timestamp, self.ttl, now_micros)
                && !is_too_far_in_future(self.timestamp, now_micros) && ttl_out_of_range(self.ttl)
                ==> res == Err::<(), MeshError>(MeshError::InvalidTtl { ttl: self.ttl, min: MIN_TTL_SECS, max: MAX_TTL_SECS }),
            id_matches(self@) && signature_checks(self@) && !is_expired(self.timestamp, self.ttl, now_micros)
                && !is_too_far_in_future(self.timestamp, now_micros) && !ttl_out_of_range(self.ttl)
                && self.routing_keys@.len() == 0
                ==> (res matches Err(MeshError::InvalidRoutingKeys { reason }) && reason@ == "routing_keys must not be empty"@),
            id_matches(self@) && signature_checks(self@) && !is_expired(self.timestamp, self.ttl, now_micros)
                && !is_too_far_in_future(self.timestamp, now_micros) && !ttl_out_of_range(self.ttl)
                && self.routing_keys@.len() > MAX_ROUTING_KEYS
                ==> (res matches Err(MeshError::InvalidRoutingKeys { reason }) && reason@ == "too many routing keys: "@
                    + decimal_text(self.routing_keys@.len()) + " (max 8)"@),
            descriptor_valid_until_payload(self@, now_micros) && self.payload@.len() > MAX_PAYLOAD_SIZE
                ==> res == Err::<(), MeshError>(MeshError::PayloadTooLarge { size: self.payload@.len() as usize, max: MAX_PAYLOAD_SIZE }),
            descriptor_valid_until_payload(self@, now_micros) && self.payload@.len() <= MAX_PAYLOAD_SIZE
                && encode_utf8(self.topic@).len() > MAX_TOPIC_SIZE
                ==> res == Err::<(), MeshError>(MeshError::TopicTooLong { size: encode_utf8(self.topic@).len() as usize, max: MAX_TOPIC_SIZE }),
    {
        let computed = match Descriptor::compute_id(
            &self.schema_hash,
            self.topic.as_str(),
            self.payload.as_slice(),
            &self.publisher,
            self.timestamp,
            self.sequence,
            self.ttl,
            self.routing_keys.as_slice(),
        ) {
            Ok(h) => h,
            Err(e) => return Err(e),
        };
        if !computed.same_as(&self.id) {
            return Err(MeshError::IdMismatch { expected: self.id.to_hex(), actual: computed.to_hex() });
        }
        match self.publisher.verify(self.id.digest.as_slice(), self.signature.as_slice()) {
            Ok(()) => {},
            Err(e) => return Err(e),
        }
        let effective_start = if self.timestamp < now_micros { self.timestamp } else { now_micros };
        let ttl_micros: u64 = (self.ttl as u64) * 1_000_000;
        if (effective_start as u128) + (ttl_micros as u128) <= now_micros as u128 {
            return Err(MeshError::Expired);
        }
        let max_future: u128 = (now_micros as u128) + (MAX_CLOCK_SKEW_SECS as u128) * 1_000_000;
        if (self.timestamp as u128) > max_future {
            return Err(MeshError::TimestampFuture { max_skew_secs: MAX_CLOCK_SKEW_SECS });
        }
        if self.ttl < MIN_TTL_SECS || self.ttl > MAX_TTL_SECS {
            return Err(MeshError::InvalidTtl { ttl: self.ttl, min: MIN_TTL_SECS, max: MAX_TTL_SECS });
        }
        if self.routing_keys.len() == 0 {
            return Err(MeshError::InvalidRoutingKeys { reason: "routing_keys must not be empty".to_owned() });
        }
        if self.routing_keys.len() > MAX_ROUTING_KEYS {
            let mut reason = "too many routing keys: ".to_owned();
            let n = decimal_string(self.routing_keys.len() as u64);
            reason.append(n.as_str());
            reason.append(" (max 8)");
            return Err(MeshError::InvalidRoutingKeys { reason });
        }
        if self.payload.len() > MAX_PAYLOAD_SIZE {
            return Err(MeshError::PayloadTooLarge { size: self.payload.len(), max: MAX_PAYLOAD_SIZE });
        }
        let topic_len = self.topic.as_str().as_bytes().len();
        if topic_len > MAX_TOPIC_SIZE {
            return Err(MeshError::TopicTooLong { size: topic_len, max: MAX_TOPIC_SIZE });
        }
        Ok(())
    }
}

/// The text of the error that validation at `now` reports for a descriptor
/// that fails it: the first failing check decides.
pub open spec fn validation_error_text(m: DescriptorModel, now: u64) -> Seq<char> {
    if !id_matches(m) {
        "descriptor id mismatch: expected "@ + hex_lower(m.id.1) + ", got "@ + hex_lower(computed_id(m).1)
    } else if m.publisher.0 != crate::identity::ALG_ED25519 {
        "unknown signature algorithm: 0x"@ + hex_lower(seq![m.publisher.0])
    } else if !signature_checks(m) {
        "invalid signature"@
    } else if is_expired(m.timestamp, m.ttl, now) {
        "descriptor expired"@
    } else if is_too_far_in_future(m.timestamp, now) {
        "descriptor timestamp too far in future (>"@ + decimal_text(MAX_CLOCK_SKEW_SECS as nat) + "s ahead)"@
    } else if ttl_out_of_range(m.ttl) {
        "invalid ttl: "@ + decimal_text(m.ttl as nat) + "s (must be "@ + decimal_text(MIN_TTL_SECS as nat) + "-"@
            + decimal_text(MAX_TTL_SECS as nat) + "s)"@
    } else if m.routing_keys.len() == 0 {
        "invalid routing keys: "@ + "routing_keys must not be empty"@
    } else if m.routing_keys.len() > MAX_ROUTING_KEYS {
        "invalid routing keys: "@ + ("too many routing keys: "@ + decimal_text(m.routing_keys.len()) + " (max 8)"@)
    } else if m.payload.len() > MAX_PAYLOAD_SIZE {
        "payload too large: "@ + decimal_text(m.payload.len()) + " bytes (max "@ + decimal_text(MAX_PAYLOAD_SIZE as nat) + ")"@
    } else {
        "topic too long: "@ + decimal_text(encode_utf8(m.topic).len()) + " bytes (max "@ + decimal_text(MAX_TOPIC_SIZE as nat)
            + ")"@
    }
}

/// Every check up to (not including) the payload size passes.
pub open spec fn descriptor_valid_until_payload(m: DescriptorModel, now: u64) -> bool {
    &&& id_matches(m)
    &&& signature_checks(m)
    &&& !is_expired(m.timestamp, m.ttl, now)
    &&& !is_too_far_in_future(m.timestamp, now)
    &&& !ttl_out_of_range(m.ttl)
    &&& m.routing_keys.len() != 0
    &&& m.routing_keys.len() <= MAX_ROUTING_KEYS
}


/// A descriptor whose id and signature check out, stamped at `now` with an
/// in-range TTL, one to eight routing keys, and payload and topic within
/// bounds, passes validation at `now`.
pub proof fn lemma_fresh_descriptor_validates(m: DescriptorModel, now: u64)
    requires
        id_matches(m),
        signature_checks(m),
        m.timestamp == now,
        !ttl_out_of_range(m.ttl),
        1 <= m.routing_keys.len() <= MAX_ROUTING_KEYS,
        m.payload.len() <= MAX_PAYLOAD_SIZE,
        encode_utf8(m.topic).len() <= MAX_TOPIC_SIZE,
        now + MAX_CLOCK_SKEW_SECS * 1_000_000 <= u64::MAX,
    ensures
        descriptor_valid(m, now),
{
}

} // verus!
