//! Small decisions of the node daemon and the hub's seeder: addresses of
//! peers, the sender check of a request, the payload of a capability, and
//! the descriptor that advertises a service.

use vstd::prelude::*;
use vstd::string::StringSliceAdditionalSpecFns;
use vstd::utf8::encode_utf8;
use crate::cbor::{cbor_entries_bytes, cbor_head, cbor_text, CborItem, MAJOR_MAP};
use crate::primitives::cbor_map_bytes;
use crate::descriptor::{Descriptor, hash_views, id_matches, signature_checks};
use crate::error::MeshError;
use crate::hash::{schema_hash, schema_hash_of};
use crate::identity::{Identity, Keypair};
use crate::message::NodeAddr;
use crate::routing::{hierarchical_keys_of, hierarchical_routing_keys};

verus! {

/// The QUIC node address of `addr`.
pub fn make_node_addr(addr: &str) -> (res: NodeAddr)
    ensures
        res.protocol@ == "quic"@,
        res.address@ == addr@,
{
    NodeAddr { protocol: "quic".to_owned(), address: addr.to_owned() }
}

/// Whether a request's claimed sender may be accepted: a request over a
/// connection without a peer certificate is accepted; one whose sender
/// differs from the certificate's identity is not.
pub fn verify_sender(msg_sender: &Identity, peer_identity: &Option<Identity>) -> (res: bool)
    ensures
        res == match peer_identity {
            Some(p) => msg_sender@ == p@,
            None => true,
        },
{
    match peer_identity {
        Some(peer_id) => msg_sender.same_as(peer_id),
        None => true,
    }
}

/// The descriptor that advertises a seeded service of type `service_type`
/// with `payload`: published by the hub at `now`, sequence 1, a one-hour
/// TTL, under the `core/capability` schema and the hierarchical routing
/// keys of the service type.
pub fn seed_descriptor(keypair: &Keypair, service_type: &str, payload: Vec<u8>, now: u64) -> (res: Result<Descriptor, MeshError>)
    ensures
        res matches Ok(d) && {
            &&& d.topic@ == service_type@
            &&& d.payload@ == payload@
            &&& d.publisher@ == keypair.identity_view()
            &&& d.timestamp == now
            &&& d.sequence == 1
            &&& d.ttl == 3600
            &&& d.schema_hash@ == schema_hash_of("core/capability".spec_bytes())
            &&& hash_views(d.routing_keys@) == hierarchical_keys_of(service_type.spec_bytes())
            &&& id_matches(d@)
            &&& signature_checks(d@)
        },
{
    let routing_keys = hierarchical_routing_keys(service_type);
    assert(hash_views(routing_keys@) =~= hierarchical_keys_of(service_type.spec_bytes()));
    Descriptor::create(keypair, schema_hash("core/capability"), service_type.to_owned(), payload, now, 1, 3600, routing_keys)
}

/// The UTF-8 bytes of the capability payload's map keys.
pub open spec fn key_endpoint() -> Seq<u8> { encode_utf8("endpoint"@) }
pub open spec fn key_params() -> Seq<u8> { encode_utf8("params"@) }
pub open spec fn key_type() -> Seq<u8> { encode_utf8("type"@) }

/// The payload of a capability descriptor: a deterministic CBOR map with
/// the keys in sorted order, "endpoint", "params" (only when given) and
/// "type", each mapped to its text.
pub open spec fn capability_payload_bytes(cap_type: Seq<char>, endpoint: Seq<char>, params: Option<Seq<char>>) -> Seq<u8> {
    match params {
        Some(p) => cbor_head(MAJOR_MAP, 3)
            + cbor_text(key_endpoint()) + cbor_text(encode_utf8(endpoint))
            + cbor_text(key_params()) + cbor_text(encode_utf8(p))
            + cbor_text(key_type()) + cbor_text(encode_utf8(cap_type)),
        None => cbor_head(MAJOR_MAP, 2)
            + cbor_text(key_endpoint()) + cbor_text(encode_utf8(endpoint))
            + cbor_text(key_type()) + cbor_text(encode_utf8(cap_type)),
    }
}

/// Encode the payload of a capability of type `cap_type` offered at
/// `endpoint`, with optional parameters.
pub fn capability_payload(cap_type: &str, endpoint: &str, params: Option<&str>) -> (res: Vec<u8>)
    ensures
        res@ == capability_payload_bytes(cap_type@, endpoint@, match params {
            Some(p) => Some(p@),
            None => None,
        }),
{
    let mut entries: Vec<(String, CborItem)> = Vec::new();
    entries.push(("endpoint".to_owned(), CborItem::Text(endpoint.to_owned())));
    match params {
        Some(p) => {
            entries.push(("params".to_owned(), CborItem::Text(p.to_owned())));
        },
        None => {},
    }
    entries.push(("type".to_owned(), CborItem::Text(cap_type.to_owned())));
    proof {
        reveal_with_fuel(cbor_entries_bytes, 4);
    }
    let buf = cbor_map_bytes(entries);
    assert(buf@ =~= capability_payload_bytes(cap_type@, endpoint@, match params {
        Some(p) => Some(p@),
        None => None,
    }));
    buf
}

} // verus!
