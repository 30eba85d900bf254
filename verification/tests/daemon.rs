use mars_mesh::daemon::{capability_payload, make_node_addr, seed_descriptor, verify_sender};
use mars_mesh::identity::Keypair;

fn ciborium_map(entries: &[(&str, &str)]) -> Vec<u8> {
    let value = ciborium::Value::Map(
        entries
            .iter()
            .map(|(k, v)| (ciborium::Value::Text(k.to_string()), ciborium::Value::Text(v.to_string())))
            .collect(),
    );
    let mut out = Vec::new();
    ciborium::into_writer(&value, &mut out).unwrap();
    out
}

#[test]
fn capability_payload_matches_sorted_cbor_map() {
    let bytes = capability_payload("compute/inference", "https://example.com/v1", None);
    assert_eq!(bytes, ciborium_map(&[("endpoint", "https://example.com/v1"), ("type", "compute/inference")]));
}

#[test]
fn capability_payload_with_params() {
    let bytes = capability_payload("storage", "quic://1.2.3.4:4433", Some("{\"gb\":10}"));
    assert_eq!(
        bytes,
        ciborium_map(&[("endpoint", "quic://1.2.3.4:4433"), ("params", "{\"gb\":10}"), ("type", "storage")])
    );
    assert_eq!(bytes[0], 0xa3);
}

#[test]
fn capability_payload_exact_bytes() {
    let bytes = capability_payload("t", "e", None);
    let mut expected = vec![0xa2, 0x68];
    expected.extend_from_slice(b"endpoint");
    expected.extend_from_slice(&[0x61, b'e', 0x64]);
    expected.extend_from_slice(b"type");
    expected.extend_from_slice(&[0x61, b't']);
    assert_eq!(bytes, expected);
}

#[test]
fn seeded_descriptor_validates() {
    let kp = Keypair::generate();
    let now = 1_700_000_000_000_000u64;
    let d = seed_descriptor(&kp, "compute/inference", vec![1, 2, 3], now).unwrap();
    assert_eq!(d.topic, "compute/inference");
    assert_eq!(d.sequence, 1);
    assert_eq!(d.ttl, 3600);
    assert_eq!(d.timestamp, now);
    assert_eq!(d.routing_keys.len(), 2);
    assert!(d.validate(now).is_ok());
}

#[test]
fn node_addr_is_quic() {
    let a = make_node_addr("127.0.0.1:4433");
    assert_eq!(a.protocol, "quic");
    assert_eq!(a.address, "127.0.0.1:4433");
}

#[test]
fn sender_check_without_certificate_accepts() {
    let a = Keypair::generate().identity();
    let b = Keypair::generate().identity();
    assert!(verify_sender(&a, &None));
    assert!(verify_sender(&a, &Some(a.clone())));
    assert!(!verify_sender(&a, &Some(b)));
}

#[test]
fn seed_descriptor_uses_capability_schema_and_every_prefix() {
    let kp = Keypair::generate();
    let now = 1_700_000_000_000_000u64;
    let d = seed_descriptor(&kp, "compute/inference/text-generation", vec![7], now).unwrap();
    assert_eq!(d.schema_hash, mars_mesh::hash::schema_hash("core/capability"));
    assert_eq!(
        d.routing_keys,
        vec![
            mars_mesh::routing::routing_key("compute"),
            mars_mesh::routing::routing_key("compute/inference"),
            mars_mesh::routing::routing_key("compute/inference/text-generation"),
        ]
    );
}
