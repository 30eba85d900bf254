use mars_mesh::descriptor::{Descriptor, MAX_PAYLOAD_SIZE, MAX_TTL_SECS, MIN_TTL_SECS};
use mars_mesh::error::MeshError;
use mars_mesh::hash::schema_hash;
use std::time::{SystemTime, UNIX_EPOCH};

use mars_mesh::identity::Keypair;
use mars_mesh::routing::routing_key;
fn now_micros() -> u64 {
    SystemTime::now()
        .duration_since(UNIX_EPOCH)
        .unwrap()
        .as_micros() as u64
}

fn make_descriptor(kp: &Keypair) -> Descriptor {
    let now = now_micros();
    Descriptor::create(
        kp,
        schema_hash("core/capability"),
        "test-topic".into(),
        b"test payload".to_vec(),
        now,
        1,
        3600,
        vec![routing_key("compute/inference/text-generation")],
    )
    .unwrap()
}

#[test]
fn create_and_validate() {
    let kp = Keypair::generate();
    let desc = make_descriptor(&kp);
    let now = now_micros();
    assert!(desc.validate(now).is_ok());
}

#[test]
fn validate_tampered_payload() {
    let kp = Keypair::generate();
    let mut desc = make_descriptor(&kp);
    desc.payload = b"tampered".to_vec();
    let now = now_micros();
    assert!(matches!(
        desc.validate(now),
        Err(MeshError::IdMismatch { .. })
    ));
}

#[test]
fn validate_wrong_signature() {
    let kp = Keypair::generate();
    let mut desc = make_descriptor(&kp);
    // Corrupt signature
    desc.signature[0] ^= 0xff;
    let now = now_micros();
    assert!(matches!(
        desc.validate(now),
        Err(MeshError::InvalidSignature)
    ));
}

#[test]
fn validate_expired() {
    let kp = Keypair::generate();
    let past = 1_000_000_000_000_000u64; // way in the past
    let desc = Descriptor::create(
        &kp,
        schema_hash("core/capability"),
        "".into(),
        b"payload".to_vec(),
        past,
        1,
        60, // 60 second TTL
        vec![routing_key("test")],
    )
    .unwrap();
    let now = now_micros();
    assert!(matches!(desc.validate(now), Err(MeshError::Expired)));
}

#[test]
fn validate_future_timestamp() {
    let kp = Keypair::generate();
    let now = now_micros();
    let future = now + 300 * 1_000_000; // 5 minutes in future
    let desc = Descriptor::create(
        &kp,
        schema_hash("core/capability"),
        "".into(),
        b"payload".to_vec(),
        future,
        1,
        3600,
        vec![routing_key("test")],
    )
    .unwrap();
    assert!(matches!(
        desc.validate(now),
        Err(MeshError::TimestampFuture { .. })
    ));
}

#[test]
fn validate_empty_routing_keys() {
    let kp = Keypair::generate();
    let now = now_micros();
    let desc = Descriptor::create(
        &kp,
        schema_hash("core/capability"),
        "".into(),
        b"payload".to_vec(),
        now,
        1,
        3600,
        vec![], // empty!
    )
    .unwrap();
    assert!(matches!(
        desc.validate(now),
        Err(MeshError::InvalidRoutingKeys { .. })
    ));
}

#[test]
fn validate_too_many_routing_keys() {
    let kp = Keypair::generate();
    let now = now_micros();
    let keys: Vec<mars_mesh::hash::Hash> = (0..9).map(|i| routing_key(&format!("key{i}"))).collect();
    let desc = Descriptor::create(
        &kp,
        schema_hash("core/capability"),
        "".into(),
        b"payload".to_vec(),
        now,
        1,
        3600,
        keys,
    )
    .unwrap();
    assert!(matches!(
        desc.validate(now),
        Err(MeshError::InvalidRoutingKeys { .. })
    ));
}

#[test]
fn validate_payload_too_large() {
    let kp = Keypair::generate();
    let now = now_micros();
    let desc = Descriptor::create(
        &kp,
        schema_hash("core/capability"),
        "".into(),
        vec![0u8; MAX_PAYLOAD_SIZE + 1],
        now,
        1,
        3600,
        vec![routing_key("test")],
    )
    .unwrap();
    assert!(matches!(
        desc.validate(now),
        Err(MeshError::PayloadTooLarge { .. })
    ));
}

#[test]
fn validate_topic_too_long() {
    let kp = Keypair::generate();
    let now = now_micros();
    let long_topic = "x".repeat(256);
    let desc = Descriptor::create(
        &kp,
        schema_hash("core/capability"),
        long_topic,
        b"payload".to_vec(),
        now,
        1,
        3600,
        vec![routing_key("test")],
    )
    .unwrap();
    assert!(matches!(
        desc.validate(now),
        Err(MeshError::TopicTooLong { .. })
    ));
}

#[test]
fn content_hash_deterministic() {
    let kp = Keypair::generate();
    let now = now_micros();
    let d1 = Descriptor::create(
        &kp,
        schema_hash("core/capability"),
        "topic".into(),
        b"payload".to_vec(),
        now,
        1,
        3600,
        vec![routing_key("test")],
    )
    .unwrap();
    let d2 = Descriptor::create(
        &kp,
        schema_hash("core/capability"),
        "topic".into(),
        b"payload".to_vec(),
        now,
        1,
        3600,
        vec![routing_key("test")],
    )
    .unwrap();
    assert_eq!(d1.id, d2.id);
}

#[test]
fn borderline_future_timestamp_effective_ttl() {
    // Timestamp slightly in future (within tolerance) — TTL should be
    // computed from min(timestamp, now) + ttl per Section 2.2 step 4
    let kp = Keypair::generate();
    let now = now_micros();
    let slight_future = now + 60 * 1_000_000; // 60s ahead (within 120s skew)
    let desc = Descriptor::create(
        &kp,
        schema_hash("core/capability"),
        "".into(),
        b"payload".to_vec(),
        slight_future,
        1,
        3600,
        vec![routing_key("test")],
    )
    .unwrap();
    // Should be valid because effective_start = min(slight_future, now) = now
    // and now + 3600s > now
    assert!(desc.validate(now).is_ok());
}

#[test]
fn validate_ttl_too_low() {
    let kp = Keypair::generate();
    let now = now_micros();
    // TTL of 30s is below minimum of 60s
    let desc = Descriptor::create(
        &kp,
        schema_hash("core/capability"),
        "".into(),
        b"payload".to_vec(),
        now,
        1,
        30,
        vec![routing_key("test")],
    )
    .unwrap();
    assert!(matches!(
        desc.validate(now),
        Err(MeshError::InvalidTtl { .. })
    ));
}

#[test]
fn validate_ttl_too_high() {
    let kp = Keypair::generate();
    let now = now_micros();
    // TTL of 100000s exceeds maximum of 86400s
    let desc = Descriptor::create(
        &kp,
        schema_hash("core/capability"),
        "".into(),
        b"payload".to_vec(),
        now,
        1,
        100_000,
        vec![routing_key("test")],
    )
    .unwrap();
    assert!(matches!(
        desc.validate(now),
        Err(MeshError::InvalidTtl { .. })
    ));
}

#[test]
fn validate_ttl_boundary_min() {
    let kp = Keypair::generate();
    let now = now_micros();
    let desc = Descriptor::create(
        &kp,
        schema_hash("core/capability"),
        "".into(),
        b"payload".to_vec(),
        now,
        1,
        MIN_TTL_SECS, // exactly 60
        vec![routing_key("test")],
    )
    .unwrap();
    assert!(desc.validate(now).is_ok());
}

#[test]
fn validate_ttl_boundary_max() {
    let kp = Keypair::generate();
    let now = now_micros();
    let desc = Descriptor::create(
        &kp,
        schema_hash("core/capability"),
        "".into(),
        b"payload".to_vec(),
        now,
        1,
        MAX_TTL_SECS, // exactly 86400
        vec![routing_key("test")],
    )
    .unwrap();
    assert!(desc.validate(now).is_ok());
}

#[test]
fn validate_forged_id() {
    // Create valid descriptor then swap in a completely fabricated id
    let kp = Keypair::generate();
    let now = now_micros();
    let mut desc = Descriptor::create(
        &kp,
        schema_hash("core/capability"),
        "topic".into(),
        b"payload".to_vec(),
        now,
        1,
        3600,
        vec![routing_key("test")],
    )
    .unwrap();
    // Replace id with a hash of something else
    desc.id = mars_mesh::hash::Hash::blake3(b"forged id");
    // Re-sign with the forged id so signature passes
    desc.signature = kp.sign(&desc.id.digest);
    // Validation should still fail because recomputed id won't match
    assert!(matches!(
        desc.validate(now),
        Err(MeshError::IdMismatch { .. })
    ));
}

#[test]
fn validate_empty_signature() {
    let kp = Keypair::generate();
    let now = now_micros();
    let mut desc = Descriptor::create(
        &kp,
        schema_hash("core/capability"),
        "".into(),
        b"payload".to_vec(),
        now,
        1,
        3600,
        vec![routing_key("test")],
    )
    .unwrap();
    desc.signature = vec![]; // empty signature
    assert!(matches!(
        desc.validate(now),
        Err(MeshError::InvalidSignature)
    ));
}

#[test]
fn validate_topic_at_max_length() {
    let kp = Keypair::generate();
    let now = now_micros();
    // Exactly 255 bytes is valid
    let topic = "x".repeat(255);
    let desc = Descriptor::create(
        &kp,
        schema_hash("core/capability"),
        topic,
        b"payload".to_vec(),
        now,
        1,
        3600,
        vec![routing_key("test")],
    )
    .unwrap();
    assert!(desc.validate(now).is_ok());
}

#[test]
fn validate_exactly_8_routing_keys() {
    let kp = Keypair::generate();
    let now = now_micros();
    let keys: Vec<mars_mesh::hash::Hash> = (0..8).map(|i| routing_key(&format!("key{i}"))).collect();
    let desc = Descriptor::create(
        &kp,
        schema_hash("core/capability"),
        "".into(),
        b"payload".to_vec(),
        now,
        1,
        3600,
        keys,
    )
    .unwrap();
    assert!(desc.validate(now).is_ok());
}

#[test]
fn validate_payload_at_max_size() {
    let kp = Keypair::generate();
    let now = now_micros();
    let desc = Descriptor::create(
        &kp,
        schema_hash("core/capability"),
        "".into(),
        vec![0u8; MAX_PAYLOAD_SIZE], // exactly 65536
        now,
        1,
        3600,
        vec![routing_key("test")],
    )
    .unwrap();
    assert!(desc.validate(now).is_ok());
}

#[test]
fn validation_error_texts() {
    let kp = Keypair::generate();
    let now = now_micros();
    let mk = |ttl: u32, keys: Vec<mars_mesh::hash::Hash>| {
        Descriptor::create(&kp, schema_hash("core/capability"), "".into(), b"p".to_vec(), now, 1, ttl, keys).unwrap()
    };
    assert_eq!(mk(30, vec![routing_key("t")]).validate(now).unwrap_err().message(), "invalid ttl: 30s (must be 60-86400s)");
    assert_eq!(mk(3600, vec![]).validate(now).unwrap_err().message(), "invalid routing keys: routing_keys must not be empty");
    let nine: Vec<mars_mesh::hash::Hash> = (0..9).map(|i| routing_key(&format!("key{i}"))).collect();
    assert_eq!(mk(3600, nine).validate(now).unwrap_err().message(), "invalid routing keys: too many routing keys: 9 (max 8)");
    let future = Descriptor::create(&kp, schema_hash("core/capability"), "".into(), b"p".to_vec(), now + 300_000_000, 1, 3600, vec![routing_key("t")]).unwrap();
    assert_eq!(future.validate(now).unwrap_err().message(), "descriptor timestamp too far in future (>120s ahead)");
    let big = Descriptor::create(&kp, schema_hash("core/capability"), "".into(), vec![0u8; MAX_PAYLOAD_SIZE + 1], now, 1, 3600, vec![routing_key("t")]).unwrap();
    assert_eq!(big.validate(now).unwrap_err().message(), "payload too large: 65537 bytes (max 65536)");
    let long = Descriptor::create(&kp, schema_hash("core/capability"), "é".repeat(128), b"p".to_vec(), now, 1, 3600, vec![routing_key("t")]).unwrap();
    assert_eq!(long.validate(now).unwrap_err().message(), "topic too long: 256 bytes (max 255)");
}

#[test]
fn expiry_boundary_is_exclusive() {
    let kp = Keypair::generate();
    let ts = 1_700_000_000_000_000u64;
    let desc = Descriptor::create(&kp, schema_hash("core/capability"), "t".into(), b"p".to_vec(), ts, 1, 60, vec![routing_key("t")]).unwrap();
    assert!(desc.validate(ts + 59_999_999).is_ok());
    assert!(matches!(desc.validate(ts + 60_000_000), Err(MeshError::Expired)));
}

#[test]
fn id_mismatch_reports_both_digests() {
    let kp = Keypair::generate();
    let now = now_micros();
    let mut desc = make_descriptor(&kp);
    let id_before = desc.id.to_hex();
    desc.payload = b"other".to_vec();
    match desc.validate(now) {
        Err(MeshError::IdMismatch { expected, actual }) => {
            assert_eq!(expected, id_before);
            assert_ne!(actual, id_before);
            assert_eq!(actual.len(), 64);
        }
        other => panic!("unexpected {other:?}"),
    }
}

#[test]
fn compute_id_matches_created_id() {
    let kp = Keypair::generate();
    let desc = make_descriptor(&kp);
    let id = Descriptor::compute_id(&desc.schema_hash, &desc.topic, &desc.payload, &desc.publisher, desc.timestamp, desc.sequence, desc.ttl, &desc.routing_keys)
        .unwrap();
    assert_eq!(id, desc.id);
}
