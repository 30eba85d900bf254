use mars_mesh::hash::{schema_hash, ALG_BLAKE3};
use mars_mesh::routing::{hierarchical_routing_keys, routing_key};
use mars_mesh::schema::{
    routing_key_compute, routing_key_inference, routing_key_infrastructure, routing_key_infrastructure_hub,
    routing_key_storage, schema_hash_core_capability, schema_hash_core_discovery_query, schema_hash_core_key_rotation,
    schema_hash_core_resolve, schema_hash_core_revocation, schema_hash_core_schema, schema_hash_infra_hub,
    schema_hash_infra_relay, well_known_schemas,
};

#[test]
fn blake3_deterministic() {
    let h1 = mars_mesh::hash::Hash::blake3(b"hello world");
    let h2 = mars_mesh::hash::Hash::blake3(b"hello world");
    assert_eq!(h1, h2);
}

#[test]
fn blake3_different_input() {
    let h1 = mars_mesh::hash::Hash::blake3(b"hello");
    let h2 = mars_mesh::hash::Hash::blake3(b"world");
    assert_ne!(h1, h2);
}

#[test]
fn hash_is_blake3() {
    let h = mars_mesh::hash::Hash::blake3(b"test");
    assert!(h.is_blake3());
    assert_eq!(h.algorithm, ALG_BLAKE3);
    assert_eq!(h.digest.len(), 32);
}

#[test]
fn schema_hash_deterministic() {
    let h1 = schema_hash("core/schema");
    let h2 = schema_hash("core/schema");
    assert_eq!(h1, h2);
}

#[test]
fn schema_hash_different_names() {
    let h1 = schema_hash("core/schema");
    let h2 = schema_hash("core/capability");
    assert_ne!(h1, h2);
}

#[test]
fn hex_display() {
    let h = mars_mesh::hash::Hash::blake3(b"test");
    let hex_str = h.to_hex();
    assert_eq!(hex_str.len(), 64);
}

#[test]
fn hex_of_known_digest() {
    let h = mars_mesh::hash::Hash::new(ALG_BLAKE3, vec![0x00, 0x0f, 0xa5, 0xff]);
    assert_eq!(h.to_hex(), "000fa5ff");
}

#[test]
fn blake3_matches_known_vector() {
    // BLAKE3 of the empty input.
    let h = mars_mesh::hash::Hash::blake3(b"");
    assert_eq!(h.to_hex(), "af1349b9f5f9a1a6a0404dea36dcc9499bcb25c9adc112b7cc9a93cae41f3262");
}

#[test]
fn routing_key_deterministic() {
    let k1 = routing_key("compute/inference/text-generation");
    let k2 = routing_key("compute/inference/text-generation");
    assert_eq!(k1, k2);
}

#[test]
fn routing_key_different_types() {
    let k1 = routing_key("compute/inference/text-generation");
    let k2 = routing_key("storage/object/s3");
    assert_ne!(k1, k2);
}

#[test]
fn routing_key_is_blake3() {
    let k = routing_key("test");
    assert!(k.is_blake3());
    assert_eq!(k.digest.len(), 32);
}

#[test]
fn routing_key_matches_spec_format() {
    let k = routing_key("compute/inference/text-generation");
    let expected = mars_mesh::hash::Hash::blake3(b"mesh:route:compute/inference/text-generation");
    assert_eq!(k, expected);
}

#[test]
fn hierarchical_keys_single_segment() {
    let keys = hierarchical_routing_keys("compute");
    assert_eq!(keys.len(), 1);
    assert_eq!(keys[0], routing_key("compute"));
}

#[test]
fn hierarchical_keys_three_segments() {
    let keys = hierarchical_routing_keys("compute/inference/text-generation");
    assert_eq!(keys.len(), 3);
    assert_eq!(keys[0], routing_key("compute"));
    assert_eq!(keys[1], routing_key("compute/inference"));
    assert_eq!(keys[2], routing_key("compute/inference/text-generation"));
}

#[test]
fn hierarchical_keys_order() {
    let keys = hierarchical_routing_keys("a/b/c/d");
    assert_eq!(keys.len(), 4);
    for i in 0..keys.len() {
        for j in (i + 1)..keys.len() {
            assert_ne!(keys[i], keys[j]);
        }
    }
}

#[test]
fn hierarchical_keys_keep_empty_segments() {
    let keys = hierarchical_routing_keys("a//b");
    assert_eq!(keys.len(), 3);
    assert_eq!(keys[0], routing_key("a"));
    assert_eq!(keys[1], routing_key("a/"));
    assert_eq!(keys[2], routing_key("a//b"));
}

#[test]
fn schema_hashes_are_blake3() {
    assert!(schema_hash_core_schema().is_blake3());
    assert!(schema_hash_core_capability().is_blake3());
    assert!(schema_hash_core_discovery_query().is_blake3());
    assert!(schema_hash_core_resolve().is_blake3());
    assert!(schema_hash_core_revocation().is_blake3());
    assert!(schema_hash_core_key_rotation().is_blake3());
}

#[test]
fn schema_hashes_are_unique() {
    let hashes = vec![
        schema_hash_core_schema(),
        schema_hash_core_capability(),
        schema_hash_core_discovery_query(),
        schema_hash_core_resolve(),
        schema_hash_core_revocation(),
        schema_hash_core_key_rotation(),
    ];
    for i in 0..hashes.len() {
        for j in (i + 1)..hashes.len() {
            assert_ne!(hashes[i], hashes[j], "schema hashes must be unique");
        }
    }
}

#[test]
fn schema_hashes_deterministic() {
    let h1 = schema_hash_core_schema();
    let h2 = schema_hash_core_schema();
    assert_eq!(h1, h2);
}

#[test]
fn schema_hash_matches_manual() {
    let manual = mars_mesh::hash::Hash::blake3(b"mesh:schema:core/schema");
    assert_eq!(schema_hash_core_schema(), manual);
}

#[test]
fn well_known_schemas_count() {
    assert_eq!(well_known_schemas().len(), 6);
}

#[test]
fn infra_schema_hashes_are_unique() {
    assert_ne!(schema_hash_infra_hub(), schema_hash_infra_relay());
    assert_ne!(schema_hash_infra_hub(), schema_hash_core_capability());
}

#[test]
fn routing_key_constants_are_unique() {
    assert_ne!(routing_key_compute(), routing_key_storage());
    assert_ne!(routing_key_compute(), routing_key_inference());
    assert_ne!(routing_key_infrastructure(), routing_key_infrastructure_hub());
    assert_ne!(routing_key_infrastructure(), routing_key_compute());
}

#[test]
fn routing_key_constants_match_function() {
    assert_eq!(routing_key_compute(), routing_key("compute"));
    assert_eq!(routing_key_storage(), routing_key("storage"));
    assert_eq!(routing_key_inference(), routing_key("compute/inference"));
    assert_eq!(routing_key_infrastructure(), routing_key("infrastructure"));
    assert_eq!(routing_key_infrastructure_hub(), routing_key("infrastructure/hub"));
}

#[test]
fn hex_text_is_lower_case_high_nibble_first() {
    assert_eq!(mars_mesh::text::hex_encode(&[]), "");
    assert_eq!(mars_mesh::text::hex_encode(&[0x00, 0x0f, 0xa5, 0xff, 0x10]), "000fa5ff10");
}

#[test]
fn decimal_text_has_no_leading_zeros() {
    assert_eq!(mars_mesh::text::decimal_string(0), "0");
    assert_eq!(mars_mesh::text::decimal_string(7), "7");
    assert_eq!(mars_mesh::text::decimal_string(10), "10");
    assert_eq!(mars_mesh::text::decimal_string(1_234_567_890), "1234567890");
    assert_eq!(mars_mesh::text::decimal_string(u64::MAX), "18446744073709551615");
}
