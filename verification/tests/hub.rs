use mars_mesh::auth::DIDAuthChallenge;
use mars_mesh::config::{
    MuCosts, ObservabilityConfig, PeeringConfig, PolicyConfig, SecurityConfig, SeedingConfig, StorageConfig, StoreMode,
    TenantConfig,
};
use mars_mesh::descriptor::Descriptor;
use mars_mesh::hash::schema_hash;
use mars_mesh::identity::Keypair;
use mars_mesh::policy::{admit_store, admit_store_at, PolicyEngine};
use mars_mesh::rate_limit::{HubRateLimiter, RateLimitConfig};
use mars_mesh::text::hex_encode;
use mars_mesh::routing::routing_key;
use mars_mesh::tenant::{check_consumable, deduct, new_tenant, tier_quotas, MuError, Tenant};
use std::time::{SystemTime, UNIX_EPOCH};

fn now_micros() -> u64 {
    SystemTime::now().duration_since(UNIX_EPOCH).unwrap().as_micros() as u64
}

fn make_descriptor() -> Descriptor {
    let kp = Keypair::generate();
    Descriptor::create(&kp, schema_hash("core/capability"), "topic".into(), b"payload".to_vec(), now_micros(), 1, 3600, vec![routing_key("compute")])
        .unwrap()
}

fn make_tenant(descriptors: u64, bytes: u64, mu_balance: i64) -> Tenant {
    Tenant {
        id: 1,
        name: "test".into(),
        tier: "free".into(),
        max_descriptors: 100,
        max_storage_bytes: 1_048_576,
        max_query_rate: 10,
        max_store_rate: 1,
        current_descriptors: descriptors,
        current_bytes: bytes,
        mu_balance,
        mu_limit: 10_000,
        created_at: 0,
    }
}

#[test]
fn open_mode_allows_all() {
    let engine = PolicyEngine::new(PolicyConfig::default());
    let desc = make_descriptor();
    assert!(engine.check_store(&desc, false).is_ok());
    assert!(engine.check_store(&desc, true).is_ok());
}

#[test]
fn tenant_only_rejects_non_tenant() {
    let config = PolicyConfig { store_mode: StoreMode::TenantOnly, ..Default::default() };
    let engine = PolicyEngine::new(config);
    let desc = make_descriptor();
    assert!(engine.check_store(&desc, false).is_err());
    assert!(engine.check_store(&desc, true).is_ok());
}

#[test]
fn blocked_identity() {
    let kp = Keypair::generate();
    let did = kp.identity().did();
    let config = PolicyConfig { blocked_identities: vec![did], ..Default::default() };
    let engine = PolicyEngine::new(config);
    let desc = Descriptor::create(&kp, schema_hash("core/capability"), "topic".into(), b"payload".to_vec(), now_micros(), 1, 3600, vec![routing_key("compute")])
        .unwrap();
    assert!(engine.check_store(&desc, true).is_err());
}

#[test]
fn blocked_routing_key_by_hex_digest() {
    let rk = routing_key("compute");
    let config = PolicyConfig { blocked_routing_keys: vec![hex_encode(&rk.digest)], ..Default::default() };
    let engine = PolicyEngine::new(config);
    assert_eq!(engine.check_store(&make_descriptor(), true).unwrap_err(), "policy");
    let allowlist_mode = PolicyEngine::new(PolicyConfig { store_mode: StoreMode::Allowlist, ..Default::default() });
    assert_eq!(allowlist_mode.check_store(&make_descriptor(), false).unwrap_err(), "policy");
}

#[test]
fn quota_under_limit() {
    let engine = PolicyEngine::new(PolicyConfig::default());
    let tenant = make_tenant(50, 500_000, 5_000);
    assert!(engine.check_quotas(&tenant, 1024).is_ok());
}

#[test]
fn quota_at_descriptor_limit() {
    let engine = PolicyEngine::new(PolicyConfig::default());
    let tenant = make_tenant(100, 0, 10_000);
    assert!(engine.check_quotas(&tenant, 1024).is_err());
}

#[test]
fn quota_over_storage_limit() {
    let engine = PolicyEngine::new(PolicyConfig::default());
    let tenant = make_tenant(50, 1_048_000, 10_000);
    assert!(engine.check_quotas(&tenant, 1024).is_err());
}

#[test]
fn quota_storage_exactly_at_limit() {
    let engine = PolicyEngine::new(PolicyConfig::default());
    let tenant = make_tenant(50, 1_048_576 - 1024, 10_000);
    assert!(engine.check_quotas(&tenant, 1024).is_ok());
}

#[test]
fn mu_budget_sufficient() {
    let engine = PolicyEngine::new(PolicyConfig::default());
    let tenant = make_tenant(0, 0, 100);
    assert!(engine.check_mu_budget(&tenant, 10).is_ok());
}

#[test]
fn mu_budget_insufficient() {
    let engine = PolicyEngine::new(PolicyConfig::default());
    let tenant = make_tenant(0, 0, 5);
    assert!(engine.check_mu_budget(&tenant, 10).is_err());
}

#[test]
fn mu_budget_zero_balance() {
    let engine = PolicyEngine::new(PolicyConfig::default());
    let tenant = make_tenant(0, 0, 0);
    assert!(engine.check_mu_budget(&tenant, 1).is_err());
    assert!(engine.check_mu_budget(&tenant, 0).is_ok());
}

#[test]
fn tier_mu_limits() {
    assert_eq!(new_tenant(1, "free-org", "free", 0).mu_limit, 10_000);
    assert_eq!(new_tenant(2, "starter-org", "starter", 0).mu_limit, 100_000);
    assert_eq!(new_tenant(3, "pro-org", "pro", 0).mu_limit, 1_000_000);
    assert_eq!(new_tenant(4, "enterprise-org", "enterprise", 0).mu_limit, 10_000_000);
}

#[test]
fn new_tenant_starts_with_full_balance() {
    let t = new_tenant(9, "test-org", "free", 123);
    assert_eq!(t.name, "test-org");
    assert_eq!(t.tier, "free");
    assert_eq!(t.max_descriptors, 100);
    assert_eq!(t.mu_balance, 10_000);
    assert_eq!(t.mu_limit, 10_000);
    assert_eq!(t.current_descriptors, 0);
    assert_eq!(t.created_at, 123);
    let unknown = tier_quotas("platinum");
    assert_eq!(unknown, tier_quotas("free"));
    assert_eq!(tier_quotas("enterprise").max_storage_bytes, 10_737_418_240);
}

#[test]
fn mu_deduction_rules() {
    assert_eq!(deduct(10_000, 100).unwrap(), 9_900);
    assert_eq!(deduct(9_900, 9_900).unwrap(), 0);
    match deduct(10_000, 20_000) {
        Err(MuError::InsufficientBalance { balance, cost }) => {
            assert_eq!(balance, 10_000);
            assert_eq!(cost, 20_000);
        }
        other => panic!("unexpected {other:?}"),
    }
    assert!(check_consumable(0).is_ok());
    assert_eq!(check_consumable(1).unwrap_err(), "challenge already consumed");
}

#[test]
fn challenge_create_and_signable() {
    let challenge = DIDAuthChallenge::new("did:mesh:zHubDid", "register_identity");
    assert_eq!(challenge.action, "register_identity");
    assert_eq!(challenge.hub_did, "did:mesh:zHubDid");
    assert!(challenge.expiry > challenge.issued_at);

    let bytes1 = challenge.to_signable_bytes();
    let bytes2 = challenge.to_signable_bytes();
    assert_eq!(bytes1, bytes2);
    assert!(!bytes1.is_empty());
}

#[test]
fn challenge_verify_valid_signature() {
    let kp = Keypair::generate();
    let identity = kp.identity();
    let challenge = DIDAuthChallenge::new(&identity.did(), "register_identity");
    let signable = challenge.to_signable_bytes();
    let signature = kp.sign(&signable);
    assert!(challenge.verify(&identity, &signature).is_ok());
}

#[test]
fn challenge_verify_wrong_signature() {
    let kp1 = Keypair::generate();
    let kp2 = Keypair::generate();
    let challenge = DIDAuthChallenge::new(&kp1.identity().did(), "register_identity");
    let signable = challenge.to_signable_bytes();
    let signature = kp2.sign(&signable);
    let err = challenge.verify(&kp1.identity(), &signature).unwrap_err();
    assert_eq!(err, "signature verification failed: invalid signature");
}

#[test]
fn challenge_expiry() {
    let challenge = DIDAuthChallenge::new("did:mesh:zHubDid", "register_identity");
    assert!(!challenge.is_expired(challenge.issued_at));
    assert!(!challenge.is_expired(challenge.expiry - 1));
    assert!(challenge.is_expired(challenge.expiry));
    assert!(challenge.is_expired(challenge.expiry + 1_000_000));
    assert_eq!(challenge.expiry - challenge.issued_at, 300_000_000);
}

#[test]
fn signable_bytes_are_canonical_cbor() {
    let challenge = DIDAuthChallenge {
        id: 0,
        nonce: [0xAA; 32],
        hub_did: "h".into(),
        action: "a".into(),
        issued_at: 1000,
        expiry: 2000,
    };
    let mut expected = vec![0xA4];
    expected.extend_from_slice(&[0x65, b'n', b'o', b'n', b'c', b'e', 0x58, 0x20]);
    expected.extend_from_slice(&[0xAA; 32]);
    expected.extend_from_slice(&[0x66, b'a', b'c', b't', b'i', b'o', b'n', 0x61, b'a']);
    expected.extend_from_slice(&[0x67, b'h', b'u', b'b', b'_', b'd', b'i', b'd', 0x61, b'h']);
    expected.extend_from_slice(&[0x69, b'i', b's', b's', b'u', b'e', b'd', b'_', b'a', b't', 0x19, 0x03, 0xE8]);
    assert_eq!(challenge.to_signable_bytes(), expected);
}

#[test]
fn config_defaults() {
    let p = PeeringConfig::default();
    assert!(!p.enabled);
    assert_eq!(p.gossip_interval_secs, 60);
    assert_eq!(p.health_check_interval_secs, 10);
    assert_eq!(p.max_peers, 50);
    assert_eq!(p.max_descriptors, 1_000_000);
    let s = StorageConfig::default();
    assert_eq!(s.data_dir, "data");
    assert_eq!(s.hot_cache_entries, 10_000);
    let t = TenantConfig::default();
    assert!(t.enabled);
    assert_eq!(t.db_path, "data/tenants.sqlite");
    let sec = SecurityConfig::default();
    assert_eq!(sec.max_connections_per_ip, 50);
    assert_eq!(sec.max_queries_per_identity_per_sec, 20);
    let mu = MuCosts::default();
    assert_eq!((mu.store_new, mu.store_update, mu.find_value, mu.find_node), (10, 5, 1, 1));
    assert!(ObservabilityConfig::default().metrics_enabled);
    let seed = SeedingConfig::default();
    assert_eq!(seed.interval_secs, 1800);
    assert!(seed.seed_file.is_none());
    assert_eq!(StoreMode::default(), StoreMode::Open);
}

#[test]
fn admission_rate_limits_before_policy() {
    let kp = Keypair::generate();
    let now = now_micros();
    let d = Descriptor::create(&kp, schema_hash("core/capability"), "t".into(), vec![], now, 1, 3600, vec![routing_key("compute")]).unwrap();
    let mut limiter = HubRateLimiter::new(RateLimitConfig::default());
    let open = PolicyEngine::new(PolicyConfig::default());
    for _ in 0..20 {
        assert!(admit_store_at(&mut limiter, &open, &d, false, now).is_ok());
    }
    assert_eq!(admit_store_at(&mut limiter, &open, &d, false, now), Err("rate limited".to_string()));
    // A minute later the window has passed.
    assert!(admit_store_at(&mut limiter, &open, &d, false, now + 61_000_000).is_ok());
}

#[test]
fn admission_applies_the_policy() {
    let d = make_descriptor();
    let mut limiter = HubRateLimiter::new(RateLimitConfig::default());
    let tenant_only = PolicyEngine::new(PolicyConfig {
        store_mode: StoreMode::TenantOnly,
        blocked_identities: vec![],
        blocked_routing_keys: vec![],
    });
    assert_eq!(admit_store(&mut limiter, &tenant_only, &d, false), Err("policy".to_string()));
    assert!(admit_store(&mut limiter, &tenant_only, &d, true).is_ok());
}
