use mars_mesh::identity::Keypair;
use mars_mesh::network::IpAddress;
use mars_mesh::rate_limit::{HubRateLimiter, Operation, OperationLimits, RateLimitConfig, RateLimitError};

fn small_config() -> RateLimitConfig {
    let mut ip_limits = OperationLimits::new();
    ip_limits.insert(Operation::Store, 3);
    ip_limits.insert(Operation::Query, 5);
    ip_limits.insert(Operation::Connect, 2);

    let mut identity_limits = OperationLimits::new();
    identity_limits.insert(Operation::Store, 2);
    identity_limits.insert(Operation::Query, 4);

    RateLimitConfig { ip_limits, identity_limits, window_secs: 60 }
}

#[test]
fn test_ip_rate_limit_allows_under_threshold() {
    let mut limiter = HubRateLimiter::new(small_config());
    let ip = IpAddress::V4([192, 168, 1, 1]);
    assert!(limiter.check_ip(ip, Operation::Store).is_ok());
    assert!(limiter.check_ip(ip, Operation::Store).is_ok());
    assert!(limiter.check_ip(ip, Operation::Store).is_ok());
}

#[test]
fn test_ip_rate_limit_blocks_over_threshold() {
    let mut limiter = HubRateLimiter::new(small_config());
    let ip = IpAddress::V4([10, 0, 0, 1]);
    assert!(limiter.check_ip(ip, Operation::Store).is_ok());
    assert!(limiter.check_ip(ip, Operation::Store).is_ok());
    assert!(limiter.check_ip(ip, Operation::Store).is_ok());

    let err = limiter.check_ip(ip, Operation::Store).unwrap_err();
    match err {
        RateLimitError::IpRateLimited { ip: err_ip, operation, limit } => {
            assert_eq!(err_ip, ip);
            assert_eq!(operation, Operation::Store);
            assert_eq!(limit, 3);
        }
        _ => panic!("expected IpRateLimited"),
    }
}

#[test]
fn test_identity_rate_limit_blocks_over_threshold() {
    let mut limiter = HubRateLimiter::new(small_config());
    let kp = Keypair::generate();
    let identity = kp.identity();

    assert!(limiter.check_identity(&identity, Operation::Store).is_ok());
    assert!(limiter.check_identity(&identity, Operation::Store).is_ok());

    let err = limiter.check_identity(&identity, Operation::Store).unwrap_err();
    match err {
        RateLimitError::IdentityRateLimited { did, operation, limit } => {
            assert_eq!(did, identity.did());
            assert_eq!(operation, Operation::Store);
            assert_eq!(limit, 2);
        }
        _ => panic!("expected IdentityRateLimited"),
    }
}

#[test]
fn test_different_operations_tracked_separately() {
    let mut limiter = HubRateLimiter::new(small_config());
    let ip = IpAddress::V4([172, 16, 0, 1]);
    assert!(limiter.check_ip(ip, Operation::Store).is_ok());
    assert!(limiter.check_ip(ip, Operation::Store).is_ok());
    assert!(limiter.check_ip(ip, Operation::Store).is_ok());
    assert!(limiter.check_ip(ip, Operation::Store).is_err());
    for _ in 0..5 {
        assert!(limiter.check_ip(ip, Operation::Query).is_ok());
    }
    assert!(limiter.check_ip(ip, Operation::Query).is_err());
}

#[test]
fn test_cleanup_removes_stale_entries() {
    let mut ip_limits = OperationLimits::new();
    ip_limits.insert(Operation::Store, 100);
    let mut identity_limits = OperationLimits::new();
    identity_limits.insert(Operation::Store, 100);
    let config = RateLimitConfig { ip_limits, identity_limits, window_secs: 0 };
    let mut limiter = HubRateLimiter::new(config);
    let ip = IpAddress::V4([1, 2, 3, 4]);
    let kp = Keypair::generate();
    let identity = kp.identity();

    assert!(limiter.check_ip_at(ip, Operation::Store, 1_000).is_ok());
    assert!(limiter.check_identity_at(&identity, Operation::Store, 1_000).is_ok());

    let stats_before = limiter.stats();
    assert_eq!(stats_before.tracked_ips, 1);
    assert_eq!(stats_before.tracked_identities, 1);

    limiter.cleanup_at(1_001);

    let stats_after = limiter.stats();
    assert_eq!(stats_after.tracked_ips, 0);
    assert_eq!(stats_after.tracked_identities, 0);
}

#[test]
fn test_check_both_ip_and_identity() {
    let mut limiter = HubRateLimiter::new(small_config());
    let ip = IpAddress::V4([192, 168, 0, 1]);
    let kp = Keypair::generate();
    let identity = kp.identity();

    assert!(limiter.check(ip, &identity, Operation::Store).is_ok());
    assert!(limiter.check(ip, &identity, Operation::Store).is_ok());

    let err = limiter.check(ip, &identity, Operation::Store).unwrap_err();
    match err {
        RateLimitError::IdentityRateLimited { .. } => {}
        _ => panic!("expected IdentityRateLimited, got {err:?}"),
    }

    let kp2 = Keypair::generate();
    let identity2 = kp2.identity();
    let err = limiter.check(ip, &identity2, Operation::Store).unwrap_err();
    match err {
        RateLimitError::IpRateLimited { .. } => {}
        _ => panic!("expected IpRateLimited, got {err:?}"),
    }
}

#[test]
fn window_slides_with_explicit_times() {
    let mut limiter = HubRateLimiter::new(small_config());
    let ip = IpAddress::V6([0x2001, 0xdb8, 0, 0, 0, 0, 0, 1]);
    assert!(limiter.check_ip_at(ip, Operation::Connect, 0).is_ok());
    assert!(limiter.check_ip_at(ip, Operation::Connect, 1_000_000).is_ok());
    assert!(limiter.check_ip_at(ip, Operation::Connect, 2_000_000).is_err());
    // Exactly at the window's edge the first request still counts.
    assert!(limiter.check_ip_at(ip, Operation::Connect, 60_000_000).is_err());
    // Just past it, the first request has slid out.
    assert!(limiter.check_ip_at(ip, Operation::Connect, 60_000_001).is_ok());
    // Unlimited operations are never refused.
    let mut open = HubRateLimiter::new(RateLimitConfig { ip_limits: OperationLimits::new(), identity_limits: OperationLimits::new(), window_secs: 60 });
    for _ in 0..1000 {
        assert!(open.check_ip_at(ip, Operation::Query, 5).is_ok());
    }
    assert_eq!(open.stats().tracked_ips, 0);
}

#[test]
fn default_limits_and_names() {
    let config = RateLimitConfig::default();
    assert_eq!(config.ip_limits.get(Operation::Connect), Some(60));
    assert_eq!(config.ip_limits.get(Operation::Store), Some(30));
    assert_eq!(config.ip_limits.get(Operation::Query), Some(300));
    assert_eq!(config.identity_limits.get(Operation::Connect), None);
    assert_eq!(config.identity_limits.get(Operation::Store), Some(20));
    assert_eq!(config.identity_limits.get(Operation::Query), Some(200));
    assert_eq!(config.window_secs, 60);
    assert_eq!(Operation::Connect.name(), "connect");
    assert_eq!(Operation::Store.name(), "store");
    assert_eq!(Operation::Query.name(), "query");
}

fn make_config(store: u32, query: Option<u32>, window_secs: u64) -> RateLimitConfig {
    let mut ip_limits = OperationLimits::new();
    ip_limits.insert(Operation::Store, store);
    if let Some(q) = query {
        ip_limits.insert(Operation::Query, q);
    }
    RateLimitConfig { ip_limits, identity_limits: OperationLimits::new(), window_secs }
}

#[test]
fn test_rate_limiter_burst() {
    let mut limiter = HubRateLimiter::new(make_config(10, Some(100), 60));
    let ip = IpAddress::V4([203, 0, 113, 1]);
    for i in 0..10 {
        assert!(limiter.check_ip(ip, Operation::Store).is_ok(), "request {i} should pass");
    }
    let err = limiter.check_ip(ip, Operation::Store).unwrap_err();
    match err {
        RateLimitError::IpRateLimited { ip: err_ip, operation, limit } => {
            assert_eq!(err_ip, ip);
            assert_eq!(operation, Operation::Store);
            assert_eq!(limit, 10);
        }
        _ => panic!("expected IpRateLimited, got {err:?}"),
    }
}

#[test]
fn test_rate_limiter_window_expiry() {
    let mut limiter = HubRateLimiter::new(make_config(3, None, 1));
    let ip = IpAddress::V4([198, 51, 100, 1]);
    let now = 1_000_000_000u64;
    assert!(limiter.check_ip_at(ip, Operation::Store, now).is_ok());
    assert!(limiter.check_ip_at(ip, Operation::Store, now).is_ok());
    assert!(limiter.check_ip_at(ip, Operation::Store, now).is_ok());
    assert!(limiter.check_ip_at(ip, Operation::Store, now).is_err());
    // 1.1 seconds later the 1-second window has passed.
    assert!(limiter.check_ip_at(ip, Operation::Store, now + 1_100_000).is_ok(), "request should pass after window expires");
}

#[test]
fn test_rate_limiter_independent_operations() {
    let mut limiter = HubRateLimiter::new(make_config(5, Some(10), 60));
    let ip = IpAddress::V4([192, 0, 2, 1]);
    for _ in 0..5 {
        assert!(limiter.check_ip(ip, Operation::Store).is_ok());
    }
    assert!(limiter.check_ip(ip, Operation::Store).is_err(), "store should be rate limited");
    for i in 0..10 {
        assert!(limiter.check_ip(ip, Operation::Query).is_ok(), "query {i} should still pass");
    }
    assert!(limiter.check_ip(ip, Operation::Query).is_err(), "query should be rate limited after 10");
}
