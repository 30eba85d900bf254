use mars_mesh::message::NodeAddr;
use mars_mesh::identity::Keypair;
use mars_mesh::peering::{
    advertised_by, endpoint_to_node_addr, gossip_batch, hub_ads_request, peer_advertisements, self_advertisement_descriptor,
    ConnectDecision, PeerState, PeerStatus, PeerTable, DISCONNECT_THRESHOLD, MAX_GOSSIP_BATCH, UNHEALTHY_THRESHOLD,
};

#[test]
fn test_peer_state_transitions() {
    let mut state = PeerState {
        connection: None,
        addr: NodeAddr { protocol: "quic".into(), address: "10.0.0.1:4433".into() },
        status: PeerStatus::Connected,
        last_seen: 0,
        consecutive_failures: 0,
    };

    assert_eq!(state.status, PeerStatus::Connected);

    for _ in 0..UNHEALTHY_THRESHOLD {
        state.consecutive_failures += 1;
    }
    assert!(state.consecutive_failures >= UNHEALTHY_THRESHOLD);
    state.status = PeerStatus::Unhealthy;
    assert_eq!(state.status, PeerStatus::Unhealthy);

    for _ in UNHEALTHY_THRESHOLD..DISCONNECT_THRESHOLD {
        state.consecutive_failures += 1;
    }
    assert!(state.consecutive_failures >= DISCONNECT_THRESHOLD);
    state.status = PeerStatus::Disconnected;
    state.connection = None;
    assert_eq!(state.status, PeerStatus::Disconnected);
    assert!(state.connection.is_none());
}

#[test]
fn test_peer_state_recovery() {
    let mut state = PeerState {
        connection: None,
        addr: NodeAddr { protocol: "quic".into(), address: "10.0.0.1:4433".into() },
        status: PeerStatus::Unhealthy,
        last_seen: 0,
        consecutive_failures: 3,
    };

    state.consecutive_failures = 0;
    state.status = PeerStatus::Connected;
    state.last_seen = 1;

    assert_eq!(state.status, PeerStatus::Connected);
    assert_eq!(state.consecutive_failures, 0);
}

#[test]
fn test_endpoint_to_node_addr() {
    let addr = endpoint_to_node_addr("quic://hub.example.com:4433");
    assert_eq!(addr.protocol, "quic");
    assert_eq!(addr.address, "hub.example.com:4433");

    let addr2 = endpoint_to_node_addr("10.0.0.1:4433");
    assert_eq!(addr2.protocol, "quic");
    assert_eq!(addr2.address, "10.0.0.1:4433");
}

#[test]
fn endpoint_prefix_must_be_exact() {
    assert_eq!(endpoint_to_node_addr("quic:/x").address, "quic:/x");
    assert_eq!(endpoint_to_node_addr("quic://").address, "");
    assert_eq!(endpoint_to_node_addr("QUIC://h:1").address, "QUIC://h:1");
}

#[test]
fn health_checks_walk_the_thresholds() {
    let mut state = PeerState {
        connection: Some(7),
        addr: NodeAddr { protocol: "quic".into(), address: "10.0.0.1:4433".into() },
        status: PeerStatus::Connected,
        last_seen: 0,
        consecutive_failures: 0,
    };
    state.record_health_failure();
    state.record_health_failure();
    assert_eq!(state.status, PeerStatus::Connected);
    state.record_health_failure();
    assert_eq!(state.status, PeerStatus::Unhealthy);
    state.record_health_failure();
    assert_eq!(state.status, PeerStatus::Unhealthy);
    assert_eq!(state.connection, Some(7));
    state.record_health_failure();
    assert_eq!(state.status, PeerStatus::Disconnected);
    assert_eq!(state.connection, None);
    state.record_health_ok(99);
    assert_eq!(state.status, PeerStatus::Connected);
    assert_eq!(state.consecutive_failures, 0);
    assert_eq!(state.last_seen, 99);
}

#[test]
fn peer_table_counts_and_decisions() {
    let mut table = PeerTable::new();
    let addr = || NodeAddr { protocol: "quic".into(), address: "1.2.3.4:4433".into() };
    assert_eq!(table.connect_decision("did:a", 1), ConnectDecision::Proceed);
    table.record_connected("did:a", addr(), 1, 10);
    assert_eq!(table.connected_peer_count(), 1);
    assert_eq!(table.connect_decision("did:a", 5), ConnectDecision::AlreadyConnected);
    assert_eq!(table.connect_decision("did:b", 1), ConnectDecision::MaxPeersReached);
    table.record_connect_failure("did:b", addr(), 11);
    table.record_connect_failure("did:b", addr(), 12);
    let statuses = table.peer_statuses();
    assert_eq!(statuses.len(), 2);
    let b = statuses.iter().find(|s| s.0 == "did:b").unwrap();
    assert_eq!(b.1, PeerStatus::Disconnected);
    assert_eq!(b.2, 2);
    assert_eq!(table.status_of("did:a"), Some(PeerStatus::Connected));
    assert_eq!(table.status_of("did:c"), None);
    for _ in 0..5 {
        table.record_health("did:a", false, 20);
    }
    assert_eq!(table.status_of("did:a"), Some(PeerStatus::Disconnected));
    assert_eq!(table.connected_peer_count(), 0);
    assert_eq!(table.len(), 2);
}

#[test]
fn gossip_and_health_targets_follow_status() {
    let mut table = PeerTable::new();
    let addr = || NodeAddr { protocol: "quic".into(), address: "1.2.3.4:4433".into() };
    table.record_connected("did:a", addr(), 7, 10);
    table.record_connected("did:b", addr(), 8, 10);
    table.record_connect_failure("did:c", addr(), 10);
    table.record_incoming("did:d", 11);
    assert_eq!(table.gossip_targets(), vec![("did:a".to_string(), 7), ("did:b".to_string(), 8)]);
    assert_eq!(table.health_check_targets(), vec!["did:a".to_string(), "did:b".to_string(), "did:d".to_string()]);
    assert_eq!(table.connection_of("did:b"), Some(8));
    assert_eq!(table.connection_of("did:d"), None);
    assert_eq!(table.status_of("did:d"), Some(PeerStatus::Connected));
    for _ in 0..3 {
        table.record_health("did:b", false, 20);
    }
    assert_eq!(table.status_of("did:b"), Some(PeerStatus::Unhealthy));
    assert_eq!(table.gossip_targets(), vec![("did:a".to_string(), 7)]);
    table.record_gossip_failures("did:a", 2);
    let a = table.peer_statuses().into_iter().find(|s| s.0 == "did:a").unwrap();
    assert_eq!(a.2, 2);
    assert_eq!(a.1, PeerStatus::Connected);
}

#[test]
fn incoming_peer_keeps_a_known_state() {
    let mut table = PeerTable::new();
    let addr = NodeAddr { protocol: "quic".into(), address: "1.2.3.4:4433".into() };
    table.record_connect_failure("did:a", addr, 10);
    table.record_incoming("did:a", 11);
    assert_eq!(table.status_of("did:a"), Some(PeerStatus::Disconnected));
}

#[test]
fn self_advertisement_is_a_signed_hub_descriptor() {
    let kp = Keypair::generate();
    let now = 1_700_000_123_456_789u64;
    let d = self_advertisement_descriptor(&kp, vec![0xa0], now).unwrap();
    assert_eq!(d.topic, "hub");
    assert_eq!(d.sequence, 1_700_000_123);
    assert_eq!(d.ttl, 3600);
    assert_eq!(d.schema_hash, mars_mesh::hash::schema_hash("infrastructure/hub"));
    assert_eq!(
        d.routing_keys,
        vec![mars_mesh::routing::routing_key("infrastructure"), mars_mesh::routing::routing_key("infrastructure/hub")]
    );
    assert!(d.validate(now).is_ok());
}

#[test]
fn advertisements_of_other_hubs() {
    let me = Keypair::generate();
    let other = Keypair::generate();
    let now = 1_700_000_000_000_000u64;
    let mine = self_advertisement_descriptor(&me, vec![0xa0], now).unwrap();
    let theirs = self_advertisement_descriptor(&other, vec![0xa0], now).unwrap();
    let all = vec![mine, theirs.clone()];
    let found = peer_advertisements(&me.identity(), &all);
    assert_eq!(found.len(), 1);
    assert_eq!(found[0].publisher, other.identity());
    assert!(advertised_by(&all, &other.identity()));
    assert!(!advertised_by(&found, &me.identity()));
}

#[test]
fn gossip_batch_takes_the_first_fifty() {
    let kp = Keypair::generate();
    let ds: Vec<_> = (0..60u64).map(|i| self_advertisement_descriptor(&kp, vec![0xa0], 1_000_000 * (i + 1)).unwrap()).collect();
    let batch = gossip_batch(ds.clone());
    assert_eq!(batch.len(), MAX_GOSSIP_BATCH);
    assert_eq!(batch[49].sequence, 50);
    assert_eq!(gossip_batch(ds[..3].to_vec()).len(), 3);
}

#[test]
fn hub_ads_request_asks_for_fifty_hub_ads() {
    let kp = Keypair::generate();
    let addr = NodeAddr { protocol: "quic".into(), address: "1.2.3.4:4433".into() };
    let req = hub_ads_request(&kp.identity(), &addr);
    assert_eq!(req.key, mars_mesh::routing::routing_key("infrastructure/hub"));
    assert_eq!(req.max_results, 50);
    assert!(req.filters.is_none());
    assert_eq!(req.sender, kp.identity());
}

#[test]
fn test_connected_peer_count() {
    let mut table = PeerTable::new();
    assert_eq!(table.connected_peer_count(), 0);
    table.record_connected("did:mesh:zpeer1", NodeAddr { protocol: "quic".into(), address: "10.0.0.1:4433".into() }, 1, 0);
    assert_eq!(table.connected_peer_count(), 1);
    for _ in 0..5 {
        table.record_connect_failure("did:mesh:zpeer2", NodeAddr { protocol: "quic".into(), address: "10.0.0.2:4433".into() }, 0);
    }
    // Disconnected peer shouldn't count
    assert_eq!(table.connected_peer_count(), 1);
}

#[test]
fn test_peer_statuses() {
    let mut table = PeerTable::new();
    table.record_connected("did:mesh:zpeer1", NodeAddr { protocol: "quic".into(), address: "10.0.0.1:4433".into() }, 1, 0);
    table.record_connected("did:mesh:zpeer2", NodeAddr { protocol: "quic".into(), address: "10.0.0.2:4433".into() }, 2, 0);
    for _ in 0..3 {
        table.record_health("did:mesh:zpeer2", false, 0);
    }
    let statuses = table.peer_statuses();
    assert_eq!(statuses.len(), 2);
    assert_eq!(statuses[1].1, PeerStatus::Unhealthy);
    assert_eq!(statuses[1].2, 3);
}

#[test]
fn peer_hub_admission() {
    let hub = Keypair::generate();
    let stranger = Keypair::generate();
    let now = 1_700_000_000_000_000u64;
    let ads = vec![self_advertisement_descriptor(&hub, vec![0xa0], now).unwrap()];
    let mut table = PeerTable::new();
    assert!(!table.admit_peer_hub(&stranger.identity(), &ads, now));
    assert_eq!(table.len(), 0);
    assert!(table.admit_peer_hub(&hub.identity(), &ads, now));
    assert_eq!(table.status_of(&hub.identity().did()), Some(PeerStatus::Connected));
    assert_eq!(table.len(), 1);
    // A connected peer is admitted without an advertisement.
    assert!(table.admit_peer_hub(&hub.identity(), &Vec::new(), now + 1));
}
