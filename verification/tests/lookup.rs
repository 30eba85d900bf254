use mars_mesh::identity::Keypair;
use mars_mesh::lookup::{needs_fallback, LookupState};
use mars_mesh::message::{NodeAddr, NodeInfo};
use mars_mesh::node::add_store_target;

fn info(kp: &Keypair, port: u16) -> NodeInfo {
    NodeInfo { identity: kp.identity(), addr: NodeAddr { protocol: "quic".into(), address: format!("10.0.0.1:{port}") }, last_seen: 0 }
}

#[test]
fn batches_skip_queried_nodes() {
    let kps: Vec<Keypair> = (0..5).map(|_| Keypair::generate()).collect();
    let initial: Vec<NodeInfo> = kps.iter().enumerate().map(|(i, k)| info(k, i as u16)).collect();
    let mut state = LookupState::new(mars_mesh::hash::Hash::blake3(b"target"), initial);
    let first = state.next_batch(3);
    assert_eq!(first.len(), 3);
    assert_eq!(first[0].identity, kps[0].identity());
    let second = state.next_batch(3);
    assert_eq!(second.len(), 2);
    assert_eq!(second[0].identity, kps[3].identity());
    assert!(state.next_batch(3).is_empty());
}

#[test]
fn merge_keeps_closest_k_in_order() {
    let target = mars_mesh::hash::Hash::blake3(b"target");
    let mut state = LookupState::new(target.clone(), Vec::new());
    let kps: Vec<Keypair> = (0..30).map(|_| Keypair::generate()).collect();
    let nodes: Vec<NodeInfo> = kps.iter().enumerate().map(|(i, k)| info(k, i as u16)).collect();
    state.merge_candidates(nodes);
    let batch = state.next_batch(100);
    assert_eq!(batch.len(), 20);
    for w in batch.windows(2) {
        let a = w[0].identity.node_id();
        let b = w[1].identity.node_id();
        assert!(mars_mesh::distance::distance_cmp(&target, &a, &b) != std::cmp::Ordering::Greater);
    }
}

#[test]
fn rounds_stop_on_results_or_silence() {
    let mut state = LookupState::new(mars_mesh::hash::Hash::blake3(b"t"), Vec::new());
    assert!(state.continue_after_round(2));
    assert!(!state.continue_after_round(0));
    let kp = Keypair::generate();
    let d = mars_mesh::descriptor::Descriptor::create(
        &kp,
        mars_mesh::hash::schema_hash("core/capability"),
        "t".into(),
        vec![],
        1,
        1,
        3600,
        vec![mars_mesh::routing::routing_key("k")],
    )
    .unwrap();
    state.absorb_descriptors(vec![d]);
    assert!(state.found_any());
    assert!(!state.continue_after_round(2));
    assert_eq!(state.into_collected().len(), 1);
    assert!(needs_fallback(false, 20));
    assert!(!needs_fallback(false, 21));
    assert!(!needs_fallback(true, 1));
}

#[test]
fn store_targets_are_unique_by_node_id() {
    let a = Keypair::generate();
    let b = Keypair::generate();
    let mut targets = vec![info(&a, 1)];
    add_store_target(&mut targets, info(&a, 2));
    assert_eq!(targets.len(), 1);
    add_store_target(&mut targets, info(&b, 3));
    assert_eq!(targets.len(), 2);
}

#[test]
fn store_targets_keep_the_k_closest_in_order() {
    let key = mars_mesh::routing::routing_key("compute/inference");
    let kps: Vec<Keypair> = (0..25).map(|_| Keypair::generate()).collect();
    let nodes: Vec<NodeInfo> = kps.iter().enumerate().map(|(i, k)| info(k, i as u16)).collect();
    let targets = mars_mesh::node::closest_store_targets(&key, &nodes);
    assert_eq!(targets.len(), 20);
    for w in targets.windows(2) {
        let a = w[0].identity.node_id();
        let b = w[1].identity.node_id();
        assert!(mars_mesh::distance::distance_cmp(&key, &a, &b) != std::cmp::Ordering::Greater);
    }
    let last = targets[19].identity.node_id();
    let kept: Vec<_> = targets.iter().map(|t| t.identity.clone()).collect();
    for n in &nodes {
        if !kept.contains(&n.identity) {
            let d = n.identity.node_id();
            assert!(mars_mesh::distance::distance_cmp(&key, &last, &d) != std::cmp::Ordering::Greater);
        }
    }
}

#[test]
fn store_targets_of_few_nodes_keep_all() {
    let key = mars_mesh::routing::routing_key("storage");
    let kps: Vec<Keypair> = (0..3).map(|_| Keypair::generate()).collect();
    let nodes: Vec<NodeInfo> = kps.iter().enumerate().map(|(i, k)| info(k, i as u16)).collect();
    assert_eq!(mars_mesh::node::closest_store_targets(&key, &nodes).len(), 3);
}
