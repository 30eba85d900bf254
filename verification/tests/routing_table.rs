use mars_mesh::distance::{bucket_index, distance_cmp, xor_distance};
use mars_mesh::identity::Keypair;
use mars_mesh::message::{NodeAddr, NodeInfo};
use mars_mesh::routing_table::{AddNodeResult, RoutingTable, K, NUM_BUCKETS};

fn make_node_info(kp: &Keypair) -> NodeInfo {
    NodeInfo {
        identity: kp.identity(),
        addr: NodeAddr { protocol: "quic".into(), address: "127.0.0.1:4433".into() },
        last_seen: 1_000_000,
    }
}

fn make_node_info_with_time(kp: &Keypair, last_seen: u64) -> NodeInfo {
    NodeInfo {
        identity: kp.identity(),
        addr: NodeAddr { protocol: "quic".into(), address: "127.0.0.1:4433".into() },
        last_seen,
    }
}

#[test]
fn new_table_is_empty() {
    let kp = Keypair::generate();
    let table = RoutingTable::new(kp.identity().node_id());
    assert!(table.is_empty());
    assert_eq!(table.len(), 0);
}

#[test]
fn add_and_count() {
    let local = Keypair::generate();
    let mut table = RoutingTable::new(local.identity().node_id());
    for _ in 0..5 {
        let kp = Keypair::generate();
        table.add_node(make_node_info(&kp));
    }
    assert_eq!(table.len(), 5);
}

#[test]
fn add_self_is_ignored() {
    let local = Keypair::generate();
    let mut table = RoutingTable::new(local.identity().node_id());
    table.add_node(make_node_info(&local));
    assert_eq!(table.len(), 0);
}

#[test]
fn add_duplicate_moves_to_end() {
    let local = Keypair::generate();
    let mut table = RoutingTable::new(local.identity().node_id());

    let node_kp = Keypair::generate();
    let node1 = make_node_info_with_time(&node_kp, 100);
    let node2 = make_node_info_with_time(&node_kp, 200);

    let other = Keypair::generate();
    table.add_node(make_node_info_with_time(&other, 50));
    table.add_node(node1);
    table.add_node(node2);

    assert_eq!(table.len(), 2);
}

#[test]
fn remove_node() {
    let local = Keypair::generate();
    let mut table = RoutingTable::new(local.identity().node_id());
    let node_kp = Keypair::generate();
    let node_id = node_kp.identity().node_id();

    table.add_node(make_node_info(&node_kp));
    assert_eq!(table.len(), 1);

    table.remove_node(&node_id);
    assert_eq!(table.len(), 0);
}

#[test]
fn remove_nonexistent_is_noop() {
    let local = Keypair::generate();
    let mut table = RoutingTable::new(local.identity().node_id());
    let kp = Keypair::generate();
    table.remove_node(&kp.identity().node_id());
    assert_eq!(table.len(), 0);
}

#[test]
fn closest_nodes_ordering() {
    let local = Keypair::generate();
    let target = mars_mesh::hash::Hash::blake3(b"target");
    let mut table = RoutingTable::new(local.identity().node_id());

    let mut keypairs = Vec::new();
    for _ in 0..20 {
        let kp = Keypair::generate();
        table.add_node(make_node_info(&kp));
        keypairs.push(kp);
    }

    let closest = table.closest_nodes(&target, 5);
    assert_eq!(closest.len(), 5);

    for i in 0..closest.len() - 1 {
        let id_a = closest[i].identity.node_id();
        let id_b = closest[i + 1].identity.node_id();
        let cmp = distance_cmp(&target, &id_a, &id_b);
        assert!(cmp != std::cmp::Ordering::Greater);
    }
}

#[test]
fn closest_nodes_fewer_than_requested() {
    let local = Keypair::generate();
    let mut table = RoutingTable::new(local.identity().node_id());
    let kp = Keypair::generate();
    table.add_node(make_node_info(&kp));

    let closest = table.closest_nodes(&mars_mesh::hash::Hash::blake3(b"target"), 10);
    assert_eq!(closest.len(), 1);
}

#[test]
fn full_bucket_waits_for_challenge() {
    let local = Keypair::generate();
    let mut table = RoutingTable::new(local.identity().node_id());

    let mut bucket_counts = vec![0usize; NUM_BUCKETS];
    let mut nodes_by_bucket: Vec<Vec<Keypair>> = (0..NUM_BUCKETS).map(|_| Vec::new()).collect();
    let local_id = local.identity().node_id();

    loop {
        let kp = Keypair::generate();
        let node_id = kp.identity().node_id();
        let dist = xor_distance(&local_id, &node_id);
        if let Some(idx) = bucket_index(&dist) {
            nodes_by_bucket[idx].push(kp);
            bucket_counts[idx] += 1;
            if bucket_counts[idx] > K {
                let target_bucket = idx;
                let nodes = &nodes_by_bucket[target_bucket];
                for (i, node_kp) in nodes.iter().take(K).enumerate() {
                    assert!(matches!(table.add_node(make_node_info_with_time(node_kp, i as u64)), AddNodeResult::Added));
                }
                let before: Vec<_> = table.bucket(target_bucket).entries.iter().map(|e| e.identity.clone()).collect();
                let result = table.add_node(make_node_info_with_time(&nodes[K], K as u64));
                let candidate = match result {
                    AddNodeResult::BucketFull { lrs, candidate } => {
                        assert_eq!(lrs.identity, nodes[0].identity());
                        candidate
                    }
                    other => panic!("expected BucketFull, got {other:?}"),
                };
                let after: Vec<_> = table.bucket(target_bucket).entries.iter().map(|e| e.identity.clone()).collect();
                assert_eq!(before, after);
                // Re-seeing a known node still moves it.
                assert!(matches!(table.add_node(make_node_info_with_time(&nodes[3], 99)), AddNodeResult::Moved));
                // The least recently seen entry did not answer: it is replaced.
                table.resolve_challenge(&nodes[0].identity().node_id(), candidate, false);
                let entries = &table.bucket(target_bucket).entries;
                assert_eq!(entries.len(), K);
                assert_eq!(entries[K - 1].identity, nodes[K].identity());
                assert!(!entries.iter().any(|e| e.identity == nodes[0].identity()));
                // The local node is ignored.
                assert!(matches!(table.add_node(make_node_info(&local)), AddNodeResult::Ignored));
                return;
            }
        }
    }
}

#[test]
fn test_routing_table_sybil_resistance() {
    const KEYGEN_SAFETY_CAP: usize = 100_000;
    let local = Keypair::generate();
    let local_id = local.identity().node_id();
    let mut table = RoutingTable::new(local_id.clone());

    let mut nodes_for_bucket: Vec<Keypair> = Vec::new();
    let mut target_bucket = None;

    for _ in 0..KEYGEN_SAFETY_CAP {
        let kp = Keypair::generate();
        let node_id = kp.identity().node_id();
        let dist = xor_distance(&local_id, &node_id);
        if let Some(idx) = bucket_index(&dist) {
            if target_bucket.is_none() || target_bucket == Some(idx) {
                target_bucket = Some(idx);
                nodes_for_bucket.push(kp);
                if nodes_for_bucket.len() > K {
                    break;
                }
            }
        }
    }
    assert!(
        nodes_for_bucket.len() > K,
        "failed to generate K+1 nodes in same bucket within {KEYGEN_SAFETY_CAP} attempts"
    );

    let bucket_idx = target_bucket.unwrap();

    for (i, kp) in nodes_for_bucket.iter().take(K).enumerate() {
        let result = table.add_node(make_node_info_with_time(kp, i as u64));
        assert!(matches!(result, AddNodeResult::Added), "node {i} should be added");
    }
    assert_eq!(table.bucket(bucket_idx).entries.len(), K);

    let overflow_kp = &nodes_for_bucket[K];
    let result = table.add_node(make_node_info_with_time(overflow_kp, K as u64));
    let (lrs_id, candidate_info) = match result {
        AddNodeResult::BucketFull { lrs, candidate } => {
            assert_eq!(lrs.identity, nodes_for_bucket[0].identity());
            assert_eq!(candidate.identity, overflow_kp.identity());
            (lrs.identity.node_id(), candidate)
        }
        _ => panic!("expected BucketFull, got {:?}", result),
    };

    assert_eq!(table.bucket(bucket_idx).entries.len(), K);

    table.resolve_challenge(&lrs_id, candidate_info.clone(), true);
    assert_eq!(
        table.bucket(bucket_idx).entries.len(),
        K,
        "bucket should still have K entries after LRS responded"
    );
    assert!(
        !table.bucket(bucket_idx).entries.iter().any(|e| e.identity == overflow_kp.identity()),
        "overflow node should not be admitted when LRS responded"
    );

    let new_kp = {
        let mut found = None;
        for _ in 0..KEYGEN_SAFETY_CAP {
            let kp = Keypair::generate();
            let node_id = kp.identity().node_id();
            let dist = xor_distance(&local_id, &node_id);
            if bucket_index(&dist) == Some(bucket_idx) {
                found = Some(kp);
                break;
            }
        }
        found.unwrap_or_else(|| {
            panic!("failed to generate node for bucket {bucket_idx} within {KEYGEN_SAFETY_CAP} attempts")
        })
    };
    let result = table.add_node(make_node_info_with_time(&new_kp, (K + 1) as u64));
    let (lrs_id2, candidate_info2) = match result {
        AddNodeResult::BucketFull { lrs, candidate } => (lrs.identity.node_id(), candidate),
        _ => panic!("expected BucketFull"),
    };

    table.resolve_challenge(&lrs_id2, candidate_info2, false);
    assert_eq!(
        table.bucket(bucket_idx).entries.len(),
        K,
        "bucket should still have K entries after eviction"
    );
    assert!(
        table.bucket(bucket_idx).entries.iter().any(|e| e.identity == new_kp.identity()),
        "new candidate should be admitted when LRS is dead"
    );
}

#[test]
fn correct_bucket_placement() {
    let local = Keypair::generate();
    let local_id = local.identity().node_id();
    let table = RoutingTable::new(local_id.clone());

    let node = Keypair::generate();
    let node_id = node.identity().node_id();
    let dist = xor_distance(&local_id, &node_id);
    let expected_bucket = bucket_index(&dist);

    assert!(expected_bucket.is_some());
    let idx = expected_bucket.unwrap();
    assert!(idx < NUM_BUCKETS);

    assert_eq!(table.bucket_for(&node_id), expected_bucket);
}

#[test]
fn readding_moves_record_to_end_with_new_fields() {
    let local = Keypair::generate();
    let mut table = RoutingTable::new(local.identity().node_id());
    let a = Keypair::generate();
    table.add_node(make_node_info_with_time(&a, 1));
    table.add_node(make_node_info_with_time(&a, 2));
    let idx = table.bucket_for(&a.identity().node_id()).unwrap();
    let bucket = table.bucket(idx);
    assert_eq!(bucket.entries.len(), 1);
    assert_eq!(bucket.entries[0].last_seen, 2);
}

#[test]
fn all_nodes_lists_every_record() {
    let local = Keypair::generate();
    let mut table = RoutingTable::new(local.identity().node_id());
    let mut ids = Vec::new();
    for _ in 0..7 {
        let kp = Keypair::generate();
        ids.push(kp.identity());
        table.add_node(make_node_info(&kp));
    }
    let all = table.all_nodes();
    assert_eq!(all.len(), 7);
    for id in &ids {
        assert!(all.iter().any(|n| &n.identity == id));
    }
}

#[test]
fn closest_to_own_id_is_that_node() {
    let local = Keypair::generate();
    let mut table = RoutingTable::new(local.identity().node_id());
    let mut kps = Vec::new();
    for _ in 0..10 {
        let kp = Keypair::generate();
        table.add_node(make_node_info(&kp));
        kps.push(kp);
    }
    let target = kps[3].identity().node_id();
    let closest = table.closest_nodes(&target, 1);
    assert_eq!(closest.len(), 1);
    assert_eq!(closest[0].identity, kps[3].identity());
}

#[test]
fn table_records_keep_the_invariant() {
    let local = Keypair::generate();
    let local_id = local.identity().node_id();
    let mut table = RoutingTable::new(local_id.clone());
    let keys: Vec<Keypair> = (0..60).map(|_| Keypair::generate()).collect();
    for (i, kp) in keys.iter().enumerate() {
        table.add_node(make_node_info_with_time(kp, i as u64));
        if i % 7 == 0 {
            table.add_node(make_node_info_with_time(&keys[i / 2], 1_000 + i as u64));
        }
        if i % 11 == 0 {
            table.remove_node(&keys[i / 3].identity().node_id());
        }
    }
    table.add_node(make_node_info(&local));
    let mut seen = Vec::new();
    let mut total = 0;
    for b in 0..NUM_BUCKETS {
        let entries = &table.bucket(b).entries;
        assert!(entries.len() <= K);
        total += entries.len();
        for e in entries {
            let id = e.identity.node_id();
            assert_ne!(id, local_id);
            assert_eq!(bucket_index(&xor_distance(&local_id, &id)), Some(b));
            assert!(!seen.contains(&e.identity));
            seen.push(e.identity.clone());
        }
    }
    assert_eq!(table.len(), total);
    assert_eq!(table.is_empty(), total == 0);
}
