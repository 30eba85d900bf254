use mars_mesh::descriptor::Descriptor;
use mars_mesh::hash::schema_hash;
use mars_mesh::identity::Keypair;
use mars_mesh::message::{FilterSet, FindNode, FindValue, NodeAddr, NodeInfo, Ping, Store};
use mars_mesh::node::{verify_sender_binding, DhtConfig, DhtNode};
use mars_mesh::routing::routing_key;
use std::time::{SystemTime, UNIX_EPOCH};

fn make_keypair_and_addr(port: u16) -> (Keypair, NodeAddr) {
    let kp = Keypair::generate();
    let addr = NodeAddr { protocol: "quic".into(), address: format!("127.0.0.1:{port}") };
    (kp, addr)
}

fn make_node(port: u16) -> DhtNode {
    let (kp, addr) = make_keypair_and_addr(port);
    DhtNode::new(kp, addr, DhtConfig::default())
}

fn now_micros() -> u64 {
    SystemTime::now().duration_since(UNIX_EPOCH).unwrap().as_micros() as u64
}

#[test]
fn sender_binding_match() {
    let kp = Keypair::generate();
    let id = kp.identity();
    assert!(verify_sender_binding(&id, &Some(id.clone())).is_ok());
}

#[test]
fn sender_binding_mismatch() {
    let id_a = Keypair::generate().identity();
    let id_b = Keypair::generate().identity();
    let err = verify_sender_binding(&id_a, &Some(id_b)).unwrap_err();
    assert!(err.contains("sender-TLS binding failed"));
}

#[test]
fn sender_binding_no_peer_identity() {
    let id = Keypair::generate().identity();
    let err = verify_sender_binding(&id, &None).unwrap_err();
    assert!(err.contains("no peer identity available"));
}

#[test]
fn sender_binding_messages_name_both_dids() {
    let id_a = Keypair::generate().identity();
    let id_b = Keypair::generate().identity();
    let err = verify_sender_binding(&id_a, &Some(id_b.clone())).unwrap_err();
    assert_eq!(err, format!("sender-TLS binding failed: message claims {} but TLS cert is {}", id_a.did(), id_b.did()));
    let err = verify_sender_binding(&id_a, &None).unwrap_err();
    assert_eq!(err, format!("sender-TLS binding failed: no peer identity available for sender {}", id_a.did()));
}

#[test]
fn handle_ping() {
    let mut node = make_node(4433);
    let sender_kp = Keypair::generate();
    let ping = Ping { sender: sender_kp.identity(), sender_addr: NodeAddr { protocol: "quic".into(), address: "10.0.0.1:4433".into() } };

    let pong = node.handle_ping(&ping);
    assert_eq!(pong.sender, node.identity().clone());
    assert_eq!(pong.observed_addr, ping.sender_addr);

    assert_eq!(node.routing_table.len(), 1);
}

#[test]
fn handle_store_valid() {
    let mut node = make_node(4433);
    let kp = Keypair::generate();
    let now = now_micros();
    let desc = Descriptor::create(&kp, schema_hash("core/capability"), "topic".into(), b"payload".to_vec(), now, 1, 3600, vec![routing_key("compute")])
        .unwrap();

    let store = Store { sender: kp.identity(), sender_addr: NodeAddr { protocol: "quic".into(), address: "10.0.0.99:4433".into() }, descriptor: desc };

    let ack = node.handle_store(&store);
    assert!(ack.stored);
    assert!(ack.reason.is_none());
}

#[test]
fn handle_store_invalid() {
    let mut node = make_node(4433);
    let kp = Keypair::generate();
    let now = now_micros();
    let mut desc = Descriptor::create(&kp, schema_hash("core/capability"), "topic".into(), b"payload".to_vec(), now, 1, 3600, vec![routing_key("compute")])
        .unwrap();
    desc.payload = b"tampered".to_vec();

    let store = Store { sender: kp.identity(), sender_addr: NodeAddr { protocol: "quic".into(), address: "10.0.0.99:4433".into() }, descriptor: desc };

    let ack = node.handle_store(&store);
    assert!(!ack.stored);
    assert!(ack.reason.is_some());
    assert!(ack.reason.unwrap().starts_with("descriptor validation failed: descriptor id mismatch"));
}

#[test]
fn handle_find_node() {
    let mut node = make_node(4433);

    for i in 0..5 {
        let kp = Keypair::generate();
        node.routing_table.add_node(NodeInfo {
            identity: kp.identity(),
            addr: NodeAddr { protocol: "quic".into(), address: format!("10.0.0.{i}:4433") },
            last_seen: now_micros(),
        });
    }

    let sender = Keypair::generate();
    let find = FindNode {
        sender: sender.identity(),
        sender_addr: NodeAddr { protocol: "quic".into(), address: "10.0.0.99:4433".into() },
        target: mars_mesh::hash::Hash::blake3(b"some target"),
    };

    let result = node.handle_find_node(&find);
    assert_eq!(result.nodes.len(), 7);
}

#[test]
fn handle_find_value_with_descriptors() {
    let mut node = make_node(4433);
    let kp = Keypair::generate();
    let rk = routing_key("compute");
    let now = now_micros();

    let desc = Descriptor::create(&kp, schema_hash("core/capability"), "topic".into(), b"payload".to_vec(), now, 1, 3600, vec![rk.clone()]).unwrap();

    node.store.store_descriptor(desc).unwrap();

    let sender = Keypair::generate();
    let find = FindValue {
        sender: sender.identity(),
        sender_addr: NodeAddr { protocol: "quic".into(), address: "10.0.0.99:4433".into() },
        key: rk,
        max_results: 20,
        filters: None,
    };

    let result = node.handle_find_value(&find);
    assert!(result.descriptors.is_some());
    assert!(result.nodes.is_none());
    assert_eq!(result.descriptors.unwrap().len(), 1);
}

#[test]
fn handle_find_value_without_descriptors() {
    let mut node = make_node(4433);

    for i in 0..3 {
        let kp = Keypair::generate();
        node.routing_table.add_node(NodeInfo {
            identity: kp.identity(),
            addr: NodeAddr { protocol: "quic".into(), address: format!("10.0.0.{i}:4433") },
            last_seen: now_micros(),
        });
    }

    let sender = Keypair::generate();
    let find = FindValue {
        sender: sender.identity(),
        sender_addr: NodeAddr { protocol: "quic".into(), address: "10.0.0.99:4433".into() },
        key: routing_key("nonexistent"),
        max_results: 20,
        filters: None,
    };

    let result = node.handle_find_value(&find);
    assert!(result.descriptors.is_none());
    assert!(result.nodes.is_some());
    assert_eq!(result.nodes.unwrap().len(), 4);
}

#[test]
fn handle_find_value_with_filters() {
    let mut node = make_node(4433);
    let kp1 = Keypair::generate();
    let kp2 = Keypair::generate();
    let rk = routing_key("compute");
    let now = now_micros();

    for kp in [&kp1, &kp2] {
        let desc = Descriptor::create(kp, schema_hash("core/capability"), "topic".into(), b"payload".to_vec(), now, 1, 3600, vec![rk.clone()]).unwrap();
        node.store.store_descriptor(desc).unwrap();
    }

    let sender = Keypair::generate();
    let find = FindValue {
        sender: sender.identity(),
        sender_addr: NodeAddr { protocol: "quic".into(), address: "10.0.0.99:4433".into() },
        key: rk,
        max_results: 20,
        filters: Some(FilterSet { publisher: Some(kp1.identity()), ..Default::default() }),
    };

    let result = node.handle_find_value(&find);
    let descs = result.descriptors.unwrap();
    assert_eq!(descs.len(), 1);
    assert_eq!(descs[0].publisher, kp1.identity());
}

#[test]
fn find_value_results_are_capped() {
    let mut node = make_node(4433);
    let rk = routing_key("many");
    let now = now_micros();
    for i in 0..5u64 {
        let kp = Keypair::generate();
        let desc = Descriptor::create(&kp, schema_hash("core/capability"), format!("t{i}"), b"p".to_vec(), now, 1, 3600, vec![rk.clone()]).unwrap();
        node.store.store_descriptor(desc).unwrap();
    }
    let sender = Keypair::generate();
    let find = FindValue {
        sender: sender.identity(),
        sender_addr: NodeAddr { protocol: "quic".into(), address: "10.0.0.99:4433".into() },
        key: rk,
        max_results: 2,
        filters: None,
    };
    let result = node.handle_find_value(&find);
    assert_eq!(result.descriptors.unwrap().len(), 2);
}

#[test]
fn find_node_does_not_add_self_twice() {
    let mut node = make_node(4433);
    let find = FindNode {
        sender: node.identity().clone(),
        sender_addr: node.addr().clone(),
        target: mars_mesh::hash::Hash::blake3(b"t"),
    };
    // A request claiming to come from the node itself adds nothing to the
    // table; the answer holds the node's own record once.
    let result = node.handle_find_node(&find);
    assert_eq!(result.nodes.len(), 1);
    assert_eq!(result.nodes[0].identity, *node.identity());
}

#[test]
fn request_builders_carry_identity() {
    let node = make_node(4433);
    let key = routing_key("k");
    let fv = node.find_value_request(&key);
    assert_eq!(fv.sender, *node.identity());
    assert_eq!(fv.key, key);
    assert_eq!(fv.max_results, 20);
    assert!(fv.filters.is_none());
    let ping = node.ping_request();
    assert_eq!(ping.sender_addr, *node.addr());
}

#[test]
fn test_sender_binding_rejects_mismatch() {
    let kp_a = Keypair::generate();
    let kp_b = Keypair::generate();
    let id_a = kp_a.identity();
    let id_b = kp_b.identity();
    assert!(verify_sender_binding(&id_a, &Some(id_a.clone())).is_ok());
    let err = verify_sender_binding(&id_a, &Some(id_b)).unwrap_err();
    assert!(err.contains("sender-TLS binding failed"), "should mention binding failure: {err}");
    let err = verify_sender_binding(&id_a, &None).unwrap_err();
    assert!(err.contains("no peer identity"), "should mention missing peer identity: {err}");
}

struct RefusingHook;

impl mars_mesh::hooks::ProtocolHook for RefusingHook {
    fn pre_store(&self, _descriptor: &Descriptor) -> Result<(), String> {
        Err("store refused by policy".to_string())
    }

    fn pre_query(&self, _routing_key: &mars_mesh::hash::Hash) -> Result<(), String> {
        Err("query refused by policy".to_string())
    }
}

fn store_request(kp: &Keypair, rk: &mars_mesh::hash::Hash) -> Store {
    let desc = Descriptor::create(kp, schema_hash("core/capability"), "topic".into(), b"payload".to_vec(), now_micros(), 1, 3600, vec![rk.clone()])
        .unwrap();
    Store { sender: kp.identity(), sender_addr: NodeAddr { protocol: "quic".into(), address: "10.0.0.99:4433".into() }, descriptor: desc }
}

fn find_value_request(key: &mars_mesh::hash::Hash) -> FindValue {
    FindValue {
        sender: Keypair::generate().identity(),
        sender_addr: NodeAddr { protocol: "quic".into(), address: "10.0.0.98:4433".into() },
        key: key.clone(),
        max_results: 20,
        filters: None,
    }
}

#[test]
fn refusing_hook_reason_reaches_the_ack() {
    let mut node = make_node(4433).with_hooks(Box::new(RefusingHook));
    let kp = Keypair::generate();
    let rk = routing_key("compute");
    let ack = node.handle_store(&store_request(&kp, &rk));
    assert!(!ack.stored);
    assert_eq!(ack.reason.as_deref(), Some("store refused by policy"));
    assert_eq!(node.store.descriptor_count(), 0);
    // The sender is still recorded.
    assert_eq!(node.routing_table.len(), 1);
}

#[test]
fn refusing_hook_answers_queries_with_nothing() {
    let mut node = make_node(4433).with_hooks(Box::new(RefusingHook));
    let kp = Keypair::generate();
    let rk = routing_key("compute");
    node.store.store_descriptor(store_request(&kp, &rk).descriptor).unwrap();
    let result = node.handle_find_value(&find_value_request(&rk));
    assert!(result.descriptors.is_none());
    assert!(result.nodes.is_none());
}

#[test]
fn no_op_hook_admits_as_without_hooks() {
    let mut node = make_node(4433).with_hooks(Box::new(mars_mesh::hooks::NoOpHook));
    let kp = Keypair::generate();
    let rk = routing_key("compute");
    let ack = node.handle_store(&store_request(&kp, &rk));
    assert!(ack.stored);
    assert!(ack.reason.is_none());
    let result = node.handle_find_value(&find_value_request(&rk));
    assert_eq!(result.descriptors.unwrap().len(), 1);
}

#[test]
fn store_answer_follows_the_verdict() {
    let mut node = make_node(4433);
    let kp = Keypair::generate();
    let rk = routing_key("compute");
    let req = store_request(&kp, &rk);
    let refused = node.store_answer(&req, Err("quota exhausted".to_string()));
    assert!(!refused.stored);
    assert_eq!(refused.reason.as_deref(), Some("quota exhausted"));
    assert_eq!(node.store.descriptor_count(), 0);
    let admitted = node.store_answer(&req, Ok(()));
    assert!(admitted.stored);
    assert!(admitted.reason.is_none());
    assert_eq!(node.store.descriptor_count(), 1);
    // Storing is not recording the sender.
    assert_eq!(node.routing_table.len(), 0);
}

#[test]
fn find_value_answer_follows_the_verdict() {
    let mut node = make_node(4433);
    let kp = Keypair::generate();
    let rk = routing_key("compute");
    node.store.store_descriptor(store_request(&kp, &rk).descriptor).unwrap();
    let fv = find_value_request(&rk);
    let refused = node.find_value_answer(&fv, Err("no".to_string()));
    assert!(refused.descriptors.is_none() && refused.nodes.is_none());
    let admitted = node.find_value_answer(&fv, Ok(()));
    assert_eq!(admitted.descriptors.unwrap().len(), 1);
    assert!(admitted.nodes.is_none());
    let missing = node.find_value_answer(&find_value_request(&routing_key("other")), Ok(()));
    assert!(missing.descriptors.is_none());
    assert_eq!(missing.nodes.unwrap().len(), 0);
}

#[test]
fn peer_hub_store_skips_hooks_and_rate_limit() {
    let mut node = make_node(4433).with_hooks(Box::new(RefusingHook));
    let kp = Keypair::generate();
    let now = now_micros();
    for i in 0..12u64 {
        let desc = Descriptor::create(&kp, schema_hash("core/capability"), format!("t{i}"), b"p".to_vec(), now, 1, 3600, vec![routing_key("compute")])
            .unwrap();
        let req = Store { sender: kp.identity(), sender_addr: NodeAddr { protocol: "quic".into(), address: "10.0.0.99:4433".into() }, descriptor: desc };
        let ack = node.store_from_peer_hub(&req);
        assert!(ack.stored, "peer hub STORE {i} should be kept");
    }
    assert_eq!(node.store.descriptor_count(), 12);
    assert_eq!(node.routing_table.len(), 0);
}
