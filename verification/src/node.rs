//! The DHT node: its identity, routing table, descriptor storage and
//! configuration, and how it answers each protocol request.

use vstd::prelude::*;
use crate::descriptor::{Descriptor, DescriptorModel};
use crate::error::concat;
use crate::hooks::ProtocolHook;
use crate::primitives::clock_reading;
use crate::identity::{Identity, Keypair, did_of, node_id_of};
use crate::message::{
    FilterSet, FindNode, FindNodeResult, FindValue, FindValueResult, NodeAddr, NodeInfo, NodeInfoModel, Ping, Pong,
    Store, StoreAck,
};
use crate::routing_table::{
    RoutingTable, K, all_entries, closest_answer, distance_ordering_of, first_records, node_models, sort_by_distance,
    table_after_add,
};
use crate::storage::{
    DescriptorStore, StoreError, descriptor_models, filter_model, read_result, store_error_text, store_outcome, unmetered_outcome,
};

verus! {

/// Check that a message's `sender` is the peer that the TLS handshake
/// authenticated (the sender-TLS binding). It fails when the two differ or
/// when the handshake yielded no peer identity.
pub fn verify_sender_binding(msg_sender: &Identity, peer_identity: &Option<Identity>) -> (res: Result<(), String>)
    ensures
        match peer_identity {
            Some(p) => if msg_sender@ == p@ {
                res is Ok
            } else {
                res matches Err(m) && m@ == "sender-TLS binding failed: message claims "@ + did_of(msg_sender@)
                    + " but TLS cert is "@ + did_of(p@)
            },
            None => res matches Err(m) && m@ == "sender-TLS binding failed: no peer identity available for sender "@
                + did_of(msg_sender@),
        },
{
    match peer_identity {
        Some(peer_id) => {
            if !msg_sender.same_as(peer_id) {
                let claimed = msg_sender.did();
                let actual = peer_id.did();
                let s = concat("sender-TLS binding failed: message claims ".to_owned(), claimed.as_str());
                let s = concat(s, " but TLS cert is ");
                Err(concat(s, actual.as_str()))
            } else {
                Ok(())
            }
        },
        None => {
            let claimed = msg_sender.did();
            Err(concat("sender-TLS binding failed: no peer identity available for sender ".to_owned(), claimed.as_str()))
        },
    }
}

/// Configuration for the Kademlia DHT node.
#[derive(Debug, Clone, Copy)]
pub struct DhtConfig {
    /// Kademlia concurrency parameter (alpha): parallel lookups per iteration.
    pub alpha: usize,
    /// Maximum descriptors to return for a FIND_VALUE response.
    pub max_find_value_results: u16,
}

impl Default for DhtConfig {
    fn default() -> (res: Self)
        ensures
            res.alpha == 3,
            res.max_find_value_results == 20,
    {
        DhtConfig { alpha: 3, max_find_value_results: 20 }
    }
}

/// The record of a node seen at time `t`.
pub open spec fn seen_record(identity: (u8, Seq<u8>), addr: (Seq<char>, Seq<char>), t: u64) -> NodeInfoModel {
    NodeInfoModel { identity, addr, last_seen: t }
}

/// A DHT node: identity, routing table, descriptor storage, and config.
pub struct DhtNode {
    /// This node's keypair.
    keypair: Keypair,
    /// This node's public identity.
    identity: Identity,
    /// This node's DHT ID (BLAKE3 of public key).
    node_id: crate::hash::Hash,
    /// This node's advertised address.
    addr: NodeAddr,
    /// Kademlia routing table.
    pub routing_table: RoutingTable,
    /// Descriptor storage.
    pub store: DescriptorStore,
    /// Configuration.
    pub config: DhtConfig,
    /// Optional protocol hooks for metering, access control, and auditing.
    hooks: Option<Box<dyn ProtocolHook>>,
}

impl DhtNode {
    /// This node's identity.
    pub closed spec fn identity_view(&self) -> (u8, Seq<u8>) {
        self.identity@
    }

    /// This node's address.
    pub closed spec fn addr_view(&self) -> (Seq<char>, Seq<char>) {
        self.addr@
    }

    /// This node's DHT ID.
    pub closed spec fn node_id_view(&self) -> (u8, Seq<u8>) {
        self.node_id@
    }

    /// The routing table.
    pub closed spec fn table(&self) -> RoutingTable {
        self.routing_table
    }

    /// The descriptor store.
    pub closed spec fn storage(&self) -> DescriptorStore {
        self.store
    }

    /// The configuration.
    pub closed spec fn cfg(&self) -> DhtConfig {
        self.config
    }

    /// Whether protocol hooks are attached.
    pub closed spec fn has_hooks(&self) -> bool {
        self.hooks is Some
    }

    /// The node's invariant: the routing table is built around this node's
    /// ID, which is the BLAKE3 of its public key, and table and store keep
    /// their own invariants.
    pub closed spec fn wf(&self) -> bool {
        &&& self.routing_table.wf()
        &&& self.store.wf()
        &&& self.routing_table.local_view() == self.node_id_view()
        &&& self.node_id_view() == node_id_of(self.identity_view())
        &&& self.node_id_view().1.len() == 32
        &&& self.keypair.identity_view() == self.identity_view()
    }

    /// Two states of a node with the same identity, address and hooks.
    pub closed spec fn same_setup(&self, other: &DhtNode) -> bool {
        &&& self.identity_view() == other.identity_view()
        &&& self.addr_view() == other.addr_view()
        &&& self.node_id_view() == other.node_id_view()
        &&& self.has_hooks() == other.has_hooks()
        &&& self.config == other.config
    }

    /// Create a new DHT node with an empty in-memory store.
    pub fn new(keypair: Keypair, addr: NodeAddr, config: DhtConfig) -> (res: DhtNode)
        ensures
            res.wf(),
            res.identity_view() == keypair.identity_view(),
            res.addr_view() == addr@,
            res.cfg() == config,
            !res.has_hooks(),
            all_entries(res.table().buckets_view()).len() == 0,
            res.storage().store_view() == Map::<(u8, Seq<u8>), Seq<DescriptorModel>>::empty(),
    {
        DhtNode::with_store(keypair, addr, config, DescriptorStore::new())
    }

    /// Create a new DHT node around the given store.
    pub fn with_store(keypair: Keypair, addr: NodeAddr, config: DhtConfig, store: DescriptorStore) -> (res: DhtNode)
        requires
            store.wf(),
        ensures
            res.wf(),
            res.identity_view() == keypair.identity_view(),
            res.addr_view() == addr@,
            res.cfg() == config,
            !res.has_hooks(),
            all_entries(res.table().buckets_view()).len() == 0,
            res.storage() == store,
    {
        let identity = keypair.identity();
        let node_id = identity.node_id();
        let routing_table = RoutingTable::new(node_id.clone());
        proof {
            crate::routing_table::lemma_empty_table_has_no_entries(routing_table.buckets_view());
        }
        DhtNode { keypair, identity, node_id, addr, routing_table, store, config, hooks: None }
    }

    /// Attach protocol hooks for metering, access control, or auditing.
    pub fn with_hooks(self, hooks: Box<dyn ProtocolHook>) -> (res: DhtNode)
        ensures
            res.has_hooks(),
            res.identity_view() == self.identity_view(),
            res.addr_view() == self.addr_view(),
            res.node_id_view() == self.node_id_view(),
            res.cfg() == self.cfg(),
            res.table() == self.table(),
            res.storage() == self.storage(),
    {
        let mut node = self;
        node.hooks = Some(hooks);
        node
    }

    /// This node's keypair.
    pub fn keypair(&self) -> (res: &Keypair)
        requires
            self.wf(),
        ensures
            res.identity_view() == self.identity_view(),
    {
        &self.keypair
    }

    /// This node's identity.
    pub fn identity(&self) -> (res: &Identity)
        ensures
            res@ == self.identity_view(),
    {
        &self.identity
    }

    /// This node's DHT ID.
    pub fn node_id(&self) -> (res: &crate::hash::Hash)
        ensures
            res@ == self.node_id_view(),
    {
        &self.node_id
    }

    /// This node's address.
    pub fn addr(&self) -> (res: &NodeAddr)
        ensures
            res@ == self.addr_view(),
    {
        &self.addr
    }

    /// Record that `sender` was just seen at `sender_addr`. When its bucket
    /// is full the known entries stay and the sender is not added: a live
    /// node already seen is trusted over a newcomer until a ping challenge
    /// says otherwise.
    fn update_routing_table(&mut self, sender: &Identity, sender_addr: &NodeAddr)
        requires
            old(self).wf(),
        ensures
            final(self).wf(),
            final(self).same_setup(old(self)),
            final(self).storage() == old(self).storage(),
            exists|t: u64| clock_reading(t) && final(self).table().buckets_view() == table_after_add(
                old(self).table().buckets_view(),
                old(self).node_id_view().1,
                #[trigger] seen_record(sender@, sender_addr@, t),
            ),
    {
        let now = crate::primitives::now_micros();
        let info = NodeInfo { identity: sender.clone(), addr: sender_addr.clone(), last_seen: now };
        assert(info@ == seen_record(sender@, sender_addr@, now));
        let _ = self.routing_table.add_node(info);
    }
}

/// Whether a STORE_ACK reports the outcome `r` of storing.
pub open spec fn ack_reports(ack: StoreAck, r: Result<(), StoreError>) -> bool {
    match r {
        Ok(()) => ack.stored && ack.reason is None,
        Err(e) => !ack.stored && (ack.reason matches Some(m) && m@ == store_error_text(e)),
    }
}

/// The nodes of a FIND_NODE answer: the closest nodes, plus this node's own
/// record when it is not among them and there is room.
pub open spec fn with_self(c: Seq<NodeInfoModel>, me: NodeInfoModel) -> Seq<NodeInfoModel> {
    if (forall|i: int| 0 <= i < c.len() ==> (#[trigger] c[i]).identity != me.identity) && c.len() < K {
        c.push(me)
    } else {
        c
    }
}

/// The filters of a request, as values.
pub open spec fn filters_of(f: Option<FilterSet>) -> Option<crate::message::FilterModel> {
    match f {
        Some(f) => Some(f@),
        None => None,
    }
}

/// The first `n` elements of `s`, or all of them when there are fewer.
pub open spec fn at_most<A>(s: Seq<A>, n: nat) -> Seq<A> {
    if n < s.len() { s.take(n as int) } else { s }
}

/// The smaller of the requested and the configured result limits.
pub open spec fn result_cap(requested: u16, configured: u16) -> nat {
    if requested < configured { requested as nat } else { configured as nat }
}

/// What a STORE is answered once the hooks gave `verdict`, with the store
/// going from `before` to `after`: a refusal is reported with the hooks'
/// reason and nothing is stored; an admitted descriptor is stored and the
/// outcome reported.
pub open spec fn store_answer_holds(
    before: DescriptorStore,
    after: DescriptorStore,
    d: crate::descriptor::DescriptorModel,
    verdict: Result<(), String>,
    res: StoreAck,
) -> bool {
    match verdict {
        Err(r) => res == (StoreAck { stored: false, reason: Some(r) }) && after == before,
        Ok(()) => exists|now: u64, out: Result<(), StoreError>| clock_reading(now) && #[trigger] store_outcome(
            before.store_view(), before.sequence_view(), before.rate_view(),
            after.store_view(), after.sequence_view(), after.rate_view(),
            d, now, out,
        ) && ack_reports(res, out),
    }
}

/// What a FIND_VALUE is answered once the hooks gave `verdict`, from
/// `store`, the routing table `buckets` and the configuration `cfg`: a
/// refusal gets neither descriptors nor nodes; an admitted query gets the
/// matching descriptors (at most the smaller of the requested and
/// configured limits), or the K closest nodes when there are none.
pub open spec fn find_value_answer_holds(
    store: DescriptorStore,
    buckets: Seq<Seq<NodeInfoModel>>,
    cfg: DhtConfig,
    find_value: FindValue,
    verdict: Result<(), String>,
    res: FindValueResult,
) -> bool {
    match verdict {
        Err(_) => res.descriptors is None && res.nodes is None,
        Ok(()) => exists|now: u64| clock_reading(now) && {
            let found = #[trigger] read_result(store.store_view(), find_value.key@, filters_of(find_value.filters), now);
            &&& found.len() == 0 ==> res.descriptors is None && (res.nodes matches Some(ns)
                && closest_answer(find_value.key.digest@, buckets, K as nat, node_models(ns@)))
            &&& found.len() > 0 ==> res.nodes is None && (res.descriptors matches Some(ds)
                && descriptor_models(ds@) == at_most(found, result_cap(find_value.max_results, cfg.max_find_value_results)))
        },
    }
}

impl DhtNode {
    /// Answer a PING: record the sender, and reply with this node's identity
    /// and address and the address the sender was seen at.
    pub fn handle_ping(&mut self, ping: &Ping) -> (res: Pong)
        requires
            old(self).wf(),
        ensures
            final(self).wf(),
            final(self).same_setup(old(self)),
            final(self).storage() == old(self).storage(),
            exists|t: u64| clock_reading(t) && final(self).table().buckets_view() == table_after_add(
                old(self).table().buckets_view(),
                old(self).node_id_view().1,
                #[trigger] seen_record(ping.sender@, ping.sender_addr@, t),
            ),
            res.sender@ == old(self).identity_view(),
            res.sender_addr@ == old(self).addr_view(),
            res.observed_addr@ == ping.sender_addr@,
    {
        self.update_routing_table(&ping.sender, &ping.sender_addr);
        Pong { sender: self.identity.clone(), sender_addr: self.addr.clone(), observed_addr: ping.sender_addr.clone() }
    }

    /// Answer a STORE: record the sender, let the hooks veto, store the
    /// descriptor, and report whether it was stored and, if not, why. The
    /// hooks' `post_store` runs when the descriptor was stored.
    pub fn handle_store(&mut self, store_req: &Store) -> (res: StoreAck)
        requires
            old(self).wf(),
        ensures
            final(self).wf(),
            final(self).same_setup(old(self)),
            exists|t: u64| clock_reading(t) && final(self).table().buckets_view() == table_after_add(
                old(self).table().buckets_view(),
                old(self).node_id_view().1,
                #[trigger] seen_record(store_req.sender@, store_req.sender_addr@, t),
            ),
            !old(self).has_hooks() ==> store_answer_holds(old(self).storage(), final(self).storage(),
                store_req.descriptor@, Ok(()), res),
            exists|verdict: Result<(), String>| #[trigger] store_answer_holds(old(self).storage(), final(self).storage(),
                store_req.descriptor@, verdict, res),
    {
        self.update_routing_table(&store_req.sender, &store_req.sender_addr);
        let verdict = match &self.hooks {
            Some(hooks) => hooks.pre_store(&store_req.descriptor),
            None => Ok(()),
        };
        let ack = self.store_answer(store_req, verdict);
        if ack.stored {
            match &self.hooks {
                Some(hooks) => hooks.post_store(&store_req.descriptor),
                None => {},
            }
        }
        ack
    }

    /// Answer a STORE once the hooks gave `verdict` (`Ok` when there are
    /// none): a refusal is reported with its reason and nothing is stored;
    /// otherwise the descriptor is stored and the outcome reported.
    pub fn store_answer(&mut self, store_req: &Store, verdict: Result<(), String>) -> (res: StoreAck)
        requires
            old(self).wf(),
        ensures
            final(self).wf(),
            final(self).same_setup(old(self)),
            final(self).table() == old(self).table(),
            store_answer_holds(old(self).storage(), final(self).storage(), store_req.descriptor@, verdict, res),
    {
        match verdict {
            Err(reason) => {
                return StoreAck { stored: false, reason: Some(reason) };
            },
            Ok(()) => {},
        }
        let ghost before = self.store;
        let r = self.store.store_descriptor(store_req.descriptor.clone());
        let ghost now = choose|now: u64| clock_reading(now) && store_outcome(
            before.store_view(), before.sequence_view(), before.rate_view(),
            self.store.store_view(), self.store.sequence_view(), self.store.rate_view(),
            store_req.descriptor@, now, r,
        );
        let ack = match r {
            Ok(()) => StoreAck { stored: true, reason: None },
            Err(e) => StoreAck { stored: false, reason: Some(e.message()) },
        };
        assert(store_outcome(
            old(self).storage().store_view(), old(self).storage().sequence_view(), old(self).storage().rate_view(),
            self.storage().store_view(), self.storage().sequence_view(), self.storage().rate_view(),
            store_req.descriptor@, now, r,
        ) && ack_reports(ack, r));
        ack
    }

    /// Answer a STORE from a peer hub: the descriptor is stored without the
    /// hooks and without the publisher's rate limit, the sender is not
    /// recorded, and the outcome is reported.
    pub fn store_from_peer_hub(&mut self, store_req: &Store) -> (res: StoreAck)
        requires
            old(self).wf(),
        ensures
            final(self).wf(),
            final(self).same_setup(old(self)),
            final(self).table() == old(self).table(),
            final(self).storage().rate_view() == old(self).storage().rate_view(),
            exists|now: u64, out: Result<(), StoreError>| clock_reading(now) && #[trigger] unmetered_outcome(
                old(self).storage().store_view(), old(self).storage().sequence_view(),
                final(self).storage().store_view(), final(self).storage().sequence_view(),
                store_req.descriptor@, now, out,
            ) && ack_reports(res, out),
    {
        let ghost before = self.store;
        let r = self.store.store_descriptor_unmetered(store_req.descriptor.clone());
        let ghost now = choose|now: u64| clock_reading(now) && unmetered_outcome(
            before.store_view(), before.sequence_view(),
            self.store.store_view(), self.store.sequence_view(),
            store_req.descriptor@, now, r,
        );
        let ack = match r {
            Ok(()) => StoreAck { stored: true, reason: None },
            Err(e) => StoreAck { stored: false, reason: Some(e.message()) },
        };
        assert(unmetered_outcome(
            old(self).storage().store_view(), old(self).storage().sequence_view(),
            self.storage().store_view(), self.storage().sequence_view(),
            store_req.descriptor@, now, r,
        ) && ack_reports(ack, r));
        ack
    }

    /// Answer a FIND_NODE: record the sender, and return the K nodes closest
    /// to the target, with this node's own record added when it is not among
    /// them and there is room.
    pub fn handle_find_node(&mut self, find_node: &FindNode) -> (res: FindNodeResult)
        requires
            old(self).wf(),
            find_node.target.digest@.len() == 32,
        ensures
            final(self).wf(),
            final(self).same_setup(old(self)),
            final(self).storage() == old(self).storage(),
            exists|t: u64| clock_reading(t) && final(self).table().buckets_view() == table_after_add(
                old(self).table().buckets_view(),
                old(self).node_id_view().1,
                #[trigger] seen_record(find_node.sender@, find_node.sender_addr@, t),
            ),
            exists|c: Seq<NodeInfoModel>, t: u64| clock_reading(t) &&
                closest_answer(find_node.target.digest@, final(self).table().buckets_view(), K as nat, c)
                && node_models(res.nodes@) == #[trigger] with_self(c, seen_record(old(self).identity_view(), old(self).addr_view(), t)),
    {
        self.update_routing_table(&find_node.sender, &find_node.sender_addr);
        let mut nodes = self.routing_table.closest_nodes(&find_node.target, K);
        let ghost c = node_models(nodes@);
        let now = crate::primitives::now_micros();
        let self_info = NodeInfo { identity: self.identity.clone(), addr: self.addr.clone(), last_seen: now };
        let ghost me = seen_record(self.identity@, self.addr@, now);
        assert(self_info@ == me);
        let mut present = false;
        let mut i: usize = 0;
        while i < nodes.len()
            invariant
                i <= nodes@.len(),
                c == node_models(nodes@),
                me.identity == self.identity@,
                present <==> exists|j: int| 0 <= j < i && (#[trigger] c[j]).identity == me.identity,
            decreases nodes.len() - i,
        {
            assert(c[i as int] == nodes@[i as int]@);
            if nodes[i].identity.same_as(&self.identity) {
                assert(c[i as int].identity == me.identity);
                present = true;
            } else {
                assert(c[i as int].identity != me.identity);
            }
            i = i + 1;
        }
        if !present && nodes.len() < K {
            nodes.push(self_info);
            assert(node_models(nodes@) =~= c.push(me));
        }
        assert(node_models(nodes@) == with_self(c, me));
        FindNodeResult { nodes }
    }

    /// Answer a FIND_VALUE: record the sender, let the hooks veto, and return
    /// the matching descriptors (at most the smaller of the requested and
    /// configured limits), or the K closest nodes when there are none. The
    /// hooks' `post_query` sees the number of descriptors returned.
    pub fn handle_find_value(&mut self, find_value: &FindValue) -> (res: FindValueResult)
        requires
            old(self).wf(),
            find_value.key.digest@.len() == 32,
        ensures
            final(self).wf(),
            final(self).same_setup(old(self)),
            final(self).storage() == old(self).storage(),
            exists|t: u64| clock_reading(t) && final(self).table().buckets_view() == table_after_add(
                old(self).table().buckets_view(),
                old(self).node_id_view().1,
                #[trigger] seen_record(find_value.sender@, find_value.sender_addr@, t),
            ),
            !old(self).has_hooks() ==> find_value_answer_holds(old(self).storage(), final(self).table().buckets_view(),
                old(self).cfg(), *find_value, Ok(()), res),
            exists|verdict: Result<(), String>| #[trigger] find_value_answer_holds(old(self).storage(),
                final(self).table().buckets_view(), old(self).cfg(), *find_value, verdict, res),
    {
        self.update_routing_table(&find_value.sender, &find_value.sender_addr);
        let verdict = match &self.hooks {
            Some(hooks) => hooks.pre_query(&find_value.key),
            None => Ok(()),
        };
        let result = self.find_value_answer(find_value, verdict);
        assert(self.cfg() == old(self).cfg());
        assert(find_value_answer_holds(old(self).storage(), self.table().buckets_view(), old(self).cfg(),
            *find_value, verdict, result));
        match &self.hooks {
            Some(hooks) => {
                let count = match &result.descriptors {
                    Some(d) => d.len(),
                    None => 0,
                };
                hooks.post_query(&find_value.key, count);
            },
            None => {},
        }
        result
    }

    /// Answer a FIND_VALUE once the hooks gave `verdict` (`Ok` when there
    /// are none): a refusal gets neither descriptors nor nodes; otherwise
    /// the matching descriptors, capped, or the K closest nodes.
    pub fn find_value_answer(&self, find_value: &FindValue, verdict: Result<(), String>) -> (res: FindValueResult)
        requires
            self.wf(),
            find_value.key.digest@.len() == 32,
        ensures
            find_value_answer_holds(self.storage(), self.table().buckets_view(), self.cfg(), *find_value, verdict, res),
    {
        match verdict {
            Err(_) => {
                return FindValueResult { descriptors: None, nodes: None };
            },
            Ok(()) => {},
        }
        let filters: Option<&FilterSet> = match &find_value.filters {
            Some(f) => Some(f),
            None => None,
        };
        assert(filter_model(filters) == filters_of(find_value.filters));
        let mut descriptors = self.store.get_descriptors(&find_value.key, filters);
        let ghost now = choose|now: u64| clock_reading(now) && #[trigger] read_result(self.store.store_view(), find_value.key@, filter_model(filters), now)
            == descriptor_models(descriptors@);
        let ghost found = descriptor_models(descriptors@);
        if descriptors.len() == 0 {
            let nodes = self.routing_table.closest_nodes(&find_value.key, K);
            FindValueResult { descriptors: None, nodes: Some(nodes) }
        } else {
            let requested = find_value.max_results as usize;
            let configured = self.config.max_find_value_results as usize;
            let max = if requested < configured { requested } else { configured };
            if descriptors.len() > max {
                descriptors.truncate(max);
            }
            assert(descriptor_models(descriptors@) =~= at_most(found,
                result_cap(find_value.max_results, self.config.max_find_value_results)));
            FindValueResult { descriptors: Some(descriptors), nodes: None }
        }
    }
}

impl DhtNode {
    /// A PING from this node.
    pub fn ping_request(&self) -> (res: Ping)
        ensures
            res.sender@ == self.identity_view(),
            res.sender_addr@ == self.addr_view(),
    {
        Ping { sender: self.identity.clone(), sender_addr: self.addr.clone() }
    }

    /// A FIND_NODE from this node for `target`.
    pub fn find_node_request(&self, target: &crate::hash::Hash) -> (res: FindNode)
        ensures
            res.sender@ == self.identity_view(),
            res.sender_addr@ == self.addr_view(),
            res.target@ == target@,
    {
        FindNode { sender: self.identity.clone(), sender_addr: self.addr.clone(), target: target.clone() }
    }

    /// A FIND_VALUE from this node for `key`, without filters, asking for
    /// the configured maximum of results.
    pub fn find_value_request(&self, key: &crate::hash::Hash) -> (res: FindValue)
        ensures
            res.sender@ == self.identity_view(),
            res.sender_addr@ == self.addr_view(),
            res.key@ == key@,
            res.max_results == self.cfg().max_find_value_results,
            res.filters is None,
    {
        FindValue {
            sender: self.identity.clone(),
            sender_addr: self.addr.clone(),
            key: key.clone(),
            max_results: self.config.max_find_value_results,
            filters: None,
        }
    }

    /// A STORE of `descriptor` from this node.
    pub fn store_request(&self, descriptor: &Descriptor) -> (res: Store)
        ensures
            res.sender@ == self.identity_view(),
            res.sender_addr@ == self.addr_view(),
            res.descriptor@ == descriptor@,
    {
        Store { sender: self.identity.clone(), sender_addr: self.addr.clone(), descriptor: descriptor.clone() }
    }

    /// Whether `node` is this node itself (by node ID).
    pub fn is_self(&self, node: &NodeInfo) -> (res: bool)
        ensures
            res == (node_id_of(node.identity@) == self.node_id_view()),
    {
        node.identity.node_id().same_as(&self.node_id)
    }
}

/// The STORE targets for `routing_key`: the candidates in order of distance
/// to the key, the K closest kept.
pub fn closest_store_targets(routing_key: &crate::hash::Hash, candidates: &Vec<NodeInfo>) -> (res: Vec<NodeInfo>)
    requires
        routing_key.digest@.len() == 32,
    ensures
        exists|p: Seq<NodeInfoModel>| distance_ordering_of(routing_key.digest@, node_models(candidates@), p)
            && node_models(res@) == #[trigger] first_records(p, K as nat),
{
    let mut sorted = sort_by_distance(routing_key, candidates);
    let ghost p = node_models(sorted@);
    sorted.truncate(K);
    assert(node_models(sorted@) =~= first_records(p, K as nat));
    sorted
}

/// Add `node` to the STORE targets unless a target with its node ID is
/// there already.
pub fn add_store_target(targets: &mut Vec<NodeInfo>, node: NodeInfo)
    ensures
        (exists|i: int| 0 <= i < old(targets)@.len() && node_id_of((#[trigger] old(targets)@[i])@.identity) == node_id_of(node@.identity))
            ==> node_models(final(targets)@) == node_models(old(targets)@),
        !(exists|i: int| 0 <= i < old(targets)@.len() && node_id_of((#[trigger] old(targets)@[i])@.identity) == node_id_of(node@.identity))
            ==> node_models(final(targets)@) == node_models(old(targets)@).push(node@),
{
    let nid = node.identity.node_id();
    let mut i: usize = 0;
    while i < targets.len()
        invariant
            i <= targets@.len(),
            targets@ == old(targets)@,
            nid@ == node_id_of(node@.identity),
            forall|k: int| 0 <= k < i ==> node_id_of((#[trigger] targets@[k])@.identity) != nid@,
        decreases targets.len() - i,
    {
        if targets[i].identity.node_id().same_as(&nid) {
            return;
        }
        i = i + 1;
    }
    let ghost before = targets@;
    targets.push(node);
    assert(node_models(targets@) =~= node_models(before).push(node@));
}

} // verus!
