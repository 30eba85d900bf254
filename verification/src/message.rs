//! Protocol messages: the request and response bodies of the eight message
//! types, and the node information they carry.

use vstd::prelude::*;
use crate::descriptor::Descriptor;
use crate::identity::Identity;

verus! {

/// A node's network address.
#[derive(Debug)]
pub struct NodeAddr {
    /// Protocol (e.g., "quic").
    pub protocol: String,
    /// Address string (e.g., "198.51.100.42:4433").
    pub address: String,
}

impl View for NodeAddr {
    type V = (Seq<char>, Seq<char>);

    open spec fn view(&self) -> (Seq<char>, Seq<char>) {
        (self.protocol@, self.address@)
    }
}

impl Clone for NodeAddr {
    fn clone(&self) -> (res: Self)
        ensures
            res@ == self@,
    {
        NodeAddr { protocol: self.protocol.clone(), address: self.address.clone() }
    }
}

impl PartialEq for NodeAddr {
    fn eq(&self, other: &Self) -> (res: bool) {
        self.protocol == other.protocol && self.address == other.address
    }
}

impl vstd::std_specs::cmp::PartialEqSpecImpl for NodeAddr {
    open spec fn obeys_eq_spec() -> bool {
        true
    }

    open spec fn eq_spec(&self, other: &Self) -> bool {
        self@ == other@
    }
}

impl Eq for NodeAddr {}

/// Information about a known node.
#[derive(Debug)]
pub struct NodeInfo {
    /// The node's public identity.
    pub identity: Identity,
    /// The node's network address.
    pub addr: NodeAddr,
    /// Timestamp of last successful contact (microseconds since epoch).
    pub last_seen: u64,
}

/// The value of a node record.
pub struct NodeInfoModel {
    pub identity: (u8, Seq<u8>),
    pub addr: (Seq<char>, Seq<char>),
    pub last_seen: u64,
}

impl View for NodeInfo {
    type V = NodeInfoModel;

    open spec fn view(&self) -> NodeInfoModel {
        NodeInfoModel { identity: self.identity@, addr: self.addr@, last_seen: self.last_seen }
    }
}

impl Clone for NodeInfo {
    fn clone(&self) -> (res: Self)
        ensures
            res@ == self@,
    {
        NodeInfo { identity: self.identity.clone(), addr: self.addr.clone(), last_seen: self.last_seen }
    }
}

/// Optional filters for FIND_VALUE requests.
#[derive(Debug)]
pub struct FilterSet {
    /// Only return descriptors with this schema hash.
    pub schema_hash: Option<crate::hash::Hash>,
    /// Only return descriptors with at least this timestamp.
    pub min_timestamp: Option<u64>,
    /// Only return descriptors from this publisher.
    pub publisher: Option<Identity>,
}

/// The value of a filter set.
pub struct FilterModel {
    pub schema_hash: Option<(u8, Seq<u8>)>,
    pub min_timestamp: Option<u64>,
    pub publisher: Option<(u8, Seq<u8>)>,
}

impl View for FilterSet {
    type V = FilterModel;

    open spec fn view(&self) -> FilterModel {
        FilterModel {
            schema_hash: match self.schema_hash {
                Some(h) => Some(h@),
                None => None,
            },
            min_timestamp: self.min_timestamp,
            publisher: match self.publisher {
                Some(p) => Some(p@),
                None => None,
            },
        }
    }
}

impl Default for FilterSet {
    fn default() -> (res: Self)
        ensures
            res.schema_hash is None,
            res.min_timestamp is None,
            res.publisher is None,
    {
        FilterSet { schema_hash: None, min_timestamp: None, publisher: None }
    }
}

/// PING message (0x01): liveness check.
#[derive(Debug)]
pub struct Ping {
    /// Sender's identity.
    pub sender: Identity,
    /// Sender's QUIC endpoint.
    pub sender_addr: NodeAddr,
}

/// STORE message (0x02): store a descriptor.
#[derive(Debug)]
pub struct Store {
    /// Sender's identity.
    pub sender: Identity,
    /// Sender's QUIC endpoint.
    pub sender_addr: NodeAddr,
    /// The descriptor to store.
    pub descriptor: Descriptor,
}

/// FIND_NODE message (0x03): find nodes closest to a key.
#[derive(Debug)]
pub struct FindNode {
    /// Sender's identity.
    pub sender: Identity,
    /// Sender's QUIC endpoint.
    pub sender_addr: NodeAddr,
    /// The DHT key to find nodes near.
    pub target: crate::hash::Hash,
}

/// FIND_VALUE message (0x04): find descriptors at a key.
#[derive(Debug)]
pub struct FindValue {
    /// Sender's identity.
    pub sender: Identity,
    /// Sender's QUIC endpoint.
    pub sender_addr: NodeAddr,
    /// The routing key to search for.
    pub key: crate::hash::Hash,
    /// Max descriptors to return (default 20).
    pub max_results: u16,
    /// Optional payload-level filters.
    pub filters: Option<FilterSet>,
}

/// PONG message (0x81): liveness confirmation.
#[derive(Debug)]
pub struct Pong {
    /// Responder's identity.
    pub sender: Identity,
    /// Responder's QUIC endpoint.
    pub sender_addr: NodeAddr,
    /// What the sender's address looks like from our side.
    pub observed_addr: NodeAddr,
}

/// STORE_ACK message (0x82): acknowledge storage.
#[derive(Debug)]
pub struct StoreAck {
    /// Whether the node accepted the descriptor.
    pub stored: bool,
    /// If not stored, why.
    pub reason: Option<String>,
}

/// FIND_NODE_RESULT message (0x83): the closest nodes.
#[derive(Debug)]
pub struct FindNodeResult {
    /// Up to K closest nodes.
    pub nodes: Vec<NodeInfo>,
}

/// FIND_VALUE_RESULT message (0x84): descriptors or closer nodes.
#[derive(Debug)]
pub struct FindValueResult {
    /// Matching descriptors (if this node has them).
    pub descriptors: Option<Vec<Descriptor>>,
    /// Closest nodes (if this node doesn't have matching descriptors).
    pub nodes: Option<Vec<NodeInfo>>,
}

} // verus!
