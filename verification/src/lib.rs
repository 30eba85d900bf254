//! Capability mesh protocol core: wire types, hashing, identity, framing,
//! Kademlia routing, descriptor storage and hub policy, with their
//! contracts proved by Verus.

pub mod peering;
pub mod policy;
pub mod primitives;
pub mod rate_limit;
pub mod text;
pub mod assoc;
pub mod auth;
pub mod bytes;
pub mod cbor;
pub mod config;
pub mod hash;
pub mod daemon;
pub mod descriptor;
pub mod distance;
pub mod error;
pub mod frame;
pub mod hooks;
pub mod identity;
pub mod index_keys;
pub mod lookup;
pub mod message;
pub mod network;
pub mod node;
pub mod routing;
pub mod routing_table;
pub mod schema;
pub mod storage;
pub mod tenant;
