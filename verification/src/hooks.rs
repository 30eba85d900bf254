//! Protocol hooks: a way for embedders to add metering, access control and
//! audit logging to the DHT's request handling.

use vstd::prelude::*;
use crate::descriptor::Descriptor;

verus! {

/// Hook trait for intercepting DHT protocol operations.
///
/// Every method has a default that allows everything and records nothing;
/// implement only the hooks you need.
pub trait ProtocolHook: Send + Sync {
    /// Called before storing a descriptor. Return `Err` to reject it.
    fn pre_store(&self, descriptor: &Descriptor) -> (res: Result<(), String>)
        default_ensures
            res is Ok,
    {
        Ok(())
    }

    /// Called after a descriptor is successfully stored.
    fn post_store(&self, descriptor: &Descriptor) {
    }

    /// Called before executing a query. Return `Err` to reject it.
    fn pre_query(&self, routing_key: &crate::hash::Hash) -> (res: Result<(), String>)
        default_ensures
            res is Ok,
    {
        Ok(())
    }

    /// Called after query results are produced.
    fn post_query(&self, routing_key: &crate::hash::Hash, result_count: usize) {
    }
}

/// A hook that allows everything and records nothing.
pub struct NoOpHook;

impl ProtocolHook for NoOpHook {}

} // verus!
