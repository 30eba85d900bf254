//! Well-known schema hashes and routing keys: `BLAKE3("mesh:schema:<name>")`
//! for the core and infrastructure schemas, and the routing keys of the
//! well-known capability namespaces.

use vstd::prelude::*;
use vstd::string::StringSliceAdditionalSpecFns;
use crate::hash::{schema_hash, schema_hash_of};
use crate::routing::{routing_key, routing_key_of};

verus! {

/// Schema hash for `core/schema`: the self-describing root schema.
pub fn schema_hash_core_schema() -> (res: crate::hash::Hash)
    ensures res@ == schema_hash_of("core/schema".spec_bytes()), res.digest@.len() == 32,
{
    schema_hash("core/schema")
}

/// Schema hash for `core/capability`: capability advertisement.
pub fn schema_hash_core_capability() -> (res: crate::hash::Hash)
    ensures res@ == schema_hash_of("core/capability".spec_bytes()), res.digest@.len() == 32,
{
    schema_hash("core/capability")
}

/// Schema hash for `core/discovery-query`: discovery query format.
pub fn schema_hash_core_discovery_query() -> (res: crate::hash::Hash)
    ensures res@ == schema_hash_of("core/discovery-query".spec_bytes()), res.digest@.len() == 32,
{
    schema_hash("core/discovery-query")
}

/// Schema hash for `core/resolve`: resolve request/response.
pub fn schema_hash_core_resolve() -> (res: crate::hash::Hash)
    ensures res@ == schema_hash_of("core/resolve".spec_bytes()), res.digest@.len() == 32,
{
    schema_hash("core/resolve")
}

/// Schema hash for `core/revocation`: descriptor revocation.
pub fn schema_hash_core_revocation() -> (res: crate::hash::Hash)
    ensures res@ == schema_hash_of("core/revocation".spec_bytes()), res.digest@.len() == 32,
{
    schema_hash("core/revocation")
}

/// Schema hash for `core/key-rotation`: identity key rotation.
pub fn schema_hash_core_key_rotation() -> (res: crate::hash::Hash)
    ensures res@ == schema_hash_of("core/key-rotation".spec_bytes()), res.digest@.len() == 32,
{
    schema_hash("core/key-rotation")
}

/// All well-known core schema names.
pub fn well_known_schemas() -> (res: Vec<&'static str>)
    ensures
        res@.len() == 6,
{
    vec!["core/schema", "core/capability", "core/discovery-query", "core/resolve", "core/revocation", "core/key-rotation"]
}

/// Schema hash for `infrastructure/hub`: hub service descriptor.
pub fn schema_hash_infra_hub() -> (res: crate::hash::Hash)
    ensures res@ == schema_hash_of("infrastructure/hub".spec_bytes()), res.digest@.len() == 32,
{
    schema_hash("infrastructure/hub")
}

/// Schema hash for `infrastructure/relay`: relay service descriptor.
pub fn schema_hash_infra_relay() -> (res: crate::hash::Hash)
    ensures res@ == schema_hash_of("infrastructure/relay".spec_bytes()), res.digest@.len() == 32,
{
    schema_hash("infrastructure/relay")
}

/// Routing key of the `compute` capability namespace.
pub fn routing_key_compute() -> (res: crate::hash::Hash)
    ensures res@ == routing_key_of("compute".spec_bytes()), res.digest@.len() == 32,
{
    routing_key("compute")
}

/// Routing key of the `storage` capability namespace.
pub fn routing_key_storage() -> (res: crate::hash::Hash)
    ensures res@ == routing_key_of("storage".spec_bytes()), res.digest@.len() == 32,
{
    routing_key("storage")
}

/// Routing key of `compute/inference`.
pub fn routing_key_inference() -> (res: crate::hash::Hash)
    ensures res@ == routing_key_of("compute/inference".spec_bytes()), res.digest@.len() == 32,
{
    routing_key("compute/inference")
}

/// Routing key of the `infrastructure` namespace.
pub fn routing_key_infrastructure() -> (res: crate::hash::Hash)
    ensures res@ == routing_key_of("infrastructure".spec_bytes()), res.digest@.len() == 32,
{
    routing_key("infrastructure")
}

/// Routing key of `infrastructure/hub`: hub peering discovery.
pub fn routing_key_infrastructure_hub() -> (res: crate::hash::Hash)
    ensures res@ == routing_key_of("infrastructure/hub".spec_bytes()), res.digest@.len() == 32,
{
    routing_key("infrastructure/hub")
}

} // verus!
