//! The hub's store policy: store mode, blocklists, tenant quotas and
//! metering budgets. Every refusal gives the same generic reason, so no
//! policy detail leaks.

use vstd::prelude::*;
use crate::config::{PolicyConfig, StoreMode};
use crate::descriptor::{Descriptor, hash_views};
use crate::primitives::clock_reading;
use crate::identity::did_of;
use crate::index_keys::identity_key;
use crate::rate_limit::{after_check, admits, micros, HubRateLimiter, Operation};
use crate::text::hex_encode;
use crate::tenant::Tenant;
use crate::text::hex_lower;

verus! {

/// Stateless policy checks for incoming descriptors.
#[derive(Debug)]
pub struct PolicyEngine {
    config: PolicyConfig,
}

/// Whether `s` holds the text `t`.
pub open spec fn holds_text(s: Seq<String>, t: Seq<char>) -> bool {
    exists|i: int| 0 <= i < s.len() && (#[trigger] s[i])@ == t
}

/// Whether any routing key's hex digest is in the blocklist.
pub open spec fn routing_key_blocked(keys: Seq<(u8, Seq<u8>)>, blocked: Seq<String>) -> bool {
    exists|j: int| 0 <= j < keys.len() && holds_text(blocked, hex_lower((#[trigger] keys[j]).1))
}

/// Whether the policy lets `publisher`'s descriptor with routing keys
/// `keys` be stored, for a publisher that is (or is not) a tenant.
pub open spec fn store_allowed(config: PolicyConfig, publisher: (u8, Seq<u8>), keys: Seq<(u8, Seq<u8>)>, is_tenant: bool) -> bool {
    &&& (config.store_mode == StoreMode::Open || is_tenant)
    &&& !holds_text(config.blocked_identities@, did_of(publisher))
    &&& !routing_key_blocked(keys, config.blocked_routing_keys@)
}

/// Whether the list holds the text `t`.
fn contains_text(list: &Vec<String>, t: &String) -> (res: bool)
    ensures
        res == holds_text(list@, t@),
{
    let mut i: usize = 0;
    while i < list.len()
        invariant
            i <= list@.len(),
            forall|j: int| 0 <= j < i ==> (#[trigger] list@[j])@ != t@,
        decreases list.len() - i,
    {
        if list[i] == *t {
            return true;
        }
        i = i + 1;
    }
    false
}

impl PolicyEngine {
    /// The policy the engine enforces.
    pub closed spec fn config_view(&self) -> PolicyConfig {
        self.config
    }

    /// An engine enforcing `config`.
    pub fn new(config: PolicyConfig) -> (res: PolicyEngine)
        ensures
            res.config_view() == config,
    {
        PolicyEngine { config }
    }

    /// Check if a descriptor may be stored: a tenant-only or allowlist hub
    /// refuses non-tenants, and blocked publishers (by DID) and blocked
    /// routing keys (by hex digest) are refused. A refusal says "policy".
    pub fn check_store(&self, descriptor: &Descriptor, is_tenant: bool) -> (res: Result<(), String>)
        ensures
            res is Ok <==> store_allowed(self.config_view(), descriptor.publisher@, hash_views(descriptor.routing_keys@), is_tenant),
            res matches Err(m) ==> m@ == "policy"@,
    {
        match self.config.store_mode {
            StoreMode::Open => {},
            _ => {
                if !is_tenant {
                    return Err("policy".to_owned());
                }
            },
        }
        let publisher_did = descriptor.publisher.did();
        if contains_text(&self.config.blocked_identities, &publisher_did) {
            return Err("policy".to_owned());
        }
        let ghost keys = hash_views(descriptor.routing_keys@);
        let mut i: usize = 0;
        while i < descriptor.routing_keys.len()
            invariant
                i <= descriptor.routing_keys@.len(),
                keys == hash_views(descriptor.routing_keys@),
                forall|j: int| 0 <= j < i ==> !holds_text(self.config.blocked_routing_keys@, hex_lower((#[trigger] keys[j]).1)),
            decreases descriptor.routing_keys.len() - i,
        {
            let rk_hex = hex_encode(descriptor.routing_keys[i].digest.as_slice());
            assert(keys[i as int] == descriptor.routing_keys@[i as int]@);
            if contains_text(&self.config.blocked_routing_keys, &rk_hex) {
                return Err("policy".to_owned());
            }
            i = i + 1;
        }
        Ok(())
    }

    /// Check a tenant's quotas for a descriptor of `descriptor_size` bytes:
    /// refused when the tenant already holds its maximum of descriptors, or
    /// the new bytes would exceed its storage quota.
    pub fn check_quotas(&self, tenant: &Tenant, descriptor_size: usize) -> (res: Result<(), String>)
        requires
            tenant.current_bytes + descriptor_size <= u64::MAX,
        ensures
            res is Ok <==> (tenant.current_descriptors < tenant.max_descriptors
                && tenant.current_bytes + descriptor_size <= tenant.max_storage_bytes),
            res matches Err(m) ==> m@ == "policy"@,
    {
        if tenant.current_descriptors >= tenant.max_descriptors {
            return Err("policy".to_owned());
        }
        if tenant.current_bytes + descriptor_size as u64 > tenant.max_storage_bytes {
            return Err("policy".to_owned());
        }
        Ok(())
    }

    /// Check that a tenant's MU balance covers `cost`.
    pub fn check_mu_budget(&self, tenant: &Tenant, cost: i64) -> (res: Result<(), String>)
        ensures
            res is Ok <==> tenant.mu_balance >= cost,
            res matches Err(m) ==> m@ == "policy"@,
    {
        if tenant.mu_balance < cost {
            return Err("policy".to_owned());
        }
        Ok(())
    }
}

/// Whether the limiter admits a STORE by `publisher` at `now`: always when
/// identities have no STORE limit.
pub open spec fn store_rate_admits(limiter: HubRateLimiter, publisher: (u8, Seq<u8>), now: u64) -> bool {
    match limiter.config_view().identity_limits.limit(Operation::Store) {
        None => true,
        Some(limit) => admits(limiter.identity_view(), identity_key(publisher), Operation::Store, limit, now,
            micros(limiter.config_view().window_secs)),
    }
}

/// The identity windows after a STORE by `publisher` at `now` was checked.
pub open spec fn store_rate_after(limiter: HubRateLimiter, publisher: (u8, Seq<u8>), now: u64)
    -> Map<Seq<u8>, Map<Operation, Seq<u64>>>
{
    match limiter.config_view().identity_limits.limit(Operation::Store) {
        None => limiter.identity_view(),
        Some(limit) => after_check(limiter.identity_view(), identity_key(publisher), Operation::Store, limit, now,
            micros(limiter.config_view().window_secs)),
    }
}

/// What the hub answers a STORE at `now`: a publisher over its STORE rate
/// limit is refused with "rate limited"; otherwise the store policy decides,
/// refusing with "policy".
pub open spec fn store_admission(
    limiter: HubRateLimiter,
    policy: PolicyConfig,
    d: crate::descriptor::DescriptorModel,
    is_tenant: bool,
    now: u64,
    res: Result<(), String>,
) -> bool {
    if !store_rate_admits(limiter, d.publisher, now) {
        res matches Err(m) && m@ == "rate limited"@
    } else {
        &&& (res is Ok <==> store_allowed(policy, d.publisher, d.routing_keys, is_tenant))
        &&& (res matches Err(m) ==> m@ == "policy"@)
    }
}

/// Admit or refuse a STORE of `descriptor` at `now` at a hub: the
/// publisher's STORE rate limit is checked (and charged) first, then the
/// store policy, for a publisher that is (or is not) a tenant.
pub fn admit_store_at(
    limiter: &mut HubRateLimiter,
    policy: &PolicyEngine,
    descriptor: &Descriptor,
    is_tenant: bool,
    now: u64,
) -> (res: Result<(), String>)
    requires
        old(limiter).wf(),
    ensures
        final(limiter).wf(),
        final(limiter).config_view() == old(limiter).config_view(),
        final(limiter).ip_view() == old(limiter).ip_view(),
        final(limiter).identity_view() == store_rate_after(*old(limiter), descriptor.publisher@, now),
        store_admission(*old(limiter), policy.config_view(), descriptor@, is_tenant, now, res),
{
    match limiter.check_identity_at(&descriptor.publisher, Operation::Store, now) {
        Ok(()) => {},
        Err(_) => {
            return Err("rate limited".to_owned());
        },
    }
    policy.check_store(descriptor, is_tenant)
}

/// Admit or refuse a STORE at the current time (see `admit_store_at`).
pub fn admit_store(limiter: &mut HubRateLimiter, policy: &PolicyEngine, descriptor: &Descriptor, is_tenant: bool)
    -> (res: Result<(), String>)
    requires
        old(limiter).wf(),
    ensures
        final(limiter).wf(),
        final(limiter).config_view() == old(limiter).config_view(),
        final(limiter).ip_view() == old(limiter).ip_view(),
        exists|now: u64| clock_reading(now) && final(limiter).identity_view() == store_rate_after(*old(limiter), descriptor.publisher@, now)
            && #[trigger] store_admission(*old(limiter), policy.config_view(), descriptor@, is_tenant, now, res),
{
    let now = crate::primitives::now_micros();
    admit_store_at(limiter, policy, descriptor, is_tenant, now)
}

} // verus!
