//! Tenant accounts: their quotas by tier, their usage, and the metering
//! decision that guards every deduction. The accounts themselves live in the
//! hub's database.

use vstd::prelude::*;

verus! {

/// A hub tenant account.
#[derive(Debug, Clone)]
pub struct Tenant {
    /// The tenant's UUID, as its 128-bit value.
    pub id: u128,
    pub name: String,
    pub tier: String,
    pub max_descriptors: u64,
    pub max_storage_bytes: u64,
    pub max_query_rate: u32,
    pub max_store_rate: u32,
    pub current_descriptors: u64,
    pub current_bytes: u64,
    pub mu_balance: i64,
    pub mu_limit: i64,
    pub created_at: u64,
}

/// Tenant usage summary.
#[derive(Debug, Clone, Copy)]
pub struct TenantUsage {
    pub current_descriptors: u64,
    pub current_bytes: u64,
    pub mu_balance: i64,
    pub mu_limit: i64,
}

/// The quotas of a tier.
#[derive(Debug, Clone, Copy, PartialEq, Eq, Structural)]
pub struct TierQuotas {
    pub max_descriptors: u64,
    pub max_storage_bytes: u64,
    pub max_query_rate: u32,
    pub max_store_rate: u32,
    pub mu_limit: i64,
}

/// The quotas of the tier named `tier`: "starter", "pro" and "enterprise"
/// have their own; "free" and any other name get the free tier's.
pub open spec fn quotas_of(tier: Seq<char>) -> TierQuotas {
    if tier == "starter"@ {
        TierQuotas { max_descriptors: 1_000, max_storage_bytes: 10_485_760, max_query_rate: 50, max_store_rate: 5, mu_limit: 100_000 }
    } else if tier == "pro"@ {
        TierQuotas { max_descriptors: 10_000, max_storage_bytes: 104_857_600, max_query_rate: 100, max_store_rate: 10, mu_limit: 1_000_000 }
    } else if tier == "enterprise"@ {
        TierQuotas {
            max_descriptors: 1_000_000,
            max_storage_bytes: 10_737_418_240,
            max_query_rate: 1000,
            max_store_rate: 100,
            mu_limit: 10_000_000,
        }
    } else {
        TierQuotas { max_descriptors: 100, max_storage_bytes: 1_048_576, max_query_rate: 10, max_store_rate: 1, mu_limit: 10_000 }
    }
}

/// Whether two texts are equal.
pub(crate) fn text_equal(a: &str, b: &str) -> (res: bool)
    ensures
        res == (a@ == b@),
{
    a.to_owned() == b.to_owned()
}

/// The quotas of a tier.
pub fn tier_quotas(tier: &str) -> (res: TierQuotas)
    ensures
        res == quotas_of(tier@),
{
    if text_equal(tier, "starter") {
        TierQuotas { max_descriptors: 1_000, max_storage_bytes: 10_485_760, max_query_rate: 50, max_store_rate: 5, mu_limit: 100_000 }
    } else if text_equal(tier, "pro") {
        TierQuotas { max_descriptors: 10_000, max_storage_bytes: 104_857_600, max_query_rate: 100, max_store_rate: 10, mu_limit: 1_000_000 }
    } else if text_equal(tier, "enterprise") {
        TierQuotas {
            max_descriptors: 1_000_000,
            max_storage_bytes: 10_737_418_240,
            max_query_rate: 1000,
            max_store_rate: 100,
            mu_limit: 10_000_000,
        }
    } else {
        TierQuotas { max_descriptors: 100, max_storage_bytes: 1_048_576, max_query_rate: 10, max_store_rate: 1, mu_limit: 10_000 }
    }
}

/// A new tenant of tier `tier`: the tier's quotas, nothing used yet, and a
/// full MU balance.
pub fn new_tenant(id: u128, name: &str, tier: &str, created_at: u64) -> (res: Tenant)
    ensures
        res.id == id,
        res.name@ == name@,
        res.tier@ == tier@,
        res.max_descriptors == quotas_of(tier@).max_descriptors,
        res.max_storage_bytes == quotas_of(tier@).max_storage_bytes,
        res.max_query_rate == quotas_of(tier@).max_query_rate,
        res.max_store_rate == quotas_of(tier@).max_store_rate,
        res.current_descriptors == 0,
        res.current_bytes == 0,
        res.mu_balance == quotas_of(tier@).mu_limit,
        res.mu_limit == quotas_of(tier@).mu_limit,
        res.created_at == created_at,
{
    let quotas = tier_quotas(tier);
    Tenant {
        id,
        name: name.to_owned(),
        tier: tier.to_owned(),
        max_descriptors: quotas.max_descriptors,
        max_storage_bytes: quotas.max_storage_bytes,
        max_query_rate: quotas.max_query_rate,
        max_store_rate: quotas.max_store_rate,
        current_descriptors: 0,
        current_bytes: 0,
        mu_balance: quotas.mu_limit,
        mu_limit: quotas.mu_limit,
        created_at,
    }
}

/// Error type for MU operations.
#[derive(Debug)]
pub enum MuError {
    /// The balance does not cover the cost.
    InsufficientBalance { balance: i64, cost: i64 },
    /// The tenant database failed, with its message.
    Db(String),
}

/// The balance after deducting `cost` from `balance`, or the refusal when
/// the balance does not cover it.
pub fn deduct(balance: i64, cost: i64) -> (res: Result<i64, MuError>)
    requires
        i64::MIN <= balance - cost <= i64::MAX,
    ensures
        balance < cost ==> (res matches Err(MuError::InsufficientBalance { balance: b, cost: c }) && b == balance && c == cost),
        balance >= cost ==> res == Ok::<i64, MuError>((balance - cost) as i64),
{
    if balance < cost {
        return Err(MuError::InsufficientBalance { balance, cost });
    }
    Ok(balance - cost)
}

/// Whether a DID-Auth challenge can still be consumed: only one that was
/// not consumed before.
pub fn check_consumable(consumed: i32) -> (res: Result<(), String>)
    ensures
        consumed == 0 <==> res is Ok,
        consumed != 0 ==> (res matches Err(m) && m@ == "challenge already consumed"@),
{
    if consumed != 0 {
        return Err("challenge already consumed".to_owned());
    }
    Ok(())
}

} // verus!
