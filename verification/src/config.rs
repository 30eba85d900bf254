//! Hub configuration: the sections of the hub's configuration file and
//! their defaults. Paths and socket addresses are held as text.

use vstd::prelude::*;

verus! {

/// Hub-to-hub peering configuration.
#[derive(Debug, Clone)]
pub struct PeeringConfig {
    /// Enable hub peering (default: false).
    pub enabled: bool,
    /// Interval in seconds between gossip rounds (default: 60).
    pub gossip_interval_secs: u64,
    /// Interval in seconds between health checks (default: 10).
    pub health_check_interval_secs: u64,
    /// Maximum number of connected peers (default: 50).
    pub max_peers: usize,
    /// Regions this hub serves (for metadata advertisement).
    pub regions: Vec<String>,
    /// Maximum descriptors this hub stores (for metadata advertisement).
    pub max_descriptors: u64,
    /// Seed peer addresses for bootstrap (e.g. "5.161.53.251:4433").
    pub seed_peers: Vec<String>,
}

impl Default for PeeringConfig {
    fn default() -> (res: Self)
        ensures
            !res.enabled,
            res.gossip_interval_secs == 60,
            res.health_check_interval_secs == 10,
            res.max_peers == 50,
            res.regions@.len() == 0,
            res.max_descriptors == 1_000_000,
            res.seed_peers@.len() == 0,
    {
        PeeringConfig {
            enabled: false,
            gossip_interval_secs: default_gossip_interval(),
            health_check_interval_secs: default_health_check_interval(),
            max_peers: default_max_peers(),
            regions: Vec::new(),
            max_descriptors: default_max_descriptors(),
            seed_peers: Vec::new(),
        }
    }
}

/// Default interval between gossip rounds, in seconds.
pub fn default_gossip_interval() -> (res: u64)
    ensures
        res == 60,
{
    60
}

/// Default interval between health checks, in seconds.
pub fn default_health_check_interval() -> (res: u64)
    ensures
        res == 10,
{
    10
}

/// Default maximum number of connected peers.
pub fn default_max_peers() -> (res: usize)
    ensures
        res == 50,
{
    50
}

/// Default maximum number of stored descriptors advertised.
pub fn default_max_descriptors() -> (res: u64)
    ensures
        res == 1_000_000,
{
    1_000_000
}

/// Where the hub's keypair lives.
#[derive(Debug, Clone)]
pub struct IdentityConfig {
    /// Path of the keypair file.
    pub keypair_path: String,
}

/// Where the hub listens.
#[derive(Debug, Clone)]
pub struct NetworkConfig {
    /// Protocol listen address (default "0.0.0.0:4433").
    pub listen_addr: String,
    /// Admin API listen address (default "127.0.0.1:8080").
    pub admin_addr: String,
}

/// Default protocol listen address.
pub fn default_listen_addr() -> (res: String)
    ensures
        res@ == "0.0.0.0:4433"@,
{
    "0.0.0.0:4433".to_owned()
}

/// Default admin API listen address.
pub fn default_admin_addr() -> (res: String)
    ensures
        res@ == "127.0.0.1:8080"@,
{
    "127.0.0.1:8080".to_owned()
}

/// Persistent storage configuration.
#[derive(Debug, Clone)]
pub struct StorageConfig {
    /// Data directory (default "data").
    pub data_dir: String,
    /// Entries of the hot read cache (default 10 000).
    pub hot_cache_entries: u64,
}

impl Default for StorageConfig {
    fn default() -> (res: Self)
        ensures
            res.data_dir@ == "data"@,
            res.hot_cache_entries == 10_000,
    {
        StorageConfig { data_dir: default_data_dir(), hot_cache_entries: default_hot_cache_entries() }
    }
}

/// Default data directory.
pub fn default_data_dir() -> (res: String)
    ensures
        res@ == "data"@,
{
    "data".to_owned()
}

/// Default number of hot cache entries.
pub fn default_hot_cache_entries() -> (res: u64)
    ensures
        res == 10_000,
{
    10_000
}

/// Tenant database configuration.
#[derive(Debug, Clone)]
pub struct TenantConfig {
    /// Whether tenants are enabled (default: true).
    pub enabled: bool,
    /// Path of the tenant database (default "data/tenants.sqlite").
    pub db_path: String,
}

impl Default for TenantConfig {
    fn default() -> (res: Self)
        ensures
            res.enabled,
            res.db_path@ == "data/tenants.sqlite"@,
    {
        TenantConfig { enabled: default_true(), db_path: default_tenant_db() }
    }
}

/// Default tenant database path.
pub fn default_tenant_db() -> (res: String)
    ensures
        res@ == "data/tenants.sqlite"@,
{
    "data/tenants.sqlite".to_owned()
}

/// The default of switches that are on unless turned off.
pub fn default_true() -> (res: bool)
    ensures
        res,
{
    true
}

/// Who may store descriptors at the hub.
#[derive(Debug, Clone, Copy, PartialEq, Eq, Structural)]
pub enum StoreMode {
    /// Anyone may store.
    Open,
    /// Only registered tenant identities may store.
    TenantOnly,
    /// Only allowlisted (registered) identities may store.
    Allowlist,
}

impl Default for StoreMode {
    fn default() -> (res: Self)
        ensures
            res == StoreMode::Open,
    {
        StoreMode::Open
    }
}

/// Store policy: store mode and blocklists.
#[derive(Debug, Clone)]
pub struct PolicyConfig {
    /// Who may store.
    pub store_mode: StoreMode,
    /// Publisher DIDs whose descriptors are refused.
    pub blocked_identities: Vec<String>,
    /// Routing keys (hex digests) under which nothing is stored.
    pub blocked_routing_keys: Vec<String>,
}

impl Default for PolicyConfig {
    fn default() -> (res: Self)
        ensures
            res.store_mode == StoreMode::Open,
            res.blocked_identities@.len() == 0,
            res.blocked_routing_keys@.len() == 0,
    {
        PolicyConfig { store_mode: StoreMode::Open, blocked_identities: Vec::new(), blocked_routing_keys: Vec::new() }
    }
}

/// Connection and query limits, and admin access.
#[derive(Debug, Clone)]
pub struct SecurityConfig {
    /// Maximum connections per IP (default 50).
    pub max_connections_per_ip: u32,
    /// Maximum queries per identity per second (default 20).
    pub max_queries_per_identity_per_sec: u32,
    /// Bearer token for the admin API.
    pub admin_bearer_token: Option<String>,
    /// Addresses allowed for outbound connections even if private/loopback.
    pub outbound_allowlist: Vec<String>,
}

impl Default for SecurityConfig {
    fn default() -> (res: Self)
        ensures
            res.max_connections_per_ip == 50,
            res.max_queries_per_identity_per_sec == 20,
            res.admin_bearer_token is None,
            res.outbound_allowlist@.len() == 0,
    {
        SecurityConfig {
            max_connections_per_ip: default_50(),
            max_queries_per_identity_per_sec: default_20(),
            admin_bearer_token: None,
            outbound_allowlist: Vec::new(),
        }
    }
}

/// Default maximum connections per IP.
pub fn default_50() -> (res: u32)
    ensures
        res == 50,
{
    50
}

/// Default maximum queries per identity per second.
pub fn default_20() -> (res: u32)
    ensures
        res == 20,
{
    20
}

/// Metering-unit (MU) cost table for hub operations.
#[derive(Debug, Clone, Copy)]
pub struct MuCosts {
    /// Cost of storing a new descriptor (default: 10).
    pub store_new: i64,
    /// Cost of updating an existing descriptor (default: 5).
    pub store_update: i64,
    /// Cost of a find_value query (default: 1).
    pub find_value: i64,
    /// Cost of a find_node query (default: 1).
    pub find_node: i64,
}

impl Default for MuCosts {
    fn default() -> (res: Self)
        ensures
            res.store_new == 10,
            res.store_update == 5,
            res.find_value == 1,
            res.find_node == 1,
    {
        MuCosts {
            store_new: default_mu_store_new(),
            store_update: default_mu_store_update(),
            find_value: default_mu_find(),
            find_node: default_mu_find(),
        }
    }
}

/// Default MU cost of storing a new descriptor.
pub fn default_mu_store_new() -> (res: i64)
    ensures
        res == 10,
{
    10
}

/// Default MU cost of updating a descriptor.
pub fn default_mu_store_update() -> (res: i64)
    ensures
        res == 5,
{
    5
}

/// Default MU cost of a query.
pub fn default_mu_find() -> (res: i64)
    ensures
        res == 1,
{
    1
}

/// Observability configuration.
#[derive(Debug, Clone, Copy)]
pub struct ObservabilityConfig {
    /// Enable the metrics endpoint (default: true).
    pub metrics_enabled: bool,
}

impl Default for ObservabilityConfig {
    fn default() -> (res: Self)
        ensures
            res.metrics_enabled,
    {
        ObservabilityConfig { metrics_enabled: default_true() }
    }
}

/// Seeding configuration: pre-populate the hub with services on startup.
#[derive(Debug, Clone)]
pub struct SeedingConfig {
    /// Enable automatic seeding (default: false).
    pub enabled: bool,
    /// Path to a JSON seed file containing service descriptors.
    pub seed_file: Option<String>,
    /// Interval in seconds between re-seed cycles (default: 1800).
    pub interval_secs: u64,
}

impl Default for SeedingConfig {
    fn default() -> (res: Self)
        ensures
            !res.enabled,
            res.seed_file is None,
            res.interval_secs == 1800,
    {
        SeedingConfig { enabled: false, seed_file: None, interval_secs: default_seed_interval() }
    }
}

/// Default interval between re-seed cycles, in seconds.
pub fn default_seed_interval() -> (res: u64)
    ensures
        res == 1800,
{
    1800
}

} // verus!
