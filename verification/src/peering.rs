//! Hub-to-hub peering state: the advertised hub metadata, each peer's
//! connection status, and how health checks and connection attempts move a
//! peer between statuses. The network work itself happens in the hub's
//! runtime, which reports outcomes here.

use vstd::prelude::*;
use vstd::pervasive::VecAdditionalExecFns;
use vstd::string::StrSliceExecFns;
use vstd::string::StringSliceAdditionalSpecFns;
use crate::assoc::{assoc_map, has_key, keys_unique, lemma_assoc_at, lemma_assoc_len, lemma_assoc_missing, lemma_assoc_push, lemma_assoc_set};
use crate::descriptor::{Descriptor, DescriptorModel, hash_views, id_matches, signature_checks};
use crate::error::MeshError;
use crate::hash::schema_hash_of;
use crate::routing::routing_key_of;
use crate::identity::{Identity, Keypair, did_of};
use crate::message::{FindValue, NodeAddr};
use crate::node::at_most;
use crate::schema::{routing_key_infrastructure, routing_key_infrastructure_hub, schema_hash_infra_hub};
use crate::storage::descriptor_models;

verus! {

/// Maximum descriptors per gossip round per peer.
pub const MAX_GOSSIP_BATCH: usize = 50;

/// Consecutive health-check failures before marking a peer unhealthy.
pub const UNHEALTHY_THRESHOLD: u32 = 3;

/// Consecutive health-check failures before disconnecting a peer.
pub const DISCONNECT_THRESHOLD: u32 = 5;

/// Hub metadata included in the self-advertisement descriptor payload.
#[derive(Debug, Clone)]
pub struct HubMetadata {
    /// Maximum number of descriptors this hub stores.
    pub max_descriptors: u64,
    /// Regions this hub serves.
    pub regions: Vec<String>,
    /// QUIC endpoint address (e.g., "quic://hub.example.com:4433").
    pub endpoint: String,
}

/// Status of a peer hub connection.
#[derive(Debug, Clone, Copy, PartialEq, Eq, Structural)]
pub enum PeerStatus {
    /// Connected and healthy.
    Connected,
    /// Disconnected (not currently reachable).
    Disconnected,
    /// Connected but failing health checks.
    Unhealthy,
}

/// State for a single peer hub.
#[derive(Debug)]
pub struct PeerState {
    /// Handle of the active connection, if connected.
    pub connection: Option<u64>,
    /// The peer's network address.
    pub addr: NodeAddr,
    /// Current connection status.
    pub status: PeerStatus,
    /// Last time we successfully heard from this peer (microseconds).
    pub last_seen: u64,
    /// Number of consecutive health-check failures.
    pub consecutive_failures: u32,
}

/// The status a peer has after `failures` consecutive failed checks,
/// starting from `status`.
pub open spec fn status_after_failures(status: PeerStatus, failures: u32) -> PeerStatus {
    if failures >= DISCONNECT_THRESHOLD {
        PeerStatus::Disconnected
    } else if failures >= UNHEALTHY_THRESHOLD {
        PeerStatus::Unhealthy
    } else {
        status
    }
}

impl PeerState {
    /// A successful health check: failures reset, the peer is connected and
    /// was seen at `now`.
    pub fn record_health_ok(&mut self, now: u64)
        ensures
            final(self).consecutive_failures == 0,
            final(self).status == PeerStatus::Connected,
            final(self).last_seen == now,
            final(self).connection == old(self).connection,
            final(self).addr == old(self).addr,
    {
        self.consecutive_failures = 0;
        self.status = PeerStatus::Connected;
        self.last_seen = now;
    }

    /// A failed health check: one more failure; at the disconnect threshold
    /// the peer is disconnected and its connection dropped, at the
    /// unhealthy threshold it is marked unhealthy.
    pub fn record_health_failure(&mut self)
        requires
            old(self).consecutive_failures < u32::MAX,
        ensures
            final(self).consecutive_failures == old(self).consecutive_failures + 1,
            final(self).status == status_after_failures(old(self).status, final(self).consecutive_failures),
            final(self).consecutive_failures >= DISCONNECT_THRESHOLD ==> final(self).connection is None,
            final(self).consecutive_failures < DISCONNECT_THRESHOLD ==> final(self).connection == old(self).connection,
            final(self).last_seen == old(self).last_seen,
            final(self).addr == old(self).addr,
    {
        self.consecutive_failures = self.consecutive_failures + 1;
        let failures = self.consecutive_failures;
        if failures >= DISCONNECT_THRESHOLD {
            self.status = PeerStatus::Disconnected;
            self.connection = None;
        } else if failures >= UNHEALTHY_THRESHOLD {
            self.status = PeerStatus::Unhealthy;
        }
    }

    /// Gossip sends that failed: they count as consecutive failures.
    pub fn record_gossip_failures(&mut self, failures: u32)
        requires
            old(self).consecutive_failures + failures <= u32::MAX,
        ensures
            final(self).consecutive_failures == old(self).consecutive_failures + failures,
            final(self).status == old(self).status,
            final(self).connection == old(self).connection,
            final(self).last_seen == old(self).last_seen,
            final(self).addr == old(self).addr,
    {
        self.consecutive_failures = self.consecutive_failures + failures;
    }
}

/// The address a hub endpoint text names: the text without a leading
/// `quic://`, over QUIC.
pub open spec fn endpoint_address(endpoint: Seq<char>) -> Seq<char> {
    if endpoint.len() >= 7 && endpoint.take(7) == "quic://"@ { endpoint.skip(7) } else { endpoint }
}

/// Parse a hub endpoint text (e.g., "quic://host:port" or "host:port") into
/// a node address.
pub fn endpoint_to_node_addr(endpoint: &str) -> (res: NodeAddr)
    ensures
        res.protocol@ == "quic"@,
        res.address@ == endpoint_address(endpoint@),
{
    let n = endpoint.unicode_len();
    let address = if n >= 7 && crate::tenant::text_equal(endpoint.substring_char(0, 7), "quic://") {
        endpoint.substring_char(7, n).to_owned()
    } else {
        endpoint.to_owned()
    };
    proof {
        assert(endpoint@.subrange(0, 7) =~= endpoint@.take(7));
        assert(endpoint@.subrange(7, endpoint@.len() as int) =~= endpoint@.skip(7));
    }
    NodeAddr { protocol: "quic".to_owned(), address }
}

/// The value of a peer's state.
pub struct PeerModel {
    pub connection: Option<u64>,
    pub addr: (Seq<char>, Seq<char>),
    pub status: PeerStatus,
    pub last_seen: u64,
    pub consecutive_failures: u32,
}

impl View for PeerState {
    type V = PeerModel;

    open spec fn view(&self) -> PeerModel {
        PeerModel {
            connection: self.connection,
            addr: self.addr@,
            status: self.status,
            last_seen: self.last_seen,
            consecutive_failures: self.consecutive_failures,
        }
    }
}

/// The number of connected peers among `s`.
pub open spec fn connected_count(s: Seq<(Seq<char>, PeerModel)>) -> nat
    decreases s.len(),
{
    if s.len() == 0 {
        0
    } else {
        connected_count(s.drop_last()) + if s.last().1.status == PeerStatus::Connected { 1nat } else { 0nat }
    }
}

/// What to do about a connection request.
#[derive(Debug, Clone, Copy, PartialEq, Eq, Structural)]
pub enum ConnectDecision {
    /// The maximum number of connected peers is reached: skip.
    MaxPeersReached,
    /// The peer is already connected: skip.
    AlreadyConnected,
    /// Validate the address and connect.
    Proceed,
}

/// The peers of a hub, keyed by DID.
#[derive(Debug)]
pub struct PeerTable {
    peers: Vec<(String, PeerState)>,
}

impl PeerTable {
    /// The peers and their states, in the table's order.
    pub closed spec fn entries(&self) -> Seq<(Seq<char>, PeerModel)> {
        self.peers@.map_values(|p: (String, PeerState)| (p.0@, p.1@))
    }

    /// The state of each peer, by DID.
    pub closed spec fn view_map(&self) -> Map<Seq<char>, PeerModel> {
        assoc_map(self.entries())
    }

    /// No DID twice.
    pub closed spec fn wf(&self) -> bool {
        keys_unique(self.entries())
    }

    /// An empty table.
    pub fn new() -> (res: PeerTable)
        ensures
            res.wf(),
            res.view_map() == Map::<Seq<char>, PeerModel>::empty(),
    {
        let res = PeerTable { peers: Vec::new() };
        assert(res.view_map() =~= Map::<Seq<char>, PeerModel>::empty());
        res
    }

    fn find(&self, did: &str) -> (res: Option<usize>)
        ensures
            match res {
                Some(i) => i < self.entries().len() && self.entries()[i as int].0 == did@,
                None => forall|i: int| 0 <= i < self.entries().len() ==> (#[trigger] self.entries()[i]).0 != did@,
            },
    {
        let mut i: usize = 0;
        while i < self.peers.len()
            invariant
                i <= self.peers@.len(),
                forall|k: int| 0 <= k < i ==> (#[trigger] self.entries()[k]).0 != did@,
            decreases self.peers.len() - i,
        {
            if crate::tenant::text_equal(self.peers[i].0.as_str(), did) {
                return Some(i);
            }
            i = i + 1;
        }
        None
    }

    /// The status of peer `did`, if it is known.
    pub fn status_of(&self, did: &str) -> (res: Option<PeerStatus>)
        requires
            self.wf(),
        ensures
            res == if self.view_map().contains_key(did@) { Some(self.view_map()[did@].status) } else { None },
    {
        match self.find(did) {
            Some(i) => {
                proof {
                    lemma_assoc_at(self.entries(), i as int);
                }
                Some(self.peers[i].1.status)
            },
            None => {
                proof {
                    lemma_assoc_missing(self.entries(), did@);
                }
                None
            },
        }
    }

    /// Get the number of connected peers.
    pub fn connected_peer_count(&self) -> (res: usize)
        ensures
            res == connected_count(self.entries()),
    {
        let ghost e = self.entries();
        let mut count: usize = 0;
        let mut i: usize = 0;
        while i < self.peers.len()
            invariant
                i <= self.peers@.len(),
                e == self.entries(),
                count == connected_count(e.take(i as int)),
                count <= i,
            decreases self.peers.len() - i,
        {
            proof {
                assert(e.take(i + 1).drop_last() =~= e.take(i as int));
            }
            if self.peers[i].1.status == PeerStatus::Connected {
                count = count + 1;
            }
            i = i + 1;
        }
        assert(e.take(e.len() as int) =~= e);
        count
    }

    /// A snapshot of every peer: its DID, status and consecutive failures.
    pub fn peer_statuses(&self) -> (res: Vec<(String, PeerStatus, u32)>)
        ensures
            res@.len() == self.entries().len(),
            forall|i: int| 0 <= i < res@.len() ==> {
                &&& (#[trigger] res@[i]).0@ == self.entries()[i].0
                &&& res@[i].1 == self.entries()[i].1.status
                &&& res@[i].2 == self.entries()[i].1.consecutive_failures
            },
    {
        let mut out: Vec<(String, PeerStatus, u32)> = Vec::new();
        let mut i: usize = 0;
        while i < self.peers.len()
            invariant
                i <= self.peers@.len(),
                out@.len() == i,
                forall|k: int| 0 <= k < i ==> {
                    &&& (#[trigger] out@[k]).0@ == self.entries()[k].0
                    &&& out@[k].1 == self.entries()[k].1.status
                    &&& out@[k].2 == self.entries()[k].1.consecutive_failures
                },
            decreases self.peers.len() - i,
        {
            let p = &self.peers[i];
            out.push((p.0.clone(), p.1.status, p.1.consecutive_failures));
            i = i + 1;
        }
        out
    }

    /// Whether to connect to peer `did`: not when `max_peers` peers are
    /// connected already, nor when it is connected with a live connection.
    pub fn connect_decision(&self, did: &str, max_peers: usize) -> (res: ConnectDecision)
        requires
            self.wf(),
        ensures
            connected_count(self.entries()) >= max_peers ==> res == ConnectDecision::MaxPeersReached,
            connected_count(self.entries()) < max_peers && self.view_map().contains_key(did@)
                && self.view_map()[did@].status == PeerStatus::Connected && self.view_map()[did@].connection is Some
                ==> res == ConnectDecision::AlreadyConnected,
            connected_count(self.entries()) < max_peers && !(self.view_map().contains_key(did@)
                && self.view_map()[did@].status == PeerStatus::Connected && self.view_map()[did@].connection is Some)
                ==> res == ConnectDecision::Proceed,
    {
        if self.connected_peer_count() >= max_peers {
            return ConnectDecision::MaxPeersReached;
        }
        match self.find(did) {
            Some(i) => {
                proof {
                    lemma_assoc_at(self.entries(), i as int);
                }
                if self.peers[i].1.status == PeerStatus::Connected && self.peers[i].1.connection.is_some() {
                    ConnectDecision::AlreadyConnected
                } else {
                    ConnectDecision::Proceed
                }
            },
            None => {
                proof {
                    lemma_assoc_missing(self.entries(), did@);
                }
                ConnectDecision::Proceed
            },
        }
    }

    /// Record a new connection to peer `did` at `addr`, made at `now`.
    pub fn record_connected(&mut self, did: &str, addr: NodeAddr, connection: u64, now: u64)
        requires
            old(self).wf(),
        ensures
            final(self).wf(),
            final(self).view_map() == old(self).view_map().insert(did@, PeerModel {
                connection: Some(connection),
                addr: addr@,
                status: PeerStatus::Connected,
                last_seen: now,
                consecutive_failures: 0,
            }),
    {
        let state = PeerState { connection: Some(connection), addr, status: PeerStatus::Connected, last_seen: now, consecutive_failures: 0 };
        self.put(did, state);
    }

    /// Record a failed connection attempt to peer `did` at `addr` at `now`:
    /// a known peer is marked disconnected with one more failure; an unknown
    /// one is added as disconnected with one failure.
    pub fn record_connect_failure(&mut self, did: &str, addr: NodeAddr, now: u64)
        requires
            old(self).wf(),
            old(self).view_map().contains_key(did@) ==> old(self).view_map()[did@].consecutive_failures < u32::MAX,
        ensures
            final(self).wf(),
            final(self).view_map() == old(self).view_map().insert(did@, if old(self).view_map().contains_key(did@) {
                PeerModel {
                    status: PeerStatus::Disconnected,
                    consecutive_failures: (old(self).view_map()[did@].consecutive_failures + 1) as u32,
                    ..old(self).view_map()[did@]
                }
            } else {
                PeerModel { connection: None, addr: addr@, status: PeerStatus::Disconnected, last_seen: now, consecutive_failures: 1 }
            }),
    {
        match self.find(did) {
            Some(i) => {
                let ghost before = self.entries();
                proof {
                    lemma_assoc_at(before, i as int);
                }
                let mut entry = (String::new(), PeerState {
                    connection: None,
                    addr: NodeAddr { protocol: String::new(), address: String::new() },
                    status: PeerStatus::Disconnected,
                    last_seen: 0,
                    consecutive_failures: 0,
                });
                self.peers.set_and_swap(i, &mut entry);
                entry.1.status = PeerStatus::Disconnected;
                entry.1.consecutive_failures = entry.1.consecutive_failures + 1;
                let ghost v = entry.1@;
                self.peers.set(i, entry);
                proof {
                    assert(self.entries() =~= before.update(i as int, (before[i as int].0, v)));
                    lemma_assoc_set(before, i as int, v);
                }
            },
            None => {
                let state = PeerState { connection: None, addr, status: PeerStatus::Disconnected, last_seen: now, consecutive_failures: 1 };
                self.put(did, state);
            },
        }
    }

    /// Record the outcome of a health check of peer `did` at `now`.
    pub fn record_health(&mut self, did: &str, ok: bool, now: u64)
        requires
            old(self).wf(),
            old(self).view_map().contains_key(did@) ==> old(self).view_map()[did@].consecutive_failures < u32::MAX,
        ensures
            final(self).wf(),
            !old(self).view_map().contains_key(did@) ==> final(self).view_map() == old(self).view_map(),
            old(self).view_map().contains_key(did@) ==> final(self).view_map() == old(self).view_map().insert(did@, if ok {
                PeerModel { status: PeerStatus::Connected, last_seen: now, consecutive_failures: 0, ..old(self).view_map()[did@] }
            } else {
                PeerModel {
                    status: status_after_failures(old(self).view_map()[did@].status,
                        (old(self).view_map()[did@].consecutive_failures + 1) as u32),
                    consecutive_failures: (old(self).view_map()[did@].consecutive_failures + 1) as u32,
                    connection: if old(self).view_map()[did@].consecutive_failures + 1 >= DISCONNECT_THRESHOLD {
                        None
                    } else {
                        old(self).view_map()[did@].connection
                    },
                    ..old(self).view_map()[did@]
                }
            }),
    {
        match self.find(did) {
            Some(i) => {
                let ghost before = self.entries();
                proof {
                    lemma_assoc_at(before, i as int);
                }
                let mut entry = (String::new(), PeerState {
                    connection: None,
                    addr: NodeAddr { protocol: String::new(), address: String::new() },
                    status: PeerStatus::Disconnected,
                    last_seen: 0,
                    consecutive_failures: 0,
                });
                self.peers.set_and_swap(i, &mut entry);
                if ok {
                    entry.1.record_health_ok(now);
                } else {
                    entry.1.record_health_failure();
                }
                let ghost v = entry.1@;
                self.peers.set(i, entry);
                proof {
                    assert(self.entries() =~= before.update(i as int, (before[i as int].0, v)));
                    lemma_assoc_set(before, i as int, v);
                }
            },
            None => {
                proof {
                    lemma_assoc_missing(self.entries(), did@);
                }
            },
        }
    }

    /// The connection handle of peer `did`, if it is known and has one.
    pub fn connection_of(&self, did: &str) -> (res: Option<u64>)
        requires
            self.wf(),
        ensures
            res == if self.view_map().contains_key(did@) { self.view_map()[did@].connection } else { None },
    {
        match self.find(did) {
            Some(i) => {
                proof {
                    lemma_assoc_at(self.entries(), i as int);
                }
                self.peers[i].1.connection
            },
            None => {
                proof {
                    lemma_assoc_missing(self.entries(), did@);
                }
                None
            },
        }
    }

    /// Record an incoming connection from peer hub `did` at `now`: an unknown
    /// peer is added as connected, over a connection this hub does not own;
    /// a known one is left as it is.
    pub fn record_incoming(&mut self, did: &str, now: u64)
        requires
            old(self).wf(),
        ensures
            final(self).wf(),
            old(self).view_map().contains_key(did@) ==> final(self).view_map() == old(self).view_map(),
            !old(self).view_map().contains_key(did@) ==> final(self).view_map() == old(self).view_map().insert(did@, PeerModel {
                connection: None,
                addr: ("quic"@, "incoming"@),
                status: PeerStatus::Connected,
                last_seen: now,
                consecutive_failures: 0,
            }),
    {
        match self.find(did) {
            Some(i) => {
                proof {
                    lemma_assoc_at(self.entries(), i as int);
                }
            },
            None => {
                proof {
                    lemma_assoc_missing(self.entries(), did@);
                }
                let addr = NodeAddr { protocol: "quic".to_owned(), address: "incoming".to_owned() };
                let state = PeerState { connection: None, addr, status: PeerStatus::Connected, last_seen: now, consecutive_failures: 0 };
                self.put(did, state);
            },
        }
    }

    /// Decide whether the sender of a request, with identity `sender`, is a
    /// peer hub, given the hub advertisements `hub_ads` held locally. A
    /// connected peer is one; otherwise a sender that published one of the
    /// advertisements becomes one and is recorded as an incoming peer at
    /// `now`; any other sender is not, and the table is left as it is.
    pub fn admit_peer_hub(&mut self, sender: &Identity, hub_ads: &Vec<Descriptor>, now: u64) -> (res: bool)
        requires
            old(self).wf(),
        ensures
            final(self).wf(),
            ({
                let did = did_of(sender@);
                let connected = old(self).view_map().contains_key(did)
                    && old(self).view_map()[did].status == PeerStatus::Connected;
                let advertised = exists|i: int| 0 <= i < hub_ads@.len()
                    && did_of((#[trigger] hub_ads@[i]).publisher@) == did;
                &&& res == (connected || advertised)
                &&& connected || !advertised ==> final(self).view_map() == old(self).view_map()
                &&& !connected && advertised && old(self).view_map().contains_key(did)
                    ==> final(self).view_map() == old(self).view_map()
                &&& !connected && advertised && !old(self).view_map().contains_key(did)
                    ==> final(self).view_map() == old(self).view_map().insert(did, PeerModel {
                        connection: None,
                        addr: ("quic"@, "incoming"@),
                        status: PeerStatus::Connected,
                        last_seen: now,
                        consecutive_failures: 0,
                    })
            }),
    {
        let did = sender.did();
        let connected = match self.status_of(did.as_str()) {
            Some(PeerStatus::Connected) => true,
            _ => false,
        };
        if connected {
            return true;
        }
        if advertised_by(hub_ads, sender) {
            self.record_incoming(did.as_str(), now);
            true
        } else {
            false
        }
    }

    /// Record that `failures` gossip sends to peer `did` failed.
    pub fn record_gossip_failures(&mut self, did: &str, failures: u32)
        requires
            old(self).wf(),
            old(self).view_map().contains_key(did@) ==> old(self).view_map()[did@].consecutive_failures + failures <= u32::MAX,
        ensures
            final(self).wf(),
            !old(self).view_map().contains_key(did@) ==> final(self).view_map() == old(self).view_map(),
            old(self).view_map().contains_key(did@) ==> final(self).view_map() == old(self).view_map().insert(did@, PeerModel {
                consecutive_failures: (old(self).view_map()[did@].consecutive_failures + failures) as u32,
                ..old(self).view_map()[did@]
            }),
    {
        match self.find(did) {
            Some(i) => {
                let ghost before = self.entries();
                proof {
                    lemma_assoc_at(before, i as int);
                }
                let mut entry = (String::new(), PeerState {
                    connection: None,
                    addr: NodeAddr { protocol: String::new(), address: String::new() },
                    status: PeerStatus::Disconnected,
                    last_seen: 0,
                    consecutive_failures: 0,
                });
                self.peers.set_and_swap(i, &mut entry);
                entry.1.record_gossip_failures(failures);
                let ghost v = entry.1@;
                self.peers.set(i, entry);
                proof {
                    assert(self.entries() =~= before.update(i as int, (before[i as int].0, v)));
                    lemma_assoc_set(before, i as int, v);
                }
            },
            None => {
                proof {
                    lemma_assoc_missing(self.entries(), did@);
                }
            },
        }
    }

    /// The peers that gossip goes to, with their connection handles: the
    /// connected ones with a live connection, in the table's order.
    pub fn gossip_targets(&self) -> (res: Vec<(String, u64)>)
        ensures
            res@.map_values(|t: (String, u64)| (t.0@, t.1)) == gossip_targets_of(self.entries()),
    {
        let ghost e = self.entries();
        let mut out: Vec<(String, u64)> = Vec::new();
        let mut i: usize = 0;
        while i < self.peers.len()
            invariant
                i <= self.peers@.len(),
                e == self.entries(),
                out@.map_values(|t: (String, u64)| (t.0@, t.1)) == gossip_targets_of(e.take(i as int)),
            decreases self.peers.len() - i,
        {
            proof {
                assert(e.take(i + 1).drop_last() =~= e.take(i as int));
            }
            let p = &self.peers[i];
            assert(e[i as int] == (p.0@, p.1@));
            match p.1.connection {
                Some(c) => {
                    if p.1.status == PeerStatus::Connected {
                        let ghost prev = out@;
                        out.push((p.0.clone(), c));
                        assert(out@.map_values(|t: (String, u64)| (t.0@, t.1))
                            =~= prev.map_values(|t: (String, u64)| (t.0@, t.1)).push((p.0@, c)));
                    }
                },
                None => {},
            }
            i = i + 1;
        }
        assert(e.take(e.len() as int) =~= e);
        out
    }

    /// The peers a health check goes to: all that are not disconnected, in
    /// the table's order.
    pub fn health_check_targets(&self) -> (res: Vec<String>)
        ensures
            res@.map_values(|d: String| d@) == health_targets_of(self.entries()),
    {
        let ghost e = self.entries();
        let mut out: Vec<String> = Vec::new();
        let mut i: usize = 0;
        while i < self.peers.len()
            invariant
                i <= self.peers@.len(),
                e == self.entries(),
                out@.map_values(|d: String| d@) == health_targets_of(e.take(i as int)),
            decreases self.peers.len() - i,
        {
            proof {
                assert(e.take(i + 1).drop_last() =~= e.take(i as int));
            }
            let p = &self.peers[i];
            assert(e[i as int] == (p.0@, p.1@));
            if p.1.status != PeerStatus::Disconnected {
                let ghost prev = out@;
                out.push(p.0.clone());
                assert(out@.map_values(|d: String| d@) =~= prev.map_values(|d: String| d@).push(p.0@));
            }
            i = i + 1;
        }
        assert(e.take(e.len() as int) =~= e);
        out
    }

    /// Set the state of peer `did`.
    fn put(&mut self, did: &str, state: PeerState)
        requires
            old(self).wf(),
        ensures
            final(self).wf(),
            final(self).view_map() == old(self).view_map().insert(did@, state@),
    {
        let ghost before = self.entries();
        let ghost v = state@;
        match self.find(did) {
            Some(i) => {
                self.peers.set(i, (did.to_owned(), state));
                proof {
                    assert(self.entries() =~= before.update(i as int, (before[i as int].0, v)));
                    lemma_assoc_set(before, i as int, v);
                }
            },
            None => {
                proof {
                    lemma_assoc_missing(before, did@);
                    assert(!has_key(before, did@));
                    lemma_assoc_push(before, did@, v);
                }
                self.peers.push((did.to_owned(), state));
                assert(self.entries() =~= before.push((did@, v)));
            },
        }
    }

    /// The number of known peers.
    pub fn len(&self) -> (res: usize)
        requires
            self.wf(),
        ensures
            res == self.view_map().dom().len(),
    {
        proof {
            lemma_assoc_len(self.entries());
        }
        self.peers.len()
    }
}

/// The gossip targets among `s`: connected peers with a live connection,
/// with their connection handles.
pub open spec fn gossip_targets_of(s: Seq<(Seq<char>, PeerModel)>) -> Seq<(Seq<char>, u64)>
    decreases s.len(),
{
    if s.len() == 0 {
        Seq::empty()
    } else {
        let r = gossip_targets_of(s.drop_last());
        if s.last().1.status == PeerStatus::Connected && s.last().1.connection is Some {
            r.push((s.last().0, s.last().1.connection->0))
        } else {
            r
        }
    }
}

/// The health-check targets among `s`: the DIDs of peers not disconnected.
pub open spec fn health_targets_of(s: Seq<(Seq<char>, PeerModel)>) -> Seq<Seq<char>>
    decreases s.len(),
{
    if s.len() == 0 {
        Seq::empty()
    } else {
        let r = health_targets_of(s.drop_last());
        if s.last().1.status != PeerStatus::Disconnected { r.push(s.last().0) } else { r }
    }
}

/// The descriptors of a gossip round: at most `MAX_GOSSIP_BATCH`, the
/// first ones.
pub fn gossip_batch(descriptors: Vec<Descriptor>) -> (res: Vec<Descriptor>)
    ensures
        descriptor_models(res@) == at_most(descriptor_models(descriptors@), MAX_GOSSIP_BATCH as nat),
{
    let mut batch = descriptors;
    let ghost all = descriptor_models(batch@);
    if batch.len() > MAX_GOSSIP_BATCH {
        batch.truncate(MAX_GOSSIP_BATCH);
    }
    assert(descriptor_models(batch@) =~= at_most(all, MAX_GOSSIP_BATCH as nat));
    batch
}

/// The UTF-8 bytes of the names behind the hub advertisement's keys.
pub open spec fn infrastructure_name() -> Seq<u8> { "infrastructure".spec_bytes() }
pub open spec fn infrastructure_hub_name() -> Seq<u8> { "infrastructure/hub".spec_bytes() }

/// A hub's signed self-advertisement carrying the encoded hub metadata
/// `payload`, made at `now`: topic "hub", the `infrastructure/hub` schema,
/// a sequence of the whole seconds of `now` (so that later ones replace
/// earlier ones), a one-hour TTL, and the `infrastructure` and
/// `infrastructure/hub` routing keys.
pub fn self_advertisement_descriptor(keypair: &Keypair, payload: Vec<u8>, now: u64) -> (res: Result<Descriptor, MeshError>)
    ensures
        res matches Ok(d) && {
            &&& d.schema_hash@ == schema_hash_of(infrastructure_hub_name())
            &&& d.topic@ == "hub"@
            &&& d.payload@ == payload@
            &&& d.publisher@ == keypair.identity_view()
            &&& d.timestamp == now
            &&& d.sequence == now / 1_000_000
            &&& d.ttl == 3600
            &&& hash_views(d.routing_keys@) == seq![routing_key_of(infrastructure_name()), routing_key_of(infrastructure_hub_name())]
            &&& id_matches(d@)
            &&& signature_checks(d@)
        },
{
    let routing_keys = vec![routing_key_infrastructure(), routing_key_infrastructure_hub()];
    let ghost rk = routing_keys@;
    assert(hash_views(rk) =~= seq![routing_key_of(infrastructure_name()), routing_key_of(infrastructure_hub_name())]);
    Descriptor::create(keypair, schema_hash_infra_hub(), "hub".to_owned(), payload, now, now / 1_000_000, 3600, routing_keys)
}

/// The descriptors among `s` not published under the DID `own`.
pub open spec fn foreign_advertisements(s: Seq<DescriptorModel>, own: Seq<char>) -> Seq<DescriptorModel>
    decreases s.len(),
{
    if s.len() == 0 {
        Seq::empty()
    } else {
        let r = foreign_advertisements(s.drop_last(), own);
        if did_of(s.last().publisher) != own { r.push(s.last()) } else { r }
    }
}

/// The hub advertisements of other hubs: the descriptors whose publisher's
/// DID differs from this hub's, in order.
pub fn peer_advertisements(hub_identity: &Identity, descriptors: &Vec<Descriptor>) -> (res: Vec<Descriptor>)
    ensures
        descriptor_models(res@) == foreign_advertisements(descriptor_models(descriptors@), did_of(hub_identity@)),
{
    let our_did = hub_identity.did();
    let ghost all = descriptor_models(descriptors@);
    let mut out: Vec<Descriptor> = Vec::new();
    let mut i: usize = 0;
    while i < descriptors.len()
        invariant
            i <= descriptors@.len(),
            all == descriptor_models(descriptors@),
            our_did@ == did_of(hub_identity@),
            descriptor_models(out@) == foreign_advertisements(all.take(i as int), our_did@),
        decreases descriptors.len() - i,
    {
        proof {
            assert(all.take(i + 1).drop_last() =~= all.take(i as int));
        }
        assert(all[i as int] == descriptors@[i as int]@);
        let publisher_did = descriptors[i].publisher.did();
        if !crate::tenant::text_equal(publisher_did.as_str(), our_did.as_str()) {
            let ghost prev = out@;
            out.push(descriptors[i].clone());
            assert(descriptor_models(out@) =~= descriptor_models(prev).push(all[i as int]));
        }
        i = i + 1;
    }
    assert(all.take(all.len() as int) =~= all);
    out
}

/// Whether any of `descriptors` was published under the DID of `identity`.
pub fn advertised_by(descriptors: &Vec<Descriptor>, identity: &Identity) -> (res: bool)
    ensures
        res == exists|i: int| 0 <= i < descriptors@.len() && did_of((#[trigger] descriptors@[i]).publisher@) == did_of(identity@),
{
    let did = identity.did();
    let mut i: usize = 0;
    while i < descriptors.len()
        invariant
            i <= descriptors@.len(),
            did@ == did_of(identity@),
            forall|k: int| 0 <= k < i ==> did_of((#[trigger] descriptors@[k]).publisher@) != did_of(identity@),
        decreases descriptors.len() - i,
    {
        let publisher_did = descriptors[i].publisher.did();
        if crate::tenant::text_equal(publisher_did.as_str(), did.as_str()) {
            return true;
        }
        i = i + 1;
    }
    false
}

/// The FIND_VALUE a hub sends a seed peer for the hub advertisements it
/// knows: the `infrastructure/hub` key, up to 50 results, no filters.
pub fn hub_ads_request(sender: &Identity, sender_addr: &NodeAddr) -> (res: FindValue)
    ensures
        res.sender@ == sender@,
        res.sender_addr@ == sender_addr@,
        res.key@ == routing_key_of(infrastructure_hub_name()),
        res.max_results == 50,
        res.filters is None,
{
    FindValue {
        sender: sender.clone(),
        sender_addr: sender_addr.clone(),
        key: routing_key_infrastructure_hub(),
        max_results: 50,
        filters: None,
    }
}

} // verus!
