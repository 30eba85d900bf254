//! Per-IP and per-identity sliding-window rate limiting for hub operations.
//!
//! Each (key, operation) pair keeps the times of its admitted requests,
//! oldest first. A request is admitted when, after the times older than the
//! window are dropped from the front, fewer than the limit remain.

use vstd::prelude::*;
use vstd::pervasive::VecAdditionalExecFns;
use crate::assoc::{
    assoc_map, filter_values, has_key, keys_unique, value_or, lemma_assoc_at, lemma_assoc_empty, lemma_assoc_len,
    lemma_assoc_missing, lemma_assoc_prefix_push, lemma_assoc_push, lemma_assoc_set, lemma_filter_values_insert,
};
use crate::bytes::{bytes_equal, copy_bytes};
use crate::identity::{Identity, did_of};
use crate::index_keys::{identity_bytes, identity_key};
use crate::network::{IpAddress, ip_key, ip_key_bytes};
use crate::primitives::clock_reading;

verus! {

/// Operation types for rate limiting granularity.
#[derive(Debug, Clone, Copy, PartialEq, Eq, Structural, Hash)]
pub enum Operation {
    Connect,
    Store,
    Query,
}

/// The name of an operation.
pub open spec fn operation_name(op: Operation) -> Seq<char> {
    match op {
        Operation::Connect => "connect"@,
        Operation::Store => "store"@,
        Operation::Query => "query"@,
    }
}

impl Operation {
    /// The name of this operation.
    pub fn name(&self) -> (res: String)
        ensures
            res@ == operation_name(*self),
    {
        match self {
            Operation::Connect => "connect".to_owned(),
            Operation::Store => "store".to_owned(),
            Operation::Query => "query".to_owned(),
        }
    }
}

/// The metrics label of an operation: its name, and nothing that names a
/// tenant or publisher.
#[derive(Debug, Clone, PartialEq, Eq, Hash)]
pub struct OperationLabel {
    pub operation: String,
}

impl OperationLabel {
    /// The label of operation `op`.
    pub fn for_operation(op: Operation) -> (res: OperationLabel)
        ensures
            res.operation@ == operation_name(op),
    {
        OperationLabel { operation: op.name() }
    }
}

/// A limit per operation; an operation without one is not limited.
#[derive(Debug, Clone, Copy)]
pub struct OperationLimits {
    connect: Option<u32>,
    store: Option<u32>,
    query: Option<u32>,
}

impl OperationLimits {
    /// The limit of `op`, if it has one.
    pub closed spec fn limit(&self, op: Operation) -> Option<u32> {
        match op {
            Operation::Connect => self.connect,
            Operation::Store => self.store,
            Operation::Query => self.query,
        }
    }

    /// No operation limited.
    pub fn new() -> (res: OperationLimits)
        ensures
            forall|op: Operation| #[trigger] res.limit(op) is None,
    {
        OperationLimits { connect: None, store: None, query: None }
    }

    /// Limit `op` to `limit` requests per window.
    pub fn insert(&mut self, op: Operation, limit: u32)
        ensures
            final(self).limit(op) == Some(limit),
            forall|other: Operation| other != op ==> #[trigger] final(self).limit(other) == old(self).limit(other),
    {
        match op {
            Operation::Connect => self.connect = Some(limit),
            Operation::Store => self.store = Some(limit),
            Operation::Query => self.query = Some(limit),
        }
    }

    /// The limit of `op`, if it has one.
    pub fn get(&self, op: Operation) -> (res: Option<u32>)
        ensures
            res == self.limit(op),
    {
        match op {
            Operation::Connect => self.connect,
            Operation::Store => self.store,
            Operation::Query => self.query,
        }
    }
}

/// Per-operation rate limits configuration.
#[derive(Debug, Clone, Copy)]
pub struct RateLimitConfig {
    /// Max operations per window per IP.
    pub ip_limits: OperationLimits,
    /// Max operations per window per identity.
    pub identity_limits: OperationLimits,
    /// Window duration in seconds.
    pub window_secs: u64,
}

impl Default for RateLimitConfig {
    fn default() -> (res: Self)
        ensures
            res.ip_limits.limit(Operation::Connect) == Some(60u32),
            res.ip_limits.limit(Operation::Store) == Some(30u32),
            res.ip_limits.limit(Operation::Query) == Some(300u32),
            res.identity_limits.limit(Operation::Connect) is None,
            res.identity_limits.limit(Operation::Store) == Some(20u32),
            res.identity_limits.limit(Operation::Query) == Some(200u32),
            res.window_secs == 60,
    {
        let mut ip_limits = OperationLimits::new();
        ip_limits.insert(Operation::Connect, 60);
        ip_limits.insert(Operation::Store, 30);
        ip_limits.insert(Operation::Query, 300);
        let mut identity_limits = OperationLimits::new();
        identity_limits.insert(Operation::Store, 20);
        identity_limits.insert(Operation::Query, 200);
        RateLimitConfig { ip_limits, identity_limits, window_secs: 60 }
    }
}

/// Rate limiting errors.
#[derive(Debug)]
pub enum RateLimitError {
    IpRateLimited { ip: IpAddress, operation: Operation, limit: u32 },
    IdentityRateLimited { did: String, operation: Operation, limit: u32 },
}

/// Monitoring stats for the rate limiter.
#[derive(Debug, Clone, Copy)]
pub struct RateLimitStats {
    /// Number of tracked IPs.
    pub tracked_ips: usize,
    /// Number of tracked identities.
    pub tracked_identities: usize,
}

/// Whether a request made at `t` is older than the window at `now`.
pub open spec fn stale(t: u64, now: u64, window_micros: int) -> bool {
    (if now >= t { now - t } else { 0 }) > window_micros
}

/// The times left after dropping stale ones from the front.
pub open spec fn drop_stale(s: Seq<u64>, now: u64, window_micros: int) -> Seq<u64>
    decreases s.len(),
{
    if s.len() > 0 && stale(s[0], now, window_micros) {
        drop_stale(s.drop_first(), now, window_micros)
    } else {
        s
    }
}

/// The window length in microseconds.
pub open spec fn micros(secs: u64) -> int {
    secs * 1_000_000
}

/// The recorded times of `op` for `key`.
pub open spec fn window_of(m: Map<Seq<u8>, Map<Operation, Seq<u64>>>, key: Seq<u8>, op: Operation) -> Seq<u64> {
    value_or(value_or(m, key, Map::empty()), op, Seq::empty())
}

/// Whether a request of `op` by `key` at `now` is admitted under `limit`.
pub open spec fn admits(
    m: Map<Seq<u8>, Map<Operation, Seq<u64>>>,
    key: Seq<u8>,
    op: Operation,
    limit: u32,
    now: u64,
    window_micros: int,
) -> bool {
    drop_stale(window_of(m, key, op), now, window_micros).len() < limit
}

/// The recorded times after a request of `op` by `key` at `now`: stale
/// times are dropped, and the request is recorded when admitted.
pub open spec fn after_check(
    m: Map<Seq<u8>, Map<Operation, Seq<u64>>>,
    key: Seq<u8>,
    op: Operation,
    limit: u32,
    now: u64,
    window_micros: int,
) -> Map<Seq<u8>, Map<Operation, Seq<u64>>> {
    let p = drop_stale(window_of(m, key, op), now, window_micros);
    m.insert(key, value_or(m, key, Map::empty()).insert(op, if p.len() < limit { p.push(now) } else { p }))
}

/// The windows of one key after dropping stale times: windows left empty
/// disappear.
pub open spec fn pruned_ops(om: Map<Operation, Seq<u64>>, now: u64, cutoff: int) -> Map<Operation, Seq<u64>> {
    filter_values(om, |w: Seq<u64>| drop_stale(w, now, cutoff).len() > 0, |w: Seq<u64>| drop_stale(w, now, cutoff))
}

/// The tables after cleanup: stale times dropped, empty windows and keys
/// without windows removed.
pub open spec fn cleaned(m: Map<Seq<u8>, Map<Operation, Seq<u64>>>, now: u64, cutoff: int) -> Map<Seq<u8>, Map<Operation, Seq<u64>>> {
    filter_values(
        m,
        |om: Map<Operation, Seq<u64>>| exists|op: Operation| #[trigger] pruned_ops(om, now, cutoff).contains_key(op),
        |om: Map<Operation, Seq<u64>>| pruned_ops(om, now, cutoff),
    )
}

/// The recorded times of one operation.
#[derive(Debug)]
struct OpWindow {
    op: Operation,
    times: Vec<u64>,
}

impl View for OpWindow {
    type V = (Operation, Seq<u64>);

    closed spec fn view(&self) -> (Operation, Seq<u64>) {
        (self.op, self.times@)
    }
}

/// The windows of one key.
#[derive(Debug)]
struct KeyWindows {
    key: Vec<u8>,
    ops: Vec<OpWindow>,
}

impl View for KeyWindows {
    type V = (Seq<u8>, Map<Operation, Seq<u64>>);

    closed spec fn view(&self) -> (Seq<u8>, Map<Operation, Seq<u64>>) {
        (self.key@, assoc_map(self.op_models()))
    }
}

/// The windows of every key.
#[derive(Debug)]
struct WindowTable {
    entries: Vec<KeyWindows>,
}

/// Whether `t` is older than the window at `now`.
fn is_stale(t: u64, now: u64, window_secs: u64) -> (res: bool)
    ensures
        res == stale(t, now, micros(window_secs)),
{
    let age = now.saturating_sub(t);
    (age as u128) > (window_secs as u128) * 1_000_000
}

proof fn lemma_drop_stale_skip(s: Seq<u64>, now: u64, w: int, k: int)
    requires
        0 <= k <= s.len(),
        forall|j: int| 0 <= j < k ==> stale(#[trigger] s[j], now, w),
        k < s.len() ==> !stale(s[k], now, w),
    ensures
        drop_stale(s, now, w) == s.skip(k),
    decreases k,
{
    if k == 0 {
        assert(s.skip(0) =~= s);
    } else {
        assert forall|j: int| 0 <= j < k - 1 implies stale(#[trigger] s.drop_first()[j], now, w) by {
            assert(s.drop_first()[j] == s[j + 1]);
        }
        if k < s.len() {
            assert(s.drop_first()[k - 1] == s[k]);
        }
        lemma_drop_stale_skip(s.drop_first(), now, w, k - 1);
        assert(s.drop_first().skip(k - 1) =~= s.skip(k));
    }
}

proof fn lemma_drop_stale_len(s: Seq<u64>, now: u64, w: int)
    ensures
        drop_stale(s, now, w).len() <= s.len(),
    decreases s.len(),
{
    if s.len() > 0 && stale(s[0], now, w) {
        lemma_drop_stale_len(s.drop_first(), now, w);
    }
}

/// The times left after dropping stale ones from the front.
fn drop_stale_times(times: &Vec<u64>, now: u64, window_secs: u64) -> (res: Vec<u64>)
    ensures
        res@ == drop_stale(times@, now, micros(window_secs)),
{
    let mut k: usize = 0;
    while k < times.len() && is_stale(times[k], now, window_secs)
        invariant
            k <= times@.len(),
            forall|j: int| 0 <= j < k ==> stale(#[trigger] times@[j], now, micros(window_secs)),
        decreases times.len() - k,
    {
        k = k + 1;
    }
    proof {
        lemma_drop_stale_skip(times@, now, micros(window_secs), k as int);
    }
    let mut out: Vec<u64> = Vec::new();
    let mut i: usize = k;
    while i < times.len()
        invariant
            k <= i <= times@.len(),
            out@ == times@.subrange(k as int, i as int),
        decreases times.len() - i,
    {
        out.push(times[i]);
        assert(times@.subrange(k as int, i + 1) =~= times@.subrange(k as int, i as int).push(times@[i as int]));
        i = i + 1;
    }
    assert(times@.subrange(k as int, times@.len() as int) =~= times@.skip(k as int));
    out
}

impl KeyWindows {
    spec fn op_models(&self) -> Seq<(Operation, Seq<u64>)> {
        self.ops@.map_values(|w: OpWindow| w@)
    }

    spec fn wf(&self) -> bool {
        &&& keys_unique(self.op_models())
        &&& forall|i: int| 0 <= i < self.op_models().len() ==> (#[trigger] self.op_models()[i]).1.len() <= u32::MAX
    }

    /// Check and record a request of `op` at `now` against `limit`.
    fn check_op(&mut self, op: Operation, limit: u32, now: u64, window_secs: u64) -> (res: bool)
        requires
            old(self).wf(),
        ensures
            final(self).wf(),
            final(self)@.0 == old(self)@.0,
            res == (drop_stale(value_or(old(self)@.1, op, Seq::empty()), now, micros(window_secs)).len() < limit),
            final(self)@.1 == old(self)@.1.insert(
                op,
                if res {
                    drop_stale(value_or(old(self)@.1, op, Seq::empty()), now, micros(window_secs)).push(now)
                } else {
                    drop_stale(value_or(old(self)@.1, op, Seq::empty()), now, micros(window_secs))
                },
            ),
    {
        let ghost before = self.op_models();
        let mut idx: usize = 0;
        let mut found = false;
        while !found && idx < self.ops.len()
            invariant
                idx <= self.ops@.len(),
                before == self.op_models(),
                found ==> idx < self.ops@.len() && self.ops@[idx as int]@.0 == op,
                forall|k: int| 0 <= k < idx ==> (#[trigger] self.ops@[k])@.0 != op,
            decreases self.ops.len() - idx, if found { 0int } else { 1int },
        {
            if self.ops[idx].op == op {
                found = true;
            } else {
                idx = idx + 1;
            }
        }
        let ghost prior: Seq<u64> = Seq::empty();
        if found {
            proof {
                assert(before[idx as int] == self.ops@[idx as int]@);
                lemma_assoc_at(before, idx as int);
                prior = before[idx as int].1;
            }
        } else {
            proof {
                assert forall|k: int| 0 <= k < before.len() implies (#[trigger] before[k]).0 != op by {
                    assert(before[k] == self.ops@[k]@);
                }
                lemma_assoc_missing(before, op);
                assert(!has_key(before, op));
                lemma_assoc_push(before, op, Seq::empty());
            }
            self.ops.push(OpWindow { op, times: Vec::new() });
            assert(self.op_models() =~= before.push((op, Seq::<u64>::empty())));
        }
        let ghost mid = self.op_models();
        assert(prior == value_or(old(self)@.1, op, Seq::empty()));
        assert(mid[idx as int] == (op, prior));
        let mut window = OpWindow { op, times: Vec::new() };
        self.ops.set_and_swap(idx, &mut window);
        let mut kept = drop_stale_times(&window.times, now, window_secs);
        proof {
            lemma_drop_stale_len(prior, now, micros(window_secs));
        }
        let allowed = (kept.len() as u64) < (limit as u64);
        if allowed {
            kept.push(now);
        }
        let ghost new_value = kept@;
        self.ops.set(idx, OpWindow { op, times: kept });
        proof {
            assert(self.op_models() =~= mid.update(idx as int, (mid[idx as int].0, new_value)));
            lemma_assoc_set(mid, idx as int, new_value);
            assert forall|i: int| 0 <= i < self.op_models().len() implies (#[trigger] self.op_models()[i]).1.len() <= u32::MAX by {
                if i != idx {
                    assert(self.op_models()[i] == mid[i]);
                    if i < before.len() {
                        assert(mid[i] == before[i]);
                    }
                }
            }
        }
        allowed
    }

    /// These windows after dropping stale times, without empty windows.
    fn pruned(&self, now: u64, cutoff_secs: u64) -> (res: KeyWindows)
        requires
            self.wf(),
        ensures
            res.wf(),
            res@.0 == self@.0,
            res@.1 == pruned_ops(self@.1, now, micros(cutoff_secs)),
    {
        let ghost old_models = self.op_models();
        let ghost c = micros(cutoff_secs);
        let mut kept: Vec<OpWindow> = Vec::new();
        proof {
            lemma_assoc_empty(old_models.take(0));
            lemma_assoc_empty(kept@.map_values(|w: OpWindow| w@));
            assert(pruned_ops(Map::<Operation, Seq<u64>>::empty(), now, c) =~= Map::<Operation, Seq<u64>>::empty());
        }
        let mut i: usize = 0;
        while i < self.ops.len()
            invariant
                i <= self.ops@.len(),
                old_models == self.op_models(),
                self.wf(),
                c == micros(cutoff_secs),
                keys_unique(kept@.map_values(|w: OpWindow| w@)),
                assoc_map(kept@.map_values(|w: OpWindow| w@)) == pruned_ops(assoc_map(old_models.take(i as int)), now, c),
                forall|a: int| 0 <= a < kept@.len() ==> has_key(old_models.take(i as int), (#[trigger] kept@[a])@.0),
                forall|a: int| 0 <= a < kept@.len() ==> (#[trigger] kept@[a])@.1.len() <= u32::MAX,
            decreases self.ops.len() - i,
        {
            let ghost kept_models = kept@.map_values(|w: OpWindow| w@);
            let ghost cur = old_models[i as int];
            proof {
                assert(cur == self.ops@[i as int]@);
                lemma_assoc_prefix_push(old_models, i as int);
                lemma_filter_values_insert(
                    assoc_map(old_models.take(i as int)), cur.0, cur.1,
                    |w: Seq<u64>| drop_stale(w, now, c).len() > 0, |w: Seq<u64>| drop_stale(w, now, c),
                );
                lemma_drop_stale_len(cur.1, now, c);
            }
            let times = drop_stale_times(&self.ops[i].times, now, cutoff_secs);
            if times.len() > 0 {
                proof {
                    if has_key(kept_models, cur.0) {
                        let a = choose|a: int| 0 <= a < kept_models.len() && (#[trigger] kept_models[a]).0 == cur.0;
                        assert(kept_models[a] == kept@[a]@);
                        assert(has_key(old_models.take(i as int), cur.0));
                    }
                    lemma_assoc_push(kept_models, cur.0, times@);
                }
                kept.push(OpWindow { op: self.ops[i].op, times });
                proof {
                    assert(kept@.map_values(|w: OpWindow| w@) =~= kept_models.push((cur.0, drop_stale(cur.1, now, c))));
                }
            }
            proof {
                assert forall|a: int| 0 <= a < kept@.len() implies has_key(old_models.take(i + 1), (#[trigger] kept@[a])@.0) by {
                    if a < kept_models.len() {
                        assert(kept_models[a] == kept@[a]@);
                        let b = choose|b: int| 0 <= b < old_models.take(i as int).len() && (#[trigger] old_models.take(i as int)[b]).0 == kept@[a]@.0;
                        assert(old_models.take(i + 1)[b] == old_models.take(i as int)[b]);
                    } else {
                        assert(old_models.take(i + 1)[i as int] == cur);
                    }
                }
            }
            i = i + 1;
        }
        assert(old_models.take(old_models.len() as int) =~= old_models);
        let res = KeyWindows { key: copy_bytes(&self.key), ops: kept };
        assert(res.op_models() == kept@.map_values(|w: OpWindow| w@));
        res
    }
}

impl WindowTable {
    spec fn models(&self) -> Seq<(Seq<u8>, Map<Operation, Seq<u64>>)> {
        self.entries@.map_values(|e: KeyWindows| e@)
    }

    spec fn view_map(&self) -> Map<Seq<u8>, Map<Operation, Seq<u64>>> {
        assoc_map(self.models())
    }

    spec fn wf(&self) -> bool {
        &&& keys_unique(self.models())
        &&& forall|i: int| 0 <= i < self.entries@.len() ==> (#[trigger] self.entries@[i]).wf()
    }

    fn new() -> (res: WindowTable)
        ensures
            res.wf(),
            res.view_map() == Map::<Seq<u8>, Map<Operation, Seq<u64>>>::empty(),
    {
        let res = WindowTable { entries: Vec::new() };
        proof {
            lemma_assoc_empty(res.models());
        }
        res
    }

    /// Check and record a request of `op` by `key` at `now` against `limit`.
    fn check_and_record(&mut self, key: &Vec<u8>, op: Operation, limit: u32, now: u64, window_secs: u64) -> (res: bool)
        requires
            old(self).wf(),
        ensures
            final(self).wf(),
            res == admits(old(self).view_map(), key@, op, limit, now, micros(window_secs)),
            final(self).view_map() == after_check(old(self).view_map(), key@, op, limit, now, micros(window_secs)),
    {
        let ghost before = self.models();
        let mut idx: usize = 0;
        let mut found = false;
        while !found && idx < self.entries.len()
            invariant
                idx <= self.entries@.len(),
                before == self.models(),
                found ==> idx < self.entries@.len() && self.entries@[idx as int]@.0 == key@,
                forall|k: int| 0 <= k < idx ==> (#[trigger] self.entries@[k])@.0 != key@,
            decreases self.entries.len() - idx, if found { 0int } else { 1int },
        {
            if bytes_equal(&self.entries[idx].key, key) {
                found = true;
            } else {
                idx = idx + 1;
            }
        }
        if found {
            proof {
                assert(before[idx as int] == self.entries@[idx as int]@);
                lemma_assoc_at(before, idx as int);
            }
        } else {
            proof {
                assert forall|k: int| 0 <= k < before.len() implies (#[trigger] before[k]).0 != key@ by {
                    assert(before[k] == self.entries@[k]@);
                }
                lemma_assoc_missing(before, key@);
                lemma_assoc_push(before, key@, Map::empty());
            }
            let fresh = KeyWindows { key: copy_bytes(key), ops: Vec::new() };
            proof {
                lemma_assoc_empty(fresh.op_models());
            }
            self.entries.push(fresh);
            assert(self.models() =~= before.push((key@, Map::<Operation, Seq<u64>>::empty())));
        }
        let ghost mid = self.models();
        assert(mid[idx as int].1 == value_or(old(self).view_map(), key@, Map::empty()));
        let mut entry = KeyWindows { key: Vec::new(), ops: Vec::new() };
        self.entries.set_and_swap(idx, &mut entry);
        assert(entry.wf());
        let allowed = entry.check_op(op, limit, now, window_secs);
        let ghost new_value = entry@.1;
        self.entries.set(idx, entry);
        proof {
            assert(self.models() =~= mid.update(idx as int, (mid[idx as int].0, new_value)));
            lemma_assoc_set(mid, idx as int, new_value);
        }
        allowed
    }

    /// Drop stale times everywhere, then empty windows and keys without
    /// windows.
    fn cleanup(&mut self, now: u64, cutoff_secs: u64)
        requires
            old(self).wf(),
        ensures
            final(self).wf(),
            final(self).view_map() == cleaned(old(self).view_map(), now, micros(cutoff_secs)),
    {
        let ghost old_models = self.models();
        let ghost c = micros(cutoff_secs);
        let ghost keep = |om: Map<Operation, Seq<u64>>| exists|op: Operation| #[trigger] pruned_ops(om, now, c).contains_key(op);
        let ghost f = |om: Map<Operation, Seq<u64>>| pruned_ops(om, now, c);
        let mut kept: Vec<KeyWindows> = Vec::new();
        proof {
            lemma_assoc_empty(old_models.take(0));
            lemma_assoc_empty(kept@.map_values(|e: KeyWindows| e@));
            assert(filter_values(Map::<Seq<u8>, Map<Operation, Seq<u64>>>::empty(), keep, f)
                =~= Map::<Seq<u8>, Map<Operation, Seq<u64>>>::empty());
        }
        let mut i: usize = 0;
        while i < self.entries.len()
            invariant
                i <= self.entries@.len(),
                old_models == self.models(),
                self.wf(),
                c == micros(cutoff_secs),
                keep == |om: Map<Operation, Seq<u64>>| exists|op: Operation| #[trigger] pruned_ops(om, now, c).contains_key(op),
                f == |om: Map<Operation, Seq<u64>>| pruned_ops(om, now, c),
                keys_unique(kept@.map_values(|e: KeyWindows| e@)),
                assoc_map(kept@.map_values(|e: KeyWindows| e@)) == filter_values(assoc_map(old_models.take(i as int)), keep, f),
                forall|a: int| 0 <= a < kept@.len() ==> has_key(old_models.take(i as int), (#[trigger] kept@[a])@.0),
                forall|a: int| 0 <= a < kept@.len() ==> (#[trigger] kept@[a]).wf(),
            decreases self.entries.len() - i,
        {
            let ghost kept_models = kept@.map_values(|e: KeyWindows| e@);
            let ghost cur = old_models[i as int];
            proof {
                assert(cur == self.entries@[i as int]@);
                lemma_assoc_prefix_push(old_models, i as int);
                lemma_filter_values_insert(assoc_map(old_models.take(i as int)), cur.0, cur.1, keep, f);
            }
            let p = self.entries[i].pruned(now, cutoff_secs);
            if p.ops.len() > 0 {
                proof {
                    lemma_assoc_at(p.op_models(), 0);
                    assert(pruned_ops(cur.1, now, c).contains_key(p.op_models()[0].0));
                    assert(keep(cur.1));
                    if has_key(kept_models, cur.0) {
                        let a = choose|a: int| 0 <= a < kept_models.len() && (#[trigger] kept_models[a]).0 == cur.0;
                        assert(kept_models[a] == kept@[a]@);
                        assert(has_key(old_models.take(i as int), cur.0));
                    }
                    lemma_assoc_push(kept_models, cur.0, p@.1);
                }
                kept.push(p);
                proof {
                    assert(kept@.map_values(|e: KeyWindows| e@) =~= kept_models.push((cur.0, f(cur.1))));
                }
            } else {
                proof {
                    lemma_assoc_empty(p.op_models());
                    if keep(cur.1) {
                        let op = choose|op: Operation| #[trigger] pruned_ops(cur.1, now, c).contains_key(op);
                        assert(p@.1.contains_key(op));
                    }
                }
            }
            proof {
                assert forall|a: int| 0 <= a < kept@.len() implies has_key(old_models.take(i + 1), (#[trigger] kept@[a])@.0) by {
                    if a < kept_models.len() {
                        assert(kept_models[a] == kept@[a]@);
                        let b = choose|b: int| 0 <= b < old_models.take(i as int).len() && (#[trigger] old_models.take(i as int)[b]).0 == kept@[a]@.0;
                        assert(old_models.take(i + 1)[b] == old_models.take(i as int)[b]);
                    } else {
                        assert(old_models.take(i + 1)[i as int] == cur);
                    }
                }
            }
            i = i + 1;
        }
        assert(old_models.take(old_models.len() as int) =~= old_models);
        self.entries = kept;
    }

    /// Number of keys tracked.
    fn len(&self) -> (res: usize)
        requires
            self.wf(),
        ensures
            res == self.view_map().dom().len(),
    {
        proof {
            lemma_assoc_len(self.models());
        }
        self.entries.len()
    }
}

/// Thread-unaware sliding window rate limiter for hub operations; callers
/// that share it across tasks hold it behind a lock.
#[derive(Debug)]
pub struct HubRateLimiter {
    config: RateLimitConfig,
    ip_windows: WindowTable,
    identity_windows: WindowTable,
}

impl HubRateLimiter {
    /// The limiter's configuration.
    pub closed spec fn config_view(&self) -> RateLimitConfig {
        self.config
    }

    /// The recorded request times per IP key and operation.
    pub closed spec fn ip_view(&self) -> Map<Seq<u8>, Map<Operation, Seq<u64>>> {
        self.ip_windows.view_map()
    }

    /// The recorded request times per identity key and operation.
    pub closed spec fn identity_view(&self) -> Map<Seq<u8>, Map<Operation, Seq<u64>>> {
        self.identity_windows.view_map()
    }

    /// The limiter's invariant.
    pub closed spec fn wf(&self) -> bool {
        self.ip_windows.wf() && self.identity_windows.wf()
    }

    /// Create a new rate limiter with the given configuration.
    pub fn new(config: RateLimitConfig) -> (res: HubRateLimiter)
        ensures
            res.wf(),
            res.config_view() == config,
            res.ip_view() == Map::<Seq<u8>, Map<Operation, Seq<u64>>>::empty(),
            res.identity_view() == Map::<Seq<u8>, Map<Operation, Seq<u64>>>::empty(),
    {
        HubRateLimiter { config, ip_windows: WindowTable::new(), identity_windows: WindowTable::new() }
    }

    /// Check an IP's limit for `op` at `now`: operations without a limit
    /// pass untracked; otherwise the request is recorded when admitted and
    /// refused when the IP's window is full.
    pub fn check_ip_at(&mut self, ip: IpAddress, op: Operation, now: u64) -> (res: Result<(), RateLimitError>)
        requires
            old(self).wf(),
        ensures
            final(self).wf(),
            final(self).config_view() == old(self).config_view(),
            final(self).identity_view() == old(self).identity_view(),
            match old(self).config_view().ip_limits.limit(op) {
                None => res is Ok && final(self).ip_view() == old(self).ip_view(),
                Some(limit) => {
                    &&& (res is Ok <==> admits(old(self).ip_view(), ip_key(ip), op, limit, now, micros(old(self).config_view().window_secs)))
                    &&& (res is Err ==> res == Err::<(), RateLimitError>(RateLimitError::IpRateLimited { ip, operation: op, limit }))
                    &&& final(self).ip_view() == after_check(old(self).ip_view(), ip_key(ip), op, limit, now, micros(old(self).config_view().window_secs))
                },
            },
    {
        let limit = match self.config.ip_limits.get(op) {
            Some(l) => l,
            None => {
                return Ok(());
            },
        };
        let key = ip_key_bytes(&ip);
        if self.ip_windows.check_and_record(&key, op, limit, now, self.config.window_secs) {
            Ok(())
        } else {
            Err(RateLimitError::IpRateLimited { ip, operation: op, limit })
        }
    }

    /// Check an identity's limit for `op` at `now`, as `check_ip_at` does
    /// for IPs; a refusal names the identity's DID.
    pub fn check_identity_at(&mut self, identity: &Identity, op: Operation, now: u64) -> (res: Result<(), RateLimitError>)
        requires
            old(self).wf(),
        ensures
            final(self).wf(),
            final(self).config_view() == old(self).config_view(),
            final(self).ip_view() == old(self).ip_view(),
            match old(self).config_view().identity_limits.limit(op) {
                None => res is Ok && final(self).identity_view() == old(self).identity_view(),
                Some(limit) => {
                    &&& (res is Ok <==> admits(old(self).identity_view(), identity_key(identity@), op, limit, now,
                        micros(old(self).config_view().window_secs)))
                    &&& (res matches Err(e) ==> (e matches RateLimitError::IdentityRateLimited { did, operation, limit: l }
                        && did@ == did_of(identity@) && operation == op && l == limit))
                    &&& final(self).identity_view() == after_check(old(self).identity_view(), identity_key(identity@), op, limit, now,
                        micros(old(self).config_view().window_secs))
                },
            },
    {
        let limit = match self.config.identity_limits.get(op) {
            Some(l) => l,
            None => {
                return Ok(());
            },
        };
        let key = identity_bytes(identity);
        if self.identity_windows.check_and_record(&key, op, limit, now, self.config.window_secs) {
            Ok(())
        } else {
            Err(RateLimitError::IdentityRateLimited { did: identity.did(), operation: op, limit })
        }
    }

    /// Check both limits at `now`, the IP's first: a refused IP leaves the
    /// identity's window untouched.
    pub fn check_at(&mut self, ip: IpAddress, identity: &Identity, op: Operation, now: u64) -> (res: Result<(), RateLimitError>)
        requires
            old(self).wf(),
        ensures
            final(self).wf(),
            final(self).config_view() == old(self).config_view(),
            check_outcome(old(self).config_view(), old(self).ip_view(), old(self).identity_view(),
                final(self).ip_view(), final(self).identity_view(), ip, identity@, op, now, res),
    {
        match self.check_ip_at(ip, op, now) {
            Ok(()) => {},
            Err(e) => {
                return Err(e);
            },
        }
        self.check_identity_at(identity, op, now)
    }

    /// Drop, as of `now`, every time older than twice the window, then the
    /// windows and keys left empty.
    pub fn cleanup_at(&mut self, now: u64)
        requires
            old(self).wf(),
            old(self).config_view().window_secs * 2 <= u64::MAX,
        ensures
            final(self).wf(),
            final(self).config_view() == old(self).config_view(),
            final(self).ip_view() == cleaned(old(self).ip_view(), now, micros((old(self).config_view().window_secs * 2) as u64)),
            final(self).identity_view() == cleaned(old(self).identity_view(), now, micros((old(self).config_view().window_secs * 2) as u64)),
    {
        let cutoff = self.config.window_secs * 2;
        self.ip_windows.cleanup(now, cutoff);
        self.identity_windows.cleanup(now, cutoff);
    }

    /// The number of IPs and identities tracked.
    pub fn stats(&self) -> (res: RateLimitStats)
        requires
            self.wf(),
        ensures
            res.tracked_ips == self.ip_view().dom().len(),
            res.tracked_identities == self.identity_view().dom().len(),
    {
        RateLimitStats { tracked_ips: self.ip_windows.len(), tracked_identities: self.identity_windows.len() }
    }
}

/// What checking both limits at `now` does to the windows and answers: the
/// IP's window is charged first; a refused IP leaves the identity's window
/// untouched and is reported; otherwise the identity's window is charged and
/// decides.
pub open spec fn check_outcome(
    config: RateLimitConfig,
    ipv: Map<Seq<u8>, Map<Operation, Seq<u64>>>,
    idv: Map<Seq<u8>, Map<Operation, Seq<u64>>>,
    new_ipv: Map<Seq<u8>, Map<Operation, Seq<u64>>>,
    new_idv: Map<Seq<u8>, Map<Operation, Seq<u64>>>,
    ip: IpAddress,
    identity: (u8, Seq<u8>),
    op: Operation,
    now: u64,
    res: Result<(), RateLimitError>,
) -> bool {
    &&& new_ipv == match config.ip_limits.limit(op) {
        None => ipv,
        Some(limit) => after_check(ipv, ip_key(ip), op, limit, now, micros(config.window_secs)),
    }
    &&& if ip_refused(config, ipv, ip, op, now) {
        &&& res == Err::<(), RateLimitError>(RateLimitError::IpRateLimited {
            ip,
            operation: op,
            limit: config.ip_limits.limit(op)->0,
        })
        &&& new_idv == idv
    } else {
        &&& (res is Ok <==> !identity_refused(config, idv, identity, op, now))
        &&& (res matches Err(e) ==> (e matches RateLimitError::IdentityRateLimited { did, operation, limit }
            && did@ == did_of(identity) && operation == op && Some(limit) == config.identity_limits.limit(op)))
        &&& new_idv == match config.identity_limits.limit(op) {
            None => idv,
            Some(limit) => after_check(idv, identity_key(identity), op, limit, now, micros(config.window_secs)),
        }
    }
}

/// Whether the IP limit refuses a request.
pub open spec fn ip_refused(
    config: RateLimitConfig,
    windows: Map<Seq<u8>, Map<Operation, Seq<u64>>>,
    ip: IpAddress,
    op: Operation,
    now: u64,
) -> bool {
    config.ip_limits.limit(op) matches Some(limit) && !admits(windows, ip_key(ip), op, limit, now, micros(config.window_secs))
}

/// Whether the identity limit refuses a request.
pub open spec fn identity_refused(
    config: RateLimitConfig,
    windows: Map<Seq<u8>, Map<Operation, Seq<u64>>>,
    identity: (u8, Seq<u8>),
    op: Operation,
    now: u64,
) -> bool {
    config.identity_limits.limit(op) matches Some(limit)
        && !admits(windows, identity_key(identity), op, limit, now, micros(config.window_secs))
}

impl HubRateLimiter {
    /// Check an IP's limit for `op` at the current time (see `check_ip_at`).
    pub fn check_ip(&mut self, ip: IpAddress, op: Operation) -> (res: Result<(), RateLimitError>)
        requires
            old(self).wf(),
        ensures
            final(self).wf(),
            final(self).config_view() == old(self).config_view(),
            final(self).identity_view() == old(self).identity_view(),
            match old(self).config_view().ip_limits.limit(op) {
                None => res is Ok && final(self).ip_view() == old(self).ip_view(),
                Some(limit) => exists|now: u64| clock_reading(now) && {
                    &&& (res is Ok <==> admits(old(self).ip_view(), ip_key(ip), op, limit, now, micros(old(self).config_view().window_secs)))
                    &&& (res is Err ==> res == Err::<(), RateLimitError>(RateLimitError::IpRateLimited { ip, operation: op, limit }))
                    &&& final(self).ip_view() == #[trigger] after_check(old(self).ip_view(), ip_key(ip), op, limit, now,
                        micros(old(self).config_view().window_secs))
                },
            },
    {
        let now = crate::primitives::now_micros();
        self.check_ip_at(ip, op, now)
    }

    /// Check an identity's limit for `op` at the current time (see
    /// `check_identity_at`).
    pub fn check_identity(&mut self, identity: &Identity, op: Operation) -> (res: Result<(), RateLimitError>)
        requires
            old(self).wf(),
        ensures
            final(self).wf(),
            final(self).config_view() == old(self).config_view(),
            final(self).ip_view() == old(self).ip_view(),
            match old(self).config_view().identity_limits.limit(op) {
                None => res is Ok && final(self).identity_view() == old(self).identity_view(),
                Some(limit) => exists|now: u64| clock_reading(now) && {
                    &&& (res is Ok <==> admits(old(self).identity_view(), identity_key(identity@), op, limit, now,
                        micros(old(self).config_view().window_secs)))
                    &&& (res matches Err(e) ==> (e matches RateLimitError::IdentityRateLimited { did, operation, limit: l }
                        && did@ == did_of(identity@) && operation == op && l == limit))
                    &&& final(self).identity_view() == #[trigger] after_check(old(self).identity_view(), identity_key(identity@), op,
                        limit, now, micros(old(self).config_view().window_secs))
                },
            },
    {
        let now = crate::primitives::now_micros();
        self.check_identity_at(identity, op, now)
    }

    /// Check both limits at the current time, the IP's first (see
    /// `check_at`).
    pub fn check(&mut self, ip: IpAddress, identity: &Identity, op: Operation) -> (res: Result<(), RateLimitError>)
        requires
            old(self).wf(),
        ensures
            final(self).wf(),
            final(self).config_view() == old(self).config_view(),
            exists|now: u64| clock_reading(now) && #[trigger] check_outcome(
                old(self).config_view(), old(self).ip_view(), old(self).identity_view(),
                final(self).ip_view(), final(self).identity_view(), ip, identity@, op, now, res,
            ),
    {
        let now = crate::primitives::now_micros();
        self.check_at(ip, identity, op, now)
    }

    /// Drop stale entries as of the current time (see `cleanup_at`).
    pub fn cleanup(&mut self)
        requires
            old(self).wf(),
            old(self).config_view().window_secs * 2 <= u64::MAX,
        ensures
            final(self).wf(),
            final(self).config_view() == old(self).config_view(),
            exists|now: u64| clock_reading(now) && final(self).ip_view() == #[trigger] cleaned(old(self).ip_view(), now,
                micros((old(self).config_view().window_secs * 2) as u64)),
    {
        let now = crate::primitives::now_micros();
        self.cleanup_at(now);
    }
}

/// A window never holds more requests than its limit: once the stale times
/// are gone, an admitted request brings the count to at most the limit and
/// a refused one adds nothing.
pub proof fn lemma_window_within_limit(
    m: Map<Seq<u8>, Map<Operation, Seq<u64>>>,
    key: Seq<u8>,
    op: Operation,
    limit: u32,
    now: u64,
    window_micros: int,
)
    requires
        drop_stale(window_of(m, key, op), now, window_micros).len() <= limit,
    ensures
        window_of(after_check(m, key, op, limit, now, window_micros), key, op).len() <= limit,
        admits(m, key, op, limit, now, window_micros) ==> window_of(after_check(m, key, op, limit, now, window_micros), key, op).last() == now,
{
}

/// A window whose every time is stale admits any request while the limit is
/// positive: the limit resets after the window.
pub proof fn lemma_window_resets(
    m: Map<Seq<u8>, Map<Operation, Seq<u64>>>,
    key: Seq<u8>,
    op: Operation,
    limit: u32,
    now: u64,
    window_micros: int,
)
    requires
        limit > 0,
        forall|j: int| 0 <= j < window_of(m, key, op).len() ==> stale(#[trigger] window_of(m, key, op)[j], now, window_micros),
    ensures
        admits(m, key, op, limit, now, window_micros),
{
    let w = window_of(m, key, op);
    lemma_drop_stale_skip(w, now, window_micros, w.len() as int);
}

/// Within one window, requests are counted one by one: when no time
/// recorded for `key`'s `op` is stale at `later`, nor `now` itself, a
/// request at `now` is admitted exactly when fewer than `limit` are
/// recorded, and at `later` the window holds one more request if it was
/// admitted and as many if not. So, from an empty window, the first `limit`
/// requests within one window are admitted and the next one is refused.
pub proof fn lemma_requests_counted_within_window(
    m: Map<Seq<u8>, Map<Operation, Seq<u64>>>,
    key: Seq<u8>,
    op: Operation,
    limit: u32,
    now: u64,
    later: u64,
    window_micros: int,
)
    requires
        now <= later,
        !stale(now, later, window_micros),
        forall|j: int| 0 <= j < window_of(m, key, op).len() ==> !stale(#[trigger] window_of(m, key, op)[j], later, window_micros),
    ensures
        admits(m, key, op, limit, now, window_micros) <==> window_of(m, key, op).len() < limit,
        drop_stale(window_of(after_check(m, key, op, limit, now, window_micros), key, op), later, window_micros).len()
            == window_of(m, key, op).len() + if window_of(m, key, op).len() < limit { 1int } else { 0int },
{
    let w = window_of(m, key, op);
    if w.len() > 0 {
        assert(!stale(w[0], later, window_micros));
        assert(!stale(w[0], now, window_micros));
    }
    assert(drop_stale(w, now, window_micros) == w);
    let a = window_of(after_check(m, key, op, limit, now, window_micros), key, op);
    assert(a == if w.len() < limit { w.push(now) } else { w });
    if a.len() > 0 {
        if w.len() > 0 {
            assert(a[0] == w[0]);
        } else {
            assert(a[0] == now);
        }
    }
    assert(drop_stale(a, later, window_micros) == a);
}

/// What a rate check at the current time decides for the IP (`check`):
/// for some reading `now` of the system clock, it counts only the IP's
/// requests within the window before `now`. It refuses for the IP only when
/// that window already holds the limit; it does not refuse for the IP when
/// the window holds fewer; and once every recorded request is older than
/// the window, a positive limit admits again.
pub proof fn lemma_current_check_counts_window(
    config: RateLimitConfig,
    ipv: Map<Seq<u8>, Map<Operation, Seq<u64>>>,
    idv: Map<Seq<u8>, Map<Operation, Seq<u64>>>,
    new_ipv: Map<Seq<u8>, Map<Operation, Seq<u64>>>,
    new_idv: Map<Seq<u8>, Map<Operation, Seq<u64>>>,
    ip: IpAddress,
    identity: (u8, Seq<u8>),
    op: Operation,
    res: Result<(), RateLimitError>,
)
    requires
        exists|now: u64| clock_reading(now)
            && #[trigger] check_outcome(config, ipv, idv, new_ipv, new_idv, ip, identity, op, now, res),
    ensures
        exists|now: u64| #[trigger] clock_reading(now) && {
            let w = window_of(ipv, ip_key(ip), op);
            let counted = drop_stale(w, now, micros(config.window_secs)).len();
            &&& (res matches Err(RateLimitError::IpRateLimited { .. })) ==>
                (config.ip_limits.limit(op) matches Some(l) && counted >= l)
            &&& (config.ip_limits.limit(op) matches Some(l) && counted < l) ==>
                !(res matches Err(RateLimitError::IpRateLimited { .. }))
            &&& (config.ip_limits.limit(op) matches Some(l) && l > 0
                && forall|j: int| 0 <= j < w.len() ==> stale(#[trigger] w[j], now, micros(config.window_secs)))
                ==> !(res matches Err(RateLimitError::IpRateLimited { .. }))
        },
{
    let now = choose|now: u64| clock_reading(now)
        && #[trigger] check_outcome(config, ipv, idv, new_ipv, new_idv, ip, identity, op, now, res);
    let w = window_of(ipv, ip_key(ip), op);
    match config.ip_limits.limit(op) {
        Some(l) => {
            if l > 0 && forall|j: int| 0 <= j < w.len() ==> stale(#[trigger] w[j], now, micros(config.window_secs)) {
                lemma_window_resets(ipv, ip_key(ip), op, l, now, micros(config.window_secs));
            }
        },
        None => {},
    }
    assert(clock_reading(now));
}

/// A request for one key and operation leaves every other key's and
/// operation's window as it was.
pub proof fn lemma_check_is_local(
    m: Map<Seq<u8>, Map<Operation, Seq<u64>>>,
    key: Seq<u8>,
    op: Operation,
    limit: u32,
    now: u64,
    window_micros: int,
    other_key: Seq<u8>,
    other_op: Operation,
)
    requires
        other_key != key || other_op != op,
    ensures
        window_of(after_check(m, key, op, limit, now, window_micros), other_key, other_op) == window_of(m, other_key, other_op),
{
}

} // verus!
