//! Descriptor storage: an in-memory store keyed by routing key, with
//! deduplication by publisher, schema and topic, sequence-based replacement,
//! TTL expiry and per-publisher rate limiting.

use vstd::prelude::*;
use vstd::pervasive::VecAdditionalExecFns;
use crate::assoc::{
    assoc_map, has_key, keys_unique, value_or, lemma_assoc_at, lemma_assoc_missing, lemma_assoc_set,
    lemma_assoc_push, lemma_assoc_len, lemma_assoc_map_values, lemma_assoc_prefix_push, lemma_assoc_empty,
};
use crate::descriptor::{
    Descriptor, DescriptorModel, descriptor_valid, is_expired, is_too_far_in_future, id_matches, signature_checks,
    validation_error_text, ttl_out_of_range, MAX_TTL_SECS,
};
use crate::identity::Identity;
use crate::message::{FilterSet, FilterModel};
use crate::error::concat;
use crate::text::decimal_string;
use crate::primitives::clock_reading;
use crate::hash::schema_hash_of;
use crate::cbor::{be_bytes, cbor_bytes, cbor_head, cbor_text, MAJOR_BYTES, MAJOR_MAP, MAJOR_TEXT};
use vstd::string::StringSliceAdditionalSpecFns;
use crate::text::decimal_text;

verus! {

/// Maximum STORE operations per publisher per minute.
pub const RATE_LIMIT_PER_MINUTE: usize = 10;

/// Rate limit window in microseconds (60 seconds).
pub const RATE_LIMIT_WINDOW_MICROS: u64 = 60_000_000;

/// The slot of a descriptor: its publisher, schema hash and topic. A newer
/// descriptor replaces an older one of the same slot.
pub open spec fn dedup_of(d: DescriptorModel) -> ((u8, Seq<u8>), (u8, Seq<u8>), Seq<char>) {
    (d.publisher, d.schema_hash, d.topic)
}

/// The values of a sequence of descriptors.
pub open spec fn descriptor_models(s: Seq<Descriptor>) -> Seq<DescriptorModel> {
    s.map_values(|d: Descriptor| d@)
}

/// Dedup key: identifies a unique descriptor slot per publisher.
#[derive(Debug)]
struct DedupKey {
    publisher: Identity,
    schema_hash: crate::hash::Hash,
    topic: String,
}

impl View for DedupKey {
    type V = ((u8, Seq<u8>), (u8, Seq<u8>), Seq<char>);

    closed spec fn view(&self) -> ((u8, Seq<u8>), (u8, Seq<u8>), Seq<char>) {
        (self.publisher@, self.schema_hash@, self.topic@)
    }
}

impl DedupKey {
    fn from_descriptor(desc: &Descriptor) -> (res: DedupKey)
        ensures
            res@ == dedup_of(desc@),
    {
        DedupKey {
            publisher: desc.publisher.clone(),
            schema_hash: desc.schema_hash.clone(),
            topic: desc.topic.clone(),
        }
    }

    /// Whether `desc` occupies this slot.
    fn matches(&self, desc: &Descriptor) -> (res: bool)
        ensures
            res == (self@ == dedup_of(desc@)),
    {
        self.publisher.same_as(&desc.publisher) && self.schema_hash.same_as(&desc.schema_hash)
            && self.topic == desc.topic
    }
}

/// Whether a STORE made at time `t` still counts at time `now`.
pub open spec fn in_window(t: u64, now: u64) -> bool {
    (if now >= t { now - t } else { 0 }) < RATE_LIMIT_WINDOW_MICROS
}

/// The times in `ts` that still count at `now`, in order.
pub open spec fn recent(ts: Seq<u64>, now: u64) -> Seq<u64>
    decreases ts.len(),
{
    if ts.len() == 0 {
        Seq::empty()
    } else {
        let r = recent(ts.drop_last(), now);
        if in_window(ts.last(), now) { r.push(ts.last()) } else { r }
    }
}

/// The STORE times recorded for one publisher.
#[derive(Debug)]
pub struct PublisherWindow {
    publisher: Identity,
    timestamps: Vec<u64>,
}

impl View for PublisherWindow {
    type V = ((u8, Seq<u8>), Seq<u64>);

    closed spec fn view(&self) -> ((u8, Seq<u8>), Seq<u64>) {
        (self.publisher@, self.timestamps@)
    }
}

/// Per-publisher STORE rate limiting: at most `RATE_LIMIT_PER_MINUTE`
/// stores per publisher within any `RATE_LIMIT_WINDOW_MICROS`.
#[derive(Debug)]
pub struct RateLimiter {
    windows: Vec<PublisherWindow>,
}

impl RateLimiter {
    closed spec fn entries(&self) -> Seq<((u8, Seq<u8>), Seq<u64>)> {
        self.windows@.map_values(|w: PublisherWindow| w@)
    }

    /// The STORE times recorded per publisher.
    pub closed spec fn view_map(&self) -> Map<(u8, Seq<u8>), Seq<u64>> {
        assoc_map(self.entries())
    }

    /// No publisher twice.
    pub closed spec fn wf(&self) -> bool {
        keys_unique(self.entries())
    }

    /// A limiter that has seen no STORE.
    pub fn new() -> (res: RateLimiter)
        ensures
            res.wf(),
            res.view_map() == Map::<(u8, Seq<u8>), Seq<u64>>::empty(),
    {
        let res = RateLimiter { windows: Vec::new() };
        assert(res.view_map() =~= Map::<(u8, Seq<u8>), Seq<u64>>::empty());
        res
    }

    /// Check whether `publisher` is within its limit at `now`, and record the
    /// attempt if so. Times outside the window are dropped either way.
    pub fn check_and_record(&mut self, publisher: &Identity, now_micros: u64) -> (res: bool)
        requires
            old(self).wf(),
        ensures
            final(self).wf(),
            res == (recent(value_or(old(self).view_map(), publisher@, Seq::empty()), now_micros).len()
                < RATE_LIMIT_PER_MINUTE),
            final(self).view_map() == old(self).view_map().insert(
                publisher@,
                if res {
                    recent(value_or(old(self).view_map(), publisher@, Seq::empty()), now_micros).push(now_micros)
                } else {
                    recent(value_or(old(self).view_map(), publisher@, Seq::empty()), now_micros)
                },
            ),
    {
        let ghost old_entries = self.entries();
        let mut idx: usize = 0;
        let mut found = false;
        while !found && idx < self.windows.len()
            invariant
                idx <= self.windows@.len(),
                old_entries == self.entries(),
                found ==> idx < self.windows@.len() && self.windows@[idx as int]@.0 == publisher@,
                forall|k: int| 0 <= k < idx ==> (#[trigger] self.windows@[k])@.0 != publisher@,
            decreases self.windows.len() - idx, if found { 0int } else { 1int },
        {
            if self.windows[idx].publisher.same_as(publisher) {
                found = true;
            } else {
                idx = idx + 1;
            }
        }
        let ghost prior: Seq<u64> = Seq::empty();
        if found {
            proof {
                assert(old_entries[idx as int] == self.windows@[idx as int]@);
                lemma_assoc_at(old_entries, idx as int);
                prior = old_entries[idx as int].1;
            }
        } else {
            proof {
                assert forall|k: int| 0 <= k < old_entries.len() implies (#[trigger] old_entries[k]).0 != publisher@ by {
                    assert(old_entries[k] == self.windows@[k]@);
                }
                lemma_assoc_missing(old_entries, publisher@);
                lemma_assoc_push(old_entries, publisher@, Seq::empty());
            }
            self.windows.push(PublisherWindow { publisher: publisher.clone(), timestamps: Vec::new() });
            assert(self.entries() =~= old_entries.push((publisher@, Seq::empty())));
        }
        let ghost mid_entries = self.entries();
        assert(prior == value_or(old(self).view_map(), publisher@, Seq::empty()));
        assert(mid_entries[idx as int] == (publisher@, prior));
        let mut window = PublisherWindow { publisher: publisher.clone(), timestamps: Vec::new() };
        self.windows.set_and_swap(idx, &mut window);
        let mut kept: Vec<u64> = Vec::new();
        let mut i: usize = 0;
        while i < window.timestamps.len()
            invariant
                i <= window.timestamps@.len(),
                window.timestamps@ == prior,
                kept@ == recent(prior.take(i as int), now_micros),
            decreases window.timestamps.len() - i,
        {
            let ts = window.timestamps[i];
            proof {
                assert(prior.take(i + 1).drop_last() =~= prior.take(i as int));
            }
            if now_micros.saturating_sub(ts) < RATE_LIMIT_WINDOW_MICROS {
                kept.push(ts);
            }
            i = i + 1;
        }
        assert(prior.take(prior.len() as int) =~= prior);
        let allowed = kept.len() < RATE_LIMIT_PER_MINUTE;
        if allowed {
            kept.push(now_micros);
        }
        let ghost new_value = kept@;
        self.windows.set(idx, PublisherWindow { publisher: window.publisher, timestamps: kept });
        proof {
            assert(self.entries() =~= mid_entries.update(idx as int, (mid_entries[idx as int].0, new_value)));
            lemma_assoc_set(mid_entries, idx as int, new_value);
        }
        allowed
    }
}

/// The descriptors of one routing key.
#[derive(Debug)]
struct KeySlot {
    key: crate::hash::Hash,
    descriptors: Vec<Descriptor>,
}

impl View for KeySlot {
    type V = ((u8, Seq<u8>), Seq<DescriptorModel>);

    closed spec fn view(&self) -> ((u8, Seq<u8>), Seq<DescriptorModel>) {
        (self.key@, descriptor_models(self.descriptors@))
    }
}

/// The highest sequence seen for one descriptor slot.
#[derive(Debug)]
struct SequenceEntry {
    key: DedupKey,
    sequence: u64,
}

impl View for SequenceEntry {
    type V = (((u8, Seq<u8>), (u8, Seq<u8>), Seq<char>), u64);

    closed spec fn view(&self) -> (((u8, Seq<u8>), (u8, Seq<u8>), Seq<char>), u64) {
        (self.key@, self.sequence)
    }
}

/// In-memory descriptor storage for the DHT node.
#[derive(Debug)]
pub struct DescriptorStore {
    /// Descriptors by routing key.
    slots: Vec<KeySlot>,
    /// The highest sequence seen per descriptor slot.
    sequences: Vec<SequenceEntry>,
    /// Per-publisher rate limiter.
    rate_limiter: RateLimiter,
}

/// Errors from descriptor storage operations.
#[derive(Debug)]
pub enum StoreError {
    /// Descriptor failed validation; the validation error's text.
    ValidationFailed(String),
    /// Descriptor sequence is older than what we already have.
    StaleDescriptor { received: u64, current: u64 },
    /// Publisher exceeded the per-identity rate limit.
    RateLimited { limit: usize },
}

/// A sequence of descriptors without those of slot `key`.
pub open spec fn without_dedup(
    s: Seq<DescriptorModel>,
    key: ((u8, Seq<u8>), (u8, Seq<u8>), Seq<char>),
) -> Seq<DescriptorModel>
    decreases s.len(),
{
    if s.len() == 0 {
        Seq::empty()
    } else {
        let r = without_dedup(s.drop_last(), key);
        if dedup_of(s.last()) == key { r } else { r.push(s.last()) }
    }
}

/// One copy of `d` for each time routing key `k` occurs in `rks`.
pub open spec fn copies_for_key(rks: Seq<(u8, Seq<u8>)>, k: (u8, Seq<u8>), d: DescriptorModel) -> Seq<DescriptorModel>
    decreases rks.len(),
{
    if rks.len() == 0 {
        Seq::empty()
    } else {
        let r = copies_for_key(rks.drop_last(), k, d);
        if rks.last() == k { r.push(d) } else { r }
    }
}

/// The store after `d` is accepted: every routing key loses the descriptors
/// of `d`'s slot, and each of `d`'s routing keys gains `d` (once per
/// occurrence in its list). Keys left empty stay until eviction.
pub open spec fn stored_after(
    m: Map<(u8, Seq<u8>), Seq<DescriptorModel>>,
    d: DescriptorModel,
) -> Map<(u8, Seq<u8>), Seq<DescriptorModel>> {
    Map::new(
        |k: (u8, Seq<u8>)| m.contains_key(k) || d.routing_keys.contains(k),
        |k: (u8, Seq<u8>)| without_dedup(value_or(m, k, Seq::empty()), dedup_of(d)) + copies_for_key(d.routing_keys, k, d),
    )
}

/// The UTF-8 bytes of `core/revocation`, the schema of revocations.
pub open spec fn revocation_schema_name() -> Seq<u8> {
    "core/revocation".spec_bytes()
}

/// The first 13 bytes of a revocation payload: a deterministic CBOR map of
/// one entry, the text key `target_id`, and the head of a 33-byte string.
pub open spec fn revocation_prefix() -> Seq<u8> {
    seq![0xa1u8, 0x69, 116, 97, 114, 103, 101, 116, 95, 105, 100, 0x58, 0x21]
}

/// The descriptor id that `d` revokes: a descriptor of the `core/revocation`
/// schema whose payload is the map `{"target_id": id}`, the id written as
/// its algorithm byte followed by its 32-byte digest.
pub open spec fn revocation_target(d: DescriptorModel) -> Option<(u8, Seq<u8>)> {
    if d.schema_hash == schema_hash_of(revocation_schema_name()) && d.payload.len() == 46
        && d.payload.take(13) == revocation_prefix() {
        Some((d.payload[13], d.payload.skip(14)))
    } else {
        None
    }
}

/// A sequence of descriptors without those with id `target` published by
/// `publisher`.
pub open spec fn without_revoked(s: Seq<DescriptorModel>, target: (u8, Seq<u8>), publisher: (u8, Seq<u8>)) -> Seq<DescriptorModel>
    decreases s.len(),
{
    if s.len() == 0 {
        Seq::empty()
    } else {
        let r = without_revoked(s.drop_last(), target, publisher);
        if s.last().id == target && s.last().publisher == publisher { r } else { r.push(s.last()) }
    }
}

/// The store after the revocation effect of `d`: when `d` revokes another
/// descriptor id, every routing key loses the descriptors with that id
/// from `d`'s publisher. A publisher revokes only its own descriptors.
pub open spec fn revoked(m: Map<(u8, Seq<u8>), Seq<DescriptorModel>>, d: DescriptorModel) -> Map<(u8, Seq<u8>), Seq<DescriptorModel>> {
    match revocation_target(d) {
        Some(t) => if t != d.id {
            Map::new(|k: (u8, Seq<u8>)| m.contains_key(k), |k: (u8, Seq<u8>)| without_revoked(m[k], t, d.publisher))
        } else {
            m
        },
        None => m,
    }
}

/// The store after `d` is accepted: stored as `stored_after` says, then its
/// revocation effect applied.
pub open spec fn store_effect(m: Map<(u8, Seq<u8>), Seq<DescriptorModel>>, d: DescriptorModel) -> Map<(u8, Seq<u8>), Seq<DescriptorModel>> {
    revoked(stored_after(m, d), d)
}

/// Whether a descriptor is returned by a read at `now` with filters `f`:
/// it is unexpired, and matches each filter that is set.
pub open spec fn passes(d: DescriptorModel, f: Option<FilterModel>, now: u64) -> bool {
    &&& !is_expired(d.timestamp, d.ttl, now)
    &&& match f {
        None => true,
        Some(f) => {
            &&& (f.schema_hash matches Some(sh) ==> d.schema_hash == sh)
            &&& (f.min_timestamp matches Some(t) ==> d.timestamp >= t)
            &&& (f.publisher matches Some(p) ==> d.publisher == p)
        },
    }
}

/// The descriptors of `s` that a read at `now` with filters `f` returns, in order.
pub open spec fn selected(s: Seq<DescriptorModel>, f: Option<FilterModel>, now: u64) -> Seq<DescriptorModel>
    decreases s.len(),
{
    if s.len() == 0 {
        Seq::empty()
    } else {
        let r = selected(s.drop_last(), f, now);
        if passes(s.last(), f, now) { r.push(s.last()) } else { r }
    }
}

/// The store after eviction at `now`: expired descriptors are dropped, and
/// routing keys left without descriptors disappear.
pub open spec fn evicted(
    m: Map<(u8, Seq<u8>), Seq<DescriptorModel>>,
    now: u64,
) -> Map<(u8, Seq<u8>), Seq<DescriptorModel>> {
    Map::new(
        |k: (u8, Seq<u8>)| m.contains_key(k) && selected(m[k], None, now).len() > 0,
        |k: (u8, Seq<u8>)| selected(m[k], None, now),
    )
}

/// The total of the lengths of the values of an association list.
pub open spec fn total_len(s: Seq<((u8, Seq<u8>), Seq<DescriptorModel>)>) -> nat
    decreases s.len(),
{
    if s.len() == 0 { 0 } else { total_len(s.drop_last()) + s.last().1.len() }
}

/// The entries of a store view, as routing key / list pairs.
pub open spec fn entries_of(m: Map<(u8, Seq<u8>), Seq<DescriptorModel>>) -> Set<((u8, Seq<u8>), Seq<DescriptorModel>)> {
    Set::new(|e: ((u8, Seq<u8>), Seq<DescriptorModel>)| m.contains_key(e.0) && m[e.0] == e.1)
}

/// Adds the length of an entry's list to a running total.
pub open spec fn add_list_len() -> spec_fn(nat, ((u8, Seq<u8>), Seq<DescriptorModel>)) -> nat {
    |acc: nat, e: ((u8, Seq<u8>), Seq<DescriptorModel>)| acc + e.1.len()
}

/// The number of descriptors in a store view: the sum, over its routing
/// keys, of the length of each key's list (a descriptor held under three
/// keys counts three times).
pub open spec fn count_of(m: Map<(u8, Seq<u8>), Seq<DescriptorModel>>) -> nat {
    entries_of(m).fold(0nat, add_list_len())
}

/// The count of an empty view is 0.
pub proof fn lemma_count_of_empty()
    ensures
        count_of(Map::<(u8, Seq<u8>), Seq<DescriptorModel>>::empty()) == 0,
{
    assert(entries_of(Map::<(u8, Seq<u8>), Seq<DescriptorModel>>::empty()) =~= Set::empty());
    vstd::set::fold::lemma_fold_empty(0nat, add_list_len());
}

/// A view with finitely many keys has finitely many entries.
proof fn lemma_entries_finite(m: Map<(u8, Seq<u8>), Seq<DescriptorModel>>)
    requires
        m.dom().finite(),
    ensures
        entries_of(m).finite(),
{
    let f = |k: (u8, Seq<u8>)| (k, m[k]);
    assert(entries_of(m) =~= m.dom().map(f)) by {
        assert forall|e: ((u8, Seq<u8>), Seq<DescriptorModel>)| entries_of(m).contains(e) implies #[trigger] m.dom().map(f).contains(e) by {
            assert(m.dom().contains(e.0) && f(e.0) == e);
        }
    }
    m.dom().lemma_map_finite(f);
}

/// Adding a routing key that a view lacks adds the length of its list to
/// the count.
pub proof fn lemma_count_of_insert(
    m: Map<(u8, Seq<u8>), Seq<DescriptorModel>>,
    k: (u8, Seq<u8>),
    v: Seq<DescriptorModel>,
)
    requires
        m.dom().finite(),
        !m.contains_key(k),
    ensures
        count_of(m.insert(k, v)) == count_of(m) + v.len(),
{
    lemma_entries_finite(m);
    assert(entries_of(m.insert(k, v)) =~= entries_of(m).insert((k, v)));
    assert(vstd::set::fold::is_fun_commutative(add_list_len()));
    vstd::set::fold::lemma_fold_insert(entries_of(m), 0nat, add_list_len(), (k, v));
}

/// The total of a key-unique list's first `i` entries is the count of the
/// map they stand for.
proof fn lemma_total_len_is_count(s: Seq<((u8, Seq<u8>), Seq<DescriptorModel>)>, i: int)
    requires
        keys_unique(s),
        0 <= i <= s.len(),
    ensures
        assoc_map(s.take(i)).dom().finite(),
        total_len(s.take(i)) == count_of(assoc_map(s.take(i))),
    decreases i,
{
    if i == 0 {
        lemma_assoc_empty(s.take(0));
        lemma_count_of_empty();
    } else {
        lemma_total_len_is_count(s, i - 1);
        lemma_assoc_prefix_push(s, i - 1);
        lemma_count_of_insert(assoc_map(s.take(i - 1)), s[i - 1].0, s[i - 1].1);
        assert(s.take(i).drop_last() =~= s.take(i - 1));
    }
}

impl DescriptorStore {
    spec fn slot_models(&self) -> Seq<((u8, Seq<u8>), Seq<DescriptorModel>)> {
        self.slots@.map_values(|s: KeySlot| s@)
    }

    spec fn sequence_models(&self) -> Seq<(((u8, Seq<u8>), (u8, Seq<u8>), Seq<char>), u64)> {
        self.sequences@.map_values(|e: SequenceEntry| e@)
    }

    /// The descriptors held under each routing key.
    pub closed spec fn store_view(&self) -> Map<(u8, Seq<u8>), Seq<DescriptorModel>> {
        assoc_map(self.slot_models())
    }

    /// The highest sequence accepted for each descriptor slot.
    pub closed spec fn sequence_view(&self) -> Map<((u8, Seq<u8>), (u8, Seq<u8>), Seq<char>), u64> {
        assoc_map(self.sequence_models())
    }

    /// The STORE times recorded for each publisher.
    pub closed spec fn rate_view(&self) -> Map<(u8, Seq<u8>), Seq<u64>> {
        self.rate_limiter.view_map()
    }

    /// The store's invariant: its tables have no key twice, and every
    /// stored descriptor passed validation, so its TTL is in range.
    pub closed spec fn wf(&self) -> bool {
        &&& keys_unique(self.slot_models())
        &&& keys_unique(self.sequence_models())
        &&& self.rate_limiter.wf()
        &&& forall|i: int, j: int| 0 <= i < self.slot_models().len() && 0 <= j < self.slot_models()[i].1.len()
            ==> (#[trigger] self.slot_models()[i].1[j]).ttl <= MAX_TTL_SECS
    }

    /// Create an empty descriptor store.
    pub fn new() -> (res: DescriptorStore)
        ensures
            res.wf(),
            res.store_view() == Map::<(u8, Seq<u8>), Seq<DescriptorModel>>::empty(),
            res.sequence_view() == Map::<((u8, Seq<u8>), (u8, Seq<u8>), Seq<char>), u64>::empty(),
            res.rate_view() == Map::<(u8, Seq<u8>), Seq<u64>>::empty(),
            count_of(res.store_view()) == 0,
    {
        let res = DescriptorStore { slots: Vec::new(), sequences: Vec::new(), rate_limiter: RateLimiter::new() };
        assert(res.store_view() =~= Map::<(u8, Seq<u8>), Seq<DescriptorModel>>::empty());
        assert(res.sequence_view() =~= Map::<((u8, Seq<u8>), (u8, Seq<u8>), Seq<char>), u64>::empty());
        proof {
            lemma_count_of_empty();
        }
        res
    }
}

/// The position of the slot of `key`, if there is one.
fn find_slot(slots: &Vec<KeySlot>, key: &crate::hash::Hash) -> (res: Option<usize>)
    ensures
        match res {
            Some(i) => i < slots@.len() && slots@[i as int]@.0 == key@,
            None => forall|i: int| 0 <= i < slots@.len() ==> (#[trigger] slots@[i])@.0 != key@,
        },
{
    let mut i: usize = 0;
    while i < slots.len()
        invariant
            i <= slots@.len(),
            forall|k: int| 0 <= k < i ==> (#[trigger] slots@[k])@.0 != key@,
        decreases slots.len() - i,
    {
        if slots[i].key.same_as(key) {
            return Some(i);
        }
        i = i + 1;
    }
    None
}

/// A copy of `s` without the descriptors of slot `key`.
fn filter_out_slot(s: &Vec<Descriptor>, key: &DedupKey) -> (res: Vec<Descriptor>)
    ensures
        descriptor_models(res@) == without_dedup(descriptor_models(s@), key@),
{
    let ghost m = descriptor_models(s@);
    let mut kept: Vec<Descriptor> = Vec::new();
    let mut i: usize = 0;
    while i < s.len()
        invariant
            i <= s@.len(),
            m == descriptor_models(s@),
            descriptor_models(kept@) == without_dedup(m.take(i as int), key@),
        decreases s.len() - i,
    {
        proof {
            assert(m.take(i + 1).drop_last() =~= m.take(i as int));
            assert(m[i as int] == s@[i as int]@);
        }
        if !key.matches(&s[i]) {
            let ghost prev = kept@;
            kept.push(s[i].clone());
            assert(descriptor_models(kept@) =~= descriptor_models(prev).push(m[i as int]));
        }
        i = i + 1;
    }
    assert(m.take(m.len() as int) =~= m);
    kept
}

/// A subsequence keeps every bound that holds of all the elements.
proof fn lemma_without_dedup_subset(s: Seq<DescriptorModel>, key: ((u8, Seq<u8>), (u8, Seq<u8>), Seq<char>))
    ensures
        forall|j: int| 0 <= j < without_dedup(s, key).len() ==> s.contains(#[trigger] without_dedup(s, key)[j]),
    decreases s.len(),
{
    if s.len() > 0 {
        let r = s.drop_last();
        lemma_without_dedup_subset(r, key);
        let w = without_dedup(r, key);
        assert forall|j: int| 0 <= j < without_dedup(s, key).len() implies s.contains(#[trigger] without_dedup(s, key)[j]) by {
            if j < w.len() {
                assert(without_dedup(s, key)[j] == w[j]);
                assert(r.contains(w[j]));
                let m = choose|m: int| 0 <= m < r.len() && r[m] == w[j];
                assert(s[m] == w[j]);
            } else {
                assert(s[s.len() - 1] == without_dedup(s, key)[j]);
            }
        }
    }
}

/// Keys that `rks` does not hold get no copies.
proof fn lemma_copies_absent(rks: Seq<(u8, Seq<u8>)>, k: (u8, Seq<u8>), d: DescriptorModel)
    requires
        !rks.contains(k),
    ensures
        copies_for_key(rks, k, d) == Seq::<DescriptorModel>::empty(),
    decreases rks.len(),
{
    if rks.len() > 0 {
        assert(!rks.drop_last().contains(k)) by {
            if rks.drop_last().contains(k) {
                let m = choose|m: int| 0 <= m < rks.drop_last().len() && rks.drop_last()[m] == k;
                assert(rks[m] == k);
            }
        }
        lemma_copies_absent(rks.drop_last(), k, d);
        assert(rks[rks.len() - 1] != k);
    }
}

/// Copies of a descriptor are copies of it.
proof fn lemma_copies_are_d(rks: Seq<(u8, Seq<u8>)>, k: (u8, Seq<u8>), d: DescriptorModel)
    ensures
        forall|j: int| 0 <= j < copies_for_key(rks, k, d).len() ==> #[trigger] copies_for_key(rks, k, d)[j] == d,
    decreases rks.len(),
{
    if rks.len() > 0 {
        lemma_copies_are_d(rks.drop_last(), k, d);
        let r = copies_for_key(rks.drop_last(), k, d);
        assert forall|j: int| 0 <= j < copies_for_key(rks, k, d).len() implies #[trigger] copies_for_key(rks, k, d)[j] == d by {
            if j < r.len() {
                assert(copies_for_key(rks, k, d)[j] == r[j]);
            }
        }
    }
}

impl DescriptorStore {
    /// Drop the descriptors of slot `key` from every routing key.
    fn purge_slot(&mut self, key: &DedupKey)
        requires
            old(self).wf(),
        ensures
            final(self).wf(),
            final(self).store_view() == Map::new(
                |k: (u8, Seq<u8>)| old(self).store_view().contains_key(k),
                |k: (u8, Seq<u8>)| without_dedup(old(self).store_view()[k], key@),
            ),
            final(self).sequence_view() == old(self).sequence_view(),
            final(self).rate_view() == old(self).rate_view(),
    {
        let ghost old_models = self.slot_models();
        let mut i: usize = 0;
        while i < self.slots.len()
            invariant
                i <= self.slots@.len(),
                self.slots@.len() == old_models.len(),
                keys_unique(old_models),
                self.sequence_view() == old(self).sequence_view(),
                self.rate_view() == old(self).rate_view(),
                self.rate_limiter.wf(),
                keys_unique(self.sequence_models()),
                forall|a: int, j: int| 0 <= a < old_models.len() && 0 <= j < old_models[a].1.len()
                    ==> (#[trigger] old_models[a].1[j]).ttl <= MAX_TTL_SECS,
                forall|a: int| 0 <= a < old_models.len() ==> (#[trigger] self.slot_models()[a]).0 == old_models[a].0,
                forall|a: int| 0 <= a < i ==> (#[trigger] self.slot_models()[a]).1 == without_dedup(old_models[a].1, key@),
                forall|a: int| i <= a < old_models.len() ==> (#[trigger] self.slot_models()[a]).1 == old_models[a].1,
            decreases self.slots.len() - i,
        {
            let ghost before = self.slot_models();
            let mut slot = KeySlot { key: crate::hash::Hash::new(0, Vec::new()), descriptors: Vec::new() };
            self.slots.set_and_swap(i, &mut slot);
            let kept = filter_out_slot(&slot.descriptors, key);
            self.slots.set(i, KeySlot { key: slot.key, descriptors: kept });
            assert(self.slot_models() =~= before.update(i as int, (before[i as int].0, without_dedup(old_models[i as int].1, key@))));
            i = i + 1;
        }
        proof {
            let f = |v: Seq<DescriptorModel>| without_dedup(v, key@);
            assert forall|a: int| 0 <= a < old_models.len() implies
                (#[trigger] self.slot_models()[a]).0 == old_models[a].0 && self.slot_models()[a].1 == f(old_models[a].1) by {}
            lemma_assoc_map_values(old_models, self.slot_models(), f);
            assert forall|a: int, j: int| 0 <= a < self.slot_models().len() && 0 <= j < self.slot_models()[a].1.len()
                implies (#[trigger] self.slot_models()[a].1[j]).ttl <= MAX_TTL_SECS by {
                lemma_without_dedup_subset(old_models[a].1, key@);
                assert(old_models[a].1.contains(self.slot_models()[a].1[j]));
            }
        }
    }

    /// Append `d` to the descriptors of routing key `key`.
    fn append_to_key(&mut self, key: &crate::hash::Hash, d: &Descriptor)
        requires
            old(self).wf(),
            d.ttl <= MAX_TTL_SECS,
        ensures
            final(self).wf(),
            final(self).store_view() == old(self).store_view().insert(
                key@,
                value_or(old(self).store_view(), key@, Seq::empty()).push(d@),
            ),
            final(self).sequence_view() == old(self).sequence_view(),
            final(self).rate_view() == old(self).rate_view(),
    {
        let ghost before = self.slot_models();
        match find_slot(&self.slots, key) {
            Some(i) => {
                proof {
                    lemma_assoc_at(before, i as int);
                }
                let mut slot = KeySlot { key: crate::hash::Hash::new(0, Vec::new()), descriptors: Vec::new() };
                self.slots.set_and_swap(i, &mut slot);
                let ghost prev = slot.descriptors@;
                slot.descriptors.push(d.clone());
                assert(descriptor_models(slot.descriptors@) =~= descriptor_models(prev).push(d@));
                self.slots.set(i, slot);
                proof {
                    assert(self.slot_models() =~= before.update(i as int, (before[i as int].0, before[i as int].1.push(d@))));
                    lemma_assoc_set(before, i as int, before[i as int].1.push(d@));
                    assert forall|a: int, j: int| 0 <= a < self.slot_models().len() && 0 <= j < self.slot_models()[a].1.len()
                        implies (#[trigger] self.slot_models()[a].1[j]).ttl <= MAX_TTL_SECS by {
                        if a == i && j == before[a].1.len() {
                        } else {
                            assert(self.slot_models()[a].1[j] == before[a].1[j]);
                        }
                    }
                }
            },
            None => {
                proof {
                    assert forall|a: int| 0 <= a < before.len() implies (#[trigger] before[a]).0 != key@ by {
                        assert(before[a] == self.slots@[a]@);
                    }
                    lemma_assoc_missing(before, key@);
                    assert(!has_key(before, key@));
                    lemma_assoc_push(before, key@, seq![d@]);
                }
                let mut descriptors: Vec<Descriptor> = Vec::new();
                descriptors.push(d.clone());
                self.slots.push(KeySlot { key: key.clone(), descriptors });
                proof {
                    assert(descriptor_models(descriptors@) =~= seq![d@]);
                    assert(self.slot_models() =~= before.push((key@, seq![d@])));
                    assert(Seq::<DescriptorModel>::empty().push(d@) =~= seq![d@]);
                    assert forall|a: int, j: int| 0 <= a < self.slot_models().len() && 0 <= j < self.slot_models()[a].1.len()
                        implies (#[trigger] self.slot_models()[a].1[j]).ttl <= MAX_TTL_SECS by {
                        if a < before.len() {
                            assert(self.slot_models()[a] == before[a]);
                        }
                    }
                }
            },
        }
    }
}

/// The store while `d` is being added: the purged store `p` plus the copies
/// for the first `j` routing keys of `d`.
pub open spec fn partially_stored(
    p: Map<(u8, Seq<u8>), Seq<DescriptorModel>>,
    d: DescriptorModel,
    j: int,
) -> Map<(u8, Seq<u8>), Seq<DescriptorModel>> {
    Map::new(
        |k: (u8, Seq<u8>)| p.contains_key(k) || d.routing_keys.take(j).contains(k),
        |k: (u8, Seq<u8>)| value_or(p, k, Seq::empty()) + copies_for_key(d.routing_keys.take(j), k, d),
    )
}

proof fn lemma_append_step(p: Map<(u8, Seq<u8>), Seq<DescriptorModel>>, d: DescriptorModel, j: int)
    requires
        0 <= j < d.routing_keys.len(),
    ensures
        partially_stored(p, d, j).insert(
            d.routing_keys[j],
            value_or(partially_stored(p, d, j), d.routing_keys[j], Seq::empty()).push(d),
        ) == partially_stored(p, d, j + 1),
{
    let rks = d.routing_keys;
    let rk = rks[j];
    let v = partially_stored(p, d, j);
    let w = partially_stored(p, d, j + 1);
    let lhs = v.insert(rk, value_or(v, rk, Seq::empty()).push(d));
    assert(rks.take(j + 1).drop_last() =~= rks.take(j));
    assert(rks.take(j + 1).last() == rk);
    let t0 = rks.take(j);
    let t1 = rks.take(j + 1);
    assert forall|k: (u8, Seq<u8>)| t1.contains(k) <==> (t0.contains(k) || k == rk) by {
        if t1.contains(k) {
            let m = choose|m: int| 0 <= m < t1.len() && t1[m] == k;
            if m < j {
                assert(t0[m] == k);
            }
        }
        if t0.contains(k) {
            let m = choose|m: int| 0 <= m < t0.len() && t0[m] == k;
            assert(t1[m] == k);
        }
        if k == rk {
            assert(t1[j] == k);
        }
    }
    assert forall|k: (u8, Seq<u8>)| #[trigger] lhs.contains_key(k) <==> w.contains_key(k) by {}
    assert forall|k: (u8, Seq<u8>)| lhs.contains_key(k) implies #[trigger] lhs[k] == w[k] by {
        if k == rk {
            if !v.contains_key(k) {
                lemma_copies_absent(rks.take(j), k, d);
                assert(lhs[k] =~= w[k]);
            } else {
                assert(lhs[k] =~= w[k]);
            }
        } else {
            assert(copies_for_key(rks.take(j + 1), k, d) == copies_for_key(rks.take(j), k, d));
        }
    }
    assert(lhs =~= w);
}

/// Whether `d`'s publisher is still under its STORE limit at `now`.
pub open spec fn publisher_allowed(rate: Map<(u8, Seq<u8>), Seq<u64>>, d: DescriptorModel, now: u64) -> bool {
    recent(value_or(rate, d.publisher, Seq::empty()), now).len() < RATE_LIMIT_PER_MINUTE
}

/// The STORE times of `d`'s publisher after an attempt at `now`.
pub open spec fn rate_after(rate: Map<(u8, Seq<u8>), Seq<u64>>, d: DescriptorModel, now: u64) -> Map<(u8, Seq<u8>), Seq<u64>> {
    let r = recent(value_or(rate, d.publisher, Seq::empty()), now);
    rate.insert(d.publisher, if r.len() < RATE_LIMIT_PER_MINUTE { r.push(now) } else { r })
}

/// Whether a newer sequence was already accepted for `d`'s slot.
pub open spec fn is_stale(seqs: Map<((u8, Seq<u8>), (u8, Seq<u8>), Seq<char>), u64>, d: DescriptorModel) -> bool {
    seqs.contains_key(dedup_of(d)) && d.sequence < seqs[dedup_of(d)]
}

/// The position of the sequence entry of slot `key`, if there is one.
fn find_sequence(entries: &Vec<SequenceEntry>, key: &DedupKey) -> (res: Option<usize>)
    ensures
        match res {
            Some(i) => i < entries@.len() && entries@[i as int]@.0 == key@,
            None => forall|i: int| 0 <= i < entries@.len() ==> (#[trigger] entries@[i])@.0 != key@,
        },
{
    let mut i: usize = 0;
    while i < entries.len()
        invariant
            i <= entries@.len(),
            forall|k: int| 0 <= k < i ==> (#[trigger] entries@[k])@.0 != key@,
        decreases entries.len() - i,
    {
        let e = &entries[i];
        if e.key.publisher.same_as(&key.publisher) && e.key.schema_hash.same_as(&key.schema_hash)
            && e.key.topic == key.topic {
            return Some(i);
        }
        i = i + 1;
    }
    None
}

impl DescriptorStore {
    /// Raise the sequence watermark of `descriptor`'s slot to its sequence,
    /// as a hub does with the watermarks it kept on disk when it starts: a
    /// slot without a watermark gets one, a lower one is raised, a higher
    /// one stays. The descriptors held and the STORE times do not change.
    pub fn raise_watermark(&mut self, descriptor: &Descriptor)
        requires
            old(self).wf(),
        ensures
            final(self).wf(),
            final(self).store_view() == old(self).store_view(),
            final(self).rate_view() == old(self).rate_view(),
            final(self).sequence_view() == if old(self).sequence_view().contains_key(dedup_of(descriptor@))
                && old(self).sequence_view()[dedup_of(descriptor@)] >= descriptor.sequence {
                old(self).sequence_view()
            } else {
                old(self).sequence_view().insert(dedup_of(descriptor@), descriptor.sequence)
            },
    {
        let ghost old_seqs = self.sequence_models();
        let dedup_key = DedupKey::from_descriptor(descriptor);
        match find_sequence(&self.sequences, &dedup_key) {
            Some(i) => {
                proof {
                    assert(old_seqs[i as int] == self.sequences@[i as int]@);
                    lemma_assoc_at(old_seqs, i as int);
                }
                if self.sequences[i].sequence >= descriptor.sequence {
                    return;
                }
                self.sequences.set(i, SequenceEntry { key: dedup_key, sequence: descriptor.sequence });
                proof {
                    assert(self.sequence_models() =~= old_seqs.update(i as int, (old_seqs[i as int].0, descriptor.sequence)));
                    lemma_assoc_set(old_seqs, i as int, descriptor.sequence);
                }
            },
            None => {
                proof {
                    assert forall|a: int| 0 <= a < old_seqs.len() implies (#[trigger] old_seqs[a]).0 != dedup_key@ by {
                        assert(old_seqs[a] == self.sequences@[a]@);
                    }
                    lemma_assoc_missing(old_seqs, dedup_key@);
                    lemma_assoc_push(old_seqs, dedup_key@, descriptor.sequence);
                }
                let ghost k = dedup_key@;
                self.sequences.push(SequenceEntry { key: dedup_key, sequence: descriptor.sequence });
                assert(self.sequence_models() =~= old_seqs.push((k, descriptor.sequence)));
            },
        }
    }

    /// Store a descriptor at time `now_micros`: validate it, charge its
    /// publisher's rate limit, reject it when a newer sequence of its slot
    /// was accepted, then drop older versions of its slot from every routing
    /// key and add it under each of its routing keys.
    pub fn store_descriptor_at(&mut self, descriptor: Descriptor, now_micros: u64) -> (res: Result<(), StoreError>)
        requires
            old(self).wf(),
        ensures
            final(self).wf(),
            !descriptor_valid(descriptor@, now_micros) ==> {
                &&& res matches Err(StoreError::ValidationFailed(msg))
                &&& msg@ == validation_error_text(descriptor@, now_micros)
                &&& final(self).store_view() == old(self).store_view()
                &&& final(self).sequence_view() == old(self).sequence_view()
                &&& final(self).rate_view() == old(self).rate_view()
            },
            descriptor_valid(descriptor@, now_micros) ==> final(self).rate_view()
                == rate_after(old(self).rate_view(), descriptor@, now_micros),
            descriptor_valid(descriptor@, now_micros) && !publisher_allowed(old(self).rate_view(), descriptor@, now_micros) ==> {
                &&& res == Err::<(), StoreError>(StoreError::RateLimited { limit: RATE_LIMIT_PER_MINUTE })
                &&& final(self).store_view() == old(self).store_view()
                &&& final(self).sequence_view() == old(self).sequence_view()
            },
            descriptor_valid(descriptor@, now_micros) && publisher_allowed(old(self).rate_view(), descriptor@, now_micros)
                && is_stale(old(self).sequence_view(), descriptor@) ==> {
                &&& res == Err::<(), StoreError>(StoreError::StaleDescriptor {
                    received: descriptor.sequence,
                    current: old(self).sequence_view()[dedup_of(descriptor@)],
                })
                &&& final(self).store_view() == old(self).store_view()
                &&& final(self).sequence_view() == old(self).sequence_view()
            },
            descriptor_valid(descriptor@, now_micros) && publisher_allowed(old(self).rate_view(), descriptor@, now_micros)
                && !is_stale(old(self).sequence_view(), descriptor@) ==> {
                &&& res is Ok
                &&& final(self).store_view() == store_effect(old(self).store_view(), descriptor@)
                &&& final(self).sequence_view() == old(self).sequence_view().insert(dedup_of(descriptor@), descriptor.sequence)
            },
            store_outcome(
                old(self).store_view(), old(self).sequence_view(), old(self).rate_view(),
                final(self).store_view(), final(self).sequence_view(), final(self).rate_view(),
                descriptor@, now_micros, res,
            ),
    {
        match descriptor.validate(now_micros) {
            Ok(()) => {},
            Err(e) => {
                return Err(StoreError::ValidationFailed(e.message()));
            },
        }
        if !self.rate_limiter.check_and_record(&descriptor.publisher, now_micros) {
            return Err(StoreError::RateLimited { limit: RATE_LIMIT_PER_MINUTE });
        }
        self.accept(descriptor)
    }

    /// Store a descriptor at time `now_micros` without charging its
    /// publisher's rate limit, as a hub does with its own descriptors and
    /// with those its peer hubs gossip; otherwise as `store_descriptor_at`.
    pub fn store_descriptor_unmetered_at(&mut self, descriptor: Descriptor, now_micros: u64) -> (res: Result<(), StoreError>)
        requires
            old(self).wf(),
        ensures
            final(self).wf(),
            unmetered_outcome(
                old(self).store_view(), old(self).sequence_view(),
                final(self).store_view(), final(self).sequence_view(),
                descriptor@, now_micros, res,
            ),
            final(self).rate_view() == old(self).rate_view(),
    {
        match descriptor.validate(now_micros) {
            Ok(()) => {},
            Err(e) => {
                return Err(StoreError::ValidationFailed(e.message()));
            },
        }
        self.accept(descriptor)
    }

    /// Keep a valid descriptor unless a newer sequence of its slot was
    /// accepted: record its sequence, drop older versions of its slot from
    /// every routing key and add it under each of its routing keys.
    fn accept(&mut self, descriptor: Descriptor) -> (res: Result<(), StoreError>)
        requires
            old(self).wf(),
            descriptor.ttl <= MAX_TTL_SECS,
        ensures
            final(self).wf(),
            final(self).rate_view() == old(self).rate_view(),
            is_stale(old(self).sequence_view(), descriptor@) ==> {
                &&& res == Err::<(), StoreError>(StoreError::StaleDescriptor {
                    received: descriptor.sequence,
                    current: old(self).sequence_view()[dedup_of(descriptor@)],
                })
                &&& final(self).store_view() == old(self).store_view()
                &&& final(self).sequence_view() == old(self).sequence_view()
            },
            !is_stale(old(self).sequence_view(), descriptor@) ==> {
                &&& res is Ok
                &&& final(self).store_view() == store_effect(old(self).store_view(), descriptor@)
                &&& final(self).sequence_view() == old(self).sequence_view().insert(dedup_of(descriptor@), descriptor.sequence)
            },
    {
        let ghost old_store = self.store_view();
        let ghost old_seqs = self.sequence_models();
        let dedup_key = DedupKey::from_descriptor(&descriptor);
        match find_sequence(&self.sequences, &dedup_key) {
            Some(i) => {
                proof {
                    assert(old_seqs[i as int] == self.sequences@[i as int]@);
                    lemma_assoc_at(old_seqs, i as int);
                }
                let current = self.sequences[i].sequence;
                if descriptor.sequence < current {
                    return Err(StoreError::StaleDescriptor { received: descriptor.sequence, current });
                }
                self.sequences.set(i, SequenceEntry { key: DedupKey::from_descriptor(&descriptor), sequence: descriptor.sequence });
                proof {
                    assert(self.sequence_models() =~= old_seqs.update(i as int, (old_seqs[i as int].0, descriptor.sequence)));
                    lemma_assoc_set(old_seqs, i as int, descriptor.sequence);
                }
            },
            None => {
                proof {
                    assert forall|a: int| 0 <= a < old_seqs.len() implies (#[trigger] old_seqs[a]).0 != dedup_key@ by {
                        assert(old_seqs[a] == self.sequences@[a]@);
                    }
                    lemma_assoc_missing(old_seqs, dedup_key@);
                    lemma_assoc_push(old_seqs, dedup_key@, descriptor.sequence);
                }
                self.sequences.push(SequenceEntry { key: DedupKey::from_descriptor(&descriptor), sequence: descriptor.sequence });
                assert(self.sequence_models() =~= old_seqs.push((dedup_key@, descriptor.sequence)));
            },
        }
        let ghost seqs_after = self.sequence_view();
        self.purge_slot(&dedup_key);
        let ghost purged = self.store_view();
        let ghost d = descriptor@;
        proof {
            assert(d.routing_keys.take(0) =~= Seq::<(u8, Seq<u8>)>::empty());
            assert(self.store_view() =~= partially_stored(purged, d, 0));
        }
        let mut j: usize = 0;
        while j < descriptor.routing_keys.len()
            invariant
                j <= descriptor.routing_keys@.len(),
                d == descriptor@,
                d.ttl <= MAX_TTL_SECS,
                self.wf(),
                self.store_view() == partially_stored(purged, d, j as int),
                self.sequence_view() == seqs_after,
                self.rate_view() == old(self).rate_view(),
            decreases descriptor.routing_keys.len() - j,
        {
            proof {
                lemma_append_step(purged, d, j as int);
                assert(d.routing_keys[j as int] == descriptor.routing_keys@[j as int]@);
            }
            self.append_to_key(&descriptor.routing_keys[j], &descriptor);
            j = j + 1;
        }
        proof {
            assert(d.routing_keys.take(d.routing_keys.len() as int) =~= d.routing_keys);
            assert(self.store_view() =~= stored_after(old_store, d));
        }
        let ghost stored = self.store_view();
        match revocation_target_of(&descriptor) {
            Some(target) => {
                if !target.same_as(&descriptor.id) {
                    self.revoke(&target, &descriptor.publisher);
                    assert(self.store_view() =~= store_effect(old_store, d));
                }
            },
            None => {},
        }
        Ok(())
    }

    /// Drop the descriptors with id `target` published by `publisher` from
    /// every routing key.
    fn revoke(&mut self, target: &crate::hash::Hash, publisher: &Identity)
        requires
            old(self).wf(),
        ensures
            final(self).wf(),
            final(self).store_view() == Map::new(
                |k: (u8, Seq<u8>)| old(self).store_view().contains_key(k),
                |k: (u8, Seq<u8>)| without_revoked(old(self).store_view()[k], target@, publisher@),
            ),
            final(self).sequence_view() == old(self).sequence_view(),
            final(self).rate_view() == old(self).rate_view(),
    {
        let ghost old_models = self.slot_models();
        let mut i: usize = 0;
        while i < self.slots.len()
            invariant
                i <= self.slots@.len(),
                self.slots@.len() == old_models.len(),
                keys_unique(old_models),
                self.sequence_view() == old(self).sequence_view(),
                self.rate_view() == old(self).rate_view(),
                self.rate_limiter.wf(),
                keys_unique(self.sequence_models()),
                forall|a: int, j: int| 0 <= a < old_models.len() && 0 <= j < old_models[a].1.len()
                    ==> (#[trigger] old_models[a].1[j]).ttl <= MAX_TTL_SECS,
                forall|a: int| 0 <= a < old_models.len() ==> (#[trigger] self.slot_models()[a]).0 == old_models[a].0,
                forall|a: int| 0 <= a < i ==> (#[trigger] self.slot_models()[a]).1
                    == without_revoked(old_models[a].1, target@, publisher@),
                forall|a: int| i <= a < old_models.len() ==> (#[trigger] self.slot_models()[a]).1 == old_models[a].1,
            decreases self.slots.len() - i,
        {
            let ghost before = self.slot_models();
            let mut slot = KeySlot { key: crate::hash::Hash::new(0, Vec::new()), descriptors: Vec::new() };
            self.slots.set_and_swap(i, &mut slot);
            let kept = filter_out_revoked(&slot.descriptors, target, publisher);
            self.slots.set(i, KeySlot { key: slot.key, descriptors: kept });
            assert(self.slot_models() =~= before.update(i as int,
                (before[i as int].0, without_revoked(old_models[i as int].1, target@, publisher@))));
            i = i + 1;
        }
        proof {
            let f = |v: Seq<DescriptorModel>| without_revoked(v, target@, publisher@);
            assert forall|a: int| 0 <= a < old_models.len() implies
                (#[trigger] self.slot_models()[a]).0 == old_models[a].0 && self.slot_models()[a].1 == f(old_models[a].1) by {}
            lemma_assoc_map_values(old_models, self.slot_models(), f);
            assert forall|a: int, j: int| 0 <= a < self.slot_models().len() && 0 <= j < self.slot_models()[a].1.len()
                implies (#[trigger] self.slot_models()[a].1[j]).ttl <= MAX_TTL_SECS by {
                lemma_without_revoked_subset(old_models[a].1, target@, publisher@);
                assert(old_models[a].1.contains(self.slot_models()[a].1[j]));
            }
        }
    }
}

/// The id a descriptor revokes, if it is a revocation (see
/// `revocation_target`).
pub fn revocation_target_of(d: &Descriptor) -> (res: Option<crate::hash::Hash>)
    ensures
        match revocation_target(d@) {
            Some(t) => res matches Some(h) && h@ == t,
            None => res is None,
        },
{
    let schema = crate::hash::schema_hash("core/revocation");
    if !d.schema_hash.same_as(&schema) || d.payload.len() != 46 {
        return None;
    }
    let prefix: [u8; 13] = [0xa1, 0x69, 116, 97, 114, 103, 101, 116, 95, 105, 100, 0x58, 0x21];
    assert(prefix@ =~= revocation_prefix());
    let mut i: usize = 0;
    while i < 13
        invariant
            i <= 13,
            d.payload@.len() == 46,
            prefix@ == revocation_prefix(),
            forall|j: int| 0 <= j < i ==> d.payload@[j] == prefix@[j],
        decreases 13 - i,
    {
        if d.payload[i] != prefix[i] {
            assert(d.payload@.take(13)[i as int] != revocation_prefix()[i as int]);
            return None;
        }
        i = i + 1;
    }
    assert(d.payload@.take(13) =~= revocation_prefix());
    let mut digest: Vec<u8> = Vec::new();
    let mut j: usize = 14;
    while j < 46
        invariant
            14 <= j <= 46,
            d.payload@.len() == 46,
            digest@ == d.payload@.subrange(14, j as int),
        decreases 46 - j,
    {
        digest.push(d.payload[j]);
        j = j + 1;
        assert(digest@ =~= d.payload@.subrange(14, j as int));
    }
    assert(digest@ =~= d.payload@.skip(14));
    Some(crate::hash::Hash::new(d.payload[13], digest))
}

/// A copy of `s` without the descriptors with id `target` from `publisher`.
fn filter_out_revoked(s: &Vec<Descriptor>, target: &crate::hash::Hash, publisher: &Identity) -> (res: Vec<Descriptor>)
    ensures
        descriptor_models(res@) == without_revoked(descriptor_models(s@), target@, publisher@),
{
    let ghost m = descriptor_models(s@);
    let mut kept: Vec<Descriptor> = Vec::new();
    let mut i: usize = 0;
    while i < s.len()
        invariant
            i <= s@.len(),
            m == descriptor_models(s@),
            descriptor_models(kept@) == without_revoked(m.take(i as int), target@, publisher@),
        decreases s.len() - i,
    {
        proof {
            assert(m.take(i + 1).drop_last() =~= m.take(i as int));
            assert(m[i as int] == s@[i as int]@);
        }
        if !(s[i].id.same_as(target) && s[i].publisher.same_as(publisher)) {
            let ghost prev = kept@;
            kept.push(s[i].clone());
            assert(descriptor_models(kept@) =~= descriptor_models(prev).push(m[i as int]));
        }
        i = i + 1;
    }
    assert(m.take(m.len() as int) =~= m);
    kept
}

/// Revoking keeps a subsequence.
proof fn lemma_without_revoked_subset(s: Seq<DescriptorModel>, target: (u8, Seq<u8>), publisher: (u8, Seq<u8>))
    ensures
        forall|j: int| 0 <= j < without_revoked(s, target, publisher).len()
            ==> s.contains(#[trigger] without_revoked(s, target, publisher)[j]),
    decreases s.len(),
{
    if s.len() > 0 {
        let r = s.drop_last();
        lemma_without_revoked_subset(r, target, publisher);
        let w = without_revoked(r, target, publisher);
        assert forall|j: int| 0 <= j < without_revoked(s, target, publisher).len()
            implies s.contains(#[trigger] without_revoked(s, target, publisher)[j]) by {
            if j < w.len() {
                assert(without_revoked(s, target, publisher)[j] == w[j]);
                let m = choose|m: int| 0 <= m < r.len() && r[m] == w[j];
                assert(s[m] == w[j]);
            } else {
                assert(s[s.len() - 1] == without_revoked(s, target, publisher)[j]);
            }
        }
    }
}

/// Revoking keeps every descriptor with another id.
proof fn lemma_without_revoked_keeps(s: Seq<DescriptorModel>, target: (u8, Seq<u8>), publisher: (u8, Seq<u8>), d: DescriptorModel)
    requires
        s.contains(d),
        d.id != target,
    ensures
        without_revoked(s, target, publisher).contains(d),
    decreases s.len(),
{
    let r = s.drop_last();
    let w = without_revoked(r, target, publisher);
    if s.last() == d {
        assert(w.push(d)[w.len() as int] == d);
    } else {
        let m = choose|m: int| 0 <= m < s.len() && s[m] == d;
        assert(r[m] == d);
        lemma_without_revoked_keeps(r, target, publisher, d);
        let n = choose|n: int| 0 <= n < w.len() && w[n] == d;
        if s.last().id == target && s.last().publisher == publisher {
        } else {
            assert(w.push(s.last())[n] == d);
        }
    }
}

/// The value of an optional filter set.
pub open spec fn filter_model(filters: Option<&FilterSet>) -> Option<FilterModel> {
    match filters {
        Some(f) => Some(f@),
        None => None,
    }
}

/// Whether `d` is returned by a read at `now` with `filters`: it is
/// unexpired and matches every filter that is set.
pub fn passes_filters(d: &Descriptor, filters: Option<&FilterSet>, now_micros: u64) -> (res: bool)
    ensures
        res == passes(d@, filter_model(filters), now_micros),
{
    let effective_start = if d.timestamp < now_micros { d.timestamp } else { now_micros };
    let ttl_micros: u64 = (d.ttl as u64) * 1_000_000;
    if (effective_start as u128) + (ttl_micros as u128) <= now_micros as u128 {
        return false;
    }
    match filters {
        None => true,
        Some(f) => {
            let schema_ok = match &f.schema_hash {
                Some(sh) => d.schema_hash.same_as(sh),
                None => true,
            };
            let time_ok = match f.min_timestamp {
                Some(min_ts) => d.timestamp >= min_ts,
                None => true,
            };
            let publisher_ok = match &f.publisher {
                Some(p) => d.publisher.same_as(p),
                None => true,
            };
            schema_ok && time_ok && publisher_ok
        },
    }
}

/// The evicted store gains the next slot of the store it came from.
proof fn lemma_evicted_push(
    m: Map<(u8, Seq<u8>), Seq<DescriptorModel>>,
    k: (u8, Seq<u8>),
    v: Seq<DescriptorModel>,
    now: u64,
)
    requires
        !m.contains_key(k),
    ensures
        evicted(m.insert(k, v), now) == if selected(v, None, now).len() > 0 {
            evicted(m, now).insert(k, selected(v, None, now))
        } else {
            evicted(m, now)
        },
{
    let lhs = evicted(m.insert(k, v), now);
    if selected(v, None, now).len() > 0 {
        assert(lhs =~= evicted(m, now).insert(k, selected(v, None, now)));
    } else {
        assert(lhs =~= evicted(m, now));
    }
}

impl DescriptorStore {
    /// The descriptors at `routing_key` that a read at `now_micros` returns:
    /// the unexpired ones that match every filter that is set, in the order
    /// they were stored.
    pub fn get_descriptors_at(&self, routing_key: &crate::hash::Hash, filters: Option<&FilterSet>, now_micros: u64)
        -> (res: Vec<Descriptor>)
        requires
            self.wf(),
        ensures
            descriptor_models(res@) == read_result(self.store_view(), routing_key@, filter_model(filters), now_micros),
    {
        let mut out: Vec<Descriptor> = Vec::new();
        match find_slot(&self.slots, routing_key) {
            None => {
                proof {
                    assert forall|a: int| 0 <= a < self.slot_models().len() implies (#[trigger] self.slot_models()[a]).0 != routing_key@ by {
                        assert(self.slot_models()[a] == self.slots@[a]@);
                    }
                    lemma_assoc_missing(self.slot_models(), routing_key@);
                }
                assert(descriptor_models(out@) =~= Seq::<DescriptorModel>::empty());
                out
            },
            Some(i) => {
                proof {
                    assert(self.slot_models()[i as int] == self.slots@[i as int]@);
                    lemma_assoc_at(self.slot_models(), i as int);
                }
                let slot = &self.slots[i];
                let ghost m = descriptor_models(slot.descriptors@);
                let ghost fm = filter_model(filters);
                assert(Seq::<DescriptorModel>::empty() =~= selected(m.take(0), fm, now_micros));
                assert(descriptor_models(out@) =~= Seq::<DescriptorModel>::empty());
                let mut j: usize = 0;
                while j < slot.descriptors.len()
                    invariant
                        j <= slot.descriptors@.len(),
                        m == descriptor_models(slot.descriptors@),
                        fm == filter_model(filters),
                        descriptor_models(out@) == selected(m.take(j as int), fm, now_micros),
                    decreases slot.descriptors.len() - j,
                {
                    proof {
                        assert(m.take(j + 1).drop_last() =~= m.take(j as int));
                        assert(m[j as int] == slot.descriptors@[j as int]@);
                    }
                    if passes_filters(&slot.descriptors[j], filters, now_micros) {
                        let ghost prev = out@;
                        out.push(slot.descriptors[j].clone());
                        assert(descriptor_models(out@) =~= descriptor_models(prev).push(m[j as int]));
                    }
                    j = j + 1;
                }
                assert(m.take(m.len() as int) =~= m);
                out
            },
        }
    }

    /// Drop every expired descriptor, then every routing key left without
    /// descriptors.
    pub fn evict_expired_at(&mut self, now_micros: u64)
        requires
            old(self).wf(),
        ensures
            final(self).wf(),
            final(self).store_view() == evicted(old(self).store_view(), now_micros),
            final(self).sequence_view() == old(self).sequence_view(),
            final(self).rate_view() == old(self).rate_view(),
    {
        let ghost old_models = self.slot_models();
        let mut slots: Vec<KeySlot> = Vec::new();
        std::mem::swap(&mut slots, &mut self.slots);
        assert(slots@.map_values(|s: KeySlot| s@) == old_models);
        let mut kept_slots: Vec<KeySlot> = Vec::new();
        let mut i: usize = 0;
        let ghost empty_map = Map::<(u8, Seq<u8>), Seq<DescriptorModel>>::empty();
        assert(assoc_map(old_models.take(0)) =~= empty_map);
        assert(evicted(empty_map, now_micros) =~= empty_map);
        assert(assoc_map(kept_slots@.map_values(|s: KeySlot| s@)) =~= empty_map);
        while i < slots.len()
            invariant
                i <= slots@.len(),
                old_models == slots@.map_values(|s: KeySlot| s@),
                keys_unique(old_models),
                forall|a: int, j: int| 0 <= a < old_models.len() && 0 <= j < old_models[a].1.len()
                    ==> (#[trigger] old_models[a].1[j]).ttl <= MAX_TTL_SECS,
                keys_unique(kept_slots@.map_values(|s: KeySlot| s@)),
                assoc_map(kept_slots@.map_values(|s: KeySlot| s@)) == evicted(assoc_map(old_models.take(i as int)), now_micros),
                forall|a: int| 0 <= a < kept_slots@.len() ==> has_key(old_models.take(i as int), (#[trigger] kept_slots@[a])@.0),
                forall|a: int, j: int| 0 <= a < kept_slots@.len() && 0 <= j < kept_slots@[a]@.1.len()
                    ==> (#[trigger] kept_slots@[a]@.1[j]).ttl <= MAX_TTL_SECS,
            decreases slots.len() - i,
        {
            let ghost kept_models = kept_slots@.map_values(|s: KeySlot| s@);
            let ghost prefix = old_models.take(i as int);
            let ghost cur = old_models[i as int];
            proof {
                assert(cur == slots@[i as int]@);
                assert(old_models.take(i + 1) =~= prefix.push(cur));
                assert(keys_unique(prefix)) by {
                    assert forall|a: int, b: int| 0 <= a < b < prefix.len() implies (#[trigger] prefix[a]).0 != (#[trigger] prefix[b]).0 by {
                        assert(prefix[a] == old_models[a] && prefix[b] == old_models[b]);
                    }
                }
                assert(!has_key(prefix, cur.0)) by {
                    if has_key(prefix, cur.0) {
                        let m = choose|m: int| 0 <= m < prefix.len() && (#[trigger] prefix[m]).0 == cur.0;
                        assert(old_models[m].0 != old_models[i as int].0);
                    }
                }
                lemma_assoc_push(prefix, cur.0, cur.1);
                lemma_assoc_missing(prefix, cur.0);
                lemma_evicted_push(assoc_map(prefix), cur.0, cur.1, now_micros);
            }
            let slot = &slots[i];
            let ghost m = descriptor_models(slot.descriptors@);
            let mut live: Vec<Descriptor> = Vec::new();
            assert(descriptor_models(live@) =~= selected(m.take(0), None, now_micros));
            let mut j: usize = 0;
            while j < slot.descriptors.len()
                invariant
                    j <= slot.descriptors@.len(),
                    m == descriptor_models(slot.descriptors@),
                    descriptor_models(live@) == selected(m.take(j as int), None, now_micros),
                decreases slot.descriptors.len() - j,
            {
                proof {
                    assert(m.take(j + 1).drop_last() =~= m.take(j as int));
                    assert(m[j as int] == slot.descriptors@[j as int]@);
                }
                if passes_filters(&slot.descriptors[j], None, now_micros) {
                    let ghost prev = live@;
                    live.push(slot.descriptors[j].clone());
                    assert(descriptor_models(live@) =~= descriptor_models(prev).push(m[j as int]));
                }
                j = j + 1;
            }
            assert(m.take(m.len() as int) =~= m);
            proof {
                lemma_selected_subset(m, None, now_micros);
            }
            if live.len() > 0 {
                proof {
                    assert(!has_key(kept_models, cur.0)) by {
                        if has_key(kept_models, cur.0) {
                            let a = choose|a: int| 0 <= a < kept_models.len() && (#[trigger] kept_models[a]).0 == cur.0;
                            assert(kept_models[a] == kept_slots@[a]@);
                        }
                    }
                    lemma_assoc_push(kept_models, cur.0, descriptor_models(live@));
                }
                kept_slots.push(KeySlot { key: slot.key.clone(), descriptors: live });
                proof {
                    assert(kept_slots@.map_values(|s: KeySlot| s@) =~= kept_models.push((cur.0, selected(m, None, now_micros))));
                    assert forall|a: int| 0 <= a < kept_slots@.len() implies has_key(old_models.take(i + 1), (#[trigger] kept_slots@[a])@.0) by {
                        if a < kept_models.len() {
                            let b = choose|b: int| 0 <= b < prefix.len() && (#[trigger] prefix[b]).0 == kept_slots@[a]@.0;
                            assert(old_models.take(i + 1)[b] == prefix[b]);
                        } else {
                            assert(old_models.take(i + 1)[i as int] == cur);
                        }
                    }
                    assert forall|a: int, j: int| 0 <= a < kept_slots@.len() && 0 <= j < kept_slots@[a]@.1.len()
                        implies (#[trigger] kept_slots@[a]@.1[j]).ttl <= MAX_TTL_SECS by {
                        if a == kept_models.len() {
                            assert(m.contains(kept_slots@[a]@.1[j]));
                        }
                    }
                }
            } else {
                proof {
                    assert forall|a: int| 0 <= a < kept_slots@.len() implies has_key(old_models.take(i + 1), (#[trigger] kept_slots@[a])@.0) by {
                        let b = choose|b: int| 0 <= b < prefix.len() && (#[trigger] prefix[b]).0 == kept_slots@[a]@.0;
                        assert(old_models.take(i + 1)[b] == prefix[b]);
                    }
                }
            }
            i = i + 1;
        }
        assert(old_models.take(old_models.len() as int) =~= old_models);
        self.slots = kept_slots;
    }

    /// Every unexpired descriptor held at `now_micros`, once per descriptor
    /// slot (publisher, schema and topic), as a hub gossips them.
    pub fn all_descriptors_at(&self, now_micros: u64) -> (res: Vec<Descriptor>)
        requires
            self.wf(),
        ensures
            live_once_per_slot(self.store_view(), now_micros, descriptor_models(res@)),
    {
        let ghost sm = self.slot_models();
        let mut out: Vec<Descriptor> = Vec::new();
        let mut a: usize = 0;
        while a < self.slots.len()
            invariant
                a <= self.slots@.len(),
                sm == self.slot_models(),
                collected_so_far(sm, now_micros, descriptor_models(out@), a as int),
            decreases self.slots.len() - a,
        {
            let slot = &self.slots[a];
            assert(sm[a as int] == slot@);
            let mut b: usize = 0;
            while b < slot.descriptors.len()
                invariant
                    a < self.slots@.len(),
                    b <= slot.descriptors@.len(),
                    sm == self.slot_models(),
                    sm[a as int] == slot@,
                    collected_so_far(sm, now_micros, descriptor_models(out@), a as int),
                    forall|q: int| 0 <= q < b && passes(#[trigger] sm[a as int].1[q], None, now_micros)
                        ==> covered(descriptor_models(out@), sm[a as int].1[q]),
                decreases slot.descriptors.len() - b,
            {
                let d = &slot.descriptors[b];
                assert(sm[a as int].1[b as int] == d@);
                if passes_filters(d, None, now_micros) {
                    let key = DedupKey::from_descriptor(d);
                    let ghost r = descriptor_models(out@);
                    let mut found = false;
                    let mut x: usize = 0;
                    while x < out.len()
                        invariant
                            x <= out@.len(),
                            r == descriptor_models(out@),
                            key@ == dedup_of(d@),
                            found ==> covered(r, d@),
                            !found ==> forall|y: int| 0 <= y < x ==> dedup_of(#[trigger] r[y]) != dedup_of(d@),
                        decreases out.len() - x,
                    {
                        assert(r[x as int] == out@[x as int]@);
                        if key.matches(&out[x]) {
                            found = true;
                        }
                        x = x + 1;
                    }
                    if !found {
                        out.push(d.clone());
                        proof {
                            assert(descriptor_models(out@) =~= r.push(d@));
                            lemma_collect_push(sm, now_micros, r, d@, a as int, b as int);
                        }
                    }
                }
                b = b + 1;
            }
            a = a + 1;
        }
        proof {
            lemma_collected_all(sm, now_micros, descriptor_models(out@));
        }
        out
    }

    /// Every unexpired descriptor held now, once per descriptor slot (see
    /// `all_descriptors_at`).
    pub fn all_descriptors(&self) -> (res: Vec<Descriptor>)
        requires
            self.wf(),
        ensures
            exists|now: u64| clock_reading(now) && #[trigger] live_once_per_slot(self.store_view(), now, descriptor_models(res@)),
    {
        let now = crate::primitives::now_micros();
        self.all_descriptors_at(now)
    }

    /// Whether any descriptor is held under `routing_key`.
    pub fn has_descriptors(&self, routing_key: &crate::hash::Hash) -> (res: bool)
        requires
            self.wf(),
        ensures
            res == (self.store_view().contains_key(routing_key@) && self.store_view()[routing_key@].len() > 0),
    {
        match find_slot(&self.slots, routing_key) {
            None => {
                proof {
                    assert forall|a: int| 0 <= a < self.slot_models().len() implies (#[trigger] self.slot_models()[a]).0 != routing_key@ by {
                        assert(self.slot_models()[a] == self.slots@[a]@);
                    }
                    lemma_assoc_missing(self.slot_models(), routing_key@);
                }
                false
            },
            Some(i) => {
                proof {
                    assert(self.slot_models()[i as int] == self.slots@[i as int]@);
                    lemma_assoc_at(self.slot_models(), i as int);
                }
                self.slots[i].descriptors.len() > 0
            },
        }
    }

    /// Total number of descriptors held, each routing key's copy counted
    /// (saturating at `usize::MAX`, a count no store in memory reaches).
    pub fn descriptor_count(&self) -> (res: usize)
        requires
            self.wf(),
        ensures
            res as nat == (if count_of(self.store_view()) <= usize::MAX { count_of(self.store_view()) } else { usize::MAX as nat }),
    {
        let ghost models = self.slot_models();
        let mut total: usize = 0;
        let mut i: usize = 0;
        while i < self.slots.len()
            invariant
                i <= self.slots@.len(),
                models == self.slot_models(),
                total as nat == (if total_len(models.take(i as int)) <= usize::MAX { total_len(models.take(i as int)) } else { usize::MAX as nat }),
            decreases self.slots.len() - i,
        {
            proof {
                assert(models.take(i + 1).drop_last() =~= models.take(i as int));
                assert(models[i as int] == self.slots@[i as int]@);
            }
            total = total.saturating_add(self.slots[i].descriptors.len());
            i = i + 1;
        }
        proof {
            assert(models.take(models.len() as int) =~= models);
            lemma_total_len_is_count(models, models.len() as int);
        }
        total
    }

    /// Number of routing keys in the store.
    pub fn routing_key_count(&self) -> (res: usize)
        requires
            self.wf(),
        ensures
            res == self.store_view().dom().len(),
    {
        proof {
            lemma_assoc_len(self.slot_models());
        }
        self.slots.len()
    }
}

/// What a read selects comes from what is stored.
proof fn lemma_selected_subset(s: Seq<DescriptorModel>, f: Option<FilterModel>, now: u64)
    ensures
        forall|j: int| 0 <= j < selected(s, f, now).len() ==> s.contains(#[trigger] selected(s, f, now)[j]),
        forall|j: int| 0 <= j < selected(s, f, now).len() ==> passes(#[trigger] selected(s, f, now)[j], f, now),
    decreases s.len(),
{
    if s.len() > 0 {
        let r = s.drop_last();
        lemma_selected_subset(r, f, now);
        let w = selected(r, f, now);
        assert forall|j: int| 0 <= j < selected(s, f, now).len() implies
            s.contains(#[trigger] selected(s, f, now)[j]) && passes(selected(s, f, now)[j], f, now) by {
            if j < w.len() {
                assert(selected(s, f, now)[j] == w[j]);
                assert(r.contains(w[j]));
                let m = choose|m: int| 0 <= m < r.len() && r[m] == w[j];
                assert(s[m] == w[j]);
            } else {
                assert(s[s.len() - 1] == selected(s, f, now)[j]);
            }
        }
    }
}

/// What a STORE of `d` at time `now` does to a store whose descriptors,
/// sequences and STORE times were `store`, `seqs` and `rate`, and what it
/// answers.
pub open spec fn store_outcome(
    store: Map<(u8, Seq<u8>), Seq<DescriptorModel>>,
    seqs: Map<((u8, Seq<u8>), (u8, Seq<u8>), Seq<char>), u64>,
    rate: Map<(u8, Seq<u8>), Seq<u64>>,
    new_store: Map<(u8, Seq<u8>), Seq<DescriptorModel>>,
    new_seqs: Map<((u8, Seq<u8>), (u8, Seq<u8>), Seq<char>), u64>,
    new_rate: Map<(u8, Seq<u8>), Seq<u64>>,
    d: DescriptorModel,
    now: u64,
    res: Result<(), StoreError>,
) -> bool {
    if !descriptor_valid(d, now) {
        &&& res matches Err(StoreError::ValidationFailed(msg))
        &&& msg@ == validation_error_text(d, now)
        &&& new_store == store && new_seqs == seqs && new_rate == rate
    } else if !publisher_allowed(rate, d, now) {
        &&& res == Err::<(), StoreError>(StoreError::RateLimited { limit: RATE_LIMIT_PER_MINUTE })
        &&& new_store == store && new_seqs == seqs && new_rate == rate_after(rate, d, now)
    } else if is_stale(seqs, d) {
        &&& res == Err::<(), StoreError>(StoreError::StaleDescriptor { received: d.sequence, current: seqs[dedup_of(d)] })
        &&& new_store == store && new_seqs == seqs && new_rate == rate_after(rate, d, now)
    } else {
        &&& res is Ok
        &&& new_store == store_effect(store, d)
        &&& new_seqs == seqs.insert(dedup_of(d), d.sequence)
        &&& new_rate == rate_after(rate, d, now)
    }
}

/// The outcome of storing `d` at `now` without a rate limit: refused when
/// invalid or stale, and otherwise kept.
pub open spec fn unmetered_outcome(
    store: Map<(u8, Seq<u8>), Seq<DescriptorModel>>,
    seqs: Map<((u8, Seq<u8>), (u8, Seq<u8>), Seq<char>), u64>,
    new_store: Map<(u8, Seq<u8>), Seq<DescriptorModel>>,
    new_seqs: Map<((u8, Seq<u8>), (u8, Seq<u8>), Seq<char>), u64>,
    d: DescriptorModel,
    now: u64,
    res: Result<(), StoreError>,
) -> bool {
    if !descriptor_valid(d, now) {
        &&& res matches Err(StoreError::ValidationFailed(msg))
        &&& msg@ == validation_error_text(d, now)
        &&& new_store == store && new_seqs == seqs
    } else if is_stale(seqs, d) {
        &&& res == Err::<(), StoreError>(StoreError::StaleDescriptor { received: d.sequence, current: seqs[dedup_of(d)] })
        &&& new_store == store && new_seqs == seqs
    } else {
        &&& res is Ok
        &&& new_store == store_effect(store, d)
        &&& new_seqs == seqs.insert(dedup_of(d), d.sequence)
    }
}

/// Whether `d` is held under some routing key of `store`.
pub open spec fn held(store: Map<(u8, Seq<u8>), Seq<DescriptorModel>>, d: DescriptorModel) -> bool {
    exists|k: (u8, Seq<u8>)| store.contains_key(k) && store[k].contains(d)
}

/// Whether `r` holds every descriptor of `store` unexpired at `now` once per
/// descriptor slot: each is unexpired and held, no slot comes twice, and
/// every unexpired held descriptor's slot is there.
pub open spec fn live_once_per_slot(store: Map<(u8, Seq<u8>), Seq<DescriptorModel>>, now: u64, r: Seq<DescriptorModel>) -> bool {
    &&& forall|i: int| 0 <= i < r.len() ==> passes(#[trigger] r[i], None, now) && held(store, r[i])
    &&& forall|i: int, j: int| 0 <= i < j < r.len() ==> dedup_of(#[trigger] r[i]) != dedup_of(#[trigger] r[j])
    &&& forall|d: DescriptorModel| #[trigger] held(store, d) && passes(d, None, now) ==>
        exists|i: int| 0 <= i < r.len() && dedup_of(#[trigger] r[i]) == dedup_of(d)
}

/// Whether `d` is one of the descriptors of the slots `sm`.
pub open spec fn in_slots(sm: Seq<((u8, Seq<u8>), Seq<DescriptorModel>)>, d: DescriptorModel) -> bool {
    exists|p: int, q: int| 0 <= p < sm.len() && 0 <= q < sm[p].1.len() && #[trigger] sm[p].1[q] == d
}

/// Whether `r` has a descriptor of `d`'s slot.
pub open spec fn covered(r: Seq<DescriptorModel>, d: DescriptorModel) -> bool {
    exists|x: int| 0 <= x < r.len() && dedup_of(#[trigger] r[x]) == dedup_of(d)
}

/// The gathering of unexpired descriptors after the first `a` slots:
/// gathered ones are unexpired and come from the slots, once per
/// descriptor slot, and every unexpired descriptor of those slots is
/// covered.
pub open spec fn collected_so_far(sm: Seq<((u8, Seq<u8>), Seq<DescriptorModel>)>, now: u64, r: Seq<DescriptorModel>, a: int) -> bool {
    &&& forall|x: int| 0 <= x < r.len() ==> passes(#[trigger] r[x], None, now) && in_slots(sm, r[x])
    &&& forall|x: int, y: int| 0 <= x < y < r.len() ==> dedup_of(#[trigger] r[x]) != dedup_of(#[trigger] r[y])
    &&& forall|p: int, q: int| 0 <= p < a && 0 <= q < sm[p].1.len() && passes(#[trigger] sm[p].1[q], None, now)
        ==> covered(r, sm[p].1[q])
}

/// What a read of routing key `k` at `now` with filters `f` returns.
pub open spec fn read_result(
    store: Map<(u8, Seq<u8>), Seq<DescriptorModel>>,
    k: (u8, Seq<u8>),
    f: Option<FilterModel>,
    now: u64,
) -> Seq<DescriptorModel> {
    if store.contains_key(k) { selected(store[k], f, now) } else { Seq::empty() }
}

impl DescriptorStore {
    /// Store a descriptor at the current time (see `store_descriptor_at`).
    pub fn store_descriptor(&mut self, descriptor: Descriptor) -> (res: Result<(), StoreError>)
        requires
            old(self).wf(),
        ensures
            final(self).wf(),
            exists|now: u64| clock_reading(now) && #[trigger] store_outcome(
                old(self).store_view(), old(self).sequence_view(), old(self).rate_view(),
                final(self).store_view(), final(self).sequence_view(), final(self).rate_view(),
                descriptor@, now, res,
            ),
    {
        let ghost d = descriptor@;
        let now = crate::primitives::now_micros();
        let res = self.store_descriptor_at(descriptor, now);
        assert(store_outcome(
            old(self).store_view(), old(self).sequence_view(), old(self).rate_view(),
            self.store_view(), self.sequence_view(), self.rate_view(), d, now, res,
        ));
        res
    }

    /// Store a descriptor at the current time without charging its
    /// publisher's rate limit (see `store_descriptor_unmetered_at`).
    pub fn store_descriptor_unmetered(&mut self, descriptor: Descriptor) -> (res: Result<(), StoreError>)
        requires
            old(self).wf(),
        ensures
            final(self).wf(),
            exists|now: u64| clock_reading(now) && #[trigger] unmetered_outcome(
                old(self).store_view(), old(self).sequence_view(),
                final(self).store_view(), final(self).sequence_view(),
                descriptor@, now, res,
            ),
            final(self).rate_view() == old(self).rate_view(),
    {
        let ghost d = descriptor@;
        let now = crate::primitives::now_micros();
        let res = self.store_descriptor_unmetered_at(descriptor, now);
        assert(unmetered_outcome(
            old(self).store_view(), old(self).sequence_view(),
            self.store_view(), self.sequence_view(), d, now, res,
        ));
        res
    }

    /// The descriptors at `routing_key` that a read at the current time
    /// returns (see `get_descriptors_at`).
    pub fn get_descriptors(&self, routing_key: &crate::hash::Hash, filters: Option<&FilterSet>) -> (res: Vec<Descriptor>)
        requires
            self.wf(),
        ensures
            exists|now: u64| clock_reading(now) && #[trigger] read_result(self.store_view(), routing_key@, filter_model(filters), now)
                == descriptor_models(res@),
    {
        let now = crate::primitives::now_micros();
        let res = self.get_descriptors_at(routing_key, filters, now);
        assert(read_result(self.store_view(), routing_key@, filter_model(filters), now) == descriptor_models(res@));
        res
    }

    /// Drop expired descriptors as of the current time (see `evict_expired_at`).
    pub fn evict_expired(&mut self)
        requires
            old(self).wf(),
        ensures
            final(self).wf(),
            exists|now: u64| clock_reading(now) && final(self).store_view() == #[trigger] evicted(old(self).store_view(), now),
            final(self).sequence_view() == old(self).sequence_view(),
            final(self).rate_view() == old(self).rate_view(),
    {
        let now = crate::primitives::now_micros();
        self.evict_expired_at(now);
    }
}

impl Default for DescriptorStore {
    fn default() -> (res: Self)
        ensures
            res.wf(),
            res.store_view() == Map::<(u8, Seq<u8>), Seq<DescriptorModel>>::empty(),
            res.sequence_view() == Map::<((u8, Seq<u8>), (u8, Seq<u8>), Seq<char>), u64>::empty(),
            res.rate_view() == Map::<(u8, Seq<u8>), Seq<u64>>::empty(),
    {
        DescriptorStore::new()
    }
}

/// Reading a concatenation reads each part in turn.
proof fn lemma_selected_concat(a: Seq<DescriptorModel>, b: Seq<DescriptorModel>, f: Option<FilterModel>, now: u64)
    ensures
        selected(a + b, f, now) == selected(a, f, now) + selected(b, f, now),
    decreases b.len(),
{
    if b.len() == 0 {
        assert(a + b =~= a);
        assert(selected(a, f, now) + selected(b, f, now) =~= selected(a, f, now));
    } else {
        lemma_selected_concat(a, b.drop_last(), f, now);
        assert((a + b).drop_last() =~= a + b.drop_last());
        assert((a + b).last() == b.last());
        if passes(b.last(), f, now) {
            assert(selected(a + b, f, now) =~= selected(a, f, now) + selected(b, f, now));
        } else {
            assert(selected(a + b, f, now) =~= selected(a, f, now) + selected(b, f, now));
        }
    }
}

/// A routing key that occurs in the list gets at least one copy.
proof fn lemma_copies_present(rks: Seq<(u8, Seq<u8>)>, k: (u8, Seq<u8>), d: DescriptorModel)
    requires
        rks.contains(k),
    ensures
        copies_for_key(rks, k, d).contains(d),
    decreases rks.len(),
{
    let r = rks.drop_last();
    if rks.last() == k {
        let c = copies_for_key(r, k, d);
        assert(c.push(d)[c.len() as int] == d);
    } else {
        let m = choose|m: int| 0 <= m < rks.len() && rks[m] == k;
        assert(r[m] == k);
        lemma_copies_present(r, k, d);
        let c = copies_for_key(r, k, d);
        let i = choose|i: int| 0 <= i < c.len() && c[i] == d;
        assert(copies_for_key(rks, k, d)[i] == d);
    }
}

/// Read after write: once a descriptor that is valid at `now` is stored, a
/// read at `now` of any of its routing keys, without filters, returns it.
#[verifier::rlimit(30)]
pub proof fn lemma_stored_descriptor_is_read(
    store: Map<(u8, Seq<u8>), Seq<DescriptorModel>>,
    d: DescriptorModel,
    now: u64,
    k: (u8, Seq<u8>),
)
    requires
        descriptor_valid(d, now),
        d.routing_keys.contains(k),
    ensures
        read_result(store_effect(store, d), k, None, now).contains(d),
{
    let before = without_dedup(value_or(store, k, Seq::empty()), dedup_of(d));
    let copies = copies_for_key(d.routing_keys, k, d);
    lemma_copies_present(d.routing_keys, k, d);
    let i = choose|i: int| 0 <= i < copies.len() && copies[i] == d;
    assert((before + copies)[before.len() + i] == d);
    let held_after = stored_after(store, d)[k];
    assert(held_after.contains(d));
    match revocation_target(d) {
        Some(t) => {
            if t != d.id {
                lemma_without_revoked_keeps(held_after, t, d.publisher, d);
            }
        },
        None => {},
    }
    lemma_selected_keeps(store_effect(store, d)[k], None, now, d);
}

/// A descriptor that passes the read's checks and is held is returned.
proof fn lemma_selected_keeps(s: Seq<DescriptorModel>, f: Option<FilterModel>, now: u64, d: DescriptorModel)
    requires
        s.contains(d),
        passes(d, f, now),
    ensures
        selected(s, f, now).contains(d),
    decreases s.len(),
{
    let r = s.drop_last();
    if s.last() == d {
        let w = selected(r, f, now);
        assert(w.push(d)[w.len() as int] == d);
    } else {
        let m = choose|m: int| 0 <= m < s.len() && s[m] == d;
        assert(r[m] == d);
        lemma_selected_keeps(r, f, now, d);
        let w = selected(r, f, now);
        let i = choose|i: int| 0 <= i < w.len() && w[i] == d;
        if passes(s.last(), f, now) {
            assert(w.push(s.last())[i] == d);
        }
    }
}

/// Removing a slot leaves none of its descriptors.
proof fn lemma_without_dedup_excludes(s: Seq<DescriptorModel>, key: ((u8, Seq<u8>), (u8, Seq<u8>), Seq<char>))
    ensures
        forall|j: int| 0 <= j < without_dedup(s, key).len() ==> dedup_of(#[trigger] without_dedup(s, key)[j]) != key,
    decreases s.len(),
{
    if s.len() > 0 {
        lemma_without_dedup_excludes(s.drop_last(), key);
        let w = without_dedup(s.drop_last(), key);
        assert forall|j: int| 0 <= j < without_dedup(s, key).len() implies dedup_of(#[trigger] without_dedup(s, key)[j]) != key by {
            if j < w.len() {
                assert(without_dedup(s, key)[j] == w[j]);
            }
        }
    }
}

/// Replacement: after `d` is stored, the only descriptors of `d`'s slot
/// left under any routing key are copies of `d` itself.
pub proof fn lemma_store_replaces_slot(
    store: Map<(u8, Seq<u8>), Seq<DescriptorModel>>,
    d: DescriptorModel,
    k: (u8, Seq<u8>),
    j: int,
)
    requires
        store_effect(store, d).contains_key(k),
        0 <= j < store_effect(store, d)[k].len(),
        dedup_of(store_effect(store, d)[k][j]) == dedup_of(d),
    ensures
        store_effect(store, d)[k][j] == d,
{
    let e = store_effect(store, d)[k][j];
    let s = stored_after(store, d)[k];
    let i = match revocation_target(d) {
        Some(t) => if t != d.id {
            lemma_without_revoked_subset(s, t, d.publisher);
            choose|i: int| 0 <= i < s.len() && s[i] == e
        } else {
            j
        },
        None => j,
    };
    lemma_stored_slot_is_d(store, d, k, i);
}

/// Watermarks only rise: whatever a STORE answers, every descriptor slot
/// that had a sequence watermark keeps one at least as high, so a
/// descriptor that was stale stays stale. Eviction keeps the watermarks as
/// they are (`evict_expired_at`).
pub proof fn lemma_store_keeps_watermarks(
    store: Map<(u8, Seq<u8>), Seq<DescriptorModel>>,
    seqs: Map<((u8, Seq<u8>), (u8, Seq<u8>), Seq<char>), u64>,
    rate: Map<(u8, Seq<u8>), Seq<u64>>,
    new_store: Map<(u8, Seq<u8>), Seq<DescriptorModel>>,
    new_seqs: Map<((u8, Seq<u8>), (u8, Seq<u8>), Seq<char>), u64>,
    new_rate: Map<(u8, Seq<u8>), Seq<u64>>,
    d: DescriptorModel,
    now: u64,
    res: Result<(), StoreError>,
    key: ((u8, Seq<u8>), (u8, Seq<u8>), Seq<char>),
    e: DescriptorModel,
)
    requires
        store_outcome(store, seqs, rate, new_store, new_seqs, new_rate, d, now, res),
    ensures
        seqs.contains_key(key) ==> new_seqs.contains_key(key) && new_seqs[key] >= seqs[key],
        is_stale(seqs, e) ==> is_stale(new_seqs, e),
{
}

/// The same for a STORE without the rate limit, as a peer hub's: every
/// watermark stays or rises, and a stale descriptor stays stale.
pub proof fn lemma_unmetered_store_keeps_watermarks(
    store: Map<(u8, Seq<u8>), Seq<DescriptorModel>>,
    seqs: Map<((u8, Seq<u8>), (u8, Seq<u8>), Seq<char>), u64>,
    new_store: Map<(u8, Seq<u8>), Seq<DescriptorModel>>,
    new_seqs: Map<((u8, Seq<u8>), (u8, Seq<u8>), Seq<char>), u64>,
    d: DescriptorModel,
    now: u64,
    res: Result<(), StoreError>,
    key: ((u8, Seq<u8>), (u8, Seq<u8>), Seq<char>),
    e: DescriptorModel,
)
    requires
        unmetered_outcome(store, seqs, new_store, new_seqs, d, now, res),
    ensures
        seqs.contains_key(key) ==> new_seqs.contains_key(key) && new_seqs[key] >= seqs[key],
        is_stale(seqs, e) ==> is_stale(new_seqs, e),
{
}

/// In the store right after `d` is stored, `d` is the only descriptor of
/// its slot.
proof fn lemma_stored_slot_is_d(
    store: Map<(u8, Seq<u8>), Seq<DescriptorModel>>,
    d: DescriptorModel,
    k: (u8, Seq<u8>),
    j: int,
)
    requires
        stored_after(store, d).contains_key(k),
        0 <= j < stored_after(store, d)[k].len(),
        dedup_of(stored_after(store, d)[k][j]) == dedup_of(d),
    ensures
        stored_after(store, d)[k][j] == d,
{
    let before = without_dedup(value_or(store, k, Seq::empty()), dedup_of(d));
    let copies = copies_for_key(d.routing_keys, k, d);
    lemma_without_dedup_excludes(value_or(store, k, Seq::empty()), dedup_of(d));
    lemma_copies_are_d(d.routing_keys, k, d);
    if j < before.len() {
        assert((before + copies)[j] == before[j]);
    } else {
        assert((before + copies)[j] == copies[j - before.len()]);
    }
}

/// A read returns only descriptors that are unexpired at the read's time
/// and match every filter that is set, and only descriptors that are held.
pub proof fn lemma_read_only_live_matching(
    store: Map<(u8, Seq<u8>), Seq<DescriptorModel>>,
    k: (u8, Seq<u8>),
    f: Option<FilterModel>,
    now: u64,
    j: int,
)
    requires
        0 <= j < read_result(store, k, f, now).len(),
    ensures
        store.contains_key(k),
        store[k].contains(read_result(store, k, f, now)[j]),
        !is_expired(read_result(store, k, f, now)[j].timestamp, read_result(store, k, f, now)[j].ttl, now),
        passes(read_result(store, k, f, now)[j], f, now),
{
    lemma_selected_subset(store[k], f, now);
}

/// After eviction at `now`, every routing key left holds at least one
/// descriptor, and every descriptor left is unexpired at `now`.
pub proof fn lemma_evicted_all_live(
    store: Map<(u8, Seq<u8>), Seq<DescriptorModel>>,
    now: u64,
    k: (u8, Seq<u8>),
    j: int,
)
    requires
        evicted(store, now).contains_key(k),
    ensures
        evicted(store, now)[k].len() > 0,
        0 <= j < evicted(store, now)[k].len() ==> !is_expired(evicted(store, now)[k][j].timestamp, evicted(store, now)[k][j].ttl, now),
{
    lemma_selected_subset(store[k], None, now);
}

/// The human-readable text of a storage error.
pub open spec fn store_error_text(e: StoreError) -> Seq<char> {
    match e {
        StoreError::ValidationFailed(m) => "descriptor validation failed: "@ + m@,
        StoreError::StaleDescriptor { received, current } =>
            "stale descriptor: sequence "@ + decimal_text(received as nat) + " < current "@ + decimal_text(current as nat),
        StoreError::RateLimited { limit } =>
            "rate limited: publisher exceeded "@ + decimal_text(limit as nat) + " stores per minute"@,
    }
}

impl StoreError {
    /// The human-readable text of this error.
    pub fn message(&self) -> (res: String)
        ensures
            res@ == store_error_text(*self),
    {
        match self {
            StoreError::ValidationFailed(m) => concat("descriptor validation failed: ".to_owned(), m.as_str()),
            StoreError::StaleDescriptor { received, current } => {
                let a = decimal_string(*received);
                let b = decimal_string(*current);
                let s = concat("stale descriptor: sequence ".to_owned(), a.as_str());
                let s = concat(s, " < current ");
                concat(s, b.as_str())
            },
            StoreError::RateLimited { limit } => {
                let n = decimal_string(*limit as u64);
                let s = concat("rate limited: publisher exceeded ".to_owned(), n.as_str());
                concat(s, " stores per minute")
            },
        }
    }
}

proof fn lemma_recent_len(ts: Seq<u64>, now: u64)
    ensures
        recent(ts, now).len() <= ts.len(),
    decreases ts.len(),
{
    if ts.len() > 0 {
        lemma_recent_len(ts.drop_last(), now);
    }
}

/// A publisher never gets more than `RATE_LIMIT_PER_MINUTE` STOREs recorded
/// within a window: after any attempt its recorded times number at most the
/// limit, and an accepted attempt is recorded last.
pub proof fn lemma_publisher_window_bounded(rate: Map<(u8, Seq<u8>), Seq<u64>>, d: DescriptorModel, now: u64)
    requires
        value_or(rate, d.publisher, Seq::empty()).len() <= RATE_LIMIT_PER_MINUTE,
    ensures
        rate_after(rate, d, now)[d.publisher].len() <= RATE_LIMIT_PER_MINUTE,
        publisher_allowed(rate, d, now) ==> rate_after(rate, d, now)[d.publisher].last() == now,
        forall|p: (u8, Seq<u8>)| p != d.publisher && rate.contains_key(p) ==> #[trigger] rate_after(rate, d, now)[p] == rate[p],
{
    lemma_recent_len(value_or(rate, d.publisher, Seq::empty()), now);
}

/// Gathering one more unexpired descriptor of a new slot keeps the
/// gathering's properties and covers it.
proof fn lemma_collect_push(
    sm: Seq<((u8, Seq<u8>), Seq<DescriptorModel>)>,
    now: u64,
    r: Seq<DescriptorModel>,
    d: DescriptorModel,
    a: int,
    b: int,
)
    requires
        collected_so_far(sm, now, r, a),
        forall|q: int| 0 <= q < b && passes(#[trigger] sm[a].1[q], None, now) ==> covered(r, sm[a].1[q]),
        0 <= a < sm.len(),
        0 <= b < sm[a].1.len(),
        sm[a].1[b] == d,
        passes(d, None, now),
        forall|y: int| 0 <= y < r.len() ==> dedup_of(#[trigger] r[y]) != dedup_of(d),
    ensures
        collected_so_far(sm, now, r.push(d), a),
        forall|q: int| 0 <= q < b + 1 && passes(#[trigger] sm[a].1[q], None, now) ==> covered(r.push(d), sm[a].1[q]),
{
    let t = r.push(d);
    assert(t[r.len() as int] == d);
    assert(in_slots(sm, d));
    assert forall|p: int, q: int| 0 <= p < a && 0 <= q < sm[p].1.len() && passes(#[trigger] sm[p].1[q], None, now)
        implies covered(t, sm[p].1[q]) by {
        let x = choose|x: int| 0 <= x < r.len() && dedup_of(#[trigger] r[x]) == dedup_of(sm[p].1[q]);
        assert(t[x] == r[x]);
    }
    assert forall|q: int| 0 <= q < b + 1 && passes(#[trigger] sm[a].1[q], None, now) implies covered(t, sm[a].1[q]) by {
        if q == b {
            assert(dedup_of(t[r.len() as int]) == dedup_of(sm[a].1[q]));
        } else {
            let x = choose|x: int| 0 <= x < r.len() && dedup_of(#[trigger] r[x]) == dedup_of(sm[a].1[q]);
            assert(t[x] == r[x]);
        }
    }
    assert forall|x: int| 0 <= x < t.len() implies passes(#[trigger] t[x], None, now) && in_slots(sm, t[x]) by {
        if x < r.len() {
            assert(t[x] == r[x]);
        }
    }
    assert forall|x: int, y: int| 0 <= x < y < t.len() implies dedup_of(#[trigger] t[x]) != dedup_of(#[trigger] t[y]) by {
        if y == r.len() {
            assert(t[x] == r[x]);
        } else {
            assert(t[x] == r[x]);
            assert(t[y] == r[y]);
        }
    }
}

/// A gathering over all the slots of a store is its unexpired
/// descriptors, once per descriptor slot.
proof fn lemma_collected_all(sm: Seq<((u8, Seq<u8>), Seq<DescriptorModel>)>, now: u64, r: Seq<DescriptorModel>)
    requires
        keys_unique(sm),
        collected_so_far(sm, now, r, sm.len() as int),
    ensures
        live_once_per_slot(assoc_map(sm), now, r),
{
    let store = assoc_map(sm);
    assert forall|x: int| 0 <= x < r.len() implies passes(#[trigger] r[x], None, now) && held(store, r[x]) by {
        let (p, q) = choose|p: int, q: int| 0 <= p < sm.len() && 0 <= q < sm[p].1.len() && #[trigger] sm[p].1[q] == r[x];
        lemma_assoc_at(sm, p);
        assert(store[sm[p].0].contains(r[x]));
    }
    assert forall|d: DescriptorModel| #[trigger] held(store, d) && passes(d, None, now) implies
        exists|i: int| 0 <= i < r.len() && dedup_of(#[trigger] r[i]) == dedup_of(d) by {
        let k = choose|k: (u8, Seq<u8>)| store.contains_key(k) && store[k].contains(d);
        if forall|p: int| 0 <= p < sm.len() ==> (#[trigger] sm[p]).0 != k {
            lemma_assoc_missing(sm, k);
        }
        let p = choose|p: int| 0 <= p < sm.len() && (#[trigger] sm[p]).0 == k;
        lemma_assoc_at(sm, p);
        let q = choose|q: int| 0 <= q < sm[p].1.len() && sm[p].1[q] == d;
        assert(passes(sm[p].1[q], None, now));
        assert(covered(r, sm[p].1[q]));
    }
}

/// Revoking removes every descriptor of the revoked id from the publisher.
proof fn lemma_without_revoked_excludes(s: Seq<DescriptorModel>, target: (u8, Seq<u8>), publisher: (u8, Seq<u8>))
    ensures
        forall|j: int| 0 <= j < without_revoked(s, target, publisher).len()
            ==> !((#[trigger] without_revoked(s, target, publisher)[j]).id == target
                && without_revoked(s, target, publisher)[j].publisher == publisher),
    decreases s.len(),
{
    if s.len() > 0 {
        let r = s.drop_last();
        lemma_without_revoked_excludes(r, target, publisher);
        let w = without_revoked(r, target, publisher);
        assert forall|j: int| 0 <= j < without_revoked(s, target, publisher).len()
            implies !((#[trigger] without_revoked(s, target, publisher)[j]).id == target
                && without_revoked(s, target, publisher)[j].publisher == publisher) by {
            if j < w.len() {
                assert(without_revoked(s, target, publisher)[j] == w[j]);
            }
        }
    }
}

/// Revocation: once a publisher's revocation of another of its descriptor
/// ids is stored, no routing key holds a descriptor of that id from that
/// publisher.
pub proof fn lemma_revoked_descriptor_is_gone(
    store: Map<(u8, Seq<u8>), Seq<DescriptorModel>>,
    d: DescriptorModel,
    t: (u8, Seq<u8>),
    k: (u8, Seq<u8>),
    j: int,
)
    requires
        revocation_target(d) == Some(t),
        t != d.id,
        store_effect(store, d).contains_key(k),
        0 <= j < store_effect(store, d)[k].len(),
    ensures
        !(store_effect(store, d)[k][j].id == t && store_effect(store, d)[k][j].publisher == d.publisher),
{
    lemma_without_revoked_excludes(stored_after(store, d)[k], t, d.publisher);
}

/// The UTF-8 bytes of the revocation payload's key, `target_id`.
pub open spec fn key_target_id() -> Seq<u8> {
    seq![116u8, 97, 114, 103, 101, 116, 95, 105, 100]
}

/// A revocation of descriptor id `id` written as the deterministic CBOR map
/// `{"target_id": bytes(algorithm || digest)}` under the `core/revocation`
/// schema is recognized as revoking `id`.
pub proof fn lemma_revocation_payload_recognized(d: DescriptorModel, id: (u8, Seq<u8>))
    requires
        d.schema_hash == schema_hash_of(revocation_schema_name()),
        id.1.len() == 32,
        d.payload == cbor_head(MAJOR_MAP, 1) + cbor_text(key_target_id()) + cbor_bytes(seq![id.0] + id.1),
    ensures
        revocation_target(d) == Some(id),
{
    let t = seq![id.0] + id.1;
    assert(cbor_head(MAJOR_MAP, 1) =~= seq![0xa1u8]);
    assert(cbor_head(MAJOR_TEXT, 9) =~= seq![0x69u8]);
    assert(be_bytes(33, 1) =~= seq![0x21u8]) by {
        reveal_with_fuel(be_bytes, 2);
    }
    assert(cbor_head(MAJOR_BYTES, 33) =~= seq![0x58u8, 0x21]);
    assert(d.payload.len() == 46);
    assert(d.payload.take(13) =~= revocation_prefix());
    assert(d.payload[13] == id.0);
    assert(d.payload.skip(14) =~= id.1);
}

/// How many descriptors of slot `key` a sequence holds.
pub open spec fn slot_count(s: Seq<DescriptorModel>, key: ((u8, Seq<u8>), (u8, Seq<u8>), Seq<char>)) -> nat
    decreases s.len(),
{
    if s.len() == 0 {
        0
    } else {
        slot_count(s.drop_last(), key) + if dedup_of(s.last()) == key { 1nat } else { 0nat }
    }
}

/// Every routing key holds at most one descriptor of each slot.
pub open spec fn one_per_slot(m: Map<(u8, Seq<u8>), Seq<DescriptorModel>>) -> bool {
    forall|k: (u8, Seq<u8>), key: ((u8, Seq<u8>), (u8, Seq<u8>), Seq<char>)|
        m.contains_key(k) ==> #[trigger] slot_count(m[k], key) <= 1
}

proof fn lemma_slot_count_concat(a: Seq<DescriptorModel>, b: Seq<DescriptorModel>, key: ((u8, Seq<u8>), (u8, Seq<u8>), Seq<char>))
    ensures
        slot_count(a + b, key) == slot_count(a, key) + slot_count(b, key),
    decreases b.len(),
{
    if b.len() == 0 {
        assert(a + b =~= a);
    } else {
        lemma_slot_count_concat(a, b.drop_last(), key);
        assert((a + b).drop_last() =~= a + b.drop_last());
        assert((a + b).last() == b.last());
    }
}

proof fn lemma_slot_count_without_dedup(
    s: Seq<DescriptorModel>,
    removed: ((u8, Seq<u8>), (u8, Seq<u8>), Seq<char>),
    key: ((u8, Seq<u8>), (u8, Seq<u8>), Seq<char>),
)
    ensures
        slot_count(without_dedup(s, removed), key) == if key == removed { 0 } else { slot_count(s, key) },
    decreases s.len(),
{
    if s.len() > 0 {
        lemma_slot_count_without_dedup(s.drop_last(), removed, key);
        let r = without_dedup(s.drop_last(), removed);
        if dedup_of(s.last()) != removed {
            assert(r.push(s.last()).drop_last() =~= r);
        }
    }
}

proof fn lemma_slot_count_copies(rks: Seq<(u8, Seq<u8>)>, k: (u8, Seq<u8>), d: DescriptorModel, key: ((u8, Seq<u8>), (u8, Seq<u8>), Seq<char>))
    requires
        rks.no_duplicates(),
    ensures
        slot_count(copies_for_key(rks, k, d), key)
            == if dedup_of(d) == key && rks.contains(k) { 1nat } else { 0nat },
    decreases rks.len(),
{
    if rks.len() > 0 {
        let r = rks.drop_last();
        assert(r.no_duplicates()) by {
            assert forall|i: int, j: int| 0 <= i < r.len() && 0 <= j < r.len() && i != j implies r[i] != r[j] by {
                assert(r[i] == rks[i] && r[j] == rks[j]);
            }
        }
        lemma_slot_count_copies(r, k, d, key);
        let c = copies_for_key(r, k, d);
        assert(rks.contains(k) <==> (r.contains(k) || rks.last() == k)) by {
            if rks.contains(k) {
                let m = choose|m: int| 0 <= m < rks.len() && rks[m] == k;
                if m < r.len() {
                    assert(r[m] == k);
                }
            }
            if r.contains(k) {
                let m = choose|m: int| 0 <= m < r.len() && r[m] == k;
                assert(rks[m] == k);
            }
            if rks.last() == k {
                assert(rks[rks.len() - 1] == k);
            }
        }
        if rks.last() == k {
            assert(!r.contains(k)) by {
                if r.contains(k) {
                    let m = choose|m: int| 0 <= m < r.len() && r[m] == k;
                    assert(rks[m] == rks[rks.len() - 1]);
                }
            }
            assert(c.push(d).drop_last() =~= c);
        }
    }
}

proof fn lemma_slot_count_without_revoked(
    s: Seq<DescriptorModel>,
    target: (u8, Seq<u8>),
    publisher: (u8, Seq<u8>),
    key: ((u8, Seq<u8>), (u8, Seq<u8>), Seq<char>),
)
    ensures
        slot_count(without_revoked(s, target, publisher), key) <= slot_count(s, key),
        (forall|j: int| 0 <= j < s.len() && dedup_of(#[trigger] s[j]) == key ==> !(s[j].id == target && s[j].publisher == publisher))
            ==> slot_count(without_revoked(s, target, publisher), key) == slot_count(s, key),
    decreases s.len(),
{
    if s.len() > 0 {
        let r = s.drop_last();
        assert forall|j: int| 0 <= j < r.len() implies r[j] == #[trigger] s[j] by {}
        lemma_slot_count_without_revoked(r, target, publisher, key);
        let w = without_revoked(r, target, publisher);
        if !(s.last().id == target && s.last().publisher == publisher) {
            assert(w.push(s.last()).drop_last() =~= w);
        }
        if dedup_of(s.last()) == key {
            assert(s[s.len() - 1] == s.last());
        }
    }
}

proof fn lemma_slot_count_selected(
    s: Seq<DescriptorModel>,
    f: Option<FilterModel>,
    now: u64,
    key: ((u8, Seq<u8>), (u8, Seq<u8>), Seq<char>),
)
    ensures
        slot_count(selected(s, f, now), key) <= slot_count(s, key),
    decreases s.len(),
{
    if s.len() > 0 {
        lemma_slot_count_selected(s.drop_last(), f, now, key);
        let w = selected(s.drop_last(), f, now);
        if passes(s.last(), f, now) {
            assert(w.push(s.last()).drop_last() =~= w);
        }
    }
}

proof fn lemma_slot_count_contains(s: Seq<DescriptorModel>, e: DescriptorModel)
    requires
        s.contains(e),
    ensures
        slot_count(s, dedup_of(e)) >= 1,
    decreases s.len(),
{
    if s.last() != e {
        let m = choose|m: int| 0 <= m < s.len() && s[m] == e;
        assert(s.drop_last()[m] == e);
        lemma_slot_count_contains(s.drop_last(), e);
    }
}

/// The count of slot `key` under routing key `k` after `d` is stored:
/// nothing of `d`'s own slot but `d`, once if `k` is one of its routing
/// keys; of any other slot no more than before.
proof fn lemma_slot_count_after_store(
    store: Map<(u8, Seq<u8>), Seq<DescriptorModel>>,
    d: DescriptorModel,
    k: (u8, Seq<u8>),
    key: ((u8, Seq<u8>), (u8, Seq<u8>), Seq<char>),
)
    requires
        d.routing_keys.no_duplicates(),
        store_effect(store, d).contains_key(k),
    ensures
        key == dedup_of(d) ==> slot_count(store_effect(store, d)[k], key) == if d.routing_keys.contains(k) { 1nat } else { 0nat },
        key != dedup_of(d) ==> slot_count(store_effect(store, d)[k], key) <= slot_count(value_or(store, k, Seq::empty()), key),
{
    let old_k = value_or(store, k, Seq::empty());
    let before = without_dedup(old_k, dedup_of(d));
    let copies = copies_for_key(d.routing_keys, k, d);
    let s = stored_after(store, d)[k];
    assert(s == before + copies);
    lemma_slot_count_concat(before, copies, key);
    lemma_slot_count_without_dedup(old_k, dedup_of(d), key);
    lemma_slot_count_copies(d.routing_keys, k, d, key);
    match revocation_target(d) {
        Some(t) => {
            if t != d.id {
                lemma_slot_count_without_revoked(s, t, d.publisher, key);
                if key == dedup_of(d) {
                    assert forall|j: int| 0 <= j < s.len() && dedup_of(#[trigger] s[j]) == key
                        implies !(s[j].id == t && s[j].publisher == d.publisher) by {
                        lemma_stored_slot_is_d(store, d, k, j);
                    }
                }
            }
        },
        None => {},
    }
}

/// One copy per routing key: once `d`, whose routing keys are distinct, is
/// stored, each of its routing keys holds exactly one descriptor of `d`'s
/// slot, and that descriptor is `d`; when `d` is valid at `now`, a read of
/// the key at `now` returns exactly one descriptor of the slot, `d`.
pub proof fn lemma_store_leaves_one_copy(
    store: Map<(u8, Seq<u8>), Seq<DescriptorModel>>,
    d: DescriptorModel,
    k: (u8, Seq<u8>),
    now: u64,
)
    requires
        d.routing_keys.no_duplicates(),
        d.routing_keys.contains(k),
    ensures
        store_effect(store, d).contains_key(k),
        store_effect(store, d)[k].contains(d),
        slot_count(store_effect(store, d)[k], dedup_of(d)) == 1,
        forall|j: int| 0 <= j < store_effect(store, d)[k].len() && dedup_of(#[trigger] store_effect(store, d)[k][j]) == dedup_of(d)
            ==> store_effect(store, d)[k][j] == d,
        descriptor_valid(d, now) ==> read_result(store_effect(store, d), k, None, now).contains(d)
            && slot_count(read_result(store_effect(store, d), k, None, now), dedup_of(d)) == 1,
{
    let before = without_dedup(value_or(store, k, Seq::empty()), dedup_of(d));
    let copies = copies_for_key(d.routing_keys, k, d);
    lemma_copies_present(d.routing_keys, k, d);
    let i = choose|i: int| 0 <= i < copies.len() && copies[i] == d;
    assert((before + copies)[before.len() + i] == d);
    let held_after = stored_after(store, d)[k];
    assert(held_after.contains(d));
    match revocation_target(d) {
        Some(t) => {
            if t != d.id {
                lemma_without_revoked_keeps(held_after, t, d.publisher, d);
            }
        },
        None => {},
    }
    lemma_slot_count_after_store(store, d, k, dedup_of(d));
    assert forall|j: int| 0 <= j < store_effect(store, d)[k].len() && dedup_of(#[trigger] store_effect(store, d)[k][j]) == dedup_of(d)
        implies store_effect(store, d)[k][j] == d by {
        lemma_store_replaces_slot(store, d, k, j);
    }
    if descriptor_valid(d, now) {
        let r = read_result(store_effect(store, d), k, None, now);
        lemma_stored_descriptor_is_read(store, d, now, k);
        lemma_slot_count_contains(r, d);
        lemma_slot_count_selected(store_effect(store, d)[k], None, now, dedup_of(d));
    }
}

/// At most one descriptor per slot under each routing key is an invariant:
/// storing a descriptor whose routing keys are distinct keeps it, and so
/// does eviction.
pub proof fn lemma_one_per_slot_kept(
    store: Map<(u8, Seq<u8>), Seq<DescriptorModel>>,
    d: DescriptorModel,
    now: u64,
)
    requires
        one_per_slot(store),
        d.routing_keys.no_duplicates(),
    ensures
        one_per_slot(store_effect(store, d)),
        one_per_slot(evicted(store, now)),
{
    let m = store_effect(store, d);
    assert forall|k: (u8, Seq<u8>), key: ((u8, Seq<u8>), (u8, Seq<u8>), Seq<char>)|
        m.contains_key(k) implies #[trigger] slot_count(m[k], key) <= 1 by {
        lemma_slot_count_after_store(store, d, k, key);
        if store.contains_key(k) {
            assert(slot_count(store[k], key) <= 1);
        }
    }
    let e = evicted(store, now);
    assert forall|k: (u8, Seq<u8>), key: ((u8, Seq<u8>), (u8, Seq<u8>), Seq<char>)|
        e.contains_key(k) implies #[trigger] slot_count(e[k], key) <= 1 by {
        lemma_slot_count_selected(store[k], None, now, key);
        assert(slot_count(store[k], key) <= 1);
    }
}

/// Replays stay refused across eviction: eviction keeps the sequence
/// watermarks (`evict_expired_at`), so a descriptor that was stale before
/// is refused as stale by a later STORE on the evicted store, whenever it
/// is still valid and its publisher is under the limit, and the store's
/// descriptors and watermarks are left as they were.
pub proof fn lemma_stale_refused_after_eviction(
    before: DescriptorStore,
    evicted_store: DescriptorStore,
    after: DescriptorStore,
    d: DescriptorModel,
    evict_time: u64,
    now: u64,
    res: Result<(), StoreError>,
)
    requires
        evicted_store.store_view() == evicted(before.store_view(), evict_time),
        evicted_store.sequence_view() == before.sequence_view(),
        is_stale(before.sequence_view(), d),
        descriptor_valid(d, now),
        publisher_allowed(evicted_store.rate_view(), d, now),
        store_outcome(
            evicted_store.store_view(), evicted_store.sequence_view(), evicted_store.rate_view(),
            after.store_view(), after.sequence_view(), after.rate_view(),
            d, now, res,
        ),
    ensures
        res == Err::<(), StoreError>(StoreError::StaleDescriptor {
            received: d.sequence,
            current: before.sequence_view()[dedup_of(d)],
        }),
        after.store_view() == evicted_store.store_view(),
        after.sequence_view() == before.sequence_view(),
{
}

/// Read after write, once: after a STORE (metered or not) accepts `d`,
/// whose routing keys are distinct, each of its routing keys holds a
/// descriptor, and a read of it at the time of the STORE returns `d` and
/// no other descriptor of `d`'s (publisher, schema, topic) slot.
pub proof fn lemma_accepted_descriptor_read_once(
    before: DescriptorStore,
    after: DescriptorStore,
    d: DescriptorModel,
    now: u64,
    res: Result<(), StoreError>,
    k: (u8, Seq<u8>),
)
    requires
        store_outcome(
            before.store_view(), before.sequence_view(), before.rate_view(),
            after.store_view(), after.sequence_view(), after.rate_view(),
            d, now, res,
        ) || unmetered_outcome(
            before.store_view(), before.sequence_view(),
            after.store_view(), after.sequence_view(),
            d, now, res,
        ),
        res is Ok,
        d.routing_keys.no_duplicates(),
        d.routing_keys.contains(k),
    ensures
        after.store_view().contains_key(k),
        after.store_view()[k].len() > 0,
        read_result(after.store_view(), k, None, now).contains(d),
        slot_count(read_result(after.store_view(), k, None, now), dedup_of(d)) == 1,
{
    lemma_store_leaves_one_copy(before.store_view(), d, k, now);
}

/// At most one descriptor per slot under each routing key holds of every
/// store that STOREs of descriptors with distinct routing keys and
/// evictions reach from an empty one: an empty store has it, a STORE
/// (metered or not, accepted or refused) keeps it, and eviction keeps it.
pub proof fn lemma_one_per_slot_invariant(
    before: DescriptorStore,
    after: DescriptorStore,
    d: DescriptorModel,
    now: u64,
    res: Result<(), StoreError>,
    evict_time: u64,
)
    requires
        one_per_slot(before.store_view()),
        d.routing_keys.no_duplicates(),
    ensures
        one_per_slot(Map::<(u8, Seq<u8>), Seq<DescriptorModel>>::empty()),
        store_outcome(
            before.store_view(), before.sequence_view(), before.rate_view(),
            after.store_view(), after.sequence_view(), after.rate_view(),
            d, now, res,
        ) ==> one_per_slot(after.store_view()),
        unmetered_outcome(
            before.store_view(), before.sequence_view(),
            after.store_view(), after.sequence_view(),
            d, now, res,
        ) ==> one_per_slot(after.store_view()),
        one_per_slot(evicted(before.store_view(), evict_time)),
{
    lemma_one_per_slot_kept(before.store_view(), d, evict_time);
}

/// What a read at the current time returns (`get_descriptors`): for some
/// reading `now` of the system clock, exactly the descriptors held under
/// `k` that are unexpired at `now` and match the filters. None returned is
/// expired at that reading, and none held, live and matching is missed.
pub proof fn lemma_current_read_is_live(
    store: Map<(u8, Seq<u8>), Seq<DescriptorModel>>,
    k: (u8, Seq<u8>),
    f: Option<FilterModel>,
    r: Seq<DescriptorModel>,
)
    requires
        exists|now: u64| clock_reading(now) && #[trigger] read_result(store, k, f, now) == r,
    ensures
        exists|now: u64| #[trigger] clock_reading(now) && {
            &&& forall|j: int| 0 <= j < r.len() ==> store.contains_key(k) && store[k].contains(#[trigger] r[j])
                && !is_expired(r[j].timestamp, r[j].ttl, now) && passes(r[j], f, now)
            &&& forall|d: DescriptorModel| store.contains_key(k) && #[trigger] store[k].contains(d) && passes(d, f, now)
                ==> r.contains(d)
        },
{
    let now = choose|now: u64| clock_reading(now) && #[trigger] read_result(store, k, f, now) == r;
    assert forall|j: int| 0 <= j < r.len() implies store.contains_key(k) && store[k].contains(#[trigger] r[j])
        && !is_expired(r[j].timestamp, r[j].ttl, now) && passes(r[j], f, now) by {
        lemma_read_only_live_matching(store, k, f, now, j);
    }
    assert forall|d: DescriptorModel| store.contains_key(k) && #[trigger] store[k].contains(d) && passes(d, f, now)
        implies r.contains(d) by {
        lemma_selected_keeps(store[k], f, now, d);
    }
    assert(clock_reading(now));
}

/// A STORE at the current time (`store_descriptor`, or without the rate
/// limit `store_descriptor_unmetered`) judges the descriptor at a reading
/// `now` of the system clock: one expired at `now`, or dated too far after
/// it, is refused as invalid and changes nothing; one that is accepted is
/// unexpired at `now`, not dated too far after it, its id and signature
/// check, and it is stored.
pub proof fn lemma_current_store_judged_at_clock(
    store: Map<(u8, Seq<u8>), Seq<DescriptorModel>>,
    seqs: Map<((u8, Seq<u8>), (u8, Seq<u8>), Seq<char>), u64>,
    rate: Map<(u8, Seq<u8>), Seq<u64>>,
    new_store: Map<(u8, Seq<u8>), Seq<DescriptorModel>>,
    new_seqs: Map<((u8, Seq<u8>), (u8, Seq<u8>), Seq<char>), u64>,
    new_rate: Map<(u8, Seq<u8>), Seq<u64>>,
    d: DescriptorModel,
    res: Result<(), StoreError>,
)
    requires
        exists|now: u64| clock_reading(now) && (#[trigger] store_outcome(store, seqs, rate, new_store, new_seqs, new_rate, d, now, res)
            || unmetered_outcome(store, seqs, new_store, new_seqs, d, now, res)),
    ensures
        exists|now: u64| #[trigger] clock_reading(now) && {
            &&& (is_expired(d.timestamp, d.ttl, now) || is_too_far_in_future(d.timestamp, now)) ==> {
                &&& res matches Err(StoreError::ValidationFailed(_))
                &&& new_store == store
                &&& new_seqs == seqs
            }
            &&& res is Ok ==> {
                &&& !is_expired(d.timestamp, d.ttl, now)
                &&& !is_too_far_in_future(d.timestamp, now)
                &&& id_matches(d)
                &&& signature_checks(d)
                &&& new_store == store_effect(store, d)
            }
        },
{
    let now = choose|now: u64| clock_reading(now) && (#[trigger] store_outcome(store, seqs, rate, new_store, new_seqs, new_rate, d, now, res)
        || unmetered_outcome(store, seqs, new_store, new_seqs, d, now, res));
    assert(clock_reading(now));
}

/// What a listing at the current time returns (`all_descriptors`): for
/// some reading `now` of the system clock, only held descriptors unexpired
/// at `now`, and every slot that holds one unexpired at `now` is there.
pub proof fn lemma_current_listing_is_live(
    store: Map<(u8, Seq<u8>), Seq<DescriptorModel>>,
    r: Seq<DescriptorModel>,
)
    requires
        exists|now: u64| clock_reading(now) && #[trigger] live_once_per_slot(store, now, r),
    ensures
        exists|now: u64| #[trigger] clock_reading(now) && {
            &&& forall|j: int| 0 <= j < r.len() ==> !is_expired((#[trigger] r[j]).timestamp, r[j].ttl, now) && held(store, r[j])
            &&& forall|d: DescriptorModel| #[trigger] held(store, d) && !is_expired(d.timestamp, d.ttl, now)
                ==> exists|i: int| 0 <= i < r.len() && dedup_of(#[trigger] r[i]) == dedup_of(d)
        },
{
    let now = choose|now: u64| clock_reading(now) && #[trigger] live_once_per_slot(store, now, r);
    assert forall|j: int| 0 <= j < r.len() implies !is_expired((#[trigger] r[j]).timestamp, r[j].ttl, now) && held(store, r[j]) by {
        assert(passes(r[j], None, now));
    }
    assert forall|d: DescriptorModel| #[trigger] held(store, d) && !is_expired(d.timestamp, d.ttl, now)
        implies exists|i: int| 0 <= i < r.len() && dedup_of(#[trigger] r[i]) == dedup_of(d) by {
        assert(passes(d, None, now));
    }
    assert(clock_reading(now));
}

/// What eviction at the current time does (`evict_expired`): for some
/// reading `now` of the system clock, every descriptor expired at `now` is
/// gone, every one unexpired at `now` stays under its routing key, nothing
/// new appears, and a routing key left without descriptors is dropped.
pub proof fn lemma_current_eviction(
    before: Map<(u8, Seq<u8>), Seq<DescriptorModel>>,
    after: Map<(u8, Seq<u8>), Seq<DescriptorModel>>,
)
    requires
        exists|now: u64| clock_reading(now) && after == #[trigger] evicted(before, now),
    ensures
        exists|now: u64| #[trigger] clock_reading(now) && {
            &&& forall|k: (u8, Seq<u8>), j: int| after.contains_key(k) && 0 <= j < after[k].len()
                ==> !is_expired((#[trigger] after[k][j]).timestamp, after[k][j].ttl, now)
                    && before.contains_key(k) && before[k].contains(after[k][j])
            &&& forall|k: (u8, Seq<u8>), d: DescriptorModel| before.contains_key(k) && #[trigger] before[k].contains(d)
                && !is_expired(d.timestamp, d.ttl, now) ==> after.contains_key(k) && after[k].contains(d)
            &&& forall|k: (u8, Seq<u8>)| #[trigger] after.contains_key(k) ==> after[k].len() > 0
        },
{
    let now = choose|now: u64| clock_reading(now) && after == #[trigger] evicted(before, now);
    assert forall|k: (u8, Seq<u8>), j: int| after.contains_key(k) && 0 <= j < after[k].len()
        implies !is_expired((#[trigger] after[k][j]).timestamp, after[k][j].ttl, now)
            && before.contains_key(k) && before[k].contains(after[k][j]) by {
        lemma_selected_subset(before[k], None, now);
        assert(passes(after[k][j], None, now));
    }
    assert forall|k: (u8, Seq<u8>), d: DescriptorModel| before.contains_key(k) && #[trigger] before[k].contains(d)
        && !is_expired(d.timestamp, d.ttl, now) implies after.contains_key(k) && after[k].contains(d) by {
        assert(passes(d, None, now));
        lemma_selected_keeps(before[k], None, now, d);
        let i = choose|i: int| 0 <= i < selected(before[k], None, now).len() && selected(before[k], None, now)[i] == d;
        assert(selected(before[k], None, now)[i] == d);
    }
    assert(clock_reading(now));
}

} // verus!
