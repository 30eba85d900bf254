//! The Kademlia routing table: 256 k-buckets of up to K nodes each, indexed
//! by the XOR distance between the local node ID and the node's ID.

use vstd::prelude::*;
use vstd::pervasive::VecAdditionalExecFns;
use crate::distance::{bucket_of, closer, xor_bytes, xor_distance, bucket_index, lex_less, distance_cmp,
    lemma_lex_less_total, lemma_lex_less_transitive, lemma_lex_less_asymmetric};
use crate::identity::node_id_of;
use crate::message::{NodeInfo, NodeInfoModel};

verus! {

/// Kademlia replication parameter: maximum entries per bucket.
pub const K: usize = 20;
/// Number of k-buckets (one per bit of the 256-bit key space).
pub const NUM_BUCKETS: usize = 256;

/// What `add_node` did with a node.
#[derive(Debug)]
pub enum AddNodeResult {
    /// The node was new to its bucket, which had room: it was appended.
    Added,
    /// The bucket already held the node: it moved to the end with the new record.
    Moved,
    /// The node is the local node: nothing changed.
    Ignored,
    /// The bucket is full and does not hold the node: nothing changed. The
    /// least recently seen entry `lrs` is to be pinged, and
    /// `resolve_challenge` called with the outcome.
    BucketFull { lrs: NodeInfo, candidate: NodeInfo },
}

/// A single k-bucket, its entries ordered by last-seen time (most recent last).
#[derive(Debug)]
pub struct KBucket {
    /// Entries ordered by last-seen time (most recent last).
    pub entries: Vec<NodeInfo>,
}

/// The values of a sequence of node records.
pub open spec fn node_models(s: Seq<NodeInfo>) -> Seq<NodeInfoModel> {
    s.map_values(|n: NodeInfo| n@)
}

impl KBucket {
    /// The values of the bucket's entries.
    pub open spec fn models(&self) -> Seq<NodeInfoModel> {
        node_models(self.entries@)
    }

    fn new() -> (res: KBucket)
        ensures
            res.entries@.len() == 0,
    {
        KBucket { entries: Vec::new() }
    }
}

/// The node ID (digest) of a node record.
pub open spec fn entry_node_id(e: NodeInfoModel) -> Seq<u8> {
    node_id_of(e.identity).1
}

/// The bucket a node record belongs in, relative to a local ID.
pub open spec fn entry_bucket(local: Seq<u8>, e: NodeInfoModel) -> Option<int> {
    bucket_of(xor_bytes(local, entry_node_id(e)))
}

/// No two records share an identity.
pub open spec fn unique_identities(s: Seq<NodeInfoModel>) -> bool {
    forall|i: int, j: int| 0 <= i < j < s.len() ==> (#[trigger] s[i]).identity != (#[trigger] s[j]).identity
}

/// The position of the first record with identity `id`, or -1.
pub open spec fn first_index_of_identity(s: Seq<NodeInfoModel>, id: (u8, Seq<u8>)) -> int
    decreases s.len(),
{
    if s.len() == 0 {
        -1
    } else if s[0].identity == id {
        0
    } else {
        let r = first_index_of_identity(s.drop_first(), id);
        if r < 0 { -1 } else { r + 1 }
    }
}

/// A bucket after `node` is seen: an existing entry with the same identity
/// moves to the end (most recent) with the new record; otherwise the node is
/// appended when there is room. A full bucket is left as it is: its least
/// recently seen entry is challenged first (see `resolve_challenge`).
pub open spec fn bucket_after_add(s: Seq<NodeInfoModel>, node: NodeInfoModel) -> Seq<NodeInfoModel> {
    let pos = first_index_of_identity(s, node.identity);
    if pos >= 0 {
        s.remove(pos).push(node)
    } else if s.len() < K {
        s.push(node)
    } else {
        s
    }
}

/// Whether a bucket holds a record with `node`'s identity.
pub open spec fn holds_identity(s: Seq<NodeInfoModel>, node: NodeInfoModel) -> bool {
    exists|j: int| 0 <= j < s.len() && (#[trigger] s[j]).identity == node.identity
}

/// What `add_node` answers for `node`, given the buckets before the call:
/// `Ignored` for the local node, `Moved` when its bucket already holds its
/// identity, `Added` when the bucket has room, and otherwise `BucketFull`
/// with the bucket's least recently seen entry and the node.
pub open spec fn add_answer(buckets: Seq<Seq<NodeInfoModel>>, local: Seq<u8>, node: NodeInfoModel, res: AddNodeResult) -> bool {
    match entry_bucket(local, node) {
        None => res is Ignored,
        Some(b) => if holds_identity(buckets[b], node) {
            res is Moved
        } else if buckets[b].len() < K {
            res is Added
        } else {
            res matches AddNodeResult::BucketFull { lrs, candidate } && lrs@ == buckets[b][0] && candidate@ == node
        },
    }
}

/// The buckets after a ping challenge of the entry with node ID `lrs_id`
/// on behalf of `candidate`: when the entry answered, nothing changes and
/// the candidate is dropped; when it did not, its records leave their
/// bucket and the candidate is then added as `add_node` adds a node.
pub open spec fn table_after_challenge(
    buckets: Seq<Seq<NodeInfoModel>>,
    local: Seq<u8>,
    lrs_id: (u8, Seq<u8>),
    candidate: NodeInfoModel,
    alive: bool,
) -> Seq<Seq<NodeInfoModel>> {
    if alive {
        buckets
    } else {
        let removed = match bucket_of(xor_bytes(local, lrs_id.1)) {
            Some(b) => buckets.update(b, without_node_id(buckets[b], lrs_id)),
            None => buckets,
        };
        table_after_add(removed, local, candidate)
    }
}

/// A bucket without the records whose node ID equals `node_id`.
pub open spec fn without_node_id(s: Seq<NodeInfoModel>, node_id: (u8, Seq<u8>)) -> Seq<NodeInfoModel>
    decreases s.len(),
{
    if s.len() == 0 {
        Seq::empty()
    } else if node_id_of(s.last().identity) == node_id {
        without_node_id(s.drop_last(), node_id)
    } else {
        without_node_id(s.drop_last(), node_id).push(s.last())
    }
}

/// The buckets after `node` is seen by a table whose local ID is `local`:
/// its bucket records it, or nothing changes for the local node itself.
pub open spec fn table_after_add(
    buckets: Seq<Seq<NodeInfoModel>>,
    local: Seq<u8>,
    node: NodeInfoModel,
) -> Seq<Seq<NodeInfoModel>> {
    match entry_bucket(local, node) {
        Some(b) => buckets.update(b, bucket_after_add(buckets[b], node)),
        None => buckets,
    }
}

/// All records of all buckets, bucket by bucket.
pub open spec fn all_entries(buckets: Seq<Seq<NodeInfoModel>>) -> Seq<NodeInfoModel> {
    buckets.flatten_alt()
}

/// A sequence of records in order of XOR distance to `target`: no record is
/// strictly closer than one before it.
pub open spec fn sorted_by_distance(target: Seq<u8>, s: Seq<NodeInfoModel>) -> bool {
    forall|i: int, j: int| 0 <= i < j < s.len()
        ==> !closer(target, entry_node_id(#[trigger] s[j]), entry_node_id(#[trigger] s[i]))
}

/// `p` orders all of `all` by distance to `target`.
pub open spec fn distance_ordering_of(target: Seq<u8>, all: Seq<NodeInfoModel>, p: Seq<NodeInfoModel>) -> bool {
    &&& p.to_multiset() == all.to_multiset()
    &&& sorted_by_distance(target, p)
}

/// The Kademlia routing table: 256 k-buckets indexed by XOR distance.
#[derive(Debug)]
pub struct RoutingTable {
    local_id: crate::hash::Hash,
    buckets: Vec<KBucket>,
}

impl RoutingTable {
    /// The local node ID.
    pub closed spec fn local_view(&self) -> (u8, Seq<u8>) {
        self.local_id@
    }

    /// The records of each bucket.
    pub closed spec fn buckets_view(&self) -> Seq<Seq<NodeInfoModel>> {
        self.buckets@.map_values(|b: KBucket| b.models())
    }

    /// The table's invariant: 256 buckets of at most K records, each record
    /// in the bucket its distance to the local ID selects, and no identity
    /// twice in a bucket.
    pub open spec fn wf(&self) -> bool {
        let b = self.buckets_view();
        &&& b.len() == NUM_BUCKETS
        &&& forall|i: int| 0 <= i < NUM_BUCKETS ==> (#[trigger] b[i]).len() <= K
        &&& forall|i: int, j: int| 0 <= i < NUM_BUCKETS && 0 <= j < b[i].len()
            ==> entry_bucket(self.local_view().1, (#[trigger] b[i][j])) == Some(i)
        &&& forall|i: int| 0 <= i < NUM_BUCKETS ==> unique_identities(#[trigger] b[i])
    }

    /// Create an empty routing table for the given local node ID.
    pub fn new(local_id: crate::hash::Hash) -> (res: RoutingTable)
        ensures
            res.wf(),
            res.local_view() == local_id@,
            forall|i: int| 0 <= i < NUM_BUCKETS ==> (#[trigger] res.buckets_view()[i]).len() == 0,
    {
        let mut buckets: Vec<KBucket> = Vec::with_capacity(NUM_BUCKETS);
        let mut i: usize = 0;
        while i < NUM_BUCKETS
            invariant
                i <= NUM_BUCKETS,
                buckets@.len() == i,
                forall|j: int| 0 <= j < i ==> (#[trigger] buckets@[j]).entries@.len() == 0,
            decreases NUM_BUCKETS - i,
        {
            buckets.push(KBucket::new());
            i = i + 1;
        }
        let res = RoutingTable { local_id, buckets };
        assert forall|i: int| 0 <= i < NUM_BUCKETS implies (#[trigger] res.buckets_view()[i]).len() == 0 by {
            assert(res.buckets_view()[i] == res.buckets@[i].models());
        }
        res
    }

    /// The local node ID.
    pub fn local_id(&self) -> (res: &crate::hash::Hash)
        ensures
            res@ == self.local_view(),
    {
        &self.local_id
    }

    /// The bucket of a node ID, or `None` for the local ID itself.
    pub fn bucket_for(&self, node_id: &crate::hash::Hash) -> (res: Option<usize>)
        requires
            self.local_view().1.len() == 32,
            node_id.digest@.len() == 32,
        ensures
            res matches Some(i) ==> i < NUM_BUCKETS && bucket_of(xor_bytes(self.local_view().1, node_id.digest@)) == Some(i as int),
            res is None ==> bucket_of(xor_bytes(self.local_view().1, node_id.digest@)) is None,
    {
        let dist = xor_distance(&self.local_id, node_id);
        bucket_index(&dist)
    }
}


impl RoutingTable {
    /// Record that `node` was seen. A node already in its bucket moves to the
    /// end (most recent) with the new record; otherwise it is appended when
    /// the bucket has room. A full bucket is left unchanged and the answer
    /// names its least recently seen entry, to be pinged before the node may
    /// replace it (`resolve_challenge`). The local node itself is never added.
    pub fn add_node(&mut self, node: NodeInfo) -> (res: AddNodeResult)
        requires
            old(self).wf(),
            old(self).local_view().1.len() == 32,
        ensures
            final(self).wf(),
            final(self).local_view() == old(self).local_view(),
            final(self).buckets_view() == table_after_add(old(self).buckets_view(), old(self).local_view().1, node@),
            add_answer(old(self).buckets_view(), old(self).local_view().1, node@, res),
    {
        let node_id = node.identity.node_id();
        let idx = match self.bucket_for(&node_id) {
            Some(i) => i,
            None => {
                return AddNodeResult::Ignored;
            },
        };
        let ghost old_view = self.buckets_view();
        let ghost local = self.local_view().1;
        let mut bucket = KBucket::new();
        self.buckets.set_and_swap(idx, &mut bucket);
        let ghost s = bucket.models();
        assert(s == old_view[idx as int]);
        let mut pos: usize = 0;
        let mut found = false;
        while !found && pos < bucket.entries.len()
            invariant
                pos <= bucket.entries.len(),
                found ==> pos < bucket.entries.len() && bucket.entries@[pos as int]@.identity == node.identity@,
                forall|k: int| 0 <= k < pos ==> (#[trigger] bucket.entries@[k])@.identity != node.identity@,
            decreases bucket.entries.len() - pos, if found { 0int } else { 1int },
        {
            if bucket.entries[pos].identity.same_as(&node.identity) {
                found = true;
            } else {
                pos = pos + 1;
            }
        }
        proof {
            if found {
                assert forall|k: int| 0 <= k < pos implies (#[trigger] s[k]).identity != node.identity@ by {
                    assert(s[k] == bucket.entries@[k]@);
                }
                assert(s[pos as int] == bucket.entries@[pos as int]@);
                lemma_first_index_found(s, node.identity@, pos as int);
            } else {
                assert forall|k: int| 0 <= k < s.len() implies (#[trigger] s[k]).identity != node.identity@ by {
                    assert(s[k] == bucket.entries@[k]@);
                }
                lemma_first_index_absent(s, node.identity@);
            }
        }
        proof {
            if found {
                assert(s[pos as int].identity == node.identity@);
                assert(holds_identity(s, node@));
            } else {
                assert(!holds_identity(s, node@));
            }
        }
        let res = if found {
            bucket.entries.remove(pos);
            bucket.entries.push(node);
            assert(bucket.models() =~= s.remove(pos as int).push(node@));
            AddNodeResult::Moved
        } else if bucket.entries.len() < K {
            bucket.entries.push(node);
            assert(bucket.models() =~= s.push(node@));
            AddNodeResult::Added
        } else {
            let lrs = bucket.entries[0].clone();
            assert(s[0] == bucket.entries@[0]@);
            AddNodeResult::BucketFull { lrs, candidate: node }
        };
        proof {
            assert(bucket.models() == bucket_after_add(s, node@));
            lemma_bucket_after_add_keeps(local, s, node@, idx as int);
        }
        self.buckets.set(idx, bucket);
        assert(self.buckets_view() =~= old_view.update(idx as int, bucket_after_add(s, node@)));
        res
    }

    /// Settle the ping challenge that a full bucket raised for `candidate`:
    /// the least recently seen entry, with node ID `lrs_id`, answered when
    /// `lrs_alive`, and then it stays and the candidate is dropped;
    /// otherwise its records leave the table and the candidate is added in
    /// its place.
    pub fn resolve_challenge(&mut self, lrs_id: &crate::hash::Hash, candidate: NodeInfo, lrs_alive: bool)
        requires
            old(self).wf(),
            old(self).local_view().1.len() == 32,
            lrs_id.digest@.len() == 32,
        ensures
            final(self).wf(),
            final(self).local_view() == old(self).local_view(),
            final(self).buckets_view() == table_after_challenge(
                old(self).buckets_view(), old(self).local_view().1, lrs_id@, candidate@, lrs_alive),
    {
        if lrs_alive {
            return;
        }
        self.remove_node(lrs_id);
        let _ = self.add_node(candidate);
    }
}

impl RoutingTable {
    /// Remove every record whose node ID is `node_id` from the bucket that
    /// node ID belongs in.
    pub fn remove_node(&mut self, node_id: &crate::hash::Hash)
        requires
            old(self).wf(),
            old(self).local_view().1.len() == 32,
            node_id.digest@.len() == 32,
        ensures
            final(self).wf(),
            final(self).local_view() == old(self).local_view(),
            match bucket_of(xor_bytes(old(self).local_view().1, node_id.digest@)) {
                Some(b) => final(self).buckets_view() == old(self).buckets_view().update(
                    b,
                    without_node_id(old(self).buckets_view()[b], node_id@),
                ),
                None => final(self).buckets_view() == old(self).buckets_view(),
            },
    {
        let idx = match self.bucket_for(node_id) {
            Some(i) => i,
            None => {
                return;
            },
        };
        let ghost old_view = self.buckets_view();
        let ghost local = self.local_view().1;
        let mut bucket = KBucket::new();
        self.buckets.set_and_swap(idx, &mut bucket);
        let ghost s = bucket.models();
        assert(s == old_view[idx as int]);
        let mut kept: Vec<NodeInfo> = Vec::new();
        let mut i: usize = 0;
        while i < bucket.entries.len()
            invariant
                i <= bucket.entries.len(),
                s == bucket.models(),
                node_models(kept@) == without_node_id(s.take(i as int), node_id@),
            decreases bucket.entries.len() - i,
        {
            let entry_id = bucket.entries[i].identity.node_id();
            proof {
                assert(s.take(i + 1).drop_last() =~= s.take(i as int));
                assert(s.take(i + 1).last() == bucket.entries@[i as int]@);
            }
            if !entry_id.same_as(node_id) {
                kept.push(bucket.entries[i].clone());
                assert(node_models(kept@) =~= without_node_id(s.take(i as int), node_id@).push(s[i as int]));
            }
            i = i + 1;
        }
        proof {
            assert(s.take(s.len() as int) =~= s);
            lemma_without_node_id_props(s, node_id@);
            let w = without_node_id(s, node_id@);
            assert forall|j: int| 0 <= j < w.len() implies entry_bucket(local, #[trigger] w[j]) == Some(idx as int) by {
                assert(s.contains(w[j]));
            }
        }
        self.buckets.set(idx, KBucket { entries: kept });
        assert(self.buckets_view() =~= old_view.update(idx as int, without_node_id(s, node_id@)));
    }

    /// Every record in the table, bucket by bucket.
    pub fn all_nodes(&self) -> (res: Vec<NodeInfo>)
        ensures
            node_models(res@) == all_entries(self.buckets_view()),
    {
        let ghost bv = self.buckets_view();
        let mut res: Vec<NodeInfo> = Vec::new();
        let mut i: usize = 0;
        while i < self.buckets.len()
            invariant
                i <= self.buckets@.len(),
                bv == self.buckets_view(),
                node_models(res@) == all_entries(bv.take(i as int)),
            decreases self.buckets.len() - i,
        {
            let bucket = &self.buckets[i];
            let ghost before = res@;
            let mut j: usize = 0;
            while j < bucket.entries.len()
                invariant
                    j <= bucket.entries@.len(),
                    node_models(res@) == node_models(before) + bucket.models().take(j as int),
                decreases bucket.entries.len() - j,
            {
                let ghost prev = res@;
                let c = bucket.entries[j].clone();
                res.push(c);
                proof {
                    assert(node_models(res@) =~= node_models(prev).push(bucket.models()[j as int]));
                    assert(bucket.models().take(j + 1) =~= bucket.models().take(j as int).push(bucket.models()[j as int]));
                }
                assert(node_models(res@) =~= node_models(before) + bucket.models().take(j + 1));
                j = j + 1;
            }
            proof {
                assert(bucket.models().take(j as int) =~= bucket.models());
                assert(bv.take(i + 1).drop_last() =~= bv.take(i as int));
                assert(bv[i as int] == bucket.models());
                assert(node_models(res@) =~= node_models(before) + bucket.models());
            }
            i = i + 1;
        }
        assert(bv.take(bv.len() as int) =~= bv);
        res
    }

    /// Total number of records in the table.
    pub fn len(&self) -> (res: usize)
        requires
            self.wf(),
        ensures
            res == all_entries(self.buckets_view()).len(),
    {
        let ghost bv = self.buckets_view();
        let mut total: usize = 0;
        let mut i: usize = 0;
        while i < self.buckets.len()
            invariant
                i <= self.buckets@.len(),
                self.wf(),
                bv == self.buckets_view(),
                total == all_entries(bv.take(i as int)).len(),
                total <= K * i,
            decreases self.buckets.len() - i,
        {
            proof {
                assert(bv.take(i + 1).drop_last() =~= bv.take(i as int));
                assert(bv[i as int] == self.buckets@[i as int].models());
                assert(bv[i as int].len() <= K);
            }
            total = total + self.buckets[i].entries.len();
            i = i + 1;
        }
        assert(bv.take(bv.len() as int) =~= bv);
        total
    }

    /// Whether the table holds no record.
    pub fn is_empty(&self) -> (res: bool)
        requires
            self.wf(),
        ensures
            res == (all_entries(self.buckets_view()).len() == 0),
    {
        self.len() == 0
    }

    /// The bucket at `index`.
    pub fn bucket(&self, index: usize) -> (res: &KBucket)
        requires
            self.wf(),
            index < NUM_BUCKETS,
        ensures
            res.models() == self.buckets_view()[index as int],
    {
        &self.buckets[index]
    }
}

/// Whether `ns` is an answer to a query for the `count` records of table
/// `buckets` closest to `target`: the first `count` of all its records in
/// order of distance.
pub open spec fn closest_answer(target: Seq<u8>, buckets: Seq<Seq<NodeInfoModel>>, count: nat, ns: Seq<NodeInfoModel>) -> bool {
    exists|p: Seq<NodeInfoModel>| distance_ordering_of(target, all_entries(buckets), p) && ns == #[trigger] first_records(p, count)
}

/// The first `count` records of `p`, or all of them when there are fewer.
pub open spec fn first_records(p: Seq<NodeInfoModel>, count: nat) -> Seq<NodeInfoModel> {
    if count < p.len() { p.take(count as int) } else { p }
}

impl RoutingTable {
    /// The `count` records closest to `target` by XOR distance of their node
    /// IDs, closest first (fewer when the table holds fewer).
    pub fn closest_nodes(&self, target: &crate::hash::Hash, count: usize) -> (res: Vec<NodeInfo>)
        requires
            target.digest@.len() == 32,
        ensures
            closest_answer(target.digest@, self.buckets_view(), count as nat, node_models(res@)),
    {
        let all = self.all_nodes();
        let mut sorted = sort_by_distance(target, &all);
        let ghost p = node_models(sorted@);
        sorted.truncate(count);
        assert(node_models(sorted@) =~= first_records(p, count as nat));
        sorted
    }
}

/// Whether `a` is strictly closer to `target` than `b`.
fn is_closer(target: &crate::hash::Hash, a: &crate::hash::Hash, b: &crate::hash::Hash) -> (res: bool)
    requires
        target.digest@.len() == 32,
        a.digest@.len() == 32,
        b.digest@.len() == 32,
    ensures
        res == closer(target.digest@, a.digest@, b.digest@),
{
    match distance_cmp(target, a, b) {
        std::cmp::Ordering::Less => true,
        _ => false,
    }
}

/// A copy of `items` in order of distance to `target`: a stable insertion
/// sort, so records at equal distance keep their order.
pub(crate) fn sort_by_distance(target: &crate::hash::Hash, items: &Vec<NodeInfo>) -> (res: Vec<NodeInfo>)
    requires
        target.digest@.len() == 32,
    ensures
        distance_ordering_of(target.digest@, node_models(items@), node_models(res@)),
{
    let ghost t = target.digest@;
    let ghost all = node_models(items@);
    let mut sorted: Vec<NodeInfo> = Vec::new();
    let mut k: usize = 0;
    assert(all.take(0) =~= Seq::<NodeInfoModel>::empty());
    assert(node_models(sorted@) =~= Seq::<NodeInfoModel>::empty());
    while k < items.len()
        invariant
            k <= items@.len(),
            t == target.digest@,
            t.len() == 32,
            all == node_models(items@),
            distance_ordering_of(t, all.take(k as int), node_models(sorted@)),
        decreases items.len() - k,
    {
        let e = items[k].clone();
        let e_id = e.identity.node_id();
        let ghost cur = node_models(sorted@);
        let mut p: usize = 0;
        let mut done = false;
        while !done && p < sorted.len()
            invariant
                p <= sorted@.len(),
                cur == node_models(sorted@),
                t == target.digest@,
                t.len() == 32,
                e_id@ == node_id_of(e@.identity),
                e_id.digest@.len() == 32,
                done ==> p < sorted@.len() && closer(t, entry_node_id(e@), entry_node_id(cur[p as int])),
                forall|q: int| 0 <= q < p ==> !closer(t, entry_node_id(e@), entry_node_id(#[trigger] cur[q])),
            decreases sorted.len() - p, if done { 0int } else { 1int },
        {
            let q_id = sorted[p].identity.node_id();
            assert(cur[p as int] == sorted@[p as int]@);
            if is_closer(target, &e_id, &q_id) {
                done = true;
            } else {
                p = p + 1;
            }
        }
        proof {
            lemma_insert_keeps_sorted(t, cur, e@, p as int);
            assert(all.take(k + 1) =~= all.take(k as int).push(e@));
            vstd::seq_lib::to_multiset_insert(cur, p as int, e@);
            vstd::seq_lib::to_multiset_build(all.take(k as int), e@);
        }
        sorted.insert(p, e);
        assert(node_models(sorted@) =~= cur.insert(p as int, e@));
        k = k + 1;
    }
    assert(all.take(all.len() as int) =~= all);
    sorted
}

/// Inserting a record just before the first record it is strictly closer
/// than keeps a sequence sorted by distance.
proof fn lemma_insert_keeps_sorted(t: Seq<u8>, s: Seq<NodeInfoModel>, e: NodeInfoModel, p: int)
    requires
        sorted_by_distance(t, s),
        0 <= p <= s.len(),
        forall|q: int| 0 <= q < p ==> !closer(t, entry_node_id(e), entry_node_id(#[trigger] s[q])),
        p < s.len() ==> closer(t, entry_node_id(e), entry_node_id(s[p])),
    ensures
        sorted_by_distance(t, s.insert(p, e)),
{
    let n = s.insert(p, e);
    assert forall|i: int, j: int| 0 <= i < j < n.len() implies
        !closer(t, entry_node_id(#[trigger] n[j]), entry_node_id(#[trigger] n[i])) by {
        if j < p {
            assert(n[i] == s[i] && n[j] == s[j]);
        } else if j == p {
            assert(n[i] == s[i] && n[j] == e);
        } else if i < p {
            assert(n[i] == s[i] && n[j] == s[j - 1]);
        } else if i == p {
            assert(n[i] == e && n[j] == s[j - 1]);
            let de = xor_bytes(t, entry_node_id(e));
            let dp = xor_bytes(t, entry_node_id(s[p]));
            let dq = xor_bytes(t, entry_node_id(s[j - 1]));
            if j - 1 > p {
                assert(!closer(t, entry_node_id(s[j - 1]), entry_node_id(s[p])));
            } else {
                crate::distance::lemma_lex_less_irreflexive(dp);
            }
            if lex_less(dq, de) {
                lemma_lex_less_transitive(dq, de, dp);
            }
        } else {
            assert(n[i] == s[i - 1] && n[j] == s[j - 1]);
        }
    }
}

/// A bucket that keeps the table's invariant still keeps it after a node of
/// that bucket is added.
proof fn lemma_bucket_after_add_keeps(local: Seq<u8>, s: Seq<NodeInfoModel>, node: NodeInfoModel, b: int)
    requires
        s.len() <= K,
        unique_identities(s),
        forall|j: int| 0 <= j < s.len() ==> entry_bucket(local, #[trigger] s[j]) == Some(b),
        entry_bucket(local, node) == Some(b),
    ensures
        bucket_after_add(s, node).len() <= K,
        unique_identities(bucket_after_add(s, node)),
        forall|j: int| 0 <= j < bucket_after_add(s, node).len()
            ==> entry_bucket(local, #[trigger] bucket_after_add(s, node)[j]) == Some(b),
{
    let pos = first_index_of_identity(s, node.identity);
    lemma_first_index_props(s, node.identity);
    if pos < 0 && s.len() >= K {
        assert(bucket_after_add(s, node) == s);
    } else {
        lemma_bucket_grow_keeps(local, s, node, b);
    }
}

/// The case of `lemma_bucket_after_add_keeps` where the node is recorded.
proof fn lemma_bucket_grow_keeps(local: Seq<u8>, s: Seq<NodeInfoModel>, node: NodeInfoModel, b: int)
    requires
        s.len() <= K,
        unique_identities(s),
        forall|j: int| 0 <= j < s.len() ==> entry_bucket(local, #[trigger] s[j]) == Some(b),
        entry_bucket(local, node) == Some(b),
        first_index_of_identity(s, node.identity) >= 0 || s.len() < K,
    ensures
        bucket_after_add(s, node).len() <= K,
        unique_identities(bucket_after_add(s, node)),
        forall|j: int| 0 <= j < bucket_after_add(s, node).len()
            ==> entry_bucket(local, #[trigger] bucket_after_add(s, node)[j]) == Some(b),
{
    let pos = first_index_of_identity(s, node.identity);
    lemma_first_index_props(s, node.identity);
    let base = if pos >= 0 {
        s.remove(pos)
    } else {
        s
    };
    assert(bucket_after_add(s, node) == base.push(node));
    // Every record of `base` is a record of `s` other than the one with the node's identity.
    assert forall|j: int| 0 <= j < base.len() implies
        exists|m: int| 0 <= m < s.len() && s[m] == #[trigger] base[j] && (pos >= 0 ==> m != pos) by {
        if pos >= 0 {
            if j < pos {
                assert(s[j] == base[j]);
            } else {
                assert(s[j + 1] == base[j]);
            }
        } else {
            assert(s[j] == base[j]);
        }
    }
    assert forall|i: int, j: int| 0 <= i < j < base.len() implies
        (#[trigger] base[i]).identity != (#[trigger] base[j]).identity by {
        if pos >= 0 {
            if j < pos {
                assert(base[i] == s[i] && base[j] == s[j]);
            } else if i < pos {
                assert(base[i] == s[i] && base[j] == s[j + 1]);
            } else {
                assert(base[i] == s[i + 1] && base[j] == s[j + 1]);
            }
        } else {
            assert(base[i] == s[i] && base[j] == s[j]);
        }
    }
    let out = base.push(node);
    assert forall|i: int, j: int| 0 <= i < j < out.len() implies
        (#[trigger] out[i]).identity != (#[trigger] out[j]).identity by {
        if j == out.len() - 1 {
            assert(out[i] == base[i]);
            let m = choose|m: int| 0 <= m < s.len() && s[m] == base[i] && (pos >= 0 ==> m != pos);
            assert(s[m] == base[i]);
            if pos >= 0 {
                assert(s[pos].identity == node.identity);
                if m < pos {
                    assert(s[m].identity != s[pos].identity);
                } else {
                    assert(s[pos].identity != s[m].identity);
                }
            } else {
                assert(s[m].identity != node.identity);
            }
        } else {
            assert(out[i] == base[i] && out[j] == base[j]);
        }
    }
    assert forall|j: int| 0 <= j < out.len() implies entry_bucket(local, #[trigger] out[j]) == Some(b) by {
        if j < base.len() {
            assert(out[j] == base[j]);
            let m = choose|m: int| 0 <= m < s.len() && s[m] == base[j] && (pos >= 0 ==> m != pos);
            assert(entry_bucket(local, s[m]) == Some(b));
        }
    }
}

/// The first position of an identity, when there is one, holds it and no
/// earlier position does; when there is none, no position holds it.
proof fn lemma_first_index_props(s: Seq<NodeInfoModel>, id: (u8, Seq<u8>))
    ensures
        -1 <= first_index_of_identity(s, id) < s.len(),
        first_index_of_identity(s, id) >= 0 ==> s[first_index_of_identity(s, id)].identity == id,
        first_index_of_identity(s, id) < 0 ==> forall|k: int| 0 <= k < s.len() ==> (#[trigger] s[k]).identity != id,
    decreases s.len(),
{
    if s.len() > 0 && s[0].identity != id {
        lemma_first_index_props(s.drop_first(), id);
        let r = first_index_of_identity(s.drop_first(), id);
        if r >= 0 {
            assert(s.drop_first()[r] == s[r + 1]);
        } else {
            assert forall|k: int| 0 <= k < s.len() implies (#[trigger] s[k]).identity != id by {
                if k > 0 {
                    assert(s[k] == s.drop_first()[k - 1]);
                }
            }
        }
    }
}

proof fn lemma_first_index_found(s: Seq<NodeInfoModel>, id: (u8, Seq<u8>), j: int)
    requires
        0 <= j < s.len(),
        s[j].identity == id,
        forall|k: int| 0 <= k < j ==> (#[trigger] s[k]).identity != id,
    ensures
        first_index_of_identity(s, id) == j,
    decreases j,
{
    if j > 0 {
        assert forall|k: int| 0 <= k < j - 1 implies (#[trigger] s.drop_first()[k]).identity != id by {
            assert(s.drop_first()[k] == s[k + 1]);
        }
        lemma_first_index_found(s.drop_first(), id, j - 1);
    }
}

proof fn lemma_first_index_absent(s: Seq<NodeInfoModel>, id: (u8, Seq<u8>))
    requires
        forall|k: int| 0 <= k < s.len() ==> (#[trigger] s[k]).identity != id,
    ensures
        first_index_of_identity(s, id) == -1,
    decreases s.len(),
{
    if s.len() > 0 {
        assert forall|k: int| 0 <= k < s.len() - 1 implies (#[trigger] s.drop_first()[k]).identity != id by {
            assert(s.drop_first()[k] == s[k + 1]);
        }
        lemma_first_index_absent(s.drop_first(), id);
    }
}

proof fn lemma_without_node_id_props(s: Seq<NodeInfoModel>, node_id: (u8, Seq<u8>))
    ensures
        without_node_id(s, node_id).len() <= s.len(),
        forall|k: int| 0 <= k < without_node_id(s, node_id).len()
            ==> s.contains(#[trigger] without_node_id(s, node_id)[k]),
        unique_identities(s) ==> unique_identities(without_node_id(s, node_id)),
    decreases s.len(),
{
    if s.len() > 0 {
        let rest = s.drop_last();
        lemma_without_node_id_props(rest, node_id);
        let r = without_node_id(rest, node_id);
        assert forall|k: int| 0 <= k < r.len() implies s.contains(#[trigger] r[k]) by {
            assert(rest.contains(r[k]));
            let m = choose|m: int| 0 <= m < rest.len() && rest[m] == r[k];
            assert(s[m] == r[k]);
        }
        if node_id_of(s.last().identity) != node_id {
            let out = r.push(s.last());
            assert forall|k: int| 0 <= k < out.len() implies s.contains(#[trigger] out[k]) by {
                if k < r.len() {
                    assert(out[k] == r[k]);
                } else {
                    assert(s[s.len() - 1] == out[k]);
                }
            }
            if unique_identities(s) {
                assert(unique_identities(rest)) by {
                    assert forall|i: int, j: int| 0 <= i < j < rest.len() implies
                        (#[trigger] rest[i]).identity != (#[trigger] rest[j]).identity by {
                        assert(rest[i] == s[i] && rest[j] == s[j]);
                    }
                }
                assert forall|i: int, j: int| 0 <= i < j < out.len() implies
                    (#[trigger] out[i]).identity != (#[trigger] out[j]).identity by {
                    if j == out.len() - 1 {
                        assert(rest.contains(r[i]));
                        let m = choose|m: int| 0 <= m < rest.len() && rest[m] == r[i];
                        assert(s[m] == r[i]);
                        assert(out[j] == s[s.len() - 1]);
                    } else {
                        assert(out[i] == r[i] && out[j] == r[j]);
                    }
                }
            }
        } else {
            if unique_identities(s) {
                assert forall|i: int, j: int| 0 <= i < j < rest.len() implies
                    (#[trigger] rest[i]).identity != (#[trigger] rest[j]).identity by {
                    assert(rest[i] == s[i] && rest[j] == s[j]);
                }
            }
        }
    }
}

/// The local node is never stored in its own table: a record whose node ID
/// is the local ID belongs in no bucket, so adding it changes nothing.
pub proof fn lemma_local_node_has_no_bucket(local: Seq<u8>, e: NodeInfoModel)
    requires
        local.len() == 32,
        entry_node_id(e) == local,
    ensures
        entry_bucket(local, e) is None,
{
    crate::distance::lemma_xor_zero_iff_equal(local, local);
    crate::distance::lemma_bucket_none_iff_zero(xor_bytes(local, local));
}

/// What the table's invariant, kept by `new`, `add_node` and `remove_node`,
/// says of its records: no bucket holds more than K, each record sits in
/// the bucket that its distance to the local ID selects, so none is the
/// local node, and no identity occurs twice in the whole table.
pub proof fn lemma_table_records(t: RoutingTable, i1: int, j1: int, i2: int, j2: int)
    requires
        t.wf(),
        t.local_view().1.len() == 32,
        0 <= i1 < NUM_BUCKETS,
        0 <= j1 < t.buckets_view()[i1].len(),
        0 <= i2 < NUM_BUCKETS,
        0 <= j2 < t.buckets_view()[i2].len(),
    ensures
        t.buckets_view()[i1].len() <= K,
        entry_bucket(t.local_view().1, t.buckets_view()[i1][j1]) == Some(i1),
        entry_node_id(t.buckets_view()[i1][j1]) != t.local_view().1,
        t.buckets_view()[i1][j1].identity == t.buckets_view()[i2][j2].identity ==> i1 == i2 && j1 == j2,
{
    let b = t.buckets_view();
    let local = t.local_view().1;
    assert(entry_bucket(local, b[i1][j1]) == Some(i1));
    assert(entry_bucket(local, b[i2][j2]) == Some(i2));
    if entry_node_id(b[i1][j1]) == local {
        lemma_local_node_has_no_bucket(local, b[i1][j1]);
    }
    if b[i1][j1].identity == b[i2][j2].identity {
        assert(i1 == i2);
        assert(unique_identities(b[i1]));
        if j1 < j2 {
            assert(b[i1][j1].identity != b[i1][j2].identity);
        } else if j2 < j1 {
            assert(b[i1][j2].identity != b[i1][j1].identity);
        }
    }
}

/// Every other node ID has a bucket.
pub proof fn lemma_other_node_has_bucket(local: Seq<u8>, e: NodeInfoModel)
    requires
        local.len() == 32,
        entry_node_id(e).len() == 32,
        entry_node_id(e) != local,
    ensures
        entry_bucket(local, e) is Some,
{
    crate::distance::lemma_xor_zero_iff_equal(local, entry_node_id(e));
    crate::distance::lemma_bucket_none_iff_zero(xor_bytes(local, entry_node_id(e)));
}

/// A node just seen that its bucket holds, or for which it has room, is
/// the most recent entry of its bucket, and the bucket never grows past K.
pub proof fn lemma_added_node_is_most_recent(s: Seq<NodeInfoModel>, node: NodeInfoModel)
    requires
        s.len() <= K,
        holds_identity(s, node) || s.len() < K,
    ensures
        bucket_after_add(s, node).len() >= 1,
        bucket_after_add(s, node).len() <= K,
        bucket_after_add(s, node).last() == node,
{
    lemma_first_index_props(s, node.identity);
    if holds_identity(s, node) {
        let j = choose|j: int| 0 <= j < s.len() && (#[trigger] s[j]).identity == node.identity;
        assert(s[j].identity == node.identity);
    }
}

/// Seeing a node that is already in its bucket moves it without growing the
/// bucket.
pub proof fn lemma_readding_keeps_size(s: Seq<NodeInfoModel>, node: NodeInfoModel, j: int)
    requires
        0 <= j < s.len(),
        s[j].identity == node.identity,
    ensures
        bucket_after_add(s, node).len() == s.len(),
{
    lemma_first_index_props(s, node.identity);
    if first_index_of_identity(s, node.identity) < 0 {
        assert(s[j].identity != node.identity);
    }
}

/// Seeing a node that is new to a bucket with room grows it by one.
pub proof fn lemma_new_node_grows_bucket(s: Seq<NodeInfoModel>, node: NodeInfoModel)
    requires
        s.len() < K,
        forall|j: int| 0 <= j < s.len() ==> (#[trigger] s[j]).identity != node.identity,
    ensures
        bucket_after_add(s, node) == s.push(node),
{
    lemma_first_index_absent(s, node.identity);
}

/// A full bucket that sees a new node is left unchanged: no entry is
/// evicted before it fails a ping challenge.
pub proof fn lemma_full_bucket_is_unchanged(s: Seq<NodeInfoModel>, node: NodeInfoModel)
    requires
        s.len() == K,
        forall|j: int| 0 <= j < s.len() ==> (#[trigger] s[j]).identity != node.identity,
    ensures
        bucket_after_add(s, node) == s,
{
    lemma_first_index_absent(s, node.identity);
}

/// After a node ID is removed, no record with that node ID is left.
pub proof fn lemma_removed_node_absent(s: Seq<NodeInfoModel>, node_id: (u8, Seq<u8>))
    ensures
        forall|j: int| 0 <= j < without_node_id(s, node_id).len()
            ==> node_id_of((#[trigger] without_node_id(s, node_id)[j]).identity) != node_id,
    decreases s.len(),
{
    if s.len() > 0 {
        lemma_removed_node_absent(s.drop_last(), node_id);
        let w = without_node_id(s.drop_last(), node_id);
        assert forall|j: int| 0 <= j < without_node_id(s, node_id).len()
            implies node_id_of((#[trigger] without_node_id(s, node_id)[j]).identity) != node_id by {
            if j < w.len() {
                assert(without_node_id(s, node_id)[j] == w[j]);
            }
        }
    }
}

/// A table whose buckets are all empty holds no record.
pub proof fn lemma_empty_table_has_no_entries(b: Seq<Seq<NodeInfoModel>>)
    requires
        forall|i: int| 0 <= i < b.len() ==> (#[trigger] b[i]).len() == 0,
    ensures
        all_entries(b).len() == 0,
    decreases b.len(),
{
    if b.len() > 0 {
        assert forall|i: int| 0 <= i < b.drop_last().len() implies (#[trigger] b.drop_last()[i]).len() == 0 by {
            assert(b.drop_last()[i] == b[i]);
        }
        lemma_empty_table_has_no_entries(b.drop_last());
        assert(b[b.len() - 1].len() == 0);
    }
}

} // verus!
