//! The decisions of an iterative Kademlia FIND_VALUE lookup. The node's
//! runtime sends the requests and hands each reply back; this state decides
//! whom to ask next, which candidates to keep, and when to stop.

use vstd::prelude::*;
use crate::descriptor::{Descriptor, DescriptorModel};
use crate::identity::node_id_of;
use crate::message::{NodeInfo, NodeInfoModel};
use crate::routing_table::{K, distance_ordering_of, first_records, node_models, sort_by_distance};
use crate::storage::descriptor_models;

verus! {

/// The records of `c` whose node IDs are not in `queried`, in order.
pub open spec fn unqueried(c: Seq<NodeInfoModel>, queried: Seq<(u8, Seq<u8>)>) -> Seq<NodeInfoModel>
    decreases c.len(),
{
    if c.len() == 0 {
        Seq::empty()
    } else {
        let r = unqueried(c.drop_last(), queried);
        if queried.contains(node_id_of(c.last().identity)) { r } else { r.push(c.last()) }
    }
}

/// The node IDs of a sequence of records.
pub open spec fn node_ids(s: Seq<NodeInfoModel>) -> Seq<(u8, Seq<u8>)> {
    s.map_values(|n: NodeInfoModel| node_id_of(n.identity))
}

/// The state of one lookup.
#[derive(Debug)]
pub struct LookupState {
    target: crate::hash::Hash,
    queried: Vec<crate::hash::Hash>,
    candidates: Vec<NodeInfo>,
    collected: Vec<Descriptor>,
}

impl LookupState {
    /// The key looked up.
    pub closed spec fn target_view(&self) -> (u8, Seq<u8>) {
        self.target@
    }

    /// The node IDs asked so far, in order.
    pub closed spec fn queried_view(&self) -> Seq<(u8, Seq<u8>)> {
        self.queried@.map_values(|h: crate::hash::Hash| h@)
    }

    /// The nodes that may still be asked, closest first.
    pub closed spec fn candidates_view(&self) -> Seq<NodeInfoModel> {
        node_models(self.candidates@)
    }

    /// The descriptors found so far.
    pub closed spec fn collected_view(&self) -> Seq<DescriptorModel> {
        descriptor_models(self.collected@)
    }

    /// Start a lookup of `target` from the `initial` nodes (the closest
    /// known ones).
    pub fn new(target: crate::hash::Hash, initial: Vec<NodeInfo>) -> (res: LookupState)
        ensures
            res.target_view() == target@,
            res.queried_view().len() == 0,
            res.candidates_view() == node_models(initial@),
            res.collected_view().len() == 0,
    {
        LookupState { target, queried: Vec::new(), candidates: initial, collected: Vec::new() }
    }

    /// Whether node ID `id` was asked already.
    fn was_queried(&self, id: &crate::hash::Hash) -> (res: bool)
        ensures
            res == self.queried_view().contains(id@),
    {
        let mut i: usize = 0;
        while i < self.queried.len()
            invariant
                i <= self.queried@.len(),
                forall|k: int| 0 <= k < i ==> (#[trigger] self.queried_view()[k]) != id@,
            decreases self.queried.len() - i,
        {
            if self.queried[i].same_as(id) {
                assert(self.queried_view()[i as int] == id@);
                return true;
            }
            i = i + 1;
        }
        false
    }

    /// The next nodes to ask: the first `alpha` candidates not asked yet,
    /// which are then counted as asked. An empty batch ends the iterative
    /// phase.
    pub fn next_batch(&mut self, alpha: usize) -> (res: Vec<NodeInfo>)
        ensures
            node_models(res@) == crate::node::at_most(unqueried(old(self).candidates_view(), old(self).queried_view()), alpha as nat),
            final(self).queried_view() == old(self).queried_view() + node_ids(node_models(res@)),
            final(self).target_view() == old(self).target_view(),
            final(self).candidates_view() == old(self).candidates_view(),
            final(self).collected_view() == old(self).collected_view(),
    {
        let ghost c = self.candidates_view();
        let ghost q = self.queried_view();
        let mut batch: Vec<NodeInfo> = Vec::new();
        let mut ids: Vec<crate::hash::Hash> = Vec::new();
        let mut i: usize = 0;
        assert(node_models(batch@) =~= crate::node::at_most(unqueried(c.take(0), q), alpha as nat));
        while i < self.candidates.len() && batch.len() < alpha
            invariant
                i <= self.candidates@.len(),
                self.candidates_view() == old(self).candidates_view(),
                self.target_view() == old(self).target_view(),
                self.collected_view() == old(self).collected_view(),
                self.queried_view() == old(self).queried_view(),
                c == self.candidates_view(),
                q == self.queried_view(),
                batch@.len() <= alpha,
                node_models(batch@) == crate::node::at_most(unqueried(c.take(i as int), q), alpha as nat),
                ids@.map_values(|h: crate::hash::Hash| h@) == node_ids(node_models(batch@)),
                batch@.len() < alpha ==> node_models(batch@) == unqueried(c.take(i as int), q),
            decreases self.candidates.len() - i,
        {
            proof {
                assert(c.take(i + 1).drop_last() =~= c.take(i as int));
                assert(c[i as int] == self.candidates@[i as int]@);
            }
            let nid = self.candidates[i].identity.node_id();
            if !self.was_queried(&nid) {
                let ghost prev = batch@;
                let ghost prev_ids = ids@;
                batch.push(self.candidates[i].clone());
                ids.push(nid);
                proof {
                    assert(node_models(batch@) =~= node_models(prev).push(c[i as int]));
                    assert(ids@.map_values(|h: crate::hash::Hash| h@) =~= prev_ids.map_values(|h: crate::hash::Hash| h@).push(node_id_of(c[i as int].identity)));
                    assert(node_ids(node_models(batch@)) =~= node_ids(node_models(prev)).push(node_id_of(c[i as int].identity)));
                }
            }
            proof {
                lemma_unqueried_grows(c, q, i as int);
            }
            i = i + 1;
        }
        proof {
            if batch@.len() < alpha {
                assert(c.take(c.len() as int) =~= c);
            } else {
                lemma_unqueried_prefix_len(c, q, i as int);
                lemma_at_most_prefix(c, q, i as int, alpha as nat);
            }
        }
        let ghost before = self.queried_view();
        let mut j: usize = 0;
        while j < ids.len()
            invariant
                j <= ids@.len(),
                self.queried_view() == before + ids@.take(j as int).map_values(|h: crate::hash::Hash| h@),
                self.candidates_view() == old(self).candidates_view(),
                self.target_view() == old(self).target_view(),
                self.collected_view() == old(self).collected_view(),
            decreases ids.len() - j,
        {
            let ghost pv = self.queried@;
            self.queried.push(ids[j].clone());
            assert(self.queried_view() =~= pv.map_values(|h: crate::hash::Hash| h@).push(ids@[j as int]@));
            assert(ids@.take(j + 1).map_values(|h: crate::hash::Hash| h@) =~= ids@.take(j as int).map_values(|h: crate::hash::Hash| h@).push(ids@[j as int]@));
            assert(self.queried_view() =~= before + ids@.take(j + 1).map_values(|h: crate::hash::Hash| h@));
            j = j + 1;
        }
        assert(ids@.take(ids@.len() as int) =~= ids@);
        batch
    }

    /// Add the descriptors of a reply.
    pub fn absorb_descriptors(&mut self, descriptors: Vec<Descriptor>)
        ensures
            final(self).collected_view() == old(self).collected_view() + descriptor_models(descriptors@),
            final(self).target_view() == old(self).target_view(),
            final(self).queried_view() == old(self).queried_view(),
            final(self).candidates_view() == old(self).candidates_view(),
    {
        let mut d = descriptors;
        let ghost before = self.collected@;
        let ghost added = d@;
        self.collected.append(&mut d);
        assert(descriptor_models(self.collected@) =~= descriptor_models(before) + descriptor_models(added));
    }

    /// Whether another round follows one that brought `new_nodes` nodes: a
    /// round that brought neither nodes nor descriptors ends the lookup, and
    /// so does any descriptor found.
    pub fn continue_after_round(&self, new_nodes: usize) -> (res: bool)
        ensures
            res == (self.collected_view().len() == 0 && new_nodes > 0),
    {
        self.collected.len() == 0 && new_nodes > 0
    }

    /// Merge the nodes a round brought into the candidates: all of them in
    /// order of distance to the target, the K closest kept.
    pub fn merge_candidates(&mut self, new_nodes: Vec<NodeInfo>)
        requires
            old(self).target_view().1.len() == 32,
        ensures
            exists|p: Seq<NodeInfoModel>| distance_ordering_of(old(self).target_view().1,
                old(self).candidates_view() + node_models(new_nodes@), p)
                && final(self).candidates_view() == #[trigger] first_records(p, K as nat),
            final(self).target_view() == old(self).target_view(),
            final(self).queried_view() == old(self).queried_view(),
            final(self).collected_view() == old(self).collected_view(),
    {
        let mut all: Vec<NodeInfo> = Vec::new();
        std::mem::swap(&mut all, &mut self.candidates);
        let ghost first = node_models(all@);
        let mut more = new_nodes;
        let ghost second = node_models(more@);
        all.append(&mut more);
        assert(node_models(all@) =~= first + second);
        let mut sorted = sort_by_distance(&self.target, &all);
        let ghost p = node_models(sorted@);
        sorted.truncate(K);
        assert(node_models(sorted@) =~= first_records(p, K as nat));
        self.candidates = sorted;
    }

    /// Whether anything was found.
    pub fn found_any(&self) -> (res: bool)
        ensures
            res == (self.collected_view().len() > 0),
    {
        self.collected.len() > 0
    }

    /// The descriptors found, in the order they arrived.
    pub fn into_collected(self) -> (res: Vec<Descriptor>)
        ensures
            descriptor_models(res@) == self.collected_view(),
    {
        self.collected
    }
}

/// Whether the lookup falls back to asking every known node: only when
/// nothing was found and at most K nodes are known.
pub fn needs_fallback(found_any: bool, known_nodes: usize) -> (res: bool)
    ensures
        res == (!found_any && known_nodes <= K),
{
    !found_any && known_nodes <= K
}

proof fn lemma_unqueried_grows(c: Seq<NodeInfoModel>, q: Seq<(u8, Seq<u8>)>, i: int)
    requires
        0 <= i < c.len(),
    ensures
        unqueried(c.take(i + 1), q) == if q.contains(node_id_of(c[i].identity)) {
            unqueried(c.take(i), q)
        } else {
            unqueried(c.take(i), q).push(c[i])
        },
{
    assert(c.take(i + 1).drop_last() =~= c.take(i));
}

proof fn lemma_unqueried_prefix_len(c: Seq<NodeInfoModel>, q: Seq<(u8, Seq<u8>)>, i: int)
    requires
        0 <= i <= c.len(),
    ensures
        unqueried(c.take(i), q).len() <= unqueried(c, q).len(),
        unqueried(c, q).take(unqueried(c.take(i), q).len() as int) == unqueried(c.take(i), q),
    decreases c.len() - i,
{
    if i < c.len() {
        lemma_unqueried_prefix_len(c, q, i + 1);
        lemma_unqueried_grows(c, q, i);
        let a = unqueried(c.take(i), q);
        let b = unqueried(c.take(i + 1), q);
        let whole = unqueried(c, q);
        assert(whole.take(a.len() as int) =~= b.take(a.len() as int));
        assert(b.take(a.len() as int) =~= a);
    } else {
        assert(c.take(i) =~= c);
        let whole = unqueried(c, q);
        assert(whole.take(whole.len() as int) =~= whole);
    }
}

proof fn lemma_at_most_prefix(c: Seq<NodeInfoModel>, q: Seq<(u8, Seq<u8>)>, i: int, n: nat)
    requires
        0 <= i <= c.len(),
        unqueried(c.take(i), q).len() >= n,
        unqueried(c.take(i), q).len() <= unqueried(c, q).len(),
        unqueried(c, q).take(unqueried(c.take(i), q).len() as int) == unqueried(c.take(i), q),
    ensures
        crate::node::at_most(unqueried(c.take(i), q), n) == crate::node::at_most(unqueried(c, q), n),
{
    let a = unqueried(c.take(i), q);
    let whole = unqueried(c, q);
    if n < a.len() {
        assert(a.take(n as int) =~= whole.take(a.len() as int).take(n as int));
        assert(whole.take(a.len() as int).take(n as int) =~= whole.take(n as int));
    } else if n < whole.len() {
        assert(whole.take(n as int) =~= a);
    } else {
        assert(whole.take(a.len() as int) =~= whole);
    }
}

} // verus!
