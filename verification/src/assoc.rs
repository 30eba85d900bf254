//! Association lists: sequences of key/value pairs with distinct keys, read
//! as finite maps. The stores and limiters of the crate keep their tables in
//! vectors of this shape.

use vstd::prelude::*;

verus! {

/// No key occurs twice.
pub open spec fn keys_unique<K, V>(s: Seq<(K, V)>) -> bool {
    forall|i: int, j: int| 0 <= i < j < s.len() ==> (#[trigger] s[i]).0 != (#[trigger] s[j]).0
}

/// Some pair has key `k`.
pub open spec fn has_key<K, V>(s: Seq<(K, V)>, k: K) -> bool {
    exists|i: int| 0 <= i < s.len() && (#[trigger] s[i]).0 == k
}

/// The map that an association list stands for.
pub open spec fn assoc_map<K, V>(s: Seq<(K, V)>) -> Map<K, V> {
    Map::new(
        |k: K| has_key(s, k),
        |k: K| s[choose|i: int| 0 <= i < s.len() && (#[trigger] s[i]).0 == k].1,
    )
}

/// The value of `k` in `m`, or `default` when `m` has no `k`.
pub open spec fn value_or<K, V>(m: Map<K, V>, k: K, default: V) -> V {
    if m.contains_key(k) { m[k] } else { default }
}

/// The pair at position `i` is the map's entry for its key.
pub proof fn lemma_assoc_at<K, V>(s: Seq<(K, V)>, i: int)
    requires
        keys_unique(s),
        0 <= i < s.len(),
    ensures
        assoc_map(s).contains_key(s[i].0),
        assoc_map(s)[s[i].0] == s[i].1,
{
    let k = s[i].0;
    assert(has_key(s, k));
    let j = choose|j: int| 0 <= j < s.len() && (#[trigger] s[j]).0 == k;
    if j != i {
        if j < i {
            assert(s[j].0 != s[i].0);
        } else {
            assert(s[i].0 != s[j].0);
        }
    }
}

/// A key that no pair has is not in the map.
pub proof fn lemma_assoc_missing<K, V>(s: Seq<(K, V)>, k: K)
    requires
        forall|i: int| 0 <= i < s.len() ==> (#[trigger] s[i]).0 != k,
    ensures
        !assoc_map(s).contains_key(k),
{
}

/// Replacing the value at position `i` updates that key's entry.
pub proof fn lemma_assoc_set<K, V>(s: Seq<(K, V)>, i: int, v: V)
    requires
        keys_unique(s),
        0 <= i < s.len(),
    ensures
        keys_unique(s.update(i, (s[i].0, v))),
        assoc_map(s.update(i, (s[i].0, v))) == assoc_map(s).insert(s[i].0, v),
{
    let t = s.update(i, (s[i].0, v));
    assert forall|a: int, b: int| 0 <= a < b < t.len() implies (#[trigger] t[a]).0 != (#[trigger] t[b]).0 by {
        assert(t[a].0 == s[a].0 && t[b].0 == s[b].0);
    }
    let m = assoc_map(s).insert(s[i].0, v);
    assert forall|k: K| #[trigger] assoc_map(t).contains_key(k) <==> m.contains_key(k) by {
        if has_key(s, k) {
            let j = choose|j: int| 0 <= j < s.len() && (#[trigger] s[j]).0 == k;
            assert(t[j].0 == k);
        }
        if has_key(t, k) {
            let j = choose|j: int| 0 <= j < t.len() && (#[trigger] t[j]).0 == k;
            assert(s[j].0 == k);
        }
    }
    assert forall|k: K| assoc_map(t).contains_key(k) implies #[trigger] assoc_map(t)[k] == m[k] by {
        let j = choose|j: int| 0 <= j < t.len() && (#[trigger] t[j]).0 == k;
        lemma_assoc_at(t, j);
        if j != i {
            assert(s[j] == t[j]);
            lemma_assoc_at(s, j);
        }
    }
    assert(assoc_map(t) =~= m);
}

/// Appending a pair with a new key adds that entry.
pub proof fn lemma_assoc_push<K, V>(s: Seq<(K, V)>, k: K, v: V)
    requires
        keys_unique(s),
        !has_key(s, k),
    ensures
        keys_unique(s.push((k, v))),
        assoc_map(s.push((k, v))) == assoc_map(s).insert(k, v),
{
    let t = s.push((k, v));
    assert forall|a: int, b: int| 0 <= a < b < t.len() implies (#[trigger] t[a]).0 != (#[trigger] t[b]).0 by {
        if b == s.len() {
            assert(t[a] == s[a]);
        } else {
            assert(t[a] == s[a] && t[b] == s[b]);
        }
    }
    let m = assoc_map(s).insert(k, v);
    assert forall|q: K| #[trigger] assoc_map(t).contains_key(q) <==> m.contains_key(q) by {
        if has_key(s, q) {
            let j = choose|j: int| 0 <= j < s.len() && (#[trigger] s[j]).0 == q;
            assert(t[j].0 == q);
        }
        if has_key(t, q) && q != k {
            let j = choose|j: int| 0 <= j < t.len() && (#[trigger] t[j]).0 == q;
            assert(s[j].0 == q);
        }
        if q == k {
            assert(t[s.len() as int].0 == q);
        }
    }
    assert forall|q: K| assoc_map(t).contains_key(q) implies #[trigger] assoc_map(t)[q] == m[q] by {
        let j = choose|j: int| 0 <= j < t.len() && (#[trigger] t[j]).0 == q;
        lemma_assoc_at(t, j);
        if j < s.len() {
            assert(s[j] == t[j]);
            lemma_assoc_at(s, j);
        }
    }
    assert(assoc_map(t) =~= m);
}

/// Changing every value by `f`, keeping the keys, changes every entry of the
/// map by `f`.
pub proof fn lemma_assoc_map_values<K, V>(s: Seq<(K, V)>, t: Seq<(K, V)>, f: spec_fn(V) -> V)
    requires
        keys_unique(s),
        t.len() == s.len(),
        forall|i: int| 0 <= i < s.len() ==> (#[trigger] t[i]).0 == s[i].0 && t[i].1 == f(s[i].1),
    ensures
        keys_unique(t),
        assoc_map(t) == Map::new(|k: K| assoc_map(s).contains_key(k), |k: K| f(assoc_map(s)[k])),
{
    assert forall|a: int, b: int| 0 <= a < b < t.len() implies (#[trigger] t[a]).0 != (#[trigger] t[b]).0 by {
        assert(s[a].0 != s[b].0);
    }
    let m = Map::new(|k: K| assoc_map(s).contains_key(k), |k: K| f(assoc_map(s)[k]));
    assert forall|k: K| #[trigger] assoc_map(t).contains_key(k) <==> m.contains_key(k) by {
        if has_key(s, k) {
            let j = choose|j: int| 0 <= j < s.len() && (#[trigger] s[j]).0 == k;
            assert(t[j].0 == k);
        }
        if has_key(t, k) {
            let j = choose|j: int| 0 <= j < t.len() && (#[trigger] t[j]).0 == k;
            assert(s[j].0 == k);
        }
    }
    assert forall|k: K| assoc_map(t).contains_key(k) implies #[trigger] assoc_map(t)[k] == m[k] by {
        let j = choose|j: int| 0 <= j < t.len() && (#[trigger] t[j]).0 == k;
        lemma_assoc_at(t, j);
        lemma_assoc_at(s, j);
    }
    assert(assoc_map(t) =~= m);
}

/// The map of an association list has as many keys as the list has pairs.
pub proof fn lemma_assoc_len<K, V>(s: Seq<(K, V)>)
    requires
        keys_unique(s),
    ensures
        assoc_map(s).dom().finite(),
        assoc_map(s).dom().len() == s.len(),
    decreases s.len(),
{
    if s.len() == 0 {
        assert(assoc_map(s).dom() =~= Set::<K>::empty());
    } else {
        let last = s.len() - 1;
        let r = s.drop_last();
        assert(r.push(s[last]) =~= s);
        assert(keys_unique(r)) by {
            assert forall|a: int, b: int| 0 <= a < b < r.len() implies (#[trigger] r[a]).0 != (#[trigger] r[b]).0 by {
                assert(r[a] == s[a] && r[b] == s[b]);
            }
        }
        assert(!has_key(r, s[last].0)) by {
            if has_key(r, s[last].0) {
                let j = choose|j: int| 0 <= j < r.len() && (#[trigger] r[j]).0 == s[last].0;
                assert(s[j].0 != s[last].0);
            }
        }
        lemma_assoc_len(r);
        lemma_assoc_push(r, s[last].0, s[last].1);
        lemma_assoc_missing(r, s[last].0);
    }
}

/// The entries of `m` that `keep` admits, with their values changed by `f`.
pub open spec fn filter_values<K, V>(m: Map<K, V>, keep: spec_fn(V) -> bool, f: spec_fn(V) -> V) -> Map<K, V> {
    Map::new(|k: K| m.contains_key(k) && keep(m[k]), |k: K| f(m[k]))
}

/// Filtering a map with one more entry filters that entry on its own.
pub proof fn lemma_filter_values_insert<K, V>(m: Map<K, V>, k: K, v: V, keep: spec_fn(V) -> bool, f: spec_fn(V) -> V)
    requires
        !m.contains_key(k),
    ensures
        filter_values(m.insert(k, v), keep, f) == if keep(v) {
            filter_values(m, keep, f).insert(k, f(v))
        } else {
            filter_values(m, keep, f)
        },
{
    if keep(v) {
        assert(filter_values(m.insert(k, v), keep, f) =~= filter_values(m, keep, f).insert(k, f(v)));
    } else {
        assert(filter_values(m.insert(k, v), keep, f) =~= filter_values(m, keep, f));
    }
}

/// The map of the first `i + 1` pairs adds the pair at `i` to the map of the
/// first `i`, whose keys do not include it.
pub proof fn lemma_assoc_prefix_push<K, V>(s: Seq<(K, V)>, i: int)
    requires
        keys_unique(s),
        0 <= i < s.len(),
    ensures
        keys_unique(s.take(i)),
        !has_key(s.take(i), s[i].0),
        !assoc_map(s.take(i)).contains_key(s[i].0),
        assoc_map(s.take(i + 1)) == assoc_map(s.take(i)).insert(s[i].0, s[i].1),
{
    let p = s.take(i);
    assert forall|a: int, b: int| 0 <= a < b < p.len() implies (#[trigger] p[a]).0 != (#[trigger] p[b]).0 by {
        assert(p[a] == s[a] && p[b] == s[b]);
    }
    if has_key(p, s[i].0) {
        let m = choose|m: int| 0 <= m < p.len() && (#[trigger] p[m]).0 == s[i].0;
        assert(s[m].0 != s[i].0);
    }
    assert(s.take(i + 1) =~= p.push(s[i]));
    lemma_assoc_push(p, s[i].0, s[i].1);
    lemma_assoc_missing(p, s[i].0);
}

/// The empty list stands for the empty map.
pub proof fn lemma_assoc_empty<K, V>(s: Seq<(K, V)>)
    requires
        s.len() == 0,
    ensures
        assoc_map(s) == Map::<K, V>::empty(),
{
    assert(assoc_map(s) =~= Map::<K, V>::empty());
}

} // verus!
