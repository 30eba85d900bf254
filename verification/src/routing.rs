//! Routing key computation: capability type strings mapped to positions in
//! the DHT key space.

use vstd::prelude::*;
use vstd::string::StringSliceAdditionalSpecFns;
use crate::hash::blake3_of;
use crate::bytes::append_bytes;

verus! {

/// The bytes `mesh:route:`.
pub open spec fn route_prefix() -> Seq<u8> {
    seq![109u8, 101, 115, 104, 58, 114, 111, 117, 116, 101, 58]
}

/// `BLAKE3("mesh:route:" || type_string)` over the UTF-8 bytes of the type string.
pub open spec fn routing_key_of(type_bytes: Seq<u8>) -> (u8, Seq<u8>) {
    blake3_of(route_prefix() + type_bytes)
}

/// The byte `'/'`.
pub open spec fn is_slash(b: u8) -> bool {
    b == 47
}

/// Positions of the `'/'` separators in a byte string, in increasing order.
pub open spec fn slash_positions(path: Seq<u8>) -> Seq<int>
    decreases path.len(),
{
    if path.len() == 0 {
        Seq::empty()
    } else if is_slash(path.last()) {
        slash_positions(path.drop_last()).push(path.len() - 1)
    } else {
        slash_positions(path.drop_last())
    }
}

/// The end of each hierarchical prefix: every separator position, then the
/// whole path. Prefix `i` is `path[..ends[i]]`, i.e. the first `i + 1`
/// segments joined by `'/'`.
pub open spec fn prefix_ends(path: Seq<u8>) -> Seq<int> {
    slash_positions(path).push(path.len() as int)
}

fn routing_key_of_bytes(type_bytes: &[u8]) -> (res: crate::hash::Hash)
    ensures
        res@ == routing_key_of(type_bytes@),
        res.digest@.len() == 32,
{
    let mut input: Vec<u8> = vec![109u8, 101, 115, 104, 58, 114, 111, 117, 116, 101, 58];
    assert(input@ =~= route_prefix());
    append_bytes(&mut input, type_bytes);
    crate::hash::Hash::blake3(input.as_slice())
}

/// Compute the routing key for a capability type string:
/// `routing_key("compute/inference")` is `BLAKE3("mesh:route:compute/inference")`.
pub fn routing_key(type_string: &str) -> (res: crate::hash::Hash)
    ensures
        res@ == routing_key_of(type_string.spec_bytes()),
        res.digest@.len() == 32,
{
    routing_key_of_bytes(type_string.as_bytes())
}

proof fn lemma_slash_positions_step(path: Seq<u8>, i: int)
    requires
        0 <= i < path.len(),
    ensures
        slash_positions(path.take(i + 1)) == if is_slash(path[i]) {
            slash_positions(path.take(i)).push(i)
        } else {
            slash_positions(path.take(i))
        },
{
    assert(path.take(i + 1).drop_last() =~= path.take(i));
}

/// The routing keys of each prefix of a capability path that ends at a
/// segment boundary, shortest first.
pub open spec fn hierarchical_keys_of(path: Seq<u8>) -> Seq<(u8, Seq<u8>)> {
    Seq::new(prefix_ends(path).len(), |i: int| routing_key_of(path.take(prefix_ends(path)[i])))
}

/// Compute the hierarchical routing keys for a capability path: for
/// `"compute/inference/text-generation"` the keys of `"compute"`,
/// `"compute/inference"` and `"compute/inference/text-generation"`, in that order.
pub fn hierarchical_routing_keys(type_path: &str) -> (res: Vec<crate::hash::Hash>)
    ensures
        res@.len() == prefix_ends(type_path.spec_bytes()).len(),
        forall|i: int| 0 <= i < res@.len() ==> (#[trigger] res@[i])@ == routing_key_of(
            type_path.spec_bytes().take(prefix_ends(type_path.spec_bytes())[i]),
        ),
        forall|i: int| 0 <= i < res@.len() ==> (#[trigger] res@[i]).digest@.len() == 32,
{
    let path = type_path.as_bytes();
    let ghost p = path@;
    let mut keys: Vec<crate::hash::Hash> = Vec::new();
    let mut prefix: Vec<u8> = Vec::new();
    let mut i: usize = 0;
    while i < path.len()
        invariant
            p == path@,
            i <= p.len(),
            prefix@ == p.take(i as int),
            keys@.len() == slash_positions(p.take(i as int)).len(),
            forall|j: int| 0 <= j < keys@.len() ==> (#[trigger] keys@[j])@ == routing_key_of(
                p.take(slash_positions(p.take(i as int))[j]),
            ),
            forall|j: int| 0 <= j < keys@.len() ==> (#[trigger] keys@[j]).digest@.len() == 32,
        decreases p.len() - i,
    {
        proof {
            lemma_slash_positions_step(p, i as int);
        }
        if path[i] == 47 {
            let key = routing_key_of_bytes(prefix.as_slice());
            keys.push(key);
        }
        prefix.push(path[i]);
        assert(prefix@ =~= p.take(i as int + 1));
        i = i + 1;
    }
    let last = routing_key_of_bytes(prefix.as_slice());
    keys.push(last);
    assert(p.take(p.len() as int) =~= p);
    keys
}

proof fn lemma_slash_positions_complete(path: Seq<u8>, j: int)
    requires
        0 <= j < path.len(),
        is_slash(path[j]),
    ensures
        slash_positions(path).contains(j),
    decreases path.len(),
{
    let s = slash_positions(path);
    if j == path.len() - 1 {
        assert(s[s.len() - 1] == j);
    } else {
        lemma_slash_positions_complete(path.drop_last(), j);
        let r = slash_positions(path.drop_last());
        let k = choose|k: int| 0 <= k < r.len() && r[k] == j;
        assert(s[k] == j);
    }
}

/// Hierarchical routing keys cover every parent capability: the part of a
/// type path before each `'/'`, and the whole path, end one of its prefixes,
/// so a descriptor stored under the path's hierarchical keys is found by a
/// lookup of any of its ancestors.
pub proof fn lemma_hierarchical_keys_cover_parents(path: Seq<u8>, j: int)
    requires
        (0 <= j < path.len() && is_slash(path[j])) || j == path.len(),
    ensures
        exists|i: int| 0 <= i < prefix_ends(path).len() && #[trigger] prefix_ends(path)[i] == j,
{
    let e = prefix_ends(path);
    if j == path.len() {
        assert(e[e.len() - 1] == j);
    } else {
        lemma_slash_positions_complete(path, j);
        let s = slash_positions(path);
        let k = choose|k: int| 0 <= k < s.len() && s[k] == j;
        assert(e[k] == j);
    }
}

} // verus!
