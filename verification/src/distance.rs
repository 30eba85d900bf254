//! XOR distance metric for Kademlia routing.
//!
//! Node IDs and routing keys live in a 256-bit key space; the distance
//! between two keys is their bitwise XOR, compared as a big-endian unsigned
//! integer (that is, lexicographically byte by byte).

use vstd::prelude::*;

verus! {

/// Bytewise XOR of the first 32 bytes of two digests.
pub open spec fn xor_bytes(a: Seq<u8>, b: Seq<u8>) -> Seq<u8> {
    Seq::new(32, |i: int| a[i] ^ b[i])
}

/// Number of leading zero bits of a byte.
pub open spec fn byte_leading_zeros(b: u8) -> nat {
    if b >= 128 { 0 }
    else if b >= 64 { 1 }
    else if b >= 32 { 2 }
    else if b >= 16 { 3 }
    else if b >= 8 { 4 }
    else if b >= 4 { 5 }
    else if b >= 2 { 6 }
    else if b >= 1 { 7 }
    else { 8 }
}

/// Number of leading zero bits of a big-endian bit string.
pub open spec fn leading_zero_bits(d: Seq<u8>) -> nat
    decreases d.len(),
{
    if d.len() == 0 {
        0
    } else if d[0] == 0 {
        8 + leading_zero_bits(d.drop_first())
    } else {
        byte_leading_zeros(d[0])
    }
}

/// The k-bucket of a distance: `255 - leading_zero_bits`, none for zero distance.
pub open spec fn bucket_of(d: Seq<u8>) -> Option<int> {
    if leading_zero_bits(d) >= 256 { None } else { Some(255 - leading_zero_bits(d)) }
}

/// Strict lexicographic order on byte strings of equal length: the first
/// differing byte decides.
pub open spec fn lex_less(x: Seq<u8>, y: Seq<u8>) -> bool
    decreases x.len(),
{
    if x.len() == 0 || y.len() == 0 {
        false
    } else if x[0] != y[0] {
        x[0] < y[0]
    } else {
        lex_less(x.drop_first(), y.drop_first())
    }
}

/// Whether `a` is strictly closer to `target` than `b` by XOR distance.
pub open spec fn closer(target: Seq<u8>, a: Seq<u8>, b: Seq<u8>) -> bool {
    lex_less(xor_bytes(target, a), xor_bytes(target, b))
}

/// XOR two 256-bit hashes, returning the distance as a 32-byte array.
pub fn xor_distance(a: &crate::hash::Hash, b: &crate::hash::Hash) -> (res: [u8; 32])
    requires
        a.digest@.len() == 32,
        b.digest@.len() == 32,
    ensures
        res@ == xor_bytes(a.digest@, b.digest@),
{
    let mut result = [0u8; 32];
    let mut i: usize = 0;
    while i < 32
        invariant
            i <= 32,
            a.digest@.len() == 32,
            b.digest@.len() == 32,
            forall|j: int| 0 <= j < i ==> result@[j] == a.digest@[j] ^ b.digest@[j],
        decreases 32 - i,
    {
        result[i] = a.digest[i] ^ b.digest[i];
        i = i + 1;
    }
    assert(result@ =~= xor_bytes(a.digest@, b.digest@));
    result
}

fn byte_zeros(b: u8) -> (res: usize)
    ensures
        res == byte_leading_zeros(b),
{
    if b >= 128 { 0 }
    else if b >= 64 { 1 }
    else if b >= 32 { 2 }
    else if b >= 16 { 3 }
    else if b >= 8 { 4 }
    else if b >= 4 { 5 }
    else if b >= 2 { 6 }
    else if b >= 1 { 7 }
    else { 8 }
}

proof fn lemma_leading_zero_bits_skip(d: Seq<u8>, i: int)
    requires
        0 <= i <= d.len(),
        forall|j: int| 0 <= j < i ==> d[j] == 0,
    ensures
        leading_zero_bits(d) == 8 * i + leading_zero_bits(d.skip(i)),
    decreases i,
{
    if i > 0 {
        lemma_leading_zero_bits_skip(d, i - 1);
        assert(d.skip(i - 1).drop_first() =~= d.skip(i));
    } else {
        assert(d.skip(0) =~= d);
    }
}

proof fn lemma_leading_zero_bits_bound(d: Seq<u8>)
    ensures
        leading_zero_bits(d) <= 8 * d.len(),
    decreases d.len(),
{
    if d.len() > 0 && d[0] == 0 {
        lemma_leading_zero_bits_bound(d.drop_first());
    }
}

/// Count the number of leading zero bits in a 256-bit distance.
pub fn leading_zeros(distance: &[u8; 32]) -> (res: usize)
    ensures
        res == leading_zero_bits(distance@),
        res <= 256,
{
    let mut i: usize = 0;
    while i < 32
        invariant
            i <= 32,
            forall|j: int| 0 <= j < i ==> distance@[j] == 0,
        decreases 32 - i,
    {
        if distance[i] != 0 {
            proof {
                lemma_leading_zero_bits_skip(distance@, i as int);
                assert(distance@.skip(i as int)[0] == distance@[i as int]);
            }
            return 8 * i + byte_zeros(distance[i]);
        }
        i = i + 1;
    }
    proof {
        lemma_leading_zero_bits_skip(distance@, 32);
    }
    256
}

/// The k-bucket a node belongs to, given its XOR distance to the local node:
/// `255 - leading_zeros(distance)`, or `None` when the distance is zero.
/// Bucket 0 holds the closest nodes, bucket 255 the farthest.
pub fn bucket_index(distance: &[u8; 32]) -> (res: Option<usize>)
    ensures
        res matches Some(i) ==> bucket_of(distance@) == Some(i as int),
        res is None ==> bucket_of(distance@) is None,
        res matches Some(i) ==> i < 256,
{
    let lz = leading_zeros(distance);
    if lz >= 256 { None } else { Some(255 - lz) }
}

proof fn lemma_lex_less_skip(x: Seq<u8>, y: Seq<u8>, i: int)
    requires
        0 <= i <= x.len(),
        x.len() == y.len(),
        x.take(i) == y.take(i),
    ensures
        lex_less(x, y) == lex_less(x.skip(i), y.skip(i)),
    decreases i,
{
    if i > 0 {
        assert(x[0] == x.take(i)[0]);
        assert(y[0] == y.take(i)[0]);
        assert(x.drop_first().take(i - 1) =~= x.take(i).drop_first());
        assert(y.drop_first().take(i - 1) =~= y.take(i).drop_first());
        lemma_lex_less_skip(x.drop_first(), y.drop_first(), i - 1);
        assert(x.drop_first().skip(i - 1) =~= x.skip(i));
        assert(y.drop_first().skip(i - 1) =~= y.skip(i));
    } else {
        assert(x.skip(0) =~= x);
        assert(y.skip(0) =~= y);
    }
}

/// The first position where two 32-byte strings differ, if any; the byte
/// there decides their lexicographic order.
fn first_difference(x: &[u8; 32], y: &[u8; 32]) -> (res: Option<usize>)
    ensures
        res is None ==> x@ == y@,
        res matches Some(i) ==> i < 32 && x@[i as int] != y@[i as int]
            && lex_less(x@, y@) == (x@[i as int] < y@[i as int])
            && lex_less(y@, x@) == (y@[i as int] < x@[i as int]),
{
    let mut i: usize = 0;
    while i < 32
        invariant
            i <= 32,
            x@.len() == 32,
            y@.len() == 32,
            x@.take(i as int) == y@.take(i as int),
        decreases 32 - i,
    {
        if x[i] != y[i] {
            proof {
                lemma_lex_less_skip(x@, y@, i as int);
                lemma_lex_less_skip(y@, x@, i as int);
                assert(x@.skip(i as int)[0] == x@[i as int]);
                assert(y@.skip(i as int)[0] == y@[i as int]);
            }
            return Some(i);
        }
        assert(x@.take(i as int + 1) =~= x@.take(i as int).push(x@[i as int]));
        assert(y@.take(i as int + 1) =~= y@.take(i as int).push(y@[i as int]));
        i = i + 1;
    }
    assert(x@ =~= x@.take(32));
    assert(y@ =~= y@.take(32));
    None
}

/// Compare which of two nodes is closer to a target by XOR distance:
/// `Less` if `a` is closer, `Greater` if `b` is closer, `Equal` if equidistant.
pub fn distance_cmp(target: &crate::hash::Hash, a: &crate::hash::Hash, b: &crate::hash::Hash)
    -> (res: std::cmp::Ordering)
    requires
        target.digest@.len() == 32,
        a.digest@.len() == 32,
        b.digest@.len() == 32,
    ensures
        (res == std::cmp::Ordering::Less) == closer(target.digest@, a.digest@, b.digest@),
        (res == std::cmp::Ordering::Greater) == closer(target.digest@, b.digest@, a.digest@),
        (res == std::cmp::Ordering::Equal) == (xor_bytes(target.digest@, a.digest@) == xor_bytes(target.digest@, b.digest@)),
{
    let da = xor_distance(target, a);
    let db = xor_distance(target, b);
    match first_difference(&da, &db) {
        Some(i) => {
            if da[i] < db[i] {
                std::cmp::Ordering::Less
            } else {
                std::cmp::Ordering::Greater
            }
        },
        None => {
            proof {
                lemma_lex_less_irreflexive(da@);
            }
            std::cmp::Ordering::Equal
        },
    }
}

/// No byte string is lexicographically below itself.
pub proof fn lemma_lex_less_irreflexive(x: Seq<u8>)
    ensures
        !lex_less(x, x),
    decreases x.len(),
{
    if x.len() > 0 {
        lemma_lex_less_irreflexive(x.drop_first());
    }
}


/// The all-zero 256-bit distance.
pub open spec fn zero_distance() -> Seq<u8> {
    Seq::new(32, |i: int| 0u8)
}

/// XOR distance is symmetric.
pub proof fn lemma_xor_symmetric(a: Seq<u8>, b: Seq<u8>)
    ensures
        xor_bytes(a, b) == xor_bytes(b, a),
{
    assert forall|i: int| 0 <= i < 32 implies #[trigger] xor_bytes(a, b)[i] == xor_bytes(b, a)[i] by {
        let x = a[i];
        let y = b[i];
        assert(x ^ y == y ^ x) by (bit_vector);
    }
    assert(xor_bytes(a, b) =~= xor_bytes(b, a));
}

/// The XOR distance of two 32-byte keys is zero exactly when they are equal.
pub proof fn lemma_xor_zero_iff_equal(a: Seq<u8>, b: Seq<u8>)
    requires
        a.len() == 32,
        b.len() == 32,
    ensures
        (xor_bytes(a, b) == zero_distance()) == (a == b),
{
    if a == b {
        assert forall|i: int| 0 <= i < 32 implies #[trigger] xor_bytes(a, b)[i] == zero_distance()[i] by {
            let x = a[i];
            assert(x ^ x == 0) by (bit_vector);
        }
        assert(xor_bytes(a, b) =~= zero_distance());
    }
    if xor_bytes(a, b) == zero_distance() {
        assert forall|i: int| 0 <= i < 32 implies #[trigger] a[i] == b[i] by {
            let x = a[i];
            let y = b[i];
            assert(xor_bytes(a, b)[i] == zero_distance()[i]);
            assert(x ^ y == 0 ==> x == y) by (bit_vector);
        }
        assert(a =~= b);
    }
}

/// Lexicographic order is asymmetric.
pub proof fn lemma_lex_less_asymmetric(x: Seq<u8>, y: Seq<u8>)
    ensures
        !(lex_less(x, y) && lex_less(y, x)),
    decreases x.len(),
{
    if x.len() > 0 && y.len() > 0 && x[0] == y[0] {
        lemma_lex_less_asymmetric(x.drop_first(), y.drop_first());
    }
}

/// Lexicographic order is transitive.
pub proof fn lemma_lex_less_transitive(x: Seq<u8>, y: Seq<u8>, z: Seq<u8>)
    requires
        lex_less(x, y),
        lex_less(y, z),
    ensures
        lex_less(x, z),
    decreases x.len(),
{
    if x[0] == y[0] && y[0] == z[0] {
        lemma_lex_less_transitive(x.drop_first(), y.drop_first(), z.drop_first());
    }
}

/// Lexicographic order is total on distinct strings of equal length.
pub proof fn lemma_lex_less_total(x: Seq<u8>, y: Seq<u8>)
    requires
        x.len() == y.len(),
        x != y,
    ensures
        lex_less(x, y) || lex_less(y, x),
    decreases x.len(),
{
    if x.len() == 0 {
        assert(x =~= y);
    } else if x[0] == y[0] {
        if x.drop_first() == y.drop_first() {
            assert(x =~= y.drop_first().insert(0, y[0]));
            assert(y =~= y.drop_first().insert(0, y[0]));
        }
        lemma_lex_less_total(x.drop_first(), y.drop_first());
    }
}

/// Closeness to a target is a strict order: never both ways.
pub proof fn lemma_closer_asymmetric(target: Seq<u8>, a: Seq<u8>, b: Seq<u8>)
    ensures
        !(closer(target, a, b) && closer(target, b, a)),
{
    lemma_lex_less_asymmetric(xor_bytes(target, a), xor_bytes(target, b));
}

/// Closeness to a target is transitive.
pub proof fn lemma_closer_transitive(target: Seq<u8>, a: Seq<u8>, b: Seq<u8>, c: Seq<u8>)
    requires
        closer(target, a, b),
        closer(target, b, c),
    ensures
        closer(target, a, c),
{
    lemma_lex_less_transitive(xor_bytes(target, a), xor_bytes(target, b), xor_bytes(target, c));
}

/// Two distinct 32-byte keys are never equidistant from a target: one of
/// them is strictly closer.
pub proof fn lemma_closer_total(target: Seq<u8>, a: Seq<u8>, b: Seq<u8>)
    requires
        target.len() == 32,
        a.len() == 32,
        b.len() == 32,
        a != b,
    ensures
        closer(target, a, b) || closer(target, b, a),
{
    if xor_bytes(target, a) == xor_bytes(target, b) {
        assert forall|i: int| 0 <= i < 32 implies #[trigger] a[i] == b[i] by {
            let t = target[i];
            let x = a[i];
            let y = b[i];
            assert(xor_bytes(target, a)[i] == xor_bytes(target, b)[i]);
            assert(t ^ x == t ^ y ==> x == y) by (bit_vector);
        }
        assert(a =~= b);
    }
    lemma_lex_less_total(xor_bytes(target, a), xor_bytes(target, b));
}

/// The zero distance is below every other distance.
proof fn lemma_zero_is_least(d: Seq<u8>)
    requires
        d.len() == 32,
        d != zero_distance(),
    ensures
        lex_less(zero_distance(), d),
{
    lemma_lex_less_total(zero_distance(), d);
    lemma_lex_less_not_below_zero(d, zero_distance());
}

proof fn lemma_lex_less_not_below_zero(d: Seq<u8>, z: Seq<u8>)
    requires
        d.len() == z.len(),
        forall|i: int| 0 <= i < z.len() ==> z[i] == 0,
    ensures
        !lex_less(d, z),
    decreases d.len(),
{
    if d.len() > 0 && d[0] == z[0] {
        lemma_lex_less_not_below_zero(d.drop_first(), z.drop_first());
    }
}

/// A key is closer to itself than any other key is.
pub proof fn lemma_target_closest_to_itself(target: Seq<u8>, a: Seq<u8>)
    requires
        target.len() == 32,
        a.len() == 32,
        a != target,
    ensures
        closer(target, target, a),
{
    lemma_xor_zero_iff_equal(target, target);
    lemma_xor_zero_iff_equal(target, a);
    lemma_zero_is_least(xor_bytes(target, a));
}

/// A distance has no bucket exactly when it is zero.
pub proof fn lemma_bucket_none_iff_zero(d: Seq<u8>)
    requires
        d.len() == 32,
    ensures
        (bucket_of(d) is None) == (d == zero_distance()),
{
    lemma_leading_zero_bits_exact(d);
    if d == zero_distance() {
        assert forall|i: int| 0 <= i < d.len() implies d[i] == 0 by {
            assert(zero_distance()[i] == 0);
        }
    }
    if forall|i: int| 0 <= i < d.len() ==> d[i] == 0 {
        assert(d =~= zero_distance());
    }
}

proof fn lemma_leading_zero_bits_exact(d: Seq<u8>)
    ensures
        leading_zero_bits(d) == 8 * d.len() <==> (forall|i: int| 0 <= i < d.len() ==> d[i] == 0),
        leading_zero_bits(d) <= 8 * d.len(),
    decreases d.len(),
{
    if d.len() > 0 {
        lemma_leading_zero_bits_exact(d.drop_first());
        if d[0] == 0 {
            assert forall|i: int| 0 <= i < d.len() && (forall|j: int| 0 <= j < d.len() - 1 ==> #[trigger] d.drop_first()[j] == 0)
                implies d[i] == 0 by {
                if i > 0 {
                    assert(d.drop_first()[i - 1] == d[i]);
                }
            }
        }
    }
    if forall|i: int| 0 <= i < d.len() ==> d[i] == 0 {
        if d.len() > 0 {
            assert forall|j: int| 0 <= j < d.len() - 1 implies #[trigger] d.drop_first()[j] == 0 by {
                assert(d[j + 1] == 0);
            }
        }
    }
}

} // verus!
