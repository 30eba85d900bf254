use mars_mesh::distance::{bucket_index, distance_cmp, leading_zeros, xor_distance};
use std::cmp::Ordering;

fn hash_from_bytes(bytes: [u8; 32]) -> mars_mesh::hash::Hash {
    mars_mesh::hash::Hash::new(0x03, bytes.to_vec())
}

#[test]
fn xor_distance_same_key() {
    let a = mars_mesh::hash::Hash::blake3(b"node1");
    let dist = xor_distance(&a, &a);
    assert_eq!(dist, [0u8; 32]);
}

#[test]
fn xor_distance_symmetric() {
    let a = mars_mesh::hash::Hash::blake3(b"node1");
    let b = mars_mesh::hash::Hash::blake3(b"node2");
    assert_eq!(xor_distance(&a, &b), xor_distance(&b, &a));
}

#[test]
fn xor_distance_known_values() {
    let a = hash_from_bytes([0xFF; 32]);
    let b = hash_from_bytes([0x00; 32]);
    let dist = xor_distance(&a, &b);
    assert_eq!(dist, [0xFF; 32]);
}

#[test]
fn xor_distance_mixed_bytes() {
    let mut x = [0u8; 32];
    let mut y = [0u8; 32];
    x[0] = 0b1010_1010;
    y[0] = 0b0110_0110;
    x[31] = 7;
    let dist = xor_distance(&hash_from_bytes(x), &hash_from_bytes(y));
    let mut expected = [0u8; 32];
    expected[0] = 0b1100_1100;
    expected[31] = 7;
    assert_eq!(dist, expected);
}

#[test]
fn leading_zeros_all_zero() {
    let dist = [0u8; 32];
    assert_eq!(leading_zeros(&dist), 256);
}

#[test]
fn leading_zeros_first_bit_set() {
    let mut dist = [0u8; 32];
    dist[0] = 0x80;
    assert_eq!(leading_zeros(&dist), 0);
}

#[test]
fn leading_zeros_last_bit_set() {
    let mut dist = [0u8; 32];
    dist[31] = 0x01;
    assert_eq!(leading_zeros(&dist), 255);
}

#[test]
fn leading_zeros_middle() {
    let mut dist = [0u8; 32];
    dist[4] = 0x04;
    assert_eq!(leading_zeros(&dist), 37);
}

#[test]
fn bucket_index_zero_distance() {
    let dist = [0u8; 32];
    assert_eq!(bucket_index(&dist), None);
}

#[test]
fn bucket_index_max_distance() {
    let mut dist = [0u8; 32];
    dist[0] = 0x80;
    assert_eq!(bucket_index(&dist), Some(255));
}

#[test]
fn bucket_index_min_distance() {
    let mut dist = [0u8; 32];
    dist[31] = 0x01;
    assert_eq!(bucket_index(&dist), Some(0));
}

#[test]
fn bucket_index_various() {
    let mut dist = [0u8; 32];
    dist[0] = 0x01;
    assert_eq!(bucket_index(&dist), Some(248));

    let mut dist = [0u8; 32];
    dist[1] = 0x80;
    assert_eq!(bucket_index(&dist), Some(247));
}

#[test]
fn distance_cmp_closer() {
    let target = mars_mesh::hash::Hash::blake3(b"target");
    let a = mars_mesh::hash::Hash::blake3(b"close");
    let b = mars_mesh::hash::Hash::blake3(b"far");
    let cmp1 = distance_cmp(&target, &a, &b);
    let cmp2 = distance_cmp(&target, &b, &a);
    assert_eq!(cmp1, cmp2.reverse());
}

#[test]
fn distance_cmp_same() {
    let target = mars_mesh::hash::Hash::blake3(b"target");
    let a = mars_mesh::hash::Hash::blake3(b"node");
    assert_eq!(distance_cmp(&target, &a, &a), Ordering::Equal);
}

#[test]
fn distance_cmp_with_self() {
    let target = mars_mesh::hash::Hash::blake3(b"target");
    let a = mars_mesh::hash::Hash::blake3(b"other");
    assert_eq!(distance_cmp(&target, &target, &a), Ordering::Less);
}

#[test]
fn distance_triangle_consistency() {
    let target = mars_mesh::hash::Hash::blake3(b"target");
    let nodes: Vec<mars_mesh::hash::Hash> =
        (0..10).map(|i| mars_mesh::hash::Hash::blake3(format!("node{i}").as_bytes())).collect();
    let mut sorted = nodes.clone();
    sorted.sort_by(|a, b| distance_cmp(&target, a, b));
    for i in 0..sorted.len() - 1 {
        let cmp = distance_cmp(&target, &sorted[i], &sorted[i + 1]);
        assert!(cmp != Ordering::Greater);
    }
}

#[test]
fn distance_cmp_known_order() {
    let target = hash_from_bytes([0u8; 32]);
    let mut near = [0u8; 32];
    near[31] = 1;
    let mut far = [0u8; 32];
    far[0] = 1;
    assert_eq!(distance_cmp(&target, &hash_from_bytes(near), &hash_from_bytes(far)), Ordering::Less);
    assert_eq!(distance_cmp(&target, &hash_from_bytes(far), &hash_from_bytes(near)), Ordering::Greater);
}
