//! Hash values: an algorithm tag followed by digest bytes, and BLAKE3
//! content addressing.

use vstd::prelude::*;
use crate::primitives::{blake3_hash, blake3_digest};
use crate::text::hex_encode;
use vstd::string::StringSliceAdditionalSpecFns;
use crate::text::hex_lower;
use crate::bytes::{append_bytes, bytes_equal, copy_bytes};

verus! {

/// Algorithm ID for BLAKE3 (canonical hash algorithm).
pub const ALG_BLAKE3: u8 = 0x03;

/// Algorithm ID for SHA-256 (interop).
pub const ALG_SHA256: u8 = 0x04;

/// A hash value: algorithm tag + digest bytes.
#[derive(Debug)]
pub struct Hash {
    /// Algorithm identifier from the algorithm registry.
    pub algorithm: u8,
    /// Raw digest bytes (length determined by algorithm).
    pub digest: Vec<u8>,
}

impl View for Hash {
    type V = (u8, Seq<u8>);

    open spec fn view(&self) -> (u8, Seq<u8>) {
        (self.algorithm, self.digest@)
    }
}

/// The BLAKE3 hash of `data` as a hash value.
pub open spec fn blake3_of(data: Seq<u8>) -> (u8, Seq<u8>) {
    (ALG_BLAKE3, blake3_digest(data))
}

/// The bytes `mesh:schema:`.
pub open spec fn schema_prefix() -> Seq<u8> {
    seq![109u8, 101, 115, 104, 58, 115, 99, 104, 101, 109, 97, 58]
}

/// `BLAKE3("mesh:schema:" || name)`.
pub open spec fn schema_hash_of(name: Seq<u8>) -> (u8, Seq<u8>) {
    blake3_of(schema_prefix() + name)
}

impl Hash {
    /// Create a new BLAKE3 hash of the given data.
    pub fn blake3(data: &[u8]) -> (res: Hash)
        ensures
            res@ == blake3_of(data@),
            res.digest@.len() == 32,
    {
        Hash { algorithm: ALG_BLAKE3, digest: blake3_hash(data) }
    }

    /// Create a hash from raw components.
    pub fn new(algorithm: u8, digest: Vec<u8>) -> (res: Hash)
        ensures
            res@ == (algorithm, digest@),
    {
        Hash { algorithm, digest }
    }

    /// The lower-case hex encoding of the digest.
    pub fn to_hex(&self) -> (res: String)
        ensures
            res@ == hex_lower(self.digest@),
    {
        hex_encode(self.digest.as_slice())
    }

    /// Whether this is a BLAKE3 hash.
    pub fn is_blake3(&self) -> (res: bool)
        ensures
            res == (self.algorithm == ALG_BLAKE3),
    {
        self.algorithm == ALG_BLAKE3
    }

    /// Value equality of two hashes.
    pub fn same_as(&self, other: &Hash) -> (res: bool)
        ensures
            res == (self@ == other@),
    {
        self.algorithm == other.algorithm && bytes_equal(&self.digest, &other.digest)
    }
}

impl Clone for Hash {
    fn clone(&self) -> (res: Self)
        ensures
            res@ == self@,
    {
        Hash { algorithm: self.algorithm, digest: copy_bytes(&self.digest) }
    }
}

impl PartialEq for Hash {
    fn eq(&self, other: &Self) -> (res: bool) {
        self.same_as(other)
    }
}

impl vstd::std_specs::cmp::PartialEqSpecImpl for Hash {
    open spec fn obeys_eq_spec() -> bool {
        true
    }

    open spec fn eq_spec(&self, other: &Self) -> bool {
        self@ == other@
    }
}

impl Eq for Hash {}

/// Compute a well-known schema hash: `BLAKE3("mesh:schema:<name>")`.
pub fn schema_hash(name: &str) -> (res: Hash)
    ensures
        res@ == schema_hash_of(name.spec_bytes()),
        res.digest@.len() == 32,
{
    let mut input: Vec<u8> = vec![109u8, 101, 115, 104, 58, 115, 99, 104, 101, 109, 97, 58];
    assert(input@ =~= schema_prefix());
    append_bytes(&mut input, name.as_bytes());
    Hash::blake3(input.as_slice())
}

} // verus!
