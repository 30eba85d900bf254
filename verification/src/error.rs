//! Errors of descriptor validation, framing and encoding.

use vstd::prelude::*;
use vstd::string::StringExecFns;
use crate::text::{decimal_string, hex_encode};
use crate::text::{decimal_text, hex_lower};

verus! {

/// Errors that can occur in core operations.
#[derive(Debug)]
#[allow(inconsistent_fields)]
pub enum MeshError {
    /// Hash mismatch during descriptor validation.
    IdMismatch { expected: String, actual: String },
    /// Signature verification failed.
    InvalidSignature,
    /// Descriptor has expired (effective start + ttl <= now).
    Expired,
    /// Descriptor timestamp is too far in the future.
    TimestampFuture { max_skew_secs: u64 },
    /// Routing keys constraint violated.
    InvalidRoutingKeys { reason: String },
    /// Payload too large.
    PayloadTooLarge { size: usize, max: usize },
    /// Topic too long.
    TopicTooLong { size: usize, max: usize },
    /// TTL out of valid range.
    InvalidTtl { ttl: u32, min: u32, max: u32 },
    /// Stale descriptor (sequence too low).
    StaleSequence { received: u64, expected: u64 },
    /// Unknown signature algorithm.
    UnknownAlgorithm(u8),
    /// Invalid frame magic bytes.
    InvalidMagic(u16),
    /// Unsupported protocol version.
    UnsupportedVersion(u8),
    /// Frame body too large or truncated.
    FrameBody(String),
    /// CBOR serialization/deserialization error.
    Cbor(String),
    /// Ed25519 signing error.
    Signing(String),
    /// I/O error, by its message.
    Io(String),
}

/// The human-readable text of an error.
pub open spec fn mesh_error_text(e: MeshError) -> Seq<char> {
    match e {
        MeshError::IdMismatch { expected, actual } =>
            "descriptor id mismatch: expected "@ + expected@ + ", got "@ + actual@,
        MeshError::InvalidSignature => "invalid signature"@,
        MeshError::Expired => "descriptor expired"@,
        MeshError::TimestampFuture { max_skew_secs } =>
            "descriptor timestamp too far in future (>"@ + decimal_text(max_skew_secs as nat) + "s ahead)"@,
        MeshError::InvalidRoutingKeys { reason } => "invalid routing keys: "@ + reason@,
        MeshError::PayloadTooLarge { size, max } =>
            "payload too large: "@ + decimal_text(size as nat) + " bytes (max "@ + decimal_text(max as nat) + ")"@,
        MeshError::TopicTooLong { size, max } =>
            "topic too long: "@ + decimal_text(size as nat) + " bytes (max "@ + decimal_text(max as nat) + ")"@,
        MeshError::InvalidTtl { ttl, min, max } =>
            "invalid ttl: "@ + decimal_text(ttl as nat) + "s (must be "@ + decimal_text(min as nat) + "-"@
                + decimal_text(max as nat) + "s)"@,
        MeshError::StaleSequence { received, expected } =>
            "stale descriptor: sequence "@ + decimal_text(received as nat) + " < "@ + decimal_text(expected as nat),
        MeshError::UnknownAlgorithm(a) => "unknown signature algorithm: 0x"@ + hex_lower(seq![a]),
        MeshError::InvalidMagic(m) => "invalid frame magic: 0x"@ + hex_lower(seq![(m / 256) as u8, (m % 256) as u8]),
        MeshError::UnsupportedVersion(v) => "unsupported protocol version: "@ + decimal_text(v as nat),
        MeshError::FrameBody(t) => "frame body error: "@ + t@,
        MeshError::Cbor(t) => "cbor error: "@ + t@,
        MeshError::Signing(t) => "signing error: "@ + t@,
        MeshError::Io(t) => "io error: "@ + t@,
    }
}

/// Append `b` to `a`.
pub(crate) fn concat(a: String, b: &str) -> (res: String)
    ensures
        res@ == a@ + b@,
{
    let mut a = a;
    a.append(b);
    a
}

impl MeshError {
    /// The human-readable text of this error.
    pub fn message(&self) -> (res: String)
        ensures
            res@ == mesh_error_text(*self),
    {
        match self {
            MeshError::IdMismatch { expected, actual } => {
                let s = concat("descriptor id mismatch: expected ".to_owned(), expected.as_str());
                let s = concat(s, ", got ");
                concat(s, actual.as_str())
            },
            MeshError::InvalidSignature => {
                "invalid signature".to_owned()
            },
            MeshError::Expired => {
                "descriptor expired".to_owned()
            },
            MeshError::TimestampFuture { max_skew_secs } => {
                let n = decimal_string(*max_skew_secs);
                let s = concat("descriptor timestamp too far in future (>".to_owned(), n.as_str());
                concat(s, "s ahead)")
            },
            MeshError::InvalidRoutingKeys { reason } => {
                concat("invalid routing keys: ".to_owned(), reason.as_str())
            },
            MeshError::PayloadTooLarge { size, max } => {
                let a = decimal_string(*size as u64);
                let b = decimal_string(*max as u64);
                let s = concat("payload too large: ".to_owned(), a.as_str());
                let s = concat(s, " bytes (max ");
                let s = concat(s, b.as_str());
                concat(s, ")")
            },
            MeshError::TopicTooLong { size, max } => {
                let a = decimal_string(*size as u64);
                let b = decimal_string(*max as u64);
                let s = concat("topic too long: ".to_owned(), a.as_str());
                let s = concat(s, " bytes (max ");
                let s = concat(s, b.as_str());
                concat(s, ")")
            },
            MeshError::InvalidTtl { ttl, min, max } => {
                let a = decimal_string(*ttl as u64);
                let b = decimal_string(*min as u64);
                let c = decimal_string(*max as u64);
                let s = concat("invalid ttl: ".to_owned(), a.as_str());
                let s = concat(s, "s (must be ");
                let s = concat(s, b.as_str());
                let s = concat(s, "-");
                let s = concat(s, c.as_str());
                concat(s, "s)")
            },
            MeshError::StaleSequence { received, expected } => {
                let a = decimal_string(*received);
                let b = decimal_string(*expected);
                let s = concat("stale descriptor: sequence ".to_owned(), a.as_str());
                let s = concat(s, " < ");
                concat(s, b.as_str())
            },
            MeshError::UnknownAlgorithm(a) => {
                let bytes = [*a];
                assert(bytes@ =~= seq![*a]);
                let h = hex_encode(&bytes);
                concat("unknown signature algorithm: 0x".to_owned(), h.as_str())
            },
            MeshError::InvalidMagic(m) => {
                let hi: u8 = (*m / 256) as u8;
                let lo: u8 = (*m % 256) as u8;
                let h = hex_encode(&[hi, lo]);
                concat("invalid frame magic: 0x".to_owned(), h.as_str())
            },
            MeshError::UnsupportedVersion(v) => {
                let n = decimal_string(*v as u64);
                concat("unsupported protocol version: ".to_owned(), n.as_str())
            },
            MeshError::FrameBody(t) => {
                concat("frame body error: ".to_owned(), t.as_str())
            },
            MeshError::Cbor(t) => {
                concat("cbor error: ".to_owned(), t.as_str())
            },
            MeshError::Signing(t) => {
                concat("signing error: ".to_owned(), t.as_str())
            },
            MeshError::Io(t) => {
                concat("io error: ".to_owned(), t.as_str())
            },
        }
    }
}

} // verus!
