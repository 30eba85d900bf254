//! Wire frame encoding and decoding.
//!
//! A frame is a 24-byte header (magic, version, message type, 16-byte
//! message id, big-endian body length) followed by the body bytes.

use vstd::prelude::*;
use vstd::string::StringExecFns;
use crate::error::MeshError;
use crate::primitives::fill_random;
use crate::text::decimal_string;
use crate::text::decimal_text;

verus! {

/// Frame magic bytes: 0x4D48 ("MH").
pub const FRAME_MAGIC: u16 = 0x4D48;
/// Current protocol version.
pub const PROTOCOL_VERSION: u8 = 0x01;
/// Size of the fixed frame header.
pub const FRAME_HEADER_LEN: usize = 24;
/// Largest frame body a transport reads from a stream (1 MiB).
pub const MAX_FRAME_BODY: usize = 1_048_576;

/// PING request (liveness check).
pub const MSG_PING: u8 = 0x01;
/// PONG response (liveness confirmation).
pub const MSG_PONG: u8 = 0x81;
/// STORE request (store a descriptor).
pub const MSG_STORE: u8 = 0x02;
/// STORE_ACK response (acknowledge storage).
pub const MSG_STORE_ACK: u8 = 0x82;
/// FIND_NODE request (find nodes closest to a key).
pub const MSG_FIND_NODE: u8 = 0x03;
/// FIND_NODE_RESULT response (return closest nodes).
pub const MSG_FIND_NODE_RESULT: u8 = 0x83;
/// FIND_VALUE request (find descriptors at a key).
pub const MSG_FIND_VALUE: u8 = 0x04;
/// FIND_VALUE_RESULT response (return descriptors or closer nodes).
pub const MSG_FIND_VALUE_RESULT: u8 = 0x84;

/// A wire protocol frame.
#[derive(Debug)]
pub struct Frame {
    /// Magic bytes (must be `FRAME_MAGIC`).
    pub magic: u16,
    /// Protocol version (must be `PROTOCOL_VERSION`).
    pub version: u8,
    /// Message type (one of the `MSG_*` constants).
    pub msg_type: u8,
    /// Random 16-byte request ID for correlation.
    pub msg_id: [u8; 16],
    /// CBOR-encoded message body.
    pub body: Vec<u8>,
}

/// Big-endian bytes of a 16-bit value.
pub open spec fn be16(v: u16) -> Seq<u8> {
    seq![(v / 256) as u8, (v % 256) as u8]
}

/// Big-endian bytes of a value below 2^32.
pub open spec fn be32(v: nat) -> Seq<u8> {
    seq![(v / 0x1000000) as u8, ((v / 0x10000) % 256) as u8, ((v / 256) % 256) as u8, (v % 256) as u8]
}

/// The value of two big-endian bytes.
pub open spec fn read_be16(b0: u8, b1: u8) -> u16 {
    (b0 as int * 256 + b1 as int) as u16
}

/// The value of four big-endian bytes.
pub open spec fn read_be32(b0: u8, b1: u8, b2: u8, b3: u8) -> nat {
    (b0 as nat) * 0x1000000 + (b1 as nat) * 0x10000 + (b2 as nat) * 256 + (b3 as nat)
}

/// The wire bytes of a frame: header, then body. The length field holds
/// the body length modulo 2^32.
pub open spec fn frame_bytes(magic: u16, version: u8, msg_type: u8, msg_id: Seq<u8>, body: Seq<u8>) -> Seq<u8> {
    be16(magic) + seq![version, msg_type] + msg_id + be32(body.len() % 0x1_0000_0000) + body
}

/// The body length that a frame header declares.
pub open spec fn declared_body_len(data: Seq<u8>) -> nat {
    read_be32(data[20], data[21], data[22], data[23])
}

/// Whether `data` holds a well-formed frame: a full header with the right
/// magic and version, and at least the declared number of body bytes.
pub open spec fn frame_parses(data: Seq<u8>) -> bool {
    &&& data.len() >= 24
    &&& read_be16(data[0], data[1]) == FRAME_MAGIC
    &&& data[2] == PROTOCOL_VERSION
    &&& data.len() >= 24 + declared_body_len(data)
}

impl Frame {
    /// The wire bytes of this frame.
    pub open spec fn wire(&self) -> Seq<u8> {
        frame_bytes(self.magic, self.version, self.msg_type, self.msg_id@, self.body@)
    }

    /// Create a new request frame with a random message id.
    pub fn new(msg_type: u8, body: Vec<u8>) -> (res: Frame)
        ensures
            res.magic == FRAME_MAGIC,
            res.version == PROTOCOL_VERSION,
            res.msg_type == msg_type,
            res.body@ == body@,
    {
        let mut random: Vec<u8> = vec![0u8; 16];
        fill_random(&mut random);
        let mut msg_id = [0u8; 16];
        let mut i: usize = 0;
        while i < 16
            invariant
                random@.len() == 16,
            decreases 16 - i,
        {
            msg_id[i] = random[i];
            i = i + 1;
        }
        Frame { magic: FRAME_MAGIC, version: PROTOCOL_VERSION, msg_type, msg_id, body }
    }

    /// Create a response frame with the same message id as `request`.
    pub fn response(request: &Frame, msg_type: u8, body: Vec<u8>) -> (res: Frame)
        ensures
            res.magic == FRAME_MAGIC,
            res.version == PROTOCOL_VERSION,
            res.msg_type == msg_type,
            res.msg_id@ == request.msg_id@,
            res.body@ == body@,
    {
        Frame { magic: FRAME_MAGIC, version: PROTOCOL_VERSION, msg_type, msg_id: request.msg_id, body }
    }

    /// Whether this is a response (bit 7 of the message type set).
    pub fn is_response(&self) -> (res: bool)
        ensures
            res == (self.msg_type >= 0x80),
    {
        let t = self.msg_type;
        let r = t & 0x80 != 0;
        assert(r == (t >= 0x80)) by (bit_vector)
            requires r == (t & 0x80 != 0);
        r
    }

    /// Serialize the frame to bytes.
    pub fn to_bytes(&self) -> (res: Vec<u8>)
        ensures
            res@ == self.wire(),
    {
        let len: u64 = self.body.len() as u64;
        let body_len: u32 = (len % 0x1_0000_0000u64) as u32;
        let mut buf: Vec<u8> = Vec::new();
        buf.push((self.magic / 256) as u8);
        buf.push((self.magic % 256) as u8);
        buf.push(self.version);
        buf.push(self.msg_type);
        let mut i: usize = 0;
        while i < 16
            invariant
                buf@ == be16(self.magic) + seq![self.version, self.msg_type] + self.msg_id@.take(i as int),
                i <= 16,
            decreases 16 - i,
        {
            buf.push(self.msg_id[i]);
            i = i + 1;
            assert(buf@ =~= be16(self.magic) + seq![self.version, self.msg_type] + self.msg_id@.take(i as int));
        }
        assert(self.msg_id@.take(16) =~= self.msg_id@);
        buf.push((body_len / 0x1000000) as u8);
        buf.push(((body_len / 0x10000) % 256) as u8);
        buf.push(((body_len / 256) % 256) as u8);
        buf.push((body_len % 256) as u8);
        crate::bytes::append_bytes(&mut buf, self.body.as_slice());
        assert(buf@ =~= self.wire());
        buf
    }

    /// Check the header of a frame arriving on a stream, before its body is
    /// read: the magic, then the version, then a declared body length of at
    /// most `MAX_FRAME_BODY`, which is returned.
    pub fn check_header(header: &[u8]) -> (res: Result<usize, MeshError>)
        requires
            header@.len() >= 24,
        ensures
            read_be16(header@[0], header@[1]) != FRAME_MAGIC
                ==> res == Err::<usize, MeshError>(MeshError::InvalidMagic(read_be16(header@[0], header@[1]))),
            read_be16(header@[0], header@[1]) == FRAME_MAGIC && header@[2] != PROTOCOL_VERSION
                ==> res == Err::<usize, MeshError>(MeshError::UnsupportedVersion(header@[2])),
            read_be16(header@[0], header@[1]) == FRAME_MAGIC && header@[2] == PROTOCOL_VERSION
                && declared_body_len(header@) > MAX_FRAME_BODY
                ==> (res matches Err(MeshError::FrameBody(msg))
                    && msg@ == "body too large: "@ + decimal_text(declared_body_len(header@)) + " bytes (max 1048576)"@),
            read_be16(header@[0], header@[1]) == FRAME_MAGIC && header@[2] == PROTOCOL_VERSION
                && declared_body_len(header@) <= MAX_FRAME_BODY
                ==> res == Ok::<usize, MeshError>(declared_body_len(header@) as usize),
    {
        let magic: u16 = (header[0] as u16) * 256 + (header[1] as u16);
        if magic != FRAME_MAGIC {
            return Err(MeshError::InvalidMagic(magic));
        }
        if header[2] != PROTOCOL_VERSION {
            return Err(MeshError::UnsupportedVersion(header[2]));
        }
        let body_len: u64 = (header[20] as u64) * 0x1000000 + (header[21] as u64) * 0x10000
            + (header[22] as u64) * 256 + (header[23] as u64);
        if body_len > MAX_FRAME_BODY as u64 {
            let mut msg = "body too large: ".to_owned();
            let n = decimal_string(body_len);
            msg.append(n.as_str());
            msg.append(" bytes (max 1048576)");
            return Err(MeshError::FrameBody(msg));
        }
        Ok(body_len as usize)
    }

    /// Deserialize a frame from bytes. Bytes after the declared body are
    /// ignored.
    pub fn from_bytes(data: &[u8]) -> (res: Result<Frame, MeshError>)
        ensures
            frame_parses(data@) <==> res is Ok,
            res matches Ok(f) ==> {
                &&& f.magic == FRAME_MAGIC
                &&& f.version == PROTOCOL_VERSION
                &&& f.msg_type == data@[3]
                &&& f.msg_id@ == data@.subrange(4, 20)
                &&& f.body@ == data@.subrange(24, 24 + declared_body_len(data@) as int)
            },
            data@.len() < 24 ==> (res matches Err(MeshError::FrameBody(msg))
                && msg@ == "frame too short: "@ + decimal_text(data@.len())
                    + " bytes (need at least 24)"@),
            data@.len() >= 24 && read_be16(data@[0], data@[1]) != FRAME_MAGIC
                ==> res == Err::<Frame, MeshError>(MeshError::InvalidMagic(read_be16(data@[0], data@[1]))),
            data@.len() >= 24 && read_be16(data@[0], data@[1]) == FRAME_MAGIC && data@[2] != PROTOCOL_VERSION
                ==> res == Err::<Frame, MeshError>(MeshError::UnsupportedVersion(data@[2])),
            data@.len() >= 24 && read_be16(data@[0], data@[1]) == FRAME_MAGIC && data@[2] == PROTOCOL_VERSION
                && data@.len() < 24 + declared_body_len(data@)
                ==> (res matches Err(MeshError::FrameBody(msg))
                    && msg@ == "frame body truncated: expected "@ + decimal_text(declared_body_len(data@))
                        + " bytes, got "@ + decimal_text((data@.len() - 24) as nat)),
    {
        if data.len() < 24 {
            let mut msg = "frame too short: ".to_owned();
            let n = decimal_string(data.len() as u64);
            msg.append(n.as_str());
            msg.append(" bytes (need at least 24)");
            return Err(MeshError::FrameBody(msg));
        }
        let magic: u16 = (data[0] as u16) * 256 + (data[1] as u16);
        if magic != FRAME_MAGIC {
            return Err(MeshError::InvalidMagic(magic));
        }
        let version = data[2];
        if version != PROTOCOL_VERSION {
            return Err(MeshError::UnsupportedVersion(version));
        }
        let msg_type = data[3];
        let mut msg_id = [0u8; 16];
        let mut i: usize = 0;
        while i < 16
            invariant
                data@.len() >= 24,
                i <= 16,
                forall|j: int| 0 <= j < i ==> msg_id@[j] == data@[4 + j],
            decreases 16 - i,
        {
            msg_id[i] = data[4 + i];
            i = i + 1;
        }
        assert(msg_id@ =~= data@.subrange(4, 20));
        let body_len: usize = (data[20] as usize) * 0x1000000 + (data[21] as usize) * 0x10000
            + (data[22] as usize) * 256 + (data[23] as usize);
        if data.len() - 24 < body_len {
            let mut msg = "frame body truncated: expected ".to_owned();
            let n = decimal_string(body_len as u64);
            msg.append(n.as_str());
            msg.append(" bytes, got ");
            let got = decimal_string((data.len() - 24) as u64);
            msg.append(got.as_str());
            return Err(MeshError::FrameBody(msg));
        }
        let mut body: Vec<u8> = Vec::with_capacity(body_len);
        let mut k: usize = 0;
        while k < body_len
            invariant
                24 + body_len <= data@.len(),
                data@.len() == data.len(),
                k <= body_len,
                body@ == data@.subrange(24, 24 + k),
            decreases body_len - k,
        {
            body.push(data[24 + k]);
            k = k + 1;
            assert(body@ =~= data@.subrange(24, 24 + k));
        }
        Ok(Frame { magic, version, msg_type, msg_id, body })
    }
}


/// Decoding the encoding of a frame gives back its type, id and body: for a
/// frame with the right magic and version, a body shorter than 2^32 bytes
/// and a 16-byte id, its wire bytes parse, and the parsed fields are the
/// frame's own.
pub proof fn lemma_frame_roundtrip(msg_type: u8, msg_id: Seq<u8>, body: Seq<u8>)
    requires
        msg_id.len() == 16,
        body.len() < 0x1_0000_0000,
    ensures
        ({
            let data = frame_bytes(FRAME_MAGIC, PROTOCOL_VERSION, msg_type, msg_id, body);
            &&& frame_parses(data)
            &&& data[3] == msg_type
            &&& data.subrange(4, 20) == msg_id
            &&& declared_body_len(data) == body.len()
            &&& data.subrange(24, 24 + declared_body_len(data) as int) == body
        }),
{
    let data = frame_bytes(FRAME_MAGIC, PROTOCOL_VERSION, msg_type, msg_id, body);
    let n = body.len();
    assert(n % 0x1_0000_0000 == n);
    lemma_be32_roundtrip(n);
    assert(data[20] == be32(n)[0]);
    assert(data[21] == be32(n)[1]);
    assert(data[22] == be32(n)[2]);
    assert(data[23] == be32(n)[3]);
    assert(data.subrange(4, 20) =~= msg_id);
    assert(data.subrange(24, 24 + n as int) =~= body);
}

/// A parsed frame re-encodes to exactly the bytes it was parsed from (its
/// header and declared body; trailing bytes are not part of the frame).
pub proof fn lemma_frame_reencode(data: Seq<u8>)
    requires
        frame_parses(data),
    ensures
        frame_bytes(FRAME_MAGIC, PROTOCOL_VERSION, data[3], data.subrange(4, 20),
            data.subrange(24, 24 + declared_body_len(data) as int))
            == data.take(24 + declared_body_len(data) as int),
{
    let n = declared_body_len(data);
    let b0 = data[20];
    let b1 = data[21];
    let b2 = data[22];
    let b3 = data[23];
    lemma_read_be32_roundtrip(b0, b1, b2, b3);
    assert(n < 0x1_0000_0000);
    assert(n % 0x1_0000_0000 == n);
    lemma_read_be16_roundtrip(data[0], data[1]);
    let out = frame_bytes(FRAME_MAGIC, PROTOCOL_VERSION, data[3], data.subrange(4, 20),
        data.subrange(24, 24 + n as int));
    assert(out =~= data.take(24 + n as int));
}

proof fn lemma_be32_roundtrip(n: nat)
    requires
        n < 0x1_0000_0000,
    ensures
        read_be32(be32(n)[0], be32(n)[1], be32(n)[2], be32(n)[3]) == n,
{
    assert(read_be32(be32(n)[0], be32(n)[1], be32(n)[2], be32(n)[3]) == n) by (nonlinear_arith)
        requires n < 0x1_0000_0000;
}

proof fn lemma_read_be32_roundtrip(b0: u8, b1: u8, b2: u8, b3: u8)
    ensures
        read_be32(b0, b1, b2, b3) < 0x1_0000_0000,
        be32(read_be32(b0, b1, b2, b3)) == seq![b0, b1, b2, b3],
{
    let n = read_be32(b0, b1, b2, b3);
    assert(n < 0x1_0000_0000) by (nonlinear_arith)
        requires n == (b0 as nat) * 0x1000000 + (b1 as nat) * 0x10000 + (b2 as nat) * 256 + (b3 as nat),
            b0 < 256, b1 < 256, b2 < 256, b3 < 256;
    assert(n / 0x1000000 == b0 && (n / 0x10000) % 256 == b1 && (n / 256) % 256 == b2 && n % 256 == b3)
        by (nonlinear_arith)
        requires n == (b0 as nat) * 0x1000000 + (b1 as nat) * 0x10000 + (b2 as nat) * 256 + (b3 as nat),
            b0 < 256, b1 < 256, b2 < 256, b3 < 256;
    assert(be32(n) =~= seq![b0, b1, b2, b3]);
}

proof fn lemma_read_be16_roundtrip(b0: u8, b1: u8)
    ensures
        be16(read_be16(b0, b1)) == seq![b0, b1],
{
    let v = read_be16(b0, b1);
    assert(v == b0 as int * 256 + b1 as int);
    assert(v / 256 == b0 && v % 256 == b1) by (nonlinear_arith)
        requires v == b0 as int * 256 + b1 as int, b0 < 256, b1 < 256;
    assert(be16(v) =~= seq![b0, b1]);
}

} // verus!
