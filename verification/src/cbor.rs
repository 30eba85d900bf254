//! Deterministic CBOR (RFC 8949) encoding of the protocol's signed
//! structures: definite lengths, shortest-form integer arguments, and map
//! entries in a fixed order.

use vstd::prelude::*;
use vstd::utf8::encode_utf8;

verus! {

/// CBOR major type 0: unsigned integer.
pub const MAJOR_UINT: u8 = 0;
/// CBOR major type 2: byte string.
pub const MAJOR_BYTES: u8 = 2;
/// CBOR major type 3: text string.
pub const MAJOR_TEXT: u8 = 3;
/// CBOR major type 4: array.
pub const MAJOR_ARRAY: u8 = 4;
/// CBOR major type 5: map.
pub const MAJOR_MAP: u8 = 5;

/// The `width` least significant bytes of `n`, most significant first.
pub open spec fn be_bytes(n: nat, width: nat) -> Seq<u8>
    decreases width,
{
    if width == 0 { Seq::empty() } else { be_bytes(n / 256, (width - 1) as nat).push((n % 256) as u8) }
}

/// The head of a CBOR data item: major type and argument, the argument in
/// its shortest form.
pub open spec fn cbor_head(major: u8, n: nat) -> Seq<u8> {
    if n <= 23 {
        seq![(major * 32 + n) as u8]
    } else if n <= 0xff {
        seq![(major * 32 + 24) as u8] + be_bytes(n, 1)
    } else if n <= 0xffff {
        seq![(major * 32 + 25) as u8] + be_bytes(n, 2)
    } else if n <= 0xffff_ffff {
        seq![(major * 32 + 26) as u8] + be_bytes(n, 4)
    } else {
        seq![(major * 32 + 27) as u8] + be_bytes(n, 8)
    }
}

/// An unsigned integer.
pub open spec fn cbor_uint(n: nat) -> Seq<u8> {
    cbor_head(MAJOR_UINT, n)
}

/// A text string given by its UTF-8 bytes.
pub open spec fn cbor_text(utf8: Seq<u8>) -> Seq<u8> {
    cbor_head(MAJOR_TEXT, utf8.len()) + utf8
}

/// A byte string.
pub open spec fn cbor_bytes(data: Seq<u8>) -> Seq<u8> {
    cbor_head(MAJOR_BYTES, data.len()) + data
}

/// The concatenated encodings of bytes as unsigned integers.
pub open spec fn cbor_uints(data: Seq<u8>) -> Seq<u8>
    decreases data.len(),
{
    if data.len() == 0 { Seq::empty() } else { cbor_uints(data.drop_last()) + cbor_uint(data.last() as nat) }
}

/// A sequence of bytes encoded as an array of unsigned integers (how a byte
/// slice or vector is serialized field by field).
pub open spec fn cbor_uint_array(data: Seq<u8>) -> Seq<u8> {
    cbor_head(MAJOR_ARRAY, data.len()) + cbor_uints(data)
}

fn push_be(buf: &mut Vec<u8>, n: u64, width: u64)
    requires
        width <= 8,
    ensures
        final(buf)@ == old(buf)@ + be_bytes(n as nat, width as nat),
    decreases width,
{
    if width == 0 {
        assert(be_bytes(n as nat, 0) =~= Seq::<u8>::empty());
        assert(buf@ =~= old(buf)@ + be_bytes(n as nat, 0));
        return;
    }
    push_be(buf, n / 256, width - 1);
    buf.push((n % 256) as u8);
    assert(buf@ =~= old(buf)@ + be_bytes(n as nat, width as nat));
}

/// Append the head of a data item.
pub fn push_head(buf: &mut Vec<u8>, major: u8, n: u64)
    requires
        major < 8,
    ensures
        final(buf)@ == old(buf)@ + cbor_head(major, n as nat),
{
    if n <= 23 {
        buf.push(major * 32 + n as u8);
        assert(buf@ =~= old(buf)@ + cbor_head(major, n as nat));
    } else if n <= 0xff {
        buf.push(major * 32 + 24);
        push_be(buf, n, 1);
        assert(buf@ =~= old(buf)@ + cbor_head(major, n as nat));
    } else if n <= 0xffff {
        buf.push(major * 32 + 25);
        push_be(buf, n, 2);
        assert(buf@ =~= old(buf)@ + cbor_head(major, n as nat));
    } else if n <= 0xffff_ffff {
        buf.push(major * 32 + 26);
        push_be(buf, n, 4);
        assert(buf@ =~= old(buf)@ + cbor_head(major, n as nat));
    } else {
        buf.push(major * 32 + 27);
        push_be(buf, n, 8);
        assert(buf@ =~= old(buf)@ + cbor_head(major, n as nat));
    }
}

/// Append an unsigned integer.
pub fn push_uint(buf: &mut Vec<u8>, n: u64)
    ensures
        final(buf)@ == old(buf)@ + cbor_uint(n as nat),
{
    push_head(buf, MAJOR_UINT, n);
}

/// Append a text string given by its UTF-8 bytes.
pub fn push_text(buf: &mut Vec<u8>, utf8: &[u8])
    ensures
        final(buf)@ == old(buf)@ + cbor_text(utf8@),
{
    push_head(buf, MAJOR_TEXT, utf8.len() as u64);
    crate::bytes::append_bytes(buf, utf8);
    assert(buf@ =~= old(buf)@ + cbor_text(utf8@));
}

/// Append a byte string.
pub fn push_bytes(buf: &mut Vec<u8>, data: &[u8])
    ensures
        final(buf)@ == old(buf)@ + cbor_bytes(data@),
{
    push_head(buf, MAJOR_BYTES, data.len() as u64);
    crate::bytes::append_bytes(buf, data);
    assert(buf@ =~= old(buf)@ + cbor_bytes(data@));
}

/// Append bytes as an array of unsigned integers.
pub fn push_uint_array(buf: &mut Vec<u8>, data: &[u8])
    ensures
        final(buf)@ == old(buf)@ + cbor_uint_array(data@),
{
    push_head(buf, MAJOR_ARRAY, data.len() as u64);
    let ghost start = buf@;
    let mut i: usize = 0;
    while i < data.len()
        invariant
            i <= data@.len(),
            buf@ == start + cbor_uints(data@.take(i as int)),
        decreases data@.len() - i,
    {
        push_uint(buf, data[i] as u64);
        assert(data@.take(i as int + 1).drop_last() =~= data@.take(i as int));
        i = i + 1;
        assert(buf@ =~= start + cbor_uints(data@.take(i as int)));
    }
    assert(data@.take(data@.len() as int) =~= data@);
    assert(buf@ =~= old(buf)@ + cbor_uint_array(data@));
}

/// A value of a CBOR map built from plain values.
#[derive(Debug)]
pub enum CborItem {
    /// A text string.
    Text(String),
    /// A byte string.
    Bytes(Vec<u8>),
    /// An unsigned integer.
    Uint(u64),
}

/// The encoding of one map value.
pub open spec fn cbor_item_bytes(item: CborItem) -> Seq<u8> {
    match item {
        CborItem::Text(t) => cbor_text(encode_utf8(t@)),
        CborItem::Bytes(b) => cbor_bytes(b@),
        CborItem::Uint(n) => cbor_uint(n as nat),
    }
}

/// The encodings of map entries with text keys, each key followed by its
/// value, in the given order.
pub open spec fn cbor_entries_bytes(entries: Seq<(String, CborItem)>) -> Seq<u8>
    decreases entries.len(),
{
    if entries.len() == 0 {
        Seq::empty()
    } else {
        cbor_entries_bytes(entries.drop_last()) + cbor_text(encode_utf8(entries.last().0@))
            + cbor_item_bytes(entries.last().1)
    }
}

} // verus!
