//! Specifications of the textual encodings used by the protocol: lower-case
//! hex, base-58 (Bitcoin alphabet) and decimal.

use vstd::prelude::*;
use crate::error::concat;

verus! {

/// The lower-case hex digit for a value below 16.
pub open spec fn hex_digit(n: int) -> char {
    if n < 10 { (n + 48) as char } else { (n - 10 + 97) as char }
}

/// Lower-case hex encoding: two digits per byte, high nibble first.
pub open spec fn hex_lower(data: Seq<u8>) -> Seq<char>
    decreases data.len(),
{
    if data.len() == 0 {
        Seq::empty()
    } else {
        seq![hex_digit(data[0] as int / 16), hex_digit(data[0] as int % 16)] + hex_lower(data.drop_first())
    }
}

/// Big-endian value of a byte string.
pub open spec fn be_value(data: Seq<u8>) -> nat
    decreases data.len(),
{
    if data.len() == 0 { 0 } else { be_value(data.drop_last()) * 256 + data.last() as nat }
}

/// The number of leading zero bytes of a byte string.
pub open spec fn leading_zero_bytes(data: Seq<u8>) -> nat
    decreases data.len(),
{
    if data.len() == 0 || data[0] != 0 { 0 } else { 1 + leading_zero_bytes(data.drop_first()) }
}

/// The Bitcoin base-58 alphabet `123456789ABCDEFGHJKLMNPQRSTUVWXYZabcdefghijkmnopqrstuvwxyz`.
pub open spec fn base58_digit(d: int) -> char {
    if d < 9 {
        (d + 49) as char
    } else if d < 17 {
        (d - 9 + 65) as char
    } else if d < 22 {
        (d - 17 + 74) as char
    } else if d < 33 {
        (d - 22 + 80) as char
    } else if d < 44 {
        (d - 33 + 97) as char
    } else {
        (d - 44 + 109) as char
    }
}

/// Base-58 digits of a number, most significant first, none for zero.
pub open spec fn base58_digits(n: nat) -> Seq<char>
    decreases n,
{
    if n == 0 { Seq::empty() } else { base58_digits(n / 58).push(base58_digit((n % 58) as int)) }
}

/// Base-58 text of a byte string: a `'1'` for each leading zero byte, then
/// the digits of the big-endian value.
pub open spec fn base58_text(data: Seq<u8>) -> Seq<char> {
    Seq::new(leading_zero_bytes(data), |i: int| '1') + base58_digits(be_value(data))
}

/// Decimal digits of a number, most significant first; `"0"` for zero.
pub open spec fn decimal_text(n: nat) -> Seq<char>
    decreases n,
{
    if n < 10 {
        seq![(n + 48) as char]
    } else {
        decimal_text(n / 10).push(((n % 10) + 48) as char)
    }
}

/// The one-character text of a hex digit value below 16.
fn digit_text(n: u8) -> (res: &'static str)
    requires
        n < 16,
    ensures
        res@ == seq![hex_digit(n as int)],
{
    if n == 0 { proof { reveal_strlit("0"); } "0" }
    else if n == 1 { proof { reveal_strlit("1"); } "1" }
    else if n == 2 { proof { reveal_strlit("2"); } "2" }
    else if n == 3 { proof { reveal_strlit("3"); } "3" }
    else if n == 4 { proof { reveal_strlit("4"); } "4" }
    else if n == 5 { proof { reveal_strlit("5"); } "5" }
    else if n == 6 { proof { reveal_strlit("6"); } "6" }
    else if n == 7 { proof { reveal_strlit("7"); } "7" }
    else if n == 8 { proof { reveal_strlit("8"); } "8" }
    else if n == 9 { proof { reveal_strlit("9"); } "9" }
    else if n == 10 { proof { reveal_strlit("a"); } "a" }
    else if n == 11 { proof { reveal_strlit("b"); } "b" }
    else if n == 12 { proof { reveal_strlit("c"); } "c" }
    else if n == 13 { proof { reveal_strlit("d"); } "d" }
    else if n == 14 { proof { reveal_strlit("e"); } "e" }
    else { proof { reveal_strlit("f"); } "f" }
}

/// Lower-case hexadecimal text of `data`, two digits per byte, high
/// nibble first.
pub fn hex_encode(data: &[u8]) -> (res: String)
    ensures
        res@ == hex_lower(data@),
{
    let mut out = String::new();
    let mut i: usize = 0;
    assert(data@.skip(0) =~= data@);
    while i < data.len()
        invariant
            i <= data@.len(),
            hex_lower(data@) == out@ + hex_lower(data@.skip(i as int)),
        decreases data.len() - i,
    {
        let b = data[i];
        proof {
            let rest = data@.skip(i as int);
            assert(rest[0] == b);
            assert(rest.drop_first() =~= data@.skip(i + 1));
        }
        out = concat(out, digit_text(b / 16));
        out = concat(out, digit_text(b % 16));
        i = i + 1;
    }
    assert(data@.skip(data@.len() as int) =~= Seq::<u8>::empty());
    out
}

/// The decimal text of `n`, without leading zeros.
pub fn decimal_string(n: u64) -> (res: String)
    ensures
        res@ == decimal_text(n as nat),
    decreases n,
{
    let d = (n % 10) as u8;
    if n < 10 {
        concat(String::new(), digit_text(d))
    } else {
        let head = decimal_string(n / 10);
        concat(head, digit_text(d))
    }
}

} // verus!
