//! Outbound address validation: a hub must not be talked into connecting to
//! private, loopback, link-local or reserved addresses unless the operator
//! allowlists them. Addresses arrive here already parsed.

use vstd::prelude::*;
use crate::error::concat;

verus! {

/// An IP address: four octets, or eight 16-bit segments.
#[derive(Debug, Clone, Copy, PartialEq, Eq)]
pub enum IpAddress {
    V4([u8; 4]),
    V6([u16; 8]),
}

/// An IP address and a port.
#[derive(Debug, Clone, Copy, PartialEq, Eq)]
pub struct SocketAddress {
    pub ip: IpAddress,
    pub port: u16,
}

/// Carrier-grade NAT range: 100.64.0.0/10.
pub open spec fn cgn(o: Seq<u8>) -> bool {
    o[0] == 100 && (o[1] & 0xC0u8) == 64
}

/// IPv6 unique local addresses: fc00::/7.
pub open spec fn ula(s: Seq<u16>) -> bool {
    (s[0] & 0xfe00u16) == 0xfc00
}

/// IPv6 link-local addresses: fe80::/10.
pub open spec fn link_local_v6(s: Seq<u16>) -> bool {
    (s[0] & 0xffc0u16) == 0xfe80
}

/// Whether an IPv4 address is loopback (127/8), private (10/8, 172.16/12,
/// 192.168/16), link-local (169.254/16), unspecified (0.0.0.0) or in the
/// carrier-grade NAT range.
pub open spec fn private_v4(o: Seq<u8>) -> bool {
    ||| o[0] == 127
    ||| o[0] == 10
    ||| (o[0] == 172 && 16 <= o[1] <= 31)
    ||| (o[0] == 192 && o[1] == 168)
    ||| (o[0] == 169 && o[1] == 254)
    ||| (o[0] == 0 && o[1] == 0 && o[2] == 0 && o[3] == 0)
    ||| cgn(o)
}

/// Whether an IPv6 address is an IPv4-mapped one, `::ffff:a.b.c.d`.
pub open spec fn v4_mapped(s: Seq<u16>) -> bool {
    (forall|i: int| 0 <= i < 5 ==> s[i] == 0) && s[5] == 0xffff
}

/// The IPv4 address `a.b.c.d` that `::ffff:a.b.c.d` maps.
pub open spec fn mapped_octets(s: Seq<u16>) -> Seq<u8> {
    seq![(s[6] / 256) as u8, (s[6] % 256) as u8, (s[7] / 256) as u8, (s[7] % 256) as u8]
}

/// Whether an IPv6 address is loopback (::1), unspecified (::), unique
/// local, link-local, or an IPv4-mapped address whose IPv4 address is
/// private.
pub open spec fn private_v6(s: Seq<u16>) -> bool {
    ||| (forall|i: int| 0 <= i < 7 ==> s[i] == 0) && (s[7] == 0 || s[7] == 1)
    ||| ula(s)
    ||| link_local_v6(s)
    ||| (v4_mapped(s) && private_v4(mapped_octets(s)))
}

/// Whether an address is private, loopback, link-local or reserved.
pub open spec fn private_ip(ip: IpAddress) -> bool {
    match ip {
        IpAddress::V4(o) => private_v4(o@),
        IpAddress::V6(s) => private_v6(s@),
    }
}

/// Check for the carrier-grade NAT range: 100.64.0.0/10.
fn is_cgn(octets: &[u8; 4]) -> (res: bool)
    ensures
        res == cgn(octets@),
{
    octets[0] == 100 && (octets[1] & 0xC0) == 64
}

/// Check for the IPv6 unique local range: fc00::/7.
fn is_ula(segments: &[u16; 8]) -> (res: bool)
    ensures
        res == ula(segments@),
{
    (segments[0] & 0xfe00) == 0xfc00
}

/// Check for the IPv6 link-local range: fe80::/10.
fn is_link_local_v6(segments: &[u16; 8]) -> (res: bool)
    ensures
        res == link_local_v6(segments@),
{
    (segments[0] & 0xffc0) == 0xfe80
}

/// Whether four IPv4 octets are private, loopback, link-local, unspecified
/// or carrier-grade NAT.
fn is_private_v4(o: &[u8; 4]) -> (res: bool)
    ensures
        res == private_v4(o@),
{
    o[0] == 127 || o[0] == 10 || (o[0] == 172 && 16 <= o[1] && o[1] <= 31) || (o[0] == 192 && o[1] == 168)
        || (o[0] == 169 && o[1] == 254) || (o[0] == 0 && o[1] == 0 && o[2] == 0 && o[3] == 0) || is_cgn(o)
}

/// Whether the IP address is private, loopback, link-local or reserved.
/// An IPv4-mapped IPv6 address is judged by the IPv4 address it maps.
pub fn is_private_ip(ip: &IpAddress) -> (res: bool)
    ensures
        res == private_ip(*ip),
{
    match ip {
        IpAddress::V4(o) => is_private_v4(o),
        IpAddress::V6(s) => {
            let mut leading_zero = true;
            let mut i: usize = 0;
            while i < 7
                invariant
                    i <= 7,
                    leading_zero <==> forall|j: int| 0 <= j < i ==> s@[j] == 0,
                decreases 7 - i,
            {
                if s[i] != 0 {
                    leading_zero = false;
                }
                i = i + 1;
            }
            let mapped = s[0] == 0 && s[1] == 0 && s[2] == 0 && s[3] == 0 && s[4] == 0 && s[5] == 0xffff;
            let v4 = [(s[6] / 256) as u8, (s[6] % 256) as u8, (s[7] / 256) as u8, (s[7] % 256) as u8];
            assert(v4@ =~= mapped_octets(s@));
            assert(mapped == v4_mapped(s@));
            (leading_zero && (s[7] == 0 || s[7] == 1)) || is_ula(s) || is_link_local_v6(s)
                || (mapped && is_private_v4(&v4))
        },
    }
}

/// Errors of outbound address validation.
#[derive(Debug)]
pub enum AddressValidationError {
    /// The address text could not be parsed as a socket address.
    ParseError(String),
    /// The address is private/loopback/reserved and not in the allowlist.
    PrivateAddress(String),
}

impl AddressValidationError {
    /// The human-readable text of this error.
    pub fn message(&self) -> (res: String)
        ensures
            res@ == match self {
                AddressValidationError::ParseError(m) => m@,
                AddressValidationError::PrivateAddress(m) => m@,
            },
    {
        match self {
            AddressValidationError::ParseError(m) => m.clone(),
            AddressValidationError::PrivateAddress(m) => m.clone(),
        }
    }
}

/// Whether the list holds the text `t`.
pub open spec fn lists_text(list: Seq<String>, t: Seq<char>) -> bool {
    exists|i: int| 0 <= i < list.len() && (#[trigger] list[i])@ == t
}

/// Validate that `addr`, whose parse gave `parsed` (the parsed address, or
/// the parser's error text), is safe for an outbound connection: it must
/// parse, and then be allowlisted or not private.
pub fn validate_outbound_addr(addr: &str, parsed: Result<SocketAddress, String>, allowlist: &[String])
    -> (res: Result<SocketAddress, AddressValidationError>)
    ensures
        parsed matches Err(e) ==> (res matches Err(AddressValidationError::ParseError(m))
            && m@ == "invalid address '"@ + addr@ + "': "@ + e@),
        parsed matches Ok(sa) ==> (lists_text(allowlist@, addr@) || !private_ip(sa.ip) ==> res == Ok::<SocketAddress, AddressValidationError>(sa)),
        parsed matches Ok(sa) ==> (!lists_text(allowlist@, addr@) && private_ip(sa.ip) ==> (res matches Err(AddressValidationError::PrivateAddress(m))
            && m@ == "address '"@ + addr@ + "' is private/loopback/reserved and not in the outbound allowlist"@)),
{
    let socket_addr = match &parsed {
        Ok(sa) => *sa,
        Err(e) => {
            let s = concat("invalid address '".to_owned(), addr);
            let s = concat(s, "': ");
            return Err(AddressValidationError::ParseError(concat(s, e.as_str())));
        },
    };
    let mut i: usize = 0;
    while i < allowlist.len()
        invariant
            i <= allowlist@.len(),
            parsed == Ok::<SocketAddress, String>(socket_addr),
            forall|j: int| 0 <= j < i ==> (#[trigger] allowlist@[j])@ != addr@,
        decreases allowlist.len() - i,
    {
        if crate::tenant::text_equal(allowlist[i].as_str(), addr) {
            return Ok(socket_addr);
        }
        i = i + 1;
    }
    if is_private_ip(&socket_addr.ip) {
        let s = concat("address '".to_owned(), addr);
        return Err(AddressValidationError::PrivateAddress(
            concat(s, "' is private/loopback/reserved and not in the outbound allowlist"),
        ));
    }
    Ok(socket_addr)
}

/// The bytes that key an address in the rate limiter's tables: a version
/// tag, then the octets, or the segments big-endian.
pub open spec fn ip_key(ip: IpAddress) -> Seq<u8> {
    match ip {
        IpAddress::V4(o) => seq![4u8] + o@,
        IpAddress::V6(s) => seq![6u8] + Seq::new(16, |i: int| if i % 2 == 0 { (s@[i / 2] / 256) as u8 } else { (s@[i / 2] % 256) as u8 }),
    }
}

/// The key bytes of an address.
pub fn ip_key_bytes(ip: &IpAddress) -> (res: Vec<u8>)
    ensures
        res@ == ip_key(*ip),
{
    let mut out: Vec<u8> = Vec::new();
    match ip {
        IpAddress::V4(o) => {
            out.push(4);
            let mut i: usize = 0;
            while i < 4
                invariant
                    i <= 4,
                    out@ == seq![4u8] + o@.take(i as int),
                decreases 4 - i,
            {
                out.push(o[i]);
                assert(o@.take(i + 1) =~= o@.take(i as int).push(o@[i as int]));
                i = i + 1;
            }
            assert(o@.take(4) =~= o@);
        },
        IpAddress::V6(s) => {
            out.push(6);
            let ghost want = Seq::new(16, |k: int| if k % 2 == 0 { (s@[k / 2] / 256) as u8 } else { (s@[k / 2] % 256) as u8 });
            let mut i: usize = 0;
            while i < 8
                invariant
                    i <= 8,
                    want == Seq::new(16, |k: int| if k % 2 == 0 { (s@[k / 2] / 256) as u8 } else { (s@[k / 2] % 256) as u8 }),
                    out@ == seq![6u8] + want.take(2 * i as int),
                decreases 8 - i,
            {
                let hi: u8 = (s[i] / 256) as u8;
                let lo: u8 = (s[i] % 256) as u8;
                out.push(hi);
                out.push(lo);
                assert(want.take(2 * i + 2) =~= want.take(2 * i as int).push(want[2 * i as int]).push(want[2 * i + 1]));
                i = i + 1;
            }
            assert(want.take(16) =~= want);
        },
    }
    out
}

} // verus!
