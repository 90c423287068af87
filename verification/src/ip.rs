//! IP addresses as plain values: an IPv4 address is its 32-bit big-endian
//! integer (the value `u32::from(Ipv4Addr)` gives), an IPv6 address its
//! 128-bit integer.

use vstd::prelude::*;

verus! {

/// An IPv4 or IPv6 address.
#[derive(Clone, Copy, Debug, PartialEq, Eq, Structural, Hash)]
pub enum IpAddress {
    V4(u32),
    V6(u128),
}

/// The result of parsing `s` as an IP address with std's `IpAddr` parser.
pub uninterp spec fn spec_parse_ip_addr(s: Seq<char>) -> Option<IpAddress>;

/// Parses `s` with std's `FromStr` for `IpAddr` (`core::net::IpAddr`, the
/// same type std re-exports) and hands the address out as plain integers.
/// Only the name of the result is trusted: the parse is a function of the
/// text alone.
#[verifier::external_body]
pub(crate) fn parse_ip_addr(s: &str) -> (r: Option<IpAddress>)
    ensures
        r == spec_parse_ip_addr(s@),
{
    match s.parse::<core::net::IpAddr>() {
        Ok(core::net::IpAddr::V4(a)) => Some(IpAddress::V4(u32::from(a))),
        Ok(core::net::IpAddr::V6(a)) => Some(IpAddress::V6(u128::from(a))),
        Err(_) => None,
    }
}

/// An IP address together with a port.
#[derive(Clone, Copy, Debug, PartialEq, Eq, Structural, Hash)]
pub struct SocketAddress {
    pub ip: IpAddress,
    pub port: u16,
}

/// The IPv4 address `a.b.c.d` as a big-endian integer.
pub open spec fn spec_ipv4(a: u8, b: u8, c: u8, d: u8) -> u32 {
    (a * 0x100_0000 + b * 0x1_0000 + c * 0x100 + d) as u32
}

/// The four octets of an IPv4 address, most significant first.
pub open spec fn spec_octets(addr: u32) -> [u8; 4] {
    [
        (addr / 0x100_0000) as u8,
        ((addr / 0x1_0000) % 0x100) as u8,
        ((addr / 0x100) % 0x100) as u8,
        (addr % 0x100) as u8,
    ]
}

/// The IPv4 address `a.b.c.d`.
pub fn ipv4_from_octets(a: u8, b: u8, c: u8, d: u8) -> (r: u32)
    ensures
        r == spec_ipv4(a, b, c, d),
{
    (a as u32) * 0x100_0000 + (b as u32) * 0x1_0000 + (c as u32) * 0x100 + (d as u32)
}

/// The four octets of an IPv4 address, most significant first.
pub fn ipv4_octets(addr: u32) -> (r: [u8; 4])
    ensures
        r == spec_octets(addr),
{
    [
        (addr / 0x100_0000) as u8,
        ((addr / 0x1_0000) % 0x100) as u8,
        ((addr / 0x100) % 0x100) as u8,
        (addr % 0x100) as u8,
    ]
}

/// Splitting an address into octets and joining them back gives the same
/// address, and joining octets then splitting them gives the same octets.
pub proof fn lemma_octets_roundtrip(addr: u32, a: u8, b: u8, c: u8, d: u8)
    ensures
        ({
            let o = spec_octets(addr);
            spec_ipv4(o[0], o[1], o[2], o[3]) == addr
        }),
        spec_octets(spec_ipv4(a, b, c, d)) == [a, b, c, d],
{
    let o = spec_octets(addr);
    assert(o[0] * 0x100_0000 + o[1] * 0x1_0000 + o[2] * 0x100 + o[3] == addr) by (nonlinear_arith)
        requires
            o[0] == addr / 0x100_0000,
            o[1] == (addr / 0x1_0000) % 0x100,
            o[2] == (addr / 0x100) % 0x100,
            o[3] == addr % 0x100,
    ;
    let x: int = a * 0x100_0000 + b * 0x1_0000 + c * 0x100 + d;
    assert(x / 0x100_0000 == a && (x / 0x1_0000) % 0x100 == b && (x / 0x100) % 0x100 == c && x
        % 0x100 == d) by (nonlinear_arith)
        requires
            x == a * 0x100_0000 + b * 0x1_0000 + c * 0x100 + d,
            0 <= a < 256,
            0 <= b < 256,
            0 <= c < 256,
            0 <= d < 256,
    ;
    assert(spec_octets(spec_ipv4(a, b, c, d)) =~= [a, b, c, d]);
}

} // verus!
