//! Network addresses as plain values.
use vstd::prelude::*;

verus! {

/// An IP address: IPv4 as its four octets, IPv6 as its eight 16-bit groups.
#[derive(Clone, Copy, Debug, PartialEq, Eq, Hash, Structural)]
pub enum IpAddress {
    V4(u8, u8, u8, u8),
    V6(u16, u16, u16, u16, u16, u16, u16, u16),
}

/// Big-endian 16-bit value of the two bytes of `b` starting at `at`.
pub open spec fn be16(b: Seq<u8>, at: int) -> u16 {
    (b[at] as int * 256 + b[at + 1] as int) as u16
}

/// The IPv4 address held in the four bytes of `b` starting at `at`.
pub open spec fn ipv4_at(b: Seq<u8>, at: int) -> IpAddress {
    IpAddress::V4(b[at], b[at + 1], b[at + 2], b[at + 3])
}

/// The IPv6 address held in the sixteen bytes of `b` starting at `at`.
pub open spec fn ipv6_at(b: Seq<u8>, at: int) -> IpAddress {
    IpAddress::V6(
        be16(b, at),
        be16(b, at + 2),
        be16(b, at + 4),
        be16(b, at + 6),
        be16(b, at + 8),
        be16(b, at + 10),
        be16(b, at + 12),
        be16(b, at + 14),
    )
}

/// The IPv4 address with the four octets of `a`.
pub fn ipv4_from_octets(a: [u8; 4]) -> (r: IpAddress)
    ensures
        r == ipv4_at(a@, 0),
{
    IpAddress::V4(a[0], a[1], a[2], a[3])
}

/// The big-endian 16-bit value of two bytes.
fn group(hi: u8, lo: u8) -> (r: u16)
    ensures
        r == hi as int * 256 + lo as int,
{
    (hi as u16) * 256 + (lo as u16)
}

/// The IPv6 address with the sixteen octets of `a`.
pub fn ipv6_from_octets(a: [u8; 16]) -> (r: IpAddress)
    ensures
        r == ipv6_at(a@, 0),
{
    IpAddress::V6(
        group(a[0], a[1]),
        group(a[2], a[3]),
        group(a[4], a[5]),
        group(a[6], a[7]),
        group(a[8], a[9]),
        group(a[10], a[11]),
        group(a[12], a[13]),
        group(a[14], a[15]),
    )
}

} // verus!
