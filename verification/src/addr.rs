use vstd::prelude::*;

verus! {

/// An IP address as plain data: either the four octets of an IPv4 address
/// packed big-endian into a `u32`, or the eight 16-bit groups of an IPv6
/// address in order.
#[derive(Clone, Copy, Debug, PartialEq, Eq, Structural)]
pub enum IpAddr {
    V4(u32),
    V6(u16, u16, u16, u16, u16, u16, u16, u16),
}

/// A nameserver address: an IP address plus a UDP port.
#[derive(Clone, Copy, Debug, PartialEq, Eq, Structural)]
pub struct ServerAddr {
    pub ip: IpAddr,
    pub port: u16,
}

/// Packs four IPv4 octets, highest first, into the `u32` of `IpAddr::V4`.
pub fn ipv4(a: u8, b: u8, c: u8, d: u8) -> (r: u32)
    ensures
        r == (a as u32) * 0x100_0000 + (b as u32) * 0x1_0000 + (c as u32) * 0x100 + (d as u32),
{
    (a as u32) * 0x100_0000 + (b as u32) * 0x1_0000 + (c as u32) * 0x100 + (d as u32)
}

} // verus!
