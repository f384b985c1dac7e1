//! Network addresses as plain values: an IP address (IPv4 as a `u32`, IPv6
//! as a `u128`, both in network byte order) and a socket address.

use vstd::prelude::*;

verus! {

/// An IPv4 or IPv6 address.
#[derive(Debug, Clone, Copy, PartialEq, Eq, Hash, Structural)]
pub enum IpAddress {
    V4(u32),
    V6(u128),
}

/// An IP address and a port.
#[derive(Debug, Clone, Copy, PartialEq, Eq, Hash, Structural)]
pub struct SocketAddress {
    pub ip: IpAddress,
    pub port: u16,
}

impl IpAddress {
    /// The IPv4 address `a.b.c.d`.
    pub fn v4(a: u8, b: u8, c: u8, d: u8) -> (r: IpAddress)
        ensures
            r matches IpAddress::V4(x) && x == a * 0x100_0000 + b * 0x1_0000 + c * 0x100 + d,
    {
        IpAddress::V4((a as u32) * 0x100_0000 + (b as u32) * 0x1_0000 + (c as u32) * 0x100 + d as u32)
    }

    /// The IPv6 address `a:b:c:d:e:f:g:h`.
    pub fn v6(a: u16, b: u16, c: u16, d: u16, e: u16, f: u16, g: u16, h: u16) -> (r: IpAddress)
        ensures
            r matches IpAddress::V6(x) && x == a * 0x1_0000_0000_0000_0000_0000_0000_0000 + b
                * 0x1_0000_0000_0000_0000_0000_0000 + c * 0x1_0000_0000_0000_0000_0000 + d
                * 0x1_0000_0000_0000_0000 + e * 0x1_0000_0000_0000 + f * 0x1_0000_0000 + g
                * 0x1_0000 + h,
    {
        IpAddress::V6(
            (a as u128) * 0x1_0000_0000_0000_0000_0000_0000_0000 + (b as u128)
                * 0x1_0000_0000_0000_0000_0000_0000 + (c as u128) * 0x1_0000_0000_0000_0000_0000
                + (d as u128) * 0x1_0000_0000_0000_0000 + (e as u128) * 0x1_0000_0000_0000
                + (f as u128) * 0x1_0000_0000 + (g as u128) * 0x1_0000 + h as u128,
        )
    }
}

} // verus!
