//! Plain-value model of an IP address.
//!
//! An address is held as its numeric value so that every comparison and the
//! byte codec are ordinary integer operations. The embedding program converts
//! between this type and whatever address type its collaborators produce.

use vstd::prelude::*;

verus! {

/// An IPv4 or IPv6 address as a plain numeric value.
///
/// An IPv4 address `a.b.c.d` is the big-endian 32-bit value of its octets;
/// an IPv6 address is the big-endian 128-bit value of its sixteen octets.
#[derive(Clone, Copy, PartialEq, Eq, Structural, Debug)]
pub enum IpAddress {
    V4(u32),
    V6(u128),
}

impl IpAddress {
    /// Builds an IPv4 address from its four dotted-quad octets.
    pub fn from_octets(a: u8, b: u8, c: u8, d: u8) -> (r: IpAddress)
        ensures
            r == IpAddress::V4(
                ((a as u32) << 24) | ((b as u32) << 16) | ((c as u32) << 8) | (d as u32),
            ),
    {
        IpAddress::V4(((a as u32) << 24) | ((b as u32) << 16) | ((c as u32) << 8) | (d as u32))
    }

    /// True when the address is an IPv4 address.
    pub fn is_v4(&self) -> (r: bool)
        ensures
            r == (self matches IpAddress::V4(_)),
    {
        match self {
            IpAddress::V4(_) => true,
            IpAddress::V6(_) => false,
        }
    }
}

} // verus!
