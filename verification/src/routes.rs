//! Route descriptors of the local routing table, as plain values.

use vstd::prelude::*;
use crate::addr::IpAddress;

verus! {

/// Describes one route of the local computer's IPv4 or IPv6 routing table.
///
/// The address `0.0.0.0` with a prefix of `0` is considered a default route.
#[derive(Clone, Copy, PartialEq, Eq, Structural, Debug)]
pub struct Route {
    /// Network address of the destination.
    pub destination: IpAddress,
    /// Length of the network prefix in the destination address.
    pub prefix: u8,
    /// The address of the next hop of this route, when known.
    pub gateway: Option<IpAddress>,
    /// The index of the local interface through which the next hop of this
    /// route may be reached, when known.
    pub ifindex: Option<u32>,
}

/// The IPv4 netmask with the topmost `prefix` bits set.
pub open spec fn mask_v4(prefix: u8) -> u32
    recommends
        prefix <= 32,
{
    if prefix == 0 {
        0u32
    } else {
        (u32::MAX << ((32 - prefix) as u32)) as u32
    }
}

/// The IPv6 netmask with the topmost `prefix` bits set.
pub open spec fn mask_v6(prefix: u8) -> u128
    recommends
        prefix <= 128,
{
    if prefix == 0 {
        0u128
    } else {
        (u128::MAX << ((128 - prefix) as u128)) as u128
    }
}

/// Whether a route's prefix length fits its destination's address family.
pub open spec fn prefix_fits(r: Route) -> bool {
    match r.destination {
        IpAddress::V4(_) => r.prefix <= 32,
        IpAddress::V6(_) => r.prefix <= 128,
    }
}

impl Route {
    /// Creates a route that matches a given destination network.
    pub fn new(destination: IpAddress, prefix: u8, gateway: Option<IpAddress>, ifindex: Option<
        u32,
    >) -> (r: Self)
        ensures
            r == (Route { destination, prefix, gateway, ifindex }),
    {
        Self { destination, prefix, gateway, ifindex }
    }

    /// Gets the netmask covering the network portion of the destination
    /// address, in the destination's address family.
    pub fn mask(&self) -> (r: IpAddress)
        requires
            prefix_fits(*self),
        ensures
            r == (match self.destination {
                IpAddress::V4(_) => IpAddress::V4(mask_v4(self.prefix)),
                IpAddress::V6(_) => IpAddress::V6(mask_v6(self.prefix)),
            }),
    {
        match self.destination {
            IpAddress::V4(_) => {
                if self.prefix == 0 {
                    IpAddress::V4(0)
                } else {
                    IpAddress::V4(u32::MAX << ((32 - self.prefix) as u32))
                }
            },
            IpAddress::V6(_) => {
                if self.prefix == 0 {
                    IpAddress::V6(0)
                } else {
                    IpAddress::V6(u128::MAX << ((128 - self.prefix) as u128))
                }
            },
        }
    }
}

impl Default for Route {
    /// The default route: destination `0.0.0.0` with a prefix of `0`.
    fn default() -> (r: Self)
        ensures
            r == (Route {
                destination: IpAddress::V4(0),
                prefix: 0u8,
                gateway: None::<IpAddress>,
                ifindex: None::<u32>,
            }),
    {
        Self { destination: IpAddress::V4(0), prefix: 0, gateway: None, ifindex: None }
    }
}

} // verus!
