//! The snapshot of observable network state: its data model, the
//! priority-ordered change classification, and the persistence byte format
//! with optional at-rest encryption.

use vstd::prelude::*;
use crate::NetworkChange;
use crate::addr::IpAddress;
use crate::codec;
use crate::error::Error;
use crate::network_interfaces::{
    as_map,
    check_unique,
    iface_eq,
    seq_views,
    unique_names,
    Interface,
    InterfaceV,
    Interfaces,
};
use crate::observer_config::ObserverConfig;
use crate::routes::Route;

verus! {

/// A snapshot of the observable network state, immutable once built.
///
/// An optional field is `None` both when the corresponding observation is
/// disabled and when it was enabled but the collaborator failed to produce a
/// value; comparison treats the two alike.
#[derive(PartialEq, Eq, Debug)]
pub struct NetworkState {
    /// When the snapshot was acquired, in seconds.
    pub captured_at: u64,
    /// The default network interface, when the lookup succeeded.
    pub default_interface: Option<Interface>,
    /// The full interface set, when that observation is enabled.
    pub all_interfaces: Option<Interfaces>,
    /// The default route, when that observation is enabled.
    pub default_route: Option<Route>,
    /// The full routing table, when that observation is enabled.
    pub all_routes: Option<Vec<Route>>,
    /// The externally visible address, when that observation is enabled.
    pub public_address: Option<IpAddress>,
}

/// The mathematical value of a [`NetworkState`].
pub ghost struct NetworkStateV {
    pub captured_at: u64,
    pub default_interface: Option<InterfaceV>,
    pub all_interfaces: Option<Seq<InterfaceV>>,
    pub default_route: Option<Route>,
    pub all_routes: Option<Seq<Route>>,
    pub public_address: Option<IpAddress>,
}

impl View for NetworkState {
    type V = NetworkStateV;

    open spec fn view(&self) -> NetworkStateV {
        NetworkStateV {
            captured_at: self.captured_at,
            default_interface: match self.default_interface {
                Some(ref i) => Some(i@),
                None => None,
            },
            all_interfaces: match self.all_interfaces {
                Some(ref s) => Some(s@),
                None => None,
            },
            default_route: self.default_route,
            all_routes: match self.all_routes {
                Some(ref r) => Some(r@),
                None => None,
            },
            public_address: self.public_address,
        }
    }
}

impl NetworkState {
    /// A snapshot holding the baseline observation alone: the acquisition
    /// time and the default interface. The optional observations start
    /// absent; the embedding program fills the enabled ones.
    pub fn new(captured_at: u64, default_interface: Option<Interface>) -> (r: Self)
        ensures
            r.captured_at == captured_at,
            r@.default_interface == (match default_interface {
                Some(i) => Some(i@),
                None => None::<InterfaceV>,
            }),
            r@.all_interfaces is None,
            r@.default_route is None,
            r@.all_routes is None,
            r@.public_address is None,
    {
        Self {
            captured_at,
            default_interface,
            all_interfaces: None,
            default_route: None,
            all_routes: None,
            public_address: None,
        }
    }
}

// ------------------------------------------------------------------
// Comparison
// ------------------------------------------------------------------

/// The seconds elapsed from `old_t` to `new_t`, zero when time went backward.
pub open spec fn elapsed_secs(old_t: u64, new_t: u64) -> u64 {
    if new_t >= old_t {
        (new_t - old_t) as u64
    } else {
        0u64
    }
}

/// Whether two optional interface sets describe the same keyed mapping.
pub open spec fn opt_ifaces_same(a: Option<Seq<InterfaceV>>, b: Option<Seq<InterfaceV>>) -> bool {
    match (a, b) {
        (Option::None, Option::None) => true,
        (Option::Some(x), Option::Some(y)) => as_map(x) == as_map(y),
        _ => false,
    }
}

/// The classification of the transition from `old` to `new`, as an ordered
/// decision list: the first matching condition is reported, even if several
/// fields changed at once.
///
/// Expiry is a hard staleness signal and dominates everything; a change of
/// the default interface is the most fundamental network identity change and
/// is checked whether or not any optional observation is enabled; the
/// remaining checks are gated on the configuration, so that no change is
/// reported on an unobserved dimension.
pub open spec fn compare_spec(
    old: NetworkStateV,
    new: NetworkStateV,
    config: ObserverConfig,
) -> NetworkChange {
    if elapsed_secs(old.captured_at, new.captured_at) >= config.expire_time {
        NetworkChange::Expired
    } else if old.default_interface != new.default_interface {
        NetworkChange::DefaultInterface
    } else if config.observe_all_interfaces && !opt_ifaces_same(
        old.all_interfaces,
        new.all_interfaces,
    ) {
        NetworkChange::SecondaryInterface
    } else if config.observe_default_route && old.default_route != new.default_route {
        NetworkChange::DefaultRoute
    } else if config.observe_all_routes && old.all_routes != new.all_routes {
        NetworkChange::RoutingTable
    } else if config.observe_public_address && old.public_address != new.public_address {
        NetworkChange::PublicAddress
    } else {
        NetworkChange::NoChange
    }
}

/// Whether two optional interfaces hold the same value.
fn opt_iface_eq(a: &Option<Interface>, b: &Option<Interface>) -> (r: bool)
    ensures
        r == ((match a {
            Some(i) => Some(i@),
            None => None::<InterfaceV>,
        }) == (match b {
            Some(i) => Some(i@),
            None => None::<InterfaceV>,
        })),
{
    match (a, b) {
        (None, None) => true,
        (Some(x), Some(y)) => iface_eq(x, y),
        _ => false,
    }
}

/// Whether two optional interface sets describe the same mapping.
fn opt_ifaces_eq(a: &Option<Interfaces>, b: &Option<Interfaces>) -> (r: bool)
    ensures
        r == opt_ifaces_same(
            (match a {
                Some(s) => Some(s@),
                None => None::<Seq<InterfaceV>>,
            }),
            (match b {
                Some(s) => Some(s@),
                None => None::<Seq<InterfaceV>>,
            }),
        ),
{
    match (a, b) {
        (None, None) => true,
        (Some(x), Some(y)) => x.same(y),
        _ => false,
    }
}

/// Whether two route tables hold the same routes in the same order.
fn routes_eq(a: &Vec<Route>, b: &Vec<Route>) -> (r: bool)
    ensures
        r == (a@ == b@),
{
    if a.len() != b.len() {
        return false;
    }
    let mut i: usize = 0;
    while i < a.len()
        invariant
            i <= a.len(),
            a@.len() == b@.len(),
            forall|j: int| 0 <= j < i ==> a@[j] == b@[j],
        decreases a.len() - i,
    {
        if !(a[i] == b[i]) {
            return false;
        }
        i = i + 1;
    }
    proof {
        assert(a@ =~= b@);
    }
    true
}

/// Whether two optional route tables hold the same value.
fn opt_routes_eq(a: &Option<Vec<Route>>, b: &Option<Vec<Route>>) -> (r: bool)
    ensures
        r == ((match a {
            Some(v) => Some(v@),
            None => None::<Seq<Route>>,
        }) == (match b {
            Some(v) => Some(v@),
            None => None::<Seq<Route>>,
        })),
{
    match (a, b) {
        (None, None) => true,
        (Some(x), Some(y)) => routes_eq(x, y),
        _ => false,
    }
}

impl NetworkState {
    /// Classifies the transition from this snapshot to `other` under the
    /// given configuration, returning the first matching change kind of the
    /// priority order.
    pub fn compare(&self, other: &Self, config: &ObserverConfig) -> (r: NetworkChange)
        ensures
            r == compare_spec(self@, other@, *config),
    {
        let elapsed = if other.captured_at >= self.captured_at {
            other.captured_at - self.captured_at
        } else {
            0
        };
        if elapsed >= config.expire_time {
            return NetworkChange::Expired;
        }
        if !opt_iface_eq(&self.default_interface, &other.default_interface) {
            return NetworkChange::DefaultInterface;
        }
        if config.observe_all_interfaces && !opt_ifaces_eq(
            &self.all_interfaces,
            &other.all_interfaces,
        ) {
            return NetworkChange::SecondaryInterface;
        }
        if config.observe_default_route && !(self.default_route == other.default_route) {
            return NetworkChange::DefaultRoute;
        }
        if config.observe_all_routes && !opt_routes_eq(&self.all_routes, &other.all_routes) {
            return NetworkChange::RoutingTable;
        }
        if config.observe_public_address && !(self.public_address == other.public_address) {
            return NetworkChange::PublicAddress;
        }
        NetworkChange::NoChange
    }
}

// ------------------------------------------------------------------
// Laws of the comparison
// ------------------------------------------------------------------

/// Expiry dominance: once the elapsed time reaches the threshold, the
/// comparison reports `Expired`, whatever else changed.
pub proof fn lemma_compare_expired(old: NetworkStateV, new: NetworkStateV, config: ObserverConfig)
    requires
        elapsed_secs(old.captured_at, new.captured_at) >= config.expire_time,
    ensures
        compare_spec(old, new, config) == NetworkChange::Expired,
{
}

/// Comparison priority: when the default interface changed, the comparison
/// never reports the lower-priority `PublicAddress`, however the public
/// address changed; within the expiry window it reports `DefaultInterface`.
pub proof fn lemma_compare_priority(old: NetworkStateV, new: NetworkStateV, config: ObserverConfig)
    requires
        old.default_interface != new.default_interface,
    ensures
        compare_spec(old, new, config) != NetworkChange::PublicAddress,
        elapsed_secs(old.captured_at, new.captured_at) < config.expire_time ==> compare_spec(
            old,
            new,
            config,
        ) == NetworkChange::DefaultInterface,
{
}

/// No observed dimension changed: within the expiry window, a comparison in
/// which the default interface is unchanged and every enabled observation is
/// unchanged reports no change, whatever the disabled fields hold.
///
/// This is the idempotent no-op law of the observer: a classification that
/// detected a change leaves the capture it classified as the stored
/// snapshot, so a second capture on which nothing observable changed
/// satisfies these premises with `old` the first capture, classifies as
/// `NoChange`, and by the observer's contract leaves the stored snapshot in
/// place and fires no handler. When the first classification instead
/// reported no change, the stored snapshot keeps aging, and the premise on
/// the elapsed time is genuinely needed: once the expiry threshold passes
/// between the stored snapshot and the new capture, the comparison reports
/// `Expired` rather than `NoChange`.
pub proof fn lemma_compare_no_change(old: NetworkStateV, new: NetworkStateV, config: ObserverConfig)
    requires
        elapsed_secs(old.captured_at, new.captured_at) < config.expire_time,
        old.default_interface == new.default_interface,
        config.observe_all_interfaces ==> opt_ifaces_same(old.all_interfaces, new.all_interfaces),
        config.observe_default_route ==> old.default_route == new.default_route,
        config.observe_all_routes ==> old.all_routes == new.all_routes,
        config.observe_public_address ==> old.public_address == new.public_address,
    ensures
        compare_spec(old, new, config) == NetworkChange::NoChange,
{
}

/// Disabled-observation masking: when the public address is not observed, a
/// transition differing in the public address alone reports no change.
pub proof fn lemma_compare_public_masked(
    old: NetworkStateV,
    new: NetworkStateV,
    config: ObserverConfig,
)
    requires
        !config.observe_public_address,
        elapsed_secs(old.captured_at, new.captured_at) < config.expire_time,
        old.default_interface == new.default_interface,
        old.all_interfaces == new.all_interfaces,
        old.default_route == new.default_route,
        old.all_routes == new.all_routes,
    ensures
        compare_spec(old, new, config) == NetworkChange::NoChange,
{
    lemma_compare_no_change(old, new, config);
}

// ------------------------------------------------------------------
// The canonical byte format of a snapshot
// ------------------------------------------------------------------

/// The leading byte of every encoded snapshot; decoding anything else fails,
/// so a file of an incompatible schema is rejected rather than misparsed.
pub const STATE_VERSION: u8 = 1;

pub open spec fn enc_addr(a: IpAddress) -> Seq<u8> {
    match a {
        IpAddress::V4(x) => seq![4u8] + codec::enc_u32(x),
        IpAddress::V6(x) => seq![6u8] + codec::enc_u128(x),
    }
}

pub open spec fn enc_opt_addr(o: Option<IpAddress>) -> Seq<u8> {
    match o {
        Option::None => seq![0u8],
        Option::Some(a) => seq![1u8] + enc_addr(a),
    }
}

pub open spec fn enc_opt_u32(o: Option<u32>) -> Seq<u8> {
    match o {
        Option::None => seq![0u8],
        Option::Some(x) => seq![1u8] + codec::enc_u32(x),
    }
}

pub open spec fn enc_opt_u64(o: Option<u64>) -> Seq<u8> {
    match o {
        Option::None => seq![0u8],
        Option::Some(x) => seq![1u8] + codec::enc_u64(x),
    }
}

pub open spec fn enc_route(r: Route) -> Seq<u8> {
    enc_addr(r.destination) + codec::enc_u8(r.prefix) + enc_opt_addr(r.gateway) + enc_opt_u32(
        r.ifindex,
    )
}

pub open spec fn enc_addrs(s: Seq<IpAddress>) -> Seq<u8>
    decreases s.len(),
{
    if s.len() == 0 {
        Seq::empty()
    } else {
        enc_addr(s[0]) + enc_addrs(s.drop_first())
    }
}

/// An address list: its count, then each address.
pub open spec fn enc_addr_list(s: Seq<IpAddress>) -> Seq<u8> {
    codec::enc_u64(s.len() as u64) + enc_addrs(s)
}

pub open spec fn enc_iface(i: InterfaceV) -> Seq<u8> {
    codec::enc_str(i.name) + codec::enc_u32(i.index) + codec::enc_u32(i.flags) + enc_addr_list(
        i.addresses,
    ) + enc_opt_u64(i.mac) + enc_opt_u32(i.mtu)
}

pub open spec fn enc_ifaces(s: Seq<InterfaceV>) -> Seq<u8>
    decreases s.len(),
{
    if s.len() == 0 {
        Seq::empty()
    } else {
        enc_iface(s[0]) + enc_ifaces(s.drop_first())
    }
}

/// An interface list: its count, then each interface.
pub open spec fn enc_iface_list(s: Seq<InterfaceV>) -> Seq<u8> {
    codec::enc_u64(s.len() as u64) + enc_ifaces(s)
}

pub open spec fn enc_routes(s: Seq<Route>) -> Seq<u8>
    decreases s.len(),
{
    if s.len() == 0 {
        Seq::empty()
    } else {
        enc_route(s[0]) + enc_routes(s.drop_first())
    }
}

/// A route list: its count, then each route.
pub open spec fn enc_route_list(s: Seq<Route>) -> Seq<u8> {
    codec::enc_u64(s.len() as u64) + enc_routes(s)
}

pub open spec fn enc_opt_iface(o: Option<InterfaceV>) -> Seq<u8> {
    match o {
        Option::None => seq![0u8],
        Option::Some(i) => seq![1u8] + enc_iface(i),
    }
}

pub open spec fn enc_opt_ifaces(o: Option<Seq<InterfaceV>>) -> Seq<u8> {
    match o {
        Option::None => seq![0u8],
        Option::Some(s) => seq![1u8] + enc_iface_list(s),
    }
}

pub open spec fn enc_opt_route(o: Option<Route>) -> Seq<u8> {
    match o {
        Option::None => seq![0u8],
        Option::Some(r) => seq![1u8] + enc_route(r),
    }
}

pub open spec fn enc_opt_routes(o: Option<Seq<Route>>) -> Seq<u8> {
    match o {
        Option::None => seq![0u8],
        Option::Some(s) => seq![1u8] + enc_route_list(s),
    }
}

/// The canonical encoding of a snapshot: a version byte, then every field in
/// order, absent fields included as an explicit marker.
pub open spec fn enc_state(v: NetworkStateV) -> Seq<u8> {
    seq![STATE_VERSION] + codec::enc_u64(v.captured_at) + enc_opt_iface(v.default_interface)
        + enc_opt_ifaces(v.all_interfaces) + enc_opt_route(v.default_route) + enc_opt_routes(
        v.all_routes,
    ) + enc_opt_addr(v.public_address)
}

/// The bounds under which an interface fits the format.
pub open spec fn wf_iface(i: InterfaceV) -> bool {
    i.name.len() <= u64::MAX && i.addresses.len() <= u64::MAX
}

/// The bounds and invariants under which a snapshot value fits the format:
/// every length fits its count field, and interface names are unique.
pub open spec fn wf_state(v: NetworkStateV) -> bool {
    &&& (match v.default_interface {
        Option::Some(i) => wf_iface(i),
        Option::None => true,
    })
    &&& (match v.all_interfaces {
        Option::Some(s) => s.len() <= u64::MAX && unique_names(s) && (forall|j: int|
            0 <= j < s.len() ==> wf_iface(#[trigger] s[j])),
        Option::None => true,
    })
    &&& (match v.all_routes {
        Option::Some(s) => s.len() <= u64::MAX,
        Option::None => true,
    })
}

// ------------------------------------------------------------------
// The parser of the byte format
// ------------------------------------------------------------------

pub open spec fn sp_addr(b: Seq<u8>, i: int) -> Option<(IpAddress, int)> {
    match codec::sp_u8(b, i) {
        Option::Some((t, j)) => {
            if t == 4u8 {
                match codec::sp_u32(b, j) {
                    Option::Some((x, k)) => Option::Some((IpAddress::V4(x), k)),
                    Option::None => Option::None,
                }
            } else if t == 6u8 {
                match codec::sp_u128(b, j) {
                    Option::Some((x, k)) => Option::Some((IpAddress::V6(x), k)),
                    Option::None => Option::None,
                }
            } else {
                Option::None
            }
        },
        Option::None => Option::None,
    }
}

pub open spec fn sp_opt_addr(b: Seq<u8>, i: int) -> Option<(Option<IpAddress>, int)> {
    match codec::sp_u8(b, i) {
        Option::Some((t, j)) => {
            if t == 0u8 {
                Option::Some((Option::None, j))
            } else if t == 1u8 {
                match sp_addr(b, j) {
                    Option::Some((a, k)) => Option::Some((Option::Some(a), k)),
                    Option::None => Option::None,
                }
            } else {
                Option::None
            }
        },
        Option::None => Option::None,
    }
}

pub open spec fn sp_opt_u32(b: Seq<u8>, i: int) -> Option<(Option<u32>, int)> {
    match codec::sp_u8(b, i) {
        Option::Some((t, j)) => {
            if t == 0u8 {
                Option::Some((Option::None, j))
            } else if t == 1u8 {
                match codec::sp_u32(b, j) {
                    Option::Some((x, k)) => Option::Some((Option::Some(x), k)),
                    Option::None => Option::None,
                }
            } else {
                Option::None
            }
        },
        Option::None => Option::None,
    }
}

pub open spec fn sp_opt_u64(b: Seq<u8>, i: int) -> Option<(Option<u64>, int)> {
    match codec::sp_u8(b, i) {
        Option::Some((t, j)) => {
            if t == 0u8 {
                Option::Some((Option::None, j))
            } else if t == 1u8 {
                match codec::sp_u64(b, j) {
                    Option::Some((x, k)) => Option::Some((Option::Some(x), k)),
                    Option::None => Option::None,
                }
            } else {
                Option::None
            }
        },
        Option::None => Option::None,
    }
}

pub open spec fn sp_route(b: Seq<u8>, i: int) -> Option<(Route, int)> {
    match sp_addr(b, i) {
        Option::Some((destination, j1)) => match codec::sp_u8(b, j1) {
            Option::Some((prefix, j2)) => match sp_opt_addr(b, j2) {
                Option::Some((gateway, j3)) => match sp_opt_u32(b, j3) {
                    Option::Some((ifindex, j4)) => Option::Some(
                        (Route { destination, prefix, gateway, ifindex }, j4),
                    ),
                    Option::None => Option::None,
                },
                Option::None => Option::None,
            },
            Option::None => Option::None,
        },
        Option::None => Option::None,
    }
}

pub open spec fn sp_addrs(b: Seq<u8>, i: int, n: int) -> Option<(Seq<IpAddress>, int)>
    decreases n,
{
    if n <= 0 {
        Option::Some((Seq::empty(), i))
    } else {
        match sp_addr(b, i) {
            Option::Some((a, j)) => match sp_addrs(b, j, n - 1) {
                Option::Some((rest, k)) => Option::Some((seq![a] + rest, k)),
                Option::None => Option::None,
            },
            Option::None => Option::None,
        }
    }
}

pub open spec fn sp_addr_list(b: Seq<u8>, i: int) -> Option<(Seq<IpAddress>, int)> {
    match codec::sp_u64(b, i) {
        Option::Some((n, j)) => sp_addrs(b, j, n as int),
        Option::None => Option::None,
    }
}

pub open spec fn sp_iface(b: Seq<u8>, i: int) -> Option<(InterfaceV, int)> {
    match codec::sp_str(b, i) {
        Option::Some((name, j1)) => match codec::sp_u32(b, j1) {
            Option::Some((index, j2)) => match codec::sp_u32(b, j2) {
                Option::Some((flags, j3)) => match sp_addr_list(b, j3) {
                    Option::Some((addresses, j4)) => match sp_opt_u64(b, j4) {
                        Option::Some((mac, j5)) => match sp_opt_u32(b, j5) {
                            Option::Some((mtu, j6)) => Option::Some(
                                (InterfaceV { name, index, flags, addresses, mac, mtu }, j6),
                            ),
                            Option::None => Option::None,
                        },
                        Option::None => Option::None,
                    },
                    Option::None => Option::None,
                },
                Option::None => Option::None,
            },
            Option::None => Option::None,
        },
        Option::None => Option::None,
    }
}

pub open spec fn sp_ifaces(b: Seq<u8>, i: int, n: int) -> Option<(Seq<InterfaceV>, int)>
    decreases n,
{
    if n <= 0 {
        Option::Some((Seq::empty(), i))
    } else {
        match sp_iface(b, i) {
            Option::Some((x, j)) => match sp_ifaces(b, j, n - 1) {
                Option::Some((rest, k)) => Option::Some((seq![x] + rest, k)),
                Option::None => Option::None,
            },
            Option::None => Option::None,
        }
    }
}

pub open spec fn sp_iface_list(b: Seq<u8>, i: int) -> Option<(Seq<InterfaceV>, int)> {
    match codec::sp_u64(b, i) {
        Option::Some((n, j)) => sp_ifaces(b, j, n as int),
        Option::None => Option::None,
    }
}

pub open spec fn sp_routes(b: Seq<u8>, i: int, n: int) -> Option<(Seq<Route>, int)>
    decreases n,
{
    if n <= 0 {
        Option::Some((Seq::empty(), i))
    } else {
        match sp_route(b, i) {
            Option::Some((r, j)) => match sp_routes(b, j, n - 1) {
                Option::Some((rest, k)) => Option::Some((seq![r] + rest, k)),
                Option::None => Option::None,
            },
            Option::None => Option::None,
        }
    }
}

pub open spec fn sp_route_list(b: Seq<u8>, i: int) -> Option<(Seq<Route>, int)> {
    match codec::sp_u64(b, i) {
        Option::Some((n, j)) => sp_routes(b, j, n as int),
        Option::None => Option::None,
    }
}

pub open spec fn sp_opt_iface(b: Seq<u8>, i: int) -> Option<(Option<InterfaceV>, int)> {
    match codec::sp_u8(b, i) {
        Option::Some((t, j)) => {
            if t == 0u8 {
                Option::Some((Option::None, j))
            } else if t == 1u8 {
                match sp_iface(b, j) {
                    Option::Some((x, k)) => Option::Some((Option::Some(x), k)),
                    Option::None => Option::None,
                }
            } else {
                Option::None
            }
        },
        Option::None => Option::None,
    }
}

pub open spec fn sp_opt_ifaces(b: Seq<u8>, i: int) -> Option<(Option<Seq<InterfaceV>>, int)> {
    match codec::sp_u8(b, i) {
        Option::Some((t, j)) => {
            if t == 0u8 {
                Option::Some((Option::None, j))
            } else if t == 1u8 {
                match sp_iface_list(b, j) {
                    Option::Some((x, k)) => Option::Some((Option::Some(x), k)),
                    Option::None => Option::None,
                }
            } else {
                Option::None
            }
        },
        Option::None => Option::None,
    }
}

pub open spec fn sp_opt_route(b: Seq<u8>, i: int) -> Option<(Option<Route>, int)> {
    match codec::sp_u8(b, i) {
        Option::Some((t, j)) => {
            if t == 0u8 {
                Option::Some((Option::None, j))
            } else if t == 1u8 {
                match sp_route(b, j) {
                    Option::Some((x, k)) => Option::Some((Option::Some(x), k)),
                    Option::None => Option::None,
                }
            } else {
                Option::None
            }
        },
        Option::None => Option::None,
    }
}

pub open spec fn sp_opt_routes(b: Seq<u8>, i: int) -> Option<(Option<Seq<Route>>, int)> {
    match codec::sp_u8(b, i) {
        Option::Some((t, j)) => {
            if t == 0u8 {
                Option::Some((Option::None, j))
            } else if t == 1u8 {
                match sp_route_list(b, j) {
                    Option::Some((x, k)) => Option::Some((Option::Some(x), k)),
                    Option::None => Option::None,
                }
            } else {
                Option::None
            }
        },
        Option::None => Option::None,
    }
}

/// Parses every field of a snapshot, starting at the version byte.
pub open spec fn sp_state_at(b: Seq<u8>, i: int) -> Option<(NetworkStateV, int)> {
    match codec::sp_u8(b, i) {
        Option::Some((t, j0)) => {
            if t == STATE_VERSION {
                match codec::sp_u64(b, j0) {
                    Option::Some((captured_at, j1)) => match sp_opt_iface(b, j1) {
                        Option::Some((default_interface, j2)) => match sp_opt_ifaces(b, j2) {
                            Option::Some((all_interfaces, j3)) => match sp_opt_route(b, j3) {
                                Option::Some((default_route, j4)) => match sp_opt_routes(b, j4) {
                                    Option::Some((all_routes, j5)) => match sp_opt_addr(b, j5) {
                                        Option::Some((public_address, j6)) => Option::Some(
                                            (
                                                NetworkStateV {
                                                    captured_at,
                                                    default_interface,
                                                    all_interfaces,
                                                    default_route,
                                                    all_routes,
                                                    public_address,
                                                },
                                                j6,
                                            ),
                                        ),
                                        Option::None => Option::None,
                                    },
                                    Option::None => Option::None,
                                },
                                Option::None => Option::None,
                            },
                            Option::None => Option::None,
                        },
                        Option::None => Option::None,
                    },
                    Option::None => Option::None,
                }
            } else {
                Option::None
            }
        },
        Option::None => Option::None,
    }
}

/// The value a byte string decodes to: the whole string must be consumed,
/// and a decoded interface set must have unique names.
pub open spec fn sp_state(b: Seq<u8>) -> Option<NetworkStateV> {
    match sp_state_at(b, 0) {
        Option::Some((v, e)) => {
            if e == b.len() && (match v.all_interfaces {
                Option::Some(s) => unique_names(s),
                Option::None => true,
            }) {
                Option::Some(v)
            } else {
                Option::None
            }
        },
        Option::None => Option::None,
    }
}

// ------------------------------------------------------------------
// Round-trip lemmas: parsing an encoding embedded in a larger buffer
// yields the encoded value and stops right after it.
// ------------------------------------------------------------------

pub proof fn lemma_sp_addr(b: Seq<u8>, i: int, a: IpAddress)
    requires
        0 <= i,
        i + enc_addr(a).len() <= b.len(),
        b.subrange(i, i + enc_addr(a).len() as int) == enc_addr(a),
    ensures
        sp_addr(b, i) == Some((a, i + enc_addr(a).len())),
{
    match a {
        IpAddress::V4(x) => {
            codec::lemma_subrange_split(b, i, seq![4u8], codec::enc_u32(x));
            assert(b.subrange(i, i + 1)[0] == b[i]);
            codec::lemma_sp_u32(b, i + 1, x);
        },
        IpAddress::V6(x) => {
            codec::lemma_subrange_split(b, i, seq![6u8], codec::enc_u128(x));
            assert(b.subrange(i, i + 1)[0] == b[i]);
            codec::lemma_sp_u128(b, i + 1, x);
        },
    }
}

pub proof fn lemma_sp_opt_addr(b: Seq<u8>, i: int, o: Option<IpAddress>)
    requires
        0 <= i,
        i + enc_opt_addr(o).len() <= b.len(),
        b.subrange(i, i + enc_opt_addr(o).len() as int) == enc_opt_addr(o),
    ensures
        sp_opt_addr(b, i) == Some((o, i + enc_opt_addr(o).len())),
{
    match o {
        Option::None => {
            assert(b.subrange(i, i + 1)[0] == b[i]);
        },
        Option::Some(a) => {
            codec::lemma_subrange_split(b, i, seq![1u8], enc_addr(a));
            assert(b.subrange(i, i + 1)[0] == b[i]);
            lemma_sp_addr(b, i + 1, a);
        },
    }
}

pub proof fn lemma_sp_opt_u32(b: Seq<u8>, i: int, o: Option<u32>)
    requires
        0 <= i,
        i + enc_opt_u32(o).len() <= b.len(),
        b.subrange(i, i + enc_opt_u32(o).len() as int) == enc_opt_u32(o),
    ensures
        sp_opt_u32(b, i) == Some((o, i + enc_opt_u32(o).len())),
{
    match o {
        Option::None => {
            assert(b.subrange(i, i + 1)[0] == b[i]);
        },
        Option::Some(x) => {
            codec::lemma_subrange_split(b, i, seq![1u8], codec::enc_u32(x));
            assert(b.subrange(i, i + 1)[0] == b[i]);
            codec::lemma_sp_u32(b, i + 1, x);
        },
    }
}

pub proof fn lemma_sp_opt_u64(b: Seq<u8>, i: int, o: Option<u64>)
    requires
        0 <= i,
        i + enc_opt_u64(o).len() <= b.len(),
        b.subrange(i, i + enc_opt_u64(o).len() as int) == enc_opt_u64(o),
    ensures
        sp_opt_u64(b, i) == Some((o, i + enc_opt_u64(o).len())),
{
    match o {
        Option::None => {
            assert(b.subrange(i, i + 1)[0] == b[i]);
        },
        Option::Some(x) => {
            codec::lemma_subrange_split(b, i, seq![1u8], codec::enc_u64(x));
            assert(b.subrange(i, i + 1)[0] == b[i]);
            codec::lemma_sp_u64(b, i + 1, x);
        },
    }
}

pub proof fn lemma_sp_route(b: Seq<u8>, i: int, r: Route)
    requires
        0 <= i,
        i + enc_route(r).len() <= b.len(),
        b.subrange(i, i + enc_route(r).len() as int) == enc_route(r),
    ensures
        sp_route(b, i) == Some((r, i + enc_route(r).len())),
{
    let e1 = enc_addr(r.destination);
    let e2 = codec::enc_u8(r.prefix);
    let e3 = enc_opt_addr(r.gateway);
    let e4 = enc_opt_u32(r.ifindex);
    codec::lemma_subrange_split(b, i, e1 + e2 + e3, e4);
    codec::lemma_subrange_split(b, i, e1 + e2, e3);
    codec::lemma_subrange_split(b, i, e1, e2);
    lemma_sp_addr(b, i, r.destination);
    codec::lemma_sp_u8(b, i + e1.len(), r.prefix);
    lemma_sp_opt_addr(b, i + e1.len() + e2.len(), r.gateway);
    lemma_sp_opt_u32(b, i + e1.len() + e2.len() + e3.len(), r.ifindex);
}

pub proof fn lemma_sp_addrs(b: Seq<u8>, i: int, s: Seq<IpAddress>)
    requires
        0 <= i,
        i + enc_addrs(s).len() <= b.len(),
        b.subrange(i, i + enc_addrs(s).len() as int) == enc_addrs(s),
    ensures
        sp_addrs(b, i, s.len() as int) == Some((s, i + enc_addrs(s).len())),
    decreases s.len(),
{
    if s.len() == 0 {
    } else {
        let a = s[0];
        let rest = s.drop_first();
        codec::lemma_subrange_split(b, i, enc_addr(a), enc_addrs(rest));
        lemma_sp_addr(b, i, a);
        lemma_sp_addrs(b, i + enc_addr(a).len(), rest);
        assert(seq![a] + rest =~= s);
    }
}

pub proof fn lemma_sp_addr_list(b: Seq<u8>, i: int, s: Seq<IpAddress>)
    requires
        0 <= i,
        s.len() <= u64::MAX,
        i + enc_addr_list(s).len() <= b.len(),
        b.subrange(i, i + enc_addr_list(s).len() as int) == enc_addr_list(s),
    ensures
        sp_addr_list(b, i) == Some((s, i + enc_addr_list(s).len())),
{
    codec::lemma_subrange_split(b, i, codec::enc_u64(s.len() as u64), enc_addrs(s));
    codec::lemma_sp_u64(b, i, s.len() as u64);
    lemma_sp_addrs(b, i + 8, s);
}

pub proof fn lemma_sp_iface(b: Seq<u8>, i: int, v: InterfaceV)
    requires
        0 <= i,
        wf_iface(v),
        i + enc_iface(v).len() <= b.len(),
        b.subrange(i, i + enc_iface(v).len() as int) == enc_iface(v),
    ensures
        sp_iface(b, i) == Some((v, i + enc_iface(v).len())),
{
    let e1 = codec::enc_str(v.name);
    let e2 = codec::enc_u32(v.index);
    let e3 = codec::enc_u32(v.flags);
    let e4 = enc_addr_list(v.addresses);
    let e5 = enc_opt_u64(v.mac);
    let e6 = enc_opt_u32(v.mtu);
    codec::lemma_subrange_split(b, i, e1 + e2 + e3 + e4 + e5, e6);
    codec::lemma_subrange_split(b, i, e1 + e2 + e3 + e4, e5);
    codec::lemma_subrange_split(b, i, e1 + e2 + e3, e4);
    codec::lemma_subrange_split(b, i, e1 + e2, e3);
    codec::lemma_subrange_split(b, i, e1, e2);
    codec::lemma_sp_str(b, i, v.name);
    codec::lemma_sp_u32(b, i + e1.len(), v.index);
    codec::lemma_sp_u32(b, i + e1.len() + e2.len(), v.flags);
    lemma_sp_addr_list(b, i + e1.len() + e2.len() + e3.len() as int, v.addresses);
    lemma_sp_opt_u64(b, i + e1.len() + e2.len() + e3.len() + e4.len() as int, v.mac);
    lemma_sp_opt_u32(b, i + e1.len() + e2.len() + e3.len() + e4.len() + e5.len() as int, v.mtu);
}

pub proof fn lemma_sp_ifaces(b: Seq<u8>, i: int, s: Seq<InterfaceV>)
    requires
        0 <= i,
        forall|j: int| 0 <= j < s.len() ==> wf_iface(#[trigger] s[j]),
        i + enc_ifaces(s).len() <= b.len(),
        b.subrange(i, i + enc_ifaces(s).len() as int) == enc_ifaces(s),
    ensures
        sp_ifaces(b, i, s.len() as int) == Some((s, i + enc_ifaces(s).len())),
    decreases s.len(),
{
    if s.len() == 0 {
    } else {
        let x = s[0];
        let rest = s.drop_first();
        codec::lemma_subrange_split(b, i, enc_iface(x), enc_ifaces(rest));
        lemma_sp_iface(b, i, x);
        lemma_sp_ifaces(b, i + enc_iface(x).len(), rest);
        assert(seq![x] + rest =~= s);
    }
}

pub proof fn lemma_sp_iface_list(b: Seq<u8>, i: int, s: Seq<InterfaceV>)
    requires
        0 <= i,
        s.len() <= u64::MAX,
        forall|j: int| 0 <= j < s.len() ==> wf_iface(#[trigger] s[j]),
        i + enc_iface_list(s).len() <= b.len(),
        b.subrange(i, i + enc_iface_list(s).len() as int) == enc_iface_list(s),
    ensures
        sp_iface_list(b, i) == Some((s, i + enc_iface_list(s).len())),
{
    codec::lemma_subrange_split(b, i, codec::enc_u64(s.len() as u64), enc_ifaces(s));
    codec::lemma_sp_u64(b, i, s.len() as u64);
    lemma_sp_ifaces(b, i + 8, s);
}

pub proof fn lemma_sp_routes(b: Seq<u8>, i: int, s: Seq<Route>)
    requires
        0 <= i,
        i + enc_routes(s).len() <= b.len(),
        b.subrange(i, i + enc_routes(s).len() as int) == enc_routes(s),
    ensures
        sp_routes(b, i, s.len() as int) == Some((s, i + enc_routes(s).len())),
    decreases s.len(),
{
    if s.len() == 0 {
    } else {
        let x = s[0];
        let rest = s.drop_first();
        codec::lemma_subrange_split(b, i, enc_route(x), enc_routes(rest));
        lemma_sp_route(b, i, x);
        lemma_sp_routes(b, i + enc_route(x).len(), rest);
        assert(seq![x] + rest =~= s);
    }
}

pub proof fn lemma_sp_route_list(b: Seq<u8>, i: int, s: Seq<Route>)
    requires
        0 <= i,
        s.len() <= u64::MAX,
        i + enc_route_list(s).len() <= b.len(),
        b.subrange(i, i + enc_route_list(s).len() as int) == enc_route_list(s),
    ensures
        sp_route_list(b, i) == Some((s, i + enc_route_list(s).len())),
{
    codec::lemma_subrange_split(b, i, codec::enc_u64(s.len() as u64), enc_routes(s));
    codec::lemma_sp_u64(b, i, s.len() as u64);
    lemma_sp_routes(b, i + 8, s);
}

pub proof fn lemma_sp_opt_iface(b: Seq<u8>, i: int, o: Option<InterfaceV>)
    requires
        0 <= i,
        o matches Some(v) ==> wf_iface(v),
        i + enc_opt_iface(o).len() <= b.len(),
        b.subrange(i, i + enc_opt_iface(o).len() as int) == enc_opt_iface(o),
    ensures
        sp_opt_iface(b, i) == Some((o, i + enc_opt_iface(o).len())),
{
    match o {
        Option::None => {
            assert(b.subrange(i, i + 1)[0] == b[i]);
        },
        Option::Some(v) => {
            codec::lemma_subrange_split(b, i, seq![1u8], enc_iface(v));
            assert(b.subrange(i, i + 1)[0] == b[i]);
            lemma_sp_iface(b, i + 1, v);
        },
    }
}

pub proof fn lemma_sp_opt_ifaces(b: Seq<u8>, i: int, o: Option<Seq<InterfaceV>>)
    requires
        0 <= i,
        o matches Some(s) ==> s.len() <= u64::MAX && (forall|j: int|
            0 <= j < s.len() ==> wf_iface(#[trigger] s[j])),
        i + enc_opt_ifaces(o).len() <= b.len(),
        b.subrange(i, i + enc_opt_ifaces(o).len() as int) == enc_opt_ifaces(o),
    ensures
        sp_opt_ifaces(b, i) == Some((o, i + enc_opt_ifaces(o).len())),
{
    match o {
        Option::None => {
            assert(b.subrange(i, i + 1)[0] == b[i]);
        },
        Option::Some(v) => {
            codec::lemma_subrange_split(b, i, seq![1u8], enc_iface_list(v));
            assert(b.subrange(i, i + 1)[0] == b[i]);
            lemma_sp_iface_list(b, i + 1, v);
        },
    }
}

pub proof fn lemma_sp_opt_route(b: Seq<u8>, i: int, o: Option<Route>)
    requires
        0 <= i,
        i + enc_opt_route(o).len() <= b.len(),
        b.subrange(i, i + enc_opt_route(o).len() as int) == enc_opt_route(o),
    ensures
        sp_opt_route(b, i) == Some((o, i + enc_opt_route(o).len())),
{
    match o {
        Option::None => {
            assert(b.subrange(i, i + 1)[0] == b[i]);
        },
        Option::Some(v) => {
            codec::lemma_subrange_split(b, i, seq![1u8], enc_route(v));
            assert(b.subrange(i, i + 1)[0] == b[i]);
            lemma_sp_route(b, i + 1, v);
        },
    }
}

pub proof fn lemma_sp_opt_routes(b: Seq<u8>, i: int, o: Option<Seq<Route>>)
    requires
        0 <= i,
        o matches Some(s) ==> s.len() <= u64::MAX,
        i + enc_opt_routes(o).len() <= b.len(),
        b.subrange(i, i + enc_opt_routes(o).len() as int) == enc_opt_routes(o),
    ensures
        sp_opt_routes(b, i) == Some((o, i + enc_opt_routes(o).len())),
{
    match o {
        Option::None => {
            assert(b.subrange(i, i + 1)[0] == b[i]);
        },
        Option::Some(v) => {
            codec::lemma_subrange_split(b, i, seq![1u8], enc_route_list(v));
            assert(b.subrange(i, i + 1)[0] == b[i]);
            lemma_sp_route_list(b, i + 1, v);
        },
    }
}

/// Round-trip of the format: a well-formed snapshot value decodes from its
/// own encoding, to itself.
#[verifier::rlimit(100)]
pub proof fn lemma_encode_decode(v: NetworkStateV)
    requires
        wf_state(v),
    ensures
        sp_state(enc_state(v)) == Some(v),
{
    let b = enc_state(v);
    let e0 = seq![STATE_VERSION];
    let e1 = codec::enc_u64(v.captured_at);
    let e2 = enc_opt_iface(v.default_interface);
    let e3 = enc_opt_ifaces(v.all_interfaces);
    let e4 = enc_opt_route(v.default_route);
    let e5 = enc_opt_routes(v.all_routes);
    let e6 = enc_opt_addr(v.public_address);
    assert(b.subrange(0, b.len() as int) =~= b);
    codec::lemma_subrange_split(b, 0, e0 + e1 + e2 + e3 + e4 + e5, e6);
    codec::lemma_subrange_split(b, 0, e0 + e1 + e2 + e3 + e4, e5);
    codec::lemma_subrange_split(b, 0, e0 + e1 + e2 + e3, e4);
    codec::lemma_subrange_split(b, 0, e0 + e1 + e2, e3);
    codec::lemma_subrange_split(b, 0, e0 + e1, e2);
    codec::lemma_subrange_split(b, 0, e0, e1);
    assert(b.subrange(0, 1)[0] == b[0]);
    codec::lemma_sp_u64(b, 1, v.captured_at);
    lemma_sp_opt_iface(b, 1 + e1.len() as int, v.default_interface);
    lemma_sp_opt_ifaces(b, 1 + e1.len() + e2.len() as int, v.all_interfaces);
    lemma_sp_opt_route(b, 1 + e1.len() + e2.len() + e3.len() as int, v.default_route);
    lemma_sp_opt_routes(b, 1 + e1.len() + e2.len() + e3.len() + e4.len() as int, v.all_routes);
    lemma_sp_opt_addr(
        b,
        1 + e1.len() + e2.len() + e3.len() + e4.len() + e5.len() as int,
        v.public_address,
    );
}

// ------------------------------------------------------------------
// Executable encoder
// ------------------------------------------------------------------

fn emit_addr(out: &mut Vec<u8>, a: IpAddress)
    ensures
        final(out)@ == old(out)@ + enc_addr(a),
{
    match a {
        IpAddress::V4(x) => {
            codec::emit_u8(out, 4);
            codec::emit_u32(out, x);
        },
        IpAddress::V6(x) => {
            codec::emit_u8(out, 6);
            codec::emit_u128(out, x);
        },
    }
    proof {
        assert(out@ =~= old(out)@ + enc_addr(a));
    }
}

fn emit_opt_addr(out: &mut Vec<u8>, o: Option<IpAddress>)
    ensures
        final(out)@ == old(out)@ + enc_opt_addr(o),
{
    match o {
        None => {
            codec::emit_u8(out, 0);
        },
        Some(a) => {
            codec::emit_u8(out, 1);
            emit_addr(out, a);
        },
    }
    proof {
        assert(out@ =~= old(out)@ + enc_opt_addr(o));
    }
}

fn emit_opt_u32(out: &mut Vec<u8>, o: Option<u32>)
    ensures
        final(out)@ == old(out)@ + enc_opt_u32(o),
{
    match o {
        None => {
            codec::emit_u8(out, 0);
        },
        Some(x) => {
            codec::emit_u8(out, 1);
            codec::emit_u32(out, x);
        },
    }
    proof {
        assert(out@ =~= old(out)@ + enc_opt_u32(o));
    }
}

fn emit_opt_u64(out: &mut Vec<u8>, o: Option<u64>)
    ensures
        final(out)@ == old(out)@ + enc_opt_u64(o),
{
    match o {
        None => {
            codec::emit_u8(out, 0);
        },
        Some(x) => {
            codec::emit_u8(out, 1);
            codec::emit_u64(out, x);
        },
    }
    proof {
        assert(out@ =~= old(out)@ + enc_opt_u64(o));
    }
}

fn emit_route(out: &mut Vec<u8>, r: &Route)
    ensures
        final(out)@ == old(out)@ + enc_route(*r),
{
    emit_addr(out, r.destination);
    codec::emit_u8(out, r.prefix);
    emit_opt_addr(out, r.gateway);
    emit_opt_u32(out, r.ifindex);
    proof {
        assert(out@ =~= old(out)@ + enc_route(*r));
    }
}

/// Appending an address extends the address encoding at the end.
proof fn lemma_enc_addrs_push(s: Seq<IpAddress>, a: IpAddress)
    ensures
        enc_addrs(s.push(a)) == enc_addrs(s) + enc_addr(a),
    decreases s.len(),
{
    if s.len() == 0 {
        assert(s.push(a).len() == 1);
        assert(s.push(a)[0] == a);
        assert(s.push(a).drop_first() =~= Seq::<IpAddress>::empty());
        assert(enc_addrs(s.push(a)) == enc_addr(a) + enc_addrs(Seq::<IpAddress>::empty()));
        assert(enc_addrs(s.push(a)) =~= enc_addrs(s) + enc_addr(a));
    } else {
        let t = s.drop_first();
        assert(s.push(a)[0] == s[0]);
        assert(s.push(a).drop_first() =~= t.push(a));
        lemma_enc_addrs_push(t, a);
        assert(enc_addrs(s.push(a)) == enc_addr(s[0]) + enc_addrs(t.push(a)));
        assert(enc_addrs(s.push(a)) =~= enc_addrs(s) + enc_addr(a));
    }
}

/// Appending an interface extends the interface encoding at the end.
proof fn lemma_enc_ifaces_push(s: Seq<InterfaceV>, x: InterfaceV)
    ensures
        enc_ifaces(s.push(x)) == enc_ifaces(s) + enc_iface(x),
    decreases s.len(),
{
    if s.len() == 0 {
        assert(s.push(x).len() == 1);
        assert(s.push(x)[0] == x);
        assert(s.push(x).drop_first() =~= Seq::<InterfaceV>::empty());
        assert(enc_ifaces(s.push(x)) == enc_iface(x) + enc_ifaces(Seq::<InterfaceV>::empty()));
        assert(enc_ifaces(s.push(x)) =~= enc_ifaces(s) + enc_iface(x));
    } else {
        let t = s.drop_first();
        assert(s.push(x)[0] == s[0]);
        assert(s.push(x).drop_first() =~= t.push(x));
        lemma_enc_ifaces_push(t, x);
        assert(enc_ifaces(s.push(x)) == enc_iface(s[0]) + enc_ifaces(t.push(x)));
        assert(enc_ifaces(s.push(x)) =~= enc_ifaces(s) + enc_iface(x));
    }
}

/// Appending a route extends the route encoding at the end.
proof fn lemma_enc_routes_push(s: Seq<Route>, x: Route)
    ensures
        enc_routes(s.push(x)) == enc_routes(s) + enc_route(x),
    decreases s.len(),
{
    if s.len() == 0 {
        assert(s.push(x).len() == 1);
        assert(s.push(x)[0] == x);
        assert(s.push(x).drop_first() =~= Seq::<Route>::empty());
        assert(enc_routes(s.push(x)) == enc_route(x) + enc_routes(Seq::<Route>::empty()));
        assert(enc_routes(s.push(x)) =~= enc_routes(s) + enc_route(x));
    } else {
        let t = s.drop_first();
        assert(s.push(x)[0] == s[0]);
        assert(s.push(x).drop_first() =~= t.push(x));
        lemma_enc_routes_push(t, x);
        assert(enc_routes(s.push(x)) == enc_route(s[0]) + enc_routes(t.push(x)));
        assert(enc_routes(s.push(x)) =~= enc_routes(s) + enc_route(x));
    }
}

fn emit_addr_list(out: &mut Vec<u8>, v: &Vec<IpAddress>)
    ensures
        final(out)@ == old(out)@ + enc_addr_list(v@),
        v@.len() <= u64::MAX,
{
    codec::emit_u64(out, v.len() as u64);
    let mut i: usize = 0;
    while i < v.len()
        invariant
            i <= v.len(),
            out@ == old(out)@ + codec::enc_u64(v@.len() as u64) + enc_addrs(v@.take(i as int)),
        decreases v.len() - i,
    {
        emit_addr(out, v[i]);
        proof {
            lemma_enc_addrs_push(v@.take(i as int), v@[i as int]);
            assert(v@.take(i as int).push(v@[i as int]) =~= v@.take(i as int + 1));
            assert(out@ =~= old(out)@ + codec::enc_u64(v@.len() as u64) + enc_addrs(
                v@.take(i as int + 1),
            ));
        }
        i = i + 1;
    }
    proof {
        assert(v@.take(v@.len() as int) =~= v@);
        assert(out@ =~= old(out)@ + enc_addr_list(v@));
    }
}

fn emit_iface(out: &mut Vec<u8>, x: &Interface)
    ensures
        final(out)@ == old(out)@ + enc_iface(x@),
        wf_iface(x@),
{
    codec::emit_str(out, &x.name);
    codec::emit_u32(out, x.index);
    codec::emit_u32(out, x.flags);
    emit_addr_list(out, &x.addresses);
    emit_opt_u64(out, x.mac);
    emit_opt_u32(out, x.mtu);
    proof {
        assert(out@ =~= old(out)@ + enc_iface(x@));
    }
}

fn emit_iface_list(out: &mut Vec<u8>, v: &Vec<Interface>)
    ensures
        final(out)@ == old(out)@ + enc_iface_list(seq_views(v@)),
        seq_views(v@).len() <= u64::MAX,
        forall|j: int| 0 <= j < v@.len() ==> wf_iface(#[trigger] seq_views(v@)[j]),
{
    codec::emit_u64(out, v.len() as u64);
    let ghost vs = seq_views(v@);
    let mut i: usize = 0;
    while i < v.len()
        invariant
            i <= v.len(),
            vs == seq_views(v@),
            out@ == old(out)@ + codec::enc_u64(vs.len() as u64) + enc_ifaces(vs.take(i as int)),
            forall|j: int| 0 <= j < i ==> wf_iface(#[trigger] vs[j]),
        decreases v.len() - i,
    {
        emit_iface(out, &v[i]);
        proof {
            assert(vs[i as int] == v@[i as int]@);
            lemma_enc_ifaces_push(vs.take(i as int), vs[i as int]);
            assert(vs.take(i as int).push(vs[i as int]) =~= vs.take(i as int + 1));
            assert(out@ =~= old(out)@ + codec::enc_u64(vs.len() as u64) + enc_ifaces(
                vs.take(i as int + 1),
            ));
        }
        i = i + 1;
    }
    proof {
        assert(vs.take(vs.len() as int) =~= vs);
        assert(out@ =~= old(out)@ + enc_iface_list(vs));
    }
}

fn emit_route_list(out: &mut Vec<u8>, v: &Vec<Route>)
    ensures
        final(out)@ == old(out)@ + enc_route_list(v@),
        v@.len() <= u64::MAX,
{
    codec::emit_u64(out, v.len() as u64);
    let mut i: usize = 0;
    while i < v.len()
        invariant
            i <= v.len(),
            out@ == old(out)@ + codec::enc_u64(v@.len() as u64) + enc_routes(v@.take(i as int)),
        decreases v.len() - i,
    {
        emit_route(out, &v[i]);
        proof {
            lemma_enc_routes_push(v@.take(i as int), v@[i as int]);
            assert(v@.take(i as int).push(v@[i as int]) =~= v@.take(i as int + 1));
            assert(out@ =~= old(out)@ + codec::enc_u64(v@.len() as u64) + enc_routes(
                v@.take(i as int + 1),
            ));
        }
        i = i + 1;
    }
    proof {
        assert(v@.take(v@.len() as int) =~= v@);
        assert(out@ =~= old(out)@ + enc_route_list(v@));
    }
}

fn emit_opt_iface(out: &mut Vec<u8>, o: &Option<Interface>)
    ensures
        final(out)@ == old(out)@ + enc_opt_iface(match o {
            Some(x) => Some(x@),
            None => None::<InterfaceV>,
        }),
        (match o {
            Some(x) => wf_iface(x@),
            None => true,
        }),
{
    match o {
        None => codec::emit_u8(out, 0),
        Some(x) => {
            codec::emit_u8(out, 1);
            emit_iface(out, x);
        },
    }
    proof {
        assert(out@ =~= old(out)@ + enc_opt_iface(match o {
            Some(x) => Some(x@),
            None => None::<InterfaceV>,
        }));
    }
}

fn emit_opt_ifaces(out: &mut Vec<u8>, o: &Option<Interfaces>)
    ensures
        final(out)@ == old(out)@ + enc_opt_ifaces(match o {
            Some(x) => Some(x@),
            None => None::<Seq<InterfaceV>>,
        }),
        (match o {
            Some(x) => x@.len() <= u64::MAX && unique_names(x@) && (forall|j: int|
                0 <= j < x@.len() ==> wf_iface(#[trigger] x@[j])),
            None => true,
        }),
{
    match o {
        None => codec::emit_u8(out, 0),
        Some(x) => {
            proof {
                use_type_invariant(x);
            }
            codec::emit_u8(out, 1);
            emit_iface_list(out, &x.0);
        },
    }
    proof {
        assert(out@ =~= old(out)@ + enc_opt_ifaces(match o {
            Some(x) => Some(x@),
            None => None::<Seq<InterfaceV>>,
        }));
    }
}

fn emit_opt_route(out: &mut Vec<u8>, o: &Option<Route>)
    ensures
        final(out)@ == old(out)@ + enc_opt_route(*o),
{
    match o {
        None => codec::emit_u8(out, 0),
        Some(x) => {
            codec::emit_u8(out, 1);
            emit_route(out, x);
        },
    }
    proof {
        assert(out@ =~= old(out)@ + enc_opt_route(*o));
    }
}

fn emit_opt_routes(out: &mut Vec<u8>, o: &Option<Vec<Route>>)
    ensures
        final(out)@ == old(out)@ + enc_opt_routes(match o {
            Some(x) => Some(x@),
            None => None::<Seq<Route>>,
        }),
        (match o {
            Some(x) => x@.len() <= u64::MAX,
            None => true,
        }),
{
    match o {
        None => codec::emit_u8(out, 0),
        Some(x) => {
            codec::emit_u8(out, 1);
            emit_route_list(out, x);
        },
    }
    proof {
        assert(out@ =~= old(out)@ + enc_opt_routes(match o {
            Some(x) => Some(x@),
            None => None::<Seq<Route>>,
        }));
    }
}

fn emit_present_addr(out: &mut Vec<u8>, o: &Option<IpAddress>)
    ensures
        final(out)@ == old(out)@ + enc_opt_addr(*o),
{
    match o {
        None => codec::emit_u8(out, 0),
        Some(x) => {
            codec::emit_u8(out, 1);
            emit_addr(out, *x);
        },
    }
    proof {
        assert(out@ =~= old(out)@ + enc_opt_addr(*o));
    }
}

/// Emits the whole snapshot encoding.
#[verifier::rlimit(100)]
fn emit_state(out: &mut Vec<u8>, st: &NetworkState)
    ensures
        final(out)@ == old(out)@ + enc_state(st@),
        wf_state(st@),
{
    codec::emit_u8(out, STATE_VERSION);
    codec::emit_u64(out, st.captured_at);
    emit_opt_iface(out, &st.default_interface);
    emit_opt_ifaces(out, &st.all_interfaces);
    emit_opt_route(out, &st.default_route);
    emit_opt_routes(out, &st.all_routes);
    emit_present_addr(out, &st.public_address);
    proof {
        assert(out@ =~= old(out)@ + enc_state(st@));
    }
}

impl NetworkState {
    /// Serializes the snapshot to the canonical self-describing byte format,
    /// every field included, absent ones as an explicit marker.
    ///
    /// Encoding cannot fail; the `Result` mirrors the persistence interface,
    /// whose decoding side does fail on foreign input.
    pub fn encode(&self) -> (r: Result<Vec<u8>, Error>)
        ensures
            r matches Ok(bytes) && bytes@ == enc_state(self@),
            wf_state(self@),
            sp_state(enc_state(self@)) == Some(self@),
    {
        let mut out: Vec<u8> = Vec::new();
        emit_state(&mut out, self);
        proof {
            assert(out@ =~= enc_state(self@));
            lemma_encode_decode(self@);
        }
        Ok(out)
    }
}

// ------------------------------------------------------------------
// Executable parser
// ------------------------------------------------------------------

fn read_addr(b: &Vec<u8>, pos: usize) -> (r: Option<(IpAddress, usize)>)
    ensures
        codec::matches_sp(r, sp_addr(b@, pos as int)),
{
    match codec::read_u8(b, pos) {
        Some((4u8, j)) => match codec::read_u32(b, j) {
            Some((x, k)) => Some((IpAddress::V4(x), k)),
            None => None,
        },
        Some((6u8, j)) => match codec::read_u128(b, j) {
            Some((x, k)) => Some((IpAddress::V6(x), k)),
            None => None,
        },
        _ => None,
    }
}

fn read_opt_addr(b: &Vec<u8>, pos: usize) -> (r: Option<(Option<IpAddress>, usize)>)
    ensures
        codec::matches_sp(r, sp_opt_addr(b@, pos as int)),
{
    match codec::read_u8(b, pos) {
        Some((0u8, j)) => Some((None, j)),
        Some((1u8, j)) => match read_addr(b, j) {
            Some((a, k)) => Some((Some(a), k)),
            None => None,
        },
        _ => None,
    }
}

fn read_opt_u32(b: &Vec<u8>, pos: usize) -> (r: Option<(Option<u32>, usize)>)
    ensures
        codec::matches_sp(r, sp_opt_u32(b@, pos as int)),
{
    match codec::read_u8(b, pos) {
        Some((0u8, j)) => Some((None, j)),
        Some((1u8, j)) => match codec::read_u32(b, j) {
            Some((x, k)) => Some((Some(x), k)),
            None => None,
        },
        _ => None,
    }
}

fn read_opt_u64(b: &Vec<u8>, pos: usize) -> (r: Option<(Option<u64>, usize)>)
    ensures
        codec::matches_sp(r, sp_opt_u64(b@, pos as int)),
{
    match codec::read_u8(b, pos) {
        Some((0u8, j)) => Some((None, j)),
        Some((1u8, j)) => match codec::read_u64(b, j) {
            Some((x, k)) => Some((Some(x), k)),
            None => None,
        },
        _ => None,
    }
}

fn read_route(b: &Vec<u8>, pos: usize) -> (r: Option<(Route, usize)>)
    ensures
        codec::matches_sp(r, sp_route(b@, pos as int)),
{
    let (destination, j1) = match read_addr(b, pos) {
        Some(x) => x,
        None => {
            return None;
        },
    };
    let (prefix, j2) = match codec::read_u8(b, j1) {
        Some(x) => x,
        None => {
            return None;
        },
    };
    let (gateway, j3) = match read_opt_addr(b, j2) {
        Some(x) => x,
        None => {
            return None;
        },
    };
    let (ifindex, j4) = match read_opt_u32(b, j3) {
        Some(x) => x,
        None => {
            return None;
        },
    };
    Some((Route { destination, prefix, gateway, ifindex }, j4))
}

fn read_addrs(b: &Vec<u8>, pos: usize, n: u64) -> (r: Option<(Vec<IpAddress>, usize)>)
    ensures
        (match r {
            Some((v, p)) => sp_addrs(b@, pos as int, n as int) matches Some((w, q)) && v@ == w
                && p as int == q,
            None => sp_addrs(b@, pos as int, n as int) is None,
        }),
{
    let mut acc: Vec<IpAddress> = Vec::new();
    let mut k = pos;
    let mut cnt: u64 = 0;
    loop
        invariant
            cnt <= n,
            (match sp_addrs(b@, k as int, (n - cnt) as int) {
                Some((cs, e)) => sp_addrs(b@, pos as int, n as int) == Some((acc@ + cs, e)),
                None => sp_addrs(b@, pos as int, n as int) is None,
            }),
        decreases n - cnt,
    {
        if cnt == n {
            proof {
                assert(acc@ + Seq::<IpAddress>::empty() =~= acc@);
            }
            return Some((acc, k));
        }
        let (a, k2) = match read_addr(b, k) {
            Some(x) => x,
            None => {
                return None;
            },
        };
        let ghost prev = acc@;
        acc.push(a);
        proof {
            let m = (n - cnt) as int;
            let tail = sp_addrs(b@, k2 as int, m - 1);
            assert(sp_addrs(b@, k as int, m) == (match tail {
                Some((cs2, e)) => Some((seq![a] + cs2, e)),
                None => None::<(Seq<IpAddress>, int)>,
            }));
            if tail is Some {
                let cs2 = tail.unwrap().0;
                assert(prev + (seq![a] + cs2) =~= prev.push(a) + cs2);
            }
        }
        k = k2;
        cnt = cnt + 1;
    }
}

fn read_iface(b: &Vec<u8>, pos: usize) -> (r: Option<(Interface, usize)>)
    ensures
        (match r {
            Some((ifc, p)) => sp_iface(b@, pos as int) matches Some((v, q)) && ifc@ == v && p as int
                == q,
            None => sp_iface(b@, pos as int) is None,
        }),
{
    let (name, j1) = match codec::read_str(b, pos) {
        Some(x) => x,
        None => {
            return None;
        },
    };
    let (index, j2) = match codec::read_u32(b, j1) {
        Some(x) => x,
        None => {
            return None;
        },
    };
    let (flags, j3) = match codec::read_u32(b, j2) {
        Some(x) => x,
        None => {
            return None;
        },
    };
    let (n, j4) = match codec::read_u64(b, j3) {
        Some(x) => x,
        None => {
            return None;
        },
    };
    let (addresses, j5) = match read_addrs(b, j4, n) {
        Some(x) => x,
        None => {
            return None;
        },
    };
    let (mac, j6) = match read_opt_u64(b, j5) {
        Some(x) => x,
        None => {
            return None;
        },
    };
    let (mtu, j7) = match read_opt_u32(b, j6) {
        Some(x) => x,
        None => {
            return None;
        },
    };
    Some((Interface { name, index, flags, addresses, mac, mtu }, j7))
}

fn read_ifaces(b: &Vec<u8>, pos: usize, n: u64) -> (r: Option<(Vec<Interface>, usize)>)
    ensures
        (match r {
            Some((v, p)) => sp_ifaces(b@, pos as int, n as int) matches Some((w, q)) && seq_views(
                v@,
            ) == w && p as int == q,
            None => sp_ifaces(b@, pos as int, n as int) is None,
        }),
{
    let mut acc: Vec<Interface> = Vec::new();
    let mut k = pos;
    let mut cnt: u64 = 0;
    loop
        invariant
            cnt <= n,
            (match sp_ifaces(b@, k as int, (n - cnt) as int) {
                Some((cs, e)) => sp_ifaces(b@, pos as int, n as int) == Some(
                    (seq_views(acc@) + cs, e),
                ),
                None => sp_ifaces(b@, pos as int, n as int) is None,
            }),
        decreases n - cnt,
    {
        if cnt == n {
            proof {
                assert(seq_views(acc@) + Seq::<InterfaceV>::empty() =~= seq_views(acc@));
            }
            return Some((acc, k));
        }
        let (x, k2) = match read_iface(b, k) {
            Some(x) => x,
            None => {
                return None;
            },
        };
        let ghost prev = seq_views(acc@);
        let ghost xv = x@;
        acc.push(x);
        proof {
            assert(seq_views(acc@) =~= prev.push(xv));
            let m = (n - cnt) as int;
            let tail = sp_ifaces(b@, k2 as int, m - 1);
            assert(sp_ifaces(b@, k as int, m) == (match tail {
                Some((cs2, e)) => Some((seq![xv] + cs2, e)),
                None => None::<(Seq<InterfaceV>, int)>,
            }));
            if tail is Some {
                let cs2 = tail.unwrap().0;
                assert(prev + (seq![xv] + cs2) =~= prev.push(xv) + cs2);
            }
        }
        k = k2;
        cnt = cnt + 1;
    }
}

fn read_routes(b: &Vec<u8>, pos: usize, n: u64) -> (r: Option<(Vec<Route>, usize)>)
    ensures
        (match r {
            Some((v, p)) => sp_routes(b@, pos as int, n as int) matches Some((w, q)) && v@ == w
                && p as int == q,
            None => sp_routes(b@, pos as int, n as int) is None,
        }),
{
    let mut acc: Vec<Route> = Vec::new();
    let mut k = pos;
    let mut cnt: u64 = 0;
    loop
        invariant
            cnt <= n,
            (match sp_routes(b@, k as int, (n - cnt) as int) {
                Some((cs, e)) => sp_routes(b@, pos as int, n as int) == Some((acc@ + cs, e)),
                None => sp_routes(b@, pos as int, n as int) is None,
            }),
        decreases n - cnt,
    {
        if cnt == n {
            proof {
                assert(acc@ + Seq::<Route>::empty() =~= acc@);
            }
            return Some((acc, k));
        }
        let (x, k2) = match read_route(b, k) {
            Some(x) => x,
            None => {
                return None;
            },
        };
        let ghost prev = acc@;
        acc.push(x);
        proof {
            let m = (n - cnt) as int;
            let tail = sp_routes(b@, k2 as int, m - 1);
            assert(sp_routes(b@, k as int, m) == (match tail {
                Some((cs2, e)) => Some((seq![x] + cs2, e)),
                None => None::<(Seq<Route>, int)>,
            }));
            if tail is Some {
                let cs2 = tail.unwrap().0;
                assert(prev + (seq![x] + cs2) =~= prev.push(x) + cs2);
            }
        }
        k = k2;
        cnt = cnt + 1;
    }
}

impl NetworkState {
    /// The exact inverse of [`NetworkState::encode`]: parses the canonical
    /// byte format, consuming the whole input, and fails with
    /// `SerializationError` on anything malformed or of an incompatible
    /// schema.
    pub fn decode(data: Vec<u8>) -> (r: Result<NetworkState, Error>)
        ensures
            (match sp_state(data@) {
                Some(v) => r matches Ok(st) && st@ == v,
                None => r == Err::<NetworkState, Error>(Error::SerializationError),
            }),
    {
        let b = &data;
        let (version, j0) = match codec::read_u8(b, 0) {
            Some(x) => x,
            None => {
                return Err(Error::SerializationError);
            },
        };
        if version != STATE_VERSION {
            return Err(Error::SerializationError);
        }
        let (captured_at, j1) = match codec::read_u64(b, j0) {
            Some(x) => x,
            None => {
                return Err(Error::SerializationError);
            },
        };
        let (default_interface, j2) = match codec::read_u8(b, j1) {
            Some((0u8, j)) => (None, j),
            Some((1u8, j)) => match read_iface(b, j) {
                Some((x, k)) => (Some(x), k),
                None => {
                    return Err(Error::SerializationError);
                },
            },
            _ => {
                return Err(Error::SerializationError);
            },
        };
        let (all_ifaces_vec, j3) = match codec::read_u8(b, j2) {
            Some((0u8, j)) => (None, j),
            Some((1u8, j)) => match codec::read_u64(b, j) {
                Some((n, j_1)) => match read_ifaces(b, j_1, n) {
                    Some((x, k)) => (Some(x), k),
                    None => {
                        return Err(Error::SerializationError);
                    },
                },
                None => {
                    return Err(Error::SerializationError);
                },
            },
            _ => {
                return Err(Error::SerializationError);
            },
        };
        let (default_route, j4) = match codec::read_u8(b, j3) {
            Some((0u8, j)) => (None, j),
            Some((1u8, j)) => match read_route(b, j) {
                Some((x, k)) => (Some(x), k),
                None => {
                    return Err(Error::SerializationError);
                },
            },
            _ => {
                return Err(Error::SerializationError);
            },
        };
        let (all_routes, j5) = match codec::read_u8(b, j4) {
            Some((0u8, j)) => (None, j),
            Some((1u8, j)) => match codec::read_u64(b, j) {
                Some((n, j_1)) => match read_routes(b, j_1, n) {
                    Some((x, k)) => (Some(x), k),
                    None => {
                        return Err(Error::SerializationError);
                    },
                },
                None => {
                    return Err(Error::SerializationError);
                },
            },
            _ => {
                return Err(Error::SerializationError);
            },
        };
        let (public_address, j6) = match read_opt_addr(b, j5) {
            Some(x) => x,
            None => {
                return Err(Error::SerializationError);
            },
        };
        if j6 != data.len() {
            return Err(Error::SerializationError);
        }
        let all_interfaces = match all_ifaces_vec {
            None => None,
            Some(v) => {
                if !check_unique(&v) {
                    return Err(Error::SerializationError);
                }
                Some(Interfaces(v))
            },
        };
        Ok(
            NetworkState {
                captured_at,
                default_interface,
                all_interfaces,
                default_route,
                all_routes,
                public_address,
            },
        )
    }
}

// ------------------------------------------------------------------
// At-rest encryption of the encoded snapshot
// ------------------------------------------------------------------

/// Encrypts data with the given key; whatever container comes back is a
/// sane container that decrypts to the same data under the same key.
pub fn encrypt(key: &[u8], data: &[u8]) -> (r: Result<Vec<u8>, Error>)
    ensures
        r matches Ok(c) ==> crate::crypto::unwrap_of(key@, c@) == Some(data@),
        r matches Ok(c) ==> crate::crypto::sane_container(c@),
        r is Err ==> r == Err::<Vec<u8>, Error>(Error::EncryptionError),
{
    match crate::crypto::cocoon_wrap(key, data) {
        Ok(c) => Ok(c),
        Err(_) => Err(Error::EncryptionError),
    }
}

/// Decrypts a container with the given key; fails with `EncryptionError`
/// exactly when the container is insane, corrupted, or sealed under another
/// key. The claimed-length bound is checked here, before the outside opener
/// ever sees the container.
pub fn decrypt(key: &[u8], data: &[u8]) -> (r: Result<Vec<u8>, Error>)
    ensures
        !crate::crypto::sane_container(data@) ==> r == Err::<Vec<u8>, Error>(
            Error::EncryptionError,
        ),
        crate::crypto::sane_container(data@) ==> (match crate::crypto::unwrap_of(key@, data@) {
            Some(p) => r matches Ok(q) && q@ == p,
            None => r == Err::<Vec<u8>, Error>(Error::EncryptionError),
        }),
{
    if data.len() >= 60 {
        match codec::read_u64_at(data, 36) {
            Some((claimed, _)) => {
                if claimed > (data.len() - 60) as u64 {
                    return Err(Error::EncryptionError);
                }
            },
            None => {
                return Err(Error::EncryptionError);
            },
        }
    }
    match crate::crypto::cocoon_unwrap(key, data) {
        Ok(q) => Ok(q),
        Err(_) => Err(Error::EncryptionError),
    }
}

/// The snapshot value that sealed bytes open to under a key: decrypt, then
/// decode. An insane container opens to nothing: it is rejected before
/// decryption.
pub open spec fn open_spec(key: Seq<u8>, data: Seq<u8>) -> Option<NetworkStateV> {
    if crate::crypto::sane_container(data) {
        match crate::crypto::unwrap_of(key, data) {
            Some(p) => sp_state(p),
            None => None,
        }
    } else {
        None
    }
}

impl NetworkState {
    /// Encodes the snapshot and encrypts it with the given key, yielding the
    /// bytes to be written to durable storage.
    pub fn seal(&self, key: &[u8]) -> (r: Result<Vec<u8>, Error>)
        ensures
            r matches Ok(c) ==> open_spec(key@, c@) == Some(self@),
            r is Err ==> r == Err::<Vec<u8>, Error>(Error::EncryptionError),
    {
        let encoded = match self.encode() {
            Ok(e) => e,
            Err(_) => {
                return Err(Error::EncryptionError);
            },
        };
        encrypt(key, encoded.as_slice())
    }

    /// The inverse of [`NetworkState::seal`]: decrypts the stored bytes with
    /// the given key and decodes the snapshot. A wrong key or corrupted data
    /// fails with `EncryptionError`; a malformed or incompatible payload
    /// fails with `SerializationError`.
    pub fn open(key: &[u8], data: &[u8]) -> (r: Result<NetworkState, Error>)
        ensures
            (match open_spec(key@, data@) {
                Some(v) => r matches Ok(st) && st@ == v,
                None => r is Err,
            }),
            !crate::crypto::sane_container(data@) ==> r == Err::<NetworkState, Error>(
                Error::EncryptionError,
            ),
            (crate::crypto::sane_container(data@) && crate::crypto::unwrap_of(key@, data@)
                is None) ==> r == Err::<NetworkState, Error>(Error::EncryptionError),
            crate::crypto::sane_container(data@) ==> (match crate::crypto::unwrap_of(
                key@,
                data@,
            ) {
                Some(p) => sp_state(p) is None ==> r == Err::<NetworkState, Error>(
                    Error::SerializationError,
                ),
                None => true,
            }),
    {
        let plain = match decrypt(key, data) {
            Ok(p) => p,
            Err(e) => {
                return Err(e);
            },
        };
        NetworkState::decode(plain)
    }
}

/// Round-trip through sealing: a sane container that decrypts to the
/// encoding of a well-formed snapshot value opens to exactly that value.
/// Together with the contract of [`encrypt`], whatever
/// [`NetworkState::seal`] produces opens, under the same key, to the sealed
/// snapshot.
pub proof fn lemma_sealed_round_trip(key: Seq<u8>, c: Seq<u8>, v: NetworkStateV)
    requires
        wf_state(v),
        crate::crypto::sane_container(c),
        crate::crypto::unwrap_of(key, c) == Some(enc_state(v)),
    ensures
        open_spec(key, c) == Some(v),
{
    lemma_encode_decode(v);
}

// ------------------------------------------------------------------
// Copying
// ------------------------------------------------------------------

/// Copies a route table.
fn clone_routes(v: &Vec<Route>) -> (r: Vec<Route>)
    ensures
        r@ == v@,
{
    let mut r: Vec<Route> = Vec::new();
    let mut i: usize = 0;
    while i < v.len()
        invariant
            i <= v.len(),
            r@ == v@.take(i as int),
        decreases v.len() - i,
    {
        r.push(v[i]);
        proof {
            assert(r@ =~= v@.take(i as int + 1));
        }
        i = i + 1;
    }
    proof {
        assert(v@.take(v@.len() as int) =~= v@);
    }
    r
}

impl Clone for NetworkState {
    /// The copy holds the same value.
    fn clone(&self) -> (r: Self)
        ensures
            r@ == self@,
    {
        NetworkState {
            captured_at: self.captured_at,
            default_interface: match &self.default_interface {
                None => None,
                Some(x) => Some(x.clone()),
            },
            all_interfaces: match &self.all_interfaces {
                None => None,
                Some(x) => Some(x.clone()),
            },
            default_route: self.default_route,
            all_routes: match &self.all_routes {
                None => None,
                Some(x) => Some(clone_routes(x)),
            },
            public_address: self.public_address,
        }
    }
}

} // verus!
