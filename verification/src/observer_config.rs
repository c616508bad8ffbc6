//! Configuration of the observer: which observations are collected, the
//! expiry threshold, and whether the last snapshot is persisted.

use vstd::prelude::*;

verus! {

/// The expiry threshold, in seconds, that a configuration starts with.
pub const DEFAULT_EXPIRE_TIME: u64 = 3600;

/// Selects which observations are collected, the expiry threshold in
/// seconds, and whether the last snapshot is persisted across restarts.
#[derive(Clone, Copy, PartialEq, Eq, Structural, Debug)]
pub struct ObserverConfig {
    /// Seconds after which a stored snapshot counts as stale.
    pub expire_time: u64,
    /// Whether the last snapshot is persisted across process restarts.
    pub persist: bool,
    /// Whether the full interface set is observed.
    pub observe_all_interfaces: bool,
    /// Whether the default route is observed.
    pub observe_default_route: bool,
    /// Whether the full routing table is observed.
    pub observe_all_routes: bool,
    /// Whether the externally visible public address is observed.
    pub observe_public_address: bool,
}

impl Default for ObserverConfig {
    /// Expiry of [`DEFAULT_EXPIRE_TIME`] seconds, nothing persisted, and only
    /// the baseline default-interface observation enabled.
    fn default() -> (r: Self)
        ensures
            r == (ObserverConfig {
                expire_time: DEFAULT_EXPIRE_TIME,
                persist: false,
                observe_all_interfaces: false,
                observe_default_route: false,
                observe_all_routes: false,
                observe_public_address: false,
            }),
    {
        Self {
            expire_time: DEFAULT_EXPIRE_TIME,
            persist: false,
            observe_all_interfaces: false,
            observe_default_route: false,
            observe_all_routes: false,
            observe_public_address: false,
        }
    }
}

impl ObserverConfig {
    /// A configuration with the given expiry, persistence, interface-set and
    /// public-address observations; route observations start disabled.
    pub fn new(
        expire_time: u64,
        persist: bool,
        observe_all_interfaces: bool,
        observe_public_address: bool,
    ) -> (r: Self)
        ensures
            r == (ObserverConfig {
                expire_time,
                persist,
                observe_all_interfaces,
                observe_default_route: false,
                observe_all_routes: false,
                observe_public_address,
            }),
    {
        Self {
            expire_time,
            persist,
            observe_all_interfaces,
            observe_default_route: false,
            observe_all_routes: false,
            observe_public_address,
        }
    }

    /// Sets whether the public address is observed.
    pub fn enable_observe_public_address(self, observe_public_address: bool) -> (r: Self)
        ensures
            r == (ObserverConfig { observe_public_address, ..self }),
    {
        Self { observe_public_address, ..self }
    }

    /// Sets whether the full interface set is observed.
    pub fn enable_observe_all_interfaces(self, observe_all_interfaces: bool) -> (r: Self)
        ensures
            r == (ObserverConfig { observe_all_interfaces, ..self }),
    {
        Self { observe_all_interfaces, ..self }
    }

    /// Sets whether the default route is observed.
    pub fn enable_observe_default_route(self, observe_default_route: bool) -> (r: Self)
        ensures
            r == (ObserverConfig { observe_default_route, ..self }),
    {
        Self { observe_default_route, ..self }
    }

    /// Sets whether the full routing table is observed.
    pub fn enable_observe_all_routes(self, observe_all_routes: bool) -> (r: Self)
        ensures
            r == (ObserverConfig { observe_all_routes, ..self }),
    {
        Self { observe_all_routes, ..self }
    }

    /// Sets whether the last snapshot is persisted.
    pub fn enable_persist(self, persist: bool) -> (r: Self)
        ensures
            r == (ObserverConfig { persist, ..self }),
    {
        Self { persist, ..self }
    }

    /// Sets the expiry threshold, in seconds.
    pub fn set_expire_time(self, expire_time: u64) -> (r: Self)
        ensures
            r == (ObserverConfig { expire_time, ..self }),
    {
        Self { expire_time, ..self }
    }
}

} // verus!
