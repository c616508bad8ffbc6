//! Detects changes in a host's network configuration by comparing successive
//! snapshots of observable network state.
//!
//! The library owns the snapshot data model, the priority-ordered change
//! classification, the interface-set diffing, and the persistence byte format
//! (encode, then optionally encrypt). Acquiring a snapshot from the operating
//! system and reading or writing the state file are left to the embedding
//! program, which hands the resulting plain values to this crate.

use vstd::prelude::*;

pub mod addr;
pub mod codec;
pub mod crypto;
pub mod error;
pub mod network_interfaces;
pub mod network_state;
pub mod observer_config;
pub mod routes;

verus! {

/// The kind of change detected between two snapshots, ordered by priority.
/// One comparison reports exactly one kind: the first matching condition wins.
/// `NoChange` means that no observable change occurred.
#[derive(Clone, Copy, PartialEq, Eq, Structural, Debug)]
pub enum NetworkChange {
    NoChange,
    Expired,
    DefaultInterface,
    SecondaryInterface,
    DefaultRoute,
    RoutingTable,
    PublicAddress,
}

} // verus!

pub use network_interfaces::{Interface, Interfaces, InterfacesDiff};
pub use network_state::NetworkState;
pub use observer_config::ObserverConfig;

verus! {

/// An injected capability notified of every detected change, with the old
/// and the new snapshot. The observer neither catches nor suppresses
/// whatever the handler does.
pub trait ChangeHandler {
    fn on_change(
        &mut self,
        change: &NetworkChange,
        old_state: &NetworkState,
        new_state: &NetworkState,
    );
}

/// The baseline snapshot with its acquisition time set `expire` seconds into
/// the past (to zero when the clock is smaller), so that the next comparison
/// against a fresh snapshot reports `Expired`.
pub open spec fn backdated(baseline: network_state::NetworkStateV, expire: u64)
    -> network_state::NetworkStateV {
    network_state::NetworkStateV {
        captured_at: if baseline.captured_at >= expire {
            (baseline.captured_at - expire) as u64
        } else {
            0u64
        },
        ..baseline
    }
}

/// Owns the last recorded snapshot and the configuration; classifies each
/// freshly captured snapshot against the stored one and replaces it when a
/// change was detected.
///
/// Snapshot acquisition and the state file are the embedding program's work:
/// it hands a freshly captured snapshot to every call, and the snapshot
/// loaded from storage, if any, to the constructor.
pub struct NetworkObserver {
    config: ObserverConfig,
    last_state: NetworkState,
}

impl NetworkObserver {
    /// The configuration the observer was built with.
    pub closed spec fn cfg(&self) -> ObserverConfig {
        self.config
    }

    /// The value of the stored snapshot.
    pub closed spec fn last(&self) -> network_state::NetworkStateV {
        self.last_state@
    }

    /// Builds an observer around a first snapshot.
    ///
    /// When persistence is on and a prior snapshot was loaded, that snapshot
    /// is the starting state. Otherwise the freshly captured `baseline` is
    /// used with its timestamp artificially set `expire_time` seconds into
    /// the past, so that the very first classification deterministically
    /// reports `Expired`.
    pub fn new(config: ObserverConfig, prior: Option<NetworkState>, baseline: NetworkState) -> (r:
        Self)
        ensures
            r.cfg() == config,
            (match prior {
                Some(p) => {
                    if config.persist {
                        r.last() == p@
                    } else {
                        r.last() == backdated(baseline@, config.expire_time)
                    }
                },
                None => r.last() == backdated(baseline@, config.expire_time),
            }),
    {
        let last_state = if config.persist {
            match prior {
                Some(p) => p,
                None => Self::expire_baseline(baseline, config.expire_time),
            }
        } else {
            Self::expire_baseline(baseline, config.expire_time)
        };
        NetworkObserver { config, last_state }
    }

    /// Backdates a freshly captured baseline so that it counts as stale.
    fn expire_baseline(baseline: NetworkState, expire_time: u64) -> (r: NetworkState)
        ensures
            r@ == backdated(baseline@, expire_time),
    {
        let captured_at = if baseline.captured_at >= expire_time {
            baseline.captured_at - expire_time
        } else {
            0
        };
        NetworkState { captured_at, ..baseline }
    }

    /// The stored snapshot.
    pub fn last_state(&self) -> (r: &NetworkState)
        ensures
            r@ == self.last(),
    {
        &self.last_state
    }

    /// The configuration.
    pub fn config(&self) -> (r: ObserverConfig)
        ensures
            r == self.cfg(),
    {
        self.config
    }

    /// Classifies the freshly captured snapshot against the stored one;
    /// when any change was detected, the stored snapshot is replaced by the
    /// new one. The classification is returned either way.
    pub fn state_change(&mut self, current: NetworkState) -> (r: NetworkChange)
        ensures
            r == network_state::compare_spec(old(self).last(), current@, old(self).cfg()),
            final(self).cfg() == old(self).cfg(),
            r != NetworkChange::NoChange ==> final(self).last() == current@,
            r == NetworkChange::NoChange ==> final(self).last() == old(self).last(),
    {
        let r = self.last_state.compare(&current, &self.config);
        if !(r == NetworkChange::NoChange) {
            self.last_state = current;
        }
        r
    }

    /// Like [`Self::state_change`], but a detected change is first reported
    /// to the handler, with the stored and the new snapshot.
    pub fn state_change_notify<H: ChangeHandler>(&mut self, current: NetworkState, handler:
        &mut H) -> (r: NetworkChange)
        ensures
            r == network_state::compare_spec(old(self).last(), current@, old(self).cfg()),
            final(self).cfg() == old(self).cfg(),
            r != NetworkChange::NoChange ==> final(self).last() == current@,
            r == NetworkChange::NoChange ==> final(self).last() == old(self).last(),
    {
        let r = self.last_state.compare(&current, &self.config);
        if !(r == NetworkChange::NoChange) {
            handler.on_change(&r, &self.last_state, &current);
            self.last_state = current;
        }
        r
    }

    /// Whether the freshly captured snapshot differs observably from the
    /// stored one; the stored snapshot is updated as by
    /// [`Self::state_change`].
    pub fn state_did_change(&mut self, current: NetworkState) -> (r: bool)
        ensures
            r == (network_state::compare_spec(old(self).last(), current@, old(self).cfg())
                != NetworkChange::NoChange),
            final(self).cfg() == old(self).cfg(),
            r ==> final(self).last() == current@,
            !r ==> final(self).last() == old(self).last(),
    {
        let change = self.state_change(current);
        !(change == NetworkChange::NoChange)
    }
}

/// A fresh observer without a usable prior snapshot reports `Expired` on its
/// first classification: the baseline is backdated by the expiry threshold,
/// so any snapshot captured no earlier than the baseline is already stale.
/// The clock must be no smaller than the threshold for the backdating not to
/// saturate at zero.
pub proof fn lemma_fresh_observer_expired(
    baseline: network_state::NetworkStateV,
    current: network_state::NetworkStateV,
    config: ObserverConfig,
)
    requires
        config.expire_time <= baseline.captured_at,
        baseline.captured_at <= current.captured_at,
    ensures
        network_state::compare_spec(
            backdated(baseline, config.expire_time),
            current,
            config,
        ) == NetworkChange::Expired,
{
}

} // verus!
