use network_changed::network_state::NetworkState;
use network_changed::observer_config::ObserverConfig;
use network_changed::{ChangeHandler, NetworkChange, NetworkObserver};

struct CountingHandler {
    calls: usize,
    last_change: Option<NetworkChange>,
}

impl ChangeHandler for CountingHandler {
    fn on_change(&mut self, change: &NetworkChange, _old: &NetworkState, _new: &NetworkState) {
        self.calls += 1;
        self.last_change = Some(*change);
    }
}

#[test]
fn config() {
    let config_new = ObserverConfig::new(360, true, true, true);
    let config_set = ObserverConfig::default()
        .set_expire_time(360)
        .enable_observe_public_address(true)
        .enable_observe_all_interfaces(true)
        .enable_persist(true);
    assert_eq!(config_new, config_set);
}

#[test]
fn it_works() {
    let config = ObserverConfig::default();
    let baseline = NetworkState::new(1_700_000_000, None);
    let mut observer = NetworkObserver::new(config, None, baseline);
    let current = NetworkState::new(1_700_000_001, None);
    assert_eq!(observer.state_change(current), NetworkChange::Expired);
}

#[test]
fn fresh_observer_expires_then_settles() {
    let config = ObserverConfig::default();
    let baseline = NetworkState::new(1_700_000_000, None);
    let mut observer = NetworkObserver::new(config, None, baseline);
    let first = NetworkState::new(1_700_000_001, None);
    assert_eq!(observer.state_change(first), NetworkChange::Expired);
    let second = NetworkState::new(1_700_000_002, None);
    assert_eq!(observer.state_change(second), NetworkChange::NoChange);
}

#[test]
fn no_op_is_idempotent() {
    let config = ObserverConfig::default();
    let baseline = NetworkState::new(1_700_000_000, None);
    let mut observer = NetworkObserver::new(config, None, baseline);
    let first = NetworkState::new(1_700_000_001, None);
    assert_eq!(observer.state_change(first), NetworkChange::Expired);
    let second = NetworkState::new(1_700_000_002, None);
    assert_eq!(observer.state_change(second), NetworkChange::NoChange);
    let third = NetworkState::new(1_700_000_003, None);
    assert_eq!(observer.state_change(third), NetworkChange::NoChange);
}

#[test]
fn persisted_prior_state_is_kept() {
    let config = ObserverConfig::new(3600, true, false, false);
    let prior = NetworkState::new(1_700_000_000, None);
    let baseline = NetworkState::new(1_700_000_050, None);
    let observer = NetworkObserver::new(config, Some(prior.clone()), baseline);
    assert_eq!(observer.last_state(), &prior);
}

#[test]
fn unpersisted_prior_state_is_ignored() {
    let config = ObserverConfig::new(3600, false, false, false);
    let prior = NetworkState::new(1_700_000_000, None);
    let baseline = NetworkState::new(1_700_000_050, None);
    let observer = NetworkObserver::new(config, Some(prior), baseline);
    assert_eq!(observer.last_state().captured_at, 1_700_000_050 - 3600);
}

#[test]
fn state_did_change_reports_boolean() {
    let config = ObserverConfig::default();
    let baseline = NetworkState::new(1_700_000_000, None);
    let mut observer = NetworkObserver::new(config, None, baseline);
    assert!(observer.state_did_change(NetworkState::new(1_700_000_001, None)));
    assert!(!observer.state_did_change(NetworkState::new(1_700_000_002, None)));
}

#[test]
fn handler_sees_each_change_once() {
    let config = ObserverConfig::default();
    let baseline = NetworkState::new(1_700_000_000, None);
    let mut observer = NetworkObserver::new(config, None, baseline);
    let mut handler = CountingHandler { calls: 0, last_change: None };
    let first = NetworkState::new(1_700_000_001, None);
    assert_eq!(observer.state_change_notify(first, &mut handler), NetworkChange::Expired);
    assert_eq!(handler.calls, 1);
    assert_eq!(handler.last_change, Some(NetworkChange::Expired));
    let second = NetworkState::new(1_700_000_002, None);
    assert_eq!(observer.state_change_notify(second, &mut handler), NetworkChange::NoChange);
    assert_eq!(handler.calls, 1);
}
