use network_changed::addr::IpAddress;
use network_changed::network_interfaces::{Interface, Interfaces, InterfacesDiff};

fn interface(name: &str) -> Interface {
    Interface { name: name.to_string(), index: 0, flags: 0, addresses: vec![], mac: None, mtu: None }
}

fn interface_with_flag(name: &str, flag: u32) -> Interface {
    Interface { name: name.to_string(), index: 0, flags: flag, addresses: vec![], mac: None, mtu: None }
}

#[test]
fn diff_same() {
    let old = Interfaces::new(vec![interface("eth0")]);
    let new = Interfaces::new(vec![interface("eth0")]);

    let diff = Interfaces::diff(&old, &new);
    let expected_diff = InterfacesDiff {
        updated: Interfaces::new(vec![]),
        added: Interfaces::new(vec![]),
        removed: Interfaces::new(vec![]),
    };
    assert_eq!(diff, expected_diff);
}

#[test]
fn diff_updated() {
    let old = Interfaces::new(vec![interface("eth0")]);
    let new = Interfaces::new(vec![interface_with_flag("eth0", 1)]);
    let diff = Interfaces::diff(&old, &new);
    let expected_diff = InterfacesDiff {
        updated: Interfaces::new(vec![interface_with_flag("eth0", 1)]),
        added: Interfaces::new(vec![]),
        removed: Interfaces::new(vec![]),
    };
    assert_eq!(diff, expected_diff);
}

#[test]
fn diff_added() {
    let old = Interfaces::new(vec![interface("eth0")]);
    let new = Interfaces::new(vec![interface("eth0"), interface("eth1")]);
    let diff = Interfaces::diff(&old, &new);
    let expected_diff = InterfacesDiff {
        updated: Interfaces::new(vec![]),
        added: Interfaces::new(vec![interface("eth1")]),
        removed: Interfaces::new(vec![]),
    };
    assert_eq!(diff, expected_diff);
}

#[test]
fn diff_removed() {
    let old = Interfaces::new(vec![interface("eth0"), interface("eth1")]);
    let new = Interfaces::new(vec![interface("eth0")]);
    let diff = Interfaces::diff(&old, &new);
    let expected_diff = InterfacesDiff {
        updated: Interfaces::new(vec![]),
        added: Interfaces::new(vec![]),
        removed: Interfaces::new(vec![interface("eth1")]),
    };
    assert_eq!(diff, expected_diff);
}

#[test]
fn diff_changed() {
    let old = Interfaces::new(vec![interface("eth0"), interface("eth1")]);
    let new = Interfaces::new(vec![interface_with_flag("eth0", 1), interface("eth2")]);
    let diff = Interfaces::diff(&old, &new);
    let expected_diff = InterfacesDiff {
        updated: Interfaces::new(vec![interface_with_flag("eth0", 1)]),
        added: Interfaces::new(vec![interface("eth2")]),
        removed: Interfaces::new(vec![interface("eth1")]),
    };
    assert_eq!(diff, expected_diff);
}

#[test]
fn diff_updated_and_added() {
    let old = Interfaces::new(vec![interface("eth0")]);
    let new = Interfaces::new(vec![interface_with_flag("eth0", 1), interface("eth1")]);
    let diff = Interfaces::diff(&old, &new);
    let expected_diff = InterfacesDiff {
        updated: Interfaces::new(vec![interface_with_flag("eth0", 1)]),
        added: Interfaces::new(vec![interface("eth1")]),
        removed: Interfaces::new(vec![]),
    };
    assert_eq!(diff, expected_diff);
}

#[test]
fn new_last_write_wins() {
    let twice = Interfaces::new(vec![interface("eth0"), interface_with_flag("eth0", 7)]);
    let once = Interfaces::new(vec![interface_with_flag("eth0", 7)]);
    assert!(twice.same(&once));
    let other = Interfaces::new(vec![interface("eth0")]);
    assert!(!twice.same(&other));
}

#[test]
fn same_ignores_order() {
    let a = Interfaces::new(vec![interface("eth0"), interface("eth1")]);
    let b = Interfaces::new(vec![interface("eth1"), interface("eth0")]);
    assert!(a.same(&b));
}

#[test]
fn interface_addresses_compared() {
    let mut with_addr = interface("eth0");
    with_addr.addresses = vec![IpAddress::V4(0x0A000001)];
    let old = Interfaces::new(vec![interface("eth0")]);
    let new = Interfaces::new(vec![with_addr.clone()]);
    let diff = Interfaces::diff(&old, &new);
    let expected_diff = InterfacesDiff {
        updated: Interfaces::new(vec![with_addr]),
        added: Interfaces::new(vec![]),
        removed: Interfaces::new(vec![]),
    };
    assert_eq!(diff, expected_diff);
}

#[test]
fn diff_sees_mac_and_mtu_changes() {
    let mut with_mac = interface("eth0");
    with_mac.mac = Some(0x0A0B0C0D0E0F);
    let old = Interfaces::new(vec![interface("eth0")]);
    let new = Interfaces::new(vec![with_mac.clone()]);
    let diff = Interfaces::diff(&old, &new);
    let expected_diff = InterfacesDiff {
        updated: Interfaces::new(vec![with_mac]),
        added: Interfaces::new(vec![]),
        removed: Interfaces::new(vec![]),
    };
    assert_eq!(diff, expected_diff);

    let mut with_mtu = interface("eth0");
    with_mtu.mtu = Some(9000);
    let new2 = Interfaces::new(vec![with_mtu.clone()]);
    let diff2 = Interfaces::diff(&old, &new2);
    assert_eq!(diff2.updated, Interfaces::new(vec![with_mtu]));
}
