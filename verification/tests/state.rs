use network_changed::addr::IpAddress;
use network_changed::error::Error;
use network_changed::network_interfaces::{Interface, Interfaces};
use network_changed::network_state::{decrypt, encrypt, NetworkState};
use network_changed::observer_config::ObserverConfig;
use network_changed::routes::Route;
use network_changed::NetworkChange;

fn sample_interface(name: &str, flags: u32) -> Interface {
    Interface {
        name: name.to_string(),
        index: 2,
        flags,
        addresses: vec![IpAddress::V4(0xC0A80101), IpAddress::V6(1)],
        mac: Some(0x001122334455),
        mtu: Some(1500),
    }
}

fn sample_state() -> NetworkState {
    NetworkState {
        captured_at: 1_700_000_000,
        default_interface: Some(sample_interface("wlan0", 69699)),
        all_interfaces: Some(Interfaces::new(vec![
            sample_interface("wlan0", 69699),
            sample_interface("lo", 73),
        ])),
        default_route: Some(Route::new(
            IpAddress::V4(0),
            0,
            Some(IpAddress::V4(0xC0A80101)),
            Some(2),
        )),
        all_routes: Some(vec![
            Route::new(IpAddress::V4(0), 0, Some(IpAddress::V4(0xC0A80101)), Some(2)),
            Route::new(IpAddress::V4(0xC0A80100), 24, None, Some(2)),
        ]),
        public_address: Some(IpAddress::V4(0x08080808)),
    }
}

#[test]
fn test_encode_decode() {
    let state = sample_state();
    let encoded = state.encode().unwrap();
    let decoded = NetworkState::decode(encoded).unwrap();
    assert_eq!(state, decoded);
}

#[test]
fn encode_decode_empty_fields() {
    let state = NetworkState::new(1, None);
    let encoded = state.encode().unwrap();
    let decoded = NetworkState::decode(encoded).unwrap();
    assert_eq!(state, decoded);
}

#[test]
fn encode_exact_bytes() {
    let state = NetworkState::new(1, None);
    let encoded = state.encode().unwrap();
    assert_eq!(encoded, vec![1u8, 0, 0, 0, 0, 0, 0, 0, 1, 0, 0, 0, 0, 0]);
}

#[test]
fn encode_decode_unicode_name() {
    let mut iface = sample_interface("wl\u{e1}n\u{3b2}", 1);
    iface.addresses = vec![];
    let state = NetworkState {
        captured_at: 7,
        default_interface: Some(iface),
        all_interfaces: None,
        default_route: None,
        all_routes: None,
        public_address: None,
    };
    let encoded = state.encode().unwrap();
    let decoded = NetworkState::decode(encoded).unwrap();
    assert_eq!(state, decoded);
}

#[test]
fn decode_garbage_fails() {
    assert_eq!(NetworkState::decode(vec![9, 9, 9]), Err(Error::SerializationError));
}

#[test]
fn decode_wrong_version_fails() {
    let state = NetworkState::new(1, None);
    let mut encoded = state.encode().unwrap();
    encoded[0] = 2;
    assert_eq!(NetworkState::decode(encoded), Err(Error::SerializationError));
}

#[test]
fn decode_trailing_bytes_fail() {
    let state = NetworkState::new(1, None);
    let mut encoded = state.encode().unwrap();
    encoded.push(0);
    assert_eq!(NetworkState::decode(encoded), Err(Error::SerializationError));
}

#[test]
fn test_encrypt_decrypt() {
    let key = b"test key";
    let data = b"hello world".to_vec();
    let encrypted = encrypt(key, &data).unwrap();
    let decrypted = decrypt(key, &encrypted).unwrap();
    assert_eq!(data, decrypted);
}

#[test]
fn decrypt_wrong_key_fails() {
    let data = b"hello world".to_vec();
    let encrypted = encrypt(b"one key", &data).unwrap();
    assert_eq!(decrypt(b"another key", &encrypted), Err(Error::EncryptionError));
}

#[test]
fn seal_open_round_trip() {
    let key = b"seal key";
    let state = sample_state();
    let sealed = state.seal(key).unwrap();
    let opened = NetworkState::open(key, &sealed).unwrap();
    assert_eq!(state, opened);
    assert_eq!(NetworkState::open(b"wrong key", &sealed), Err(Error::EncryptionError));
}

#[test]
fn compare_priority_default_interface_first() {
    let config = ObserverConfig::new(3600, false, false, true);
    let old = sample_state();
    let mut new = sample_state();
    new.captured_at = old.captured_at + 1;
    new.default_interface = Some(sample_interface("eth9", 1));
    new.public_address = Some(IpAddress::V4(0x01010101));
    assert_eq!(old.compare(&new, &config), NetworkChange::DefaultInterface);
}

#[test]
fn compare_expired_dominates() {
    let config = ObserverConfig::new(3600, false, true, true);
    let old = sample_state();
    let mut new = sample_state();
    new.captured_at = old.captured_at + 3600;
    new.default_interface = Some(sample_interface("eth9", 1));
    new.public_address = Some(IpAddress::V4(0x01010101));
    assert_eq!(old.compare(&new, &config), NetworkChange::Expired);
}

#[test]
fn compare_public_address_masked_when_disabled() {
    let config = ObserverConfig::new(3600, false, false, false);
    let old = sample_state();
    let mut new = sample_state();
    new.captured_at = old.captured_at + 1;
    new.public_address = Some(IpAddress::V4(0x01010101));
    assert_eq!(old.compare(&new, &config), NetworkChange::NoChange);
}

#[test]
fn compare_public_address_observed() {
    let config = ObserverConfig::new(3600, false, false, true);
    let old = sample_state();
    let mut new = sample_state();
    new.captured_at = old.captured_at + 1;
    new.public_address = Some(IpAddress::V4(0x01010101));
    assert_eq!(old.compare(&new, &config), NetworkChange::PublicAddress);
}

#[test]
fn compare_secondary_interface() {
    let config = ObserverConfig::new(3600, false, true, false);
    let old = sample_state();
    let mut new = sample_state();
    new.captured_at = old.captured_at + 1;
    new.all_interfaces = Some(Interfaces::new(vec![sample_interface("wlan0", 69699)]));
    assert_eq!(old.compare(&new, &config), NetworkChange::SecondaryInterface);
}

#[test]
fn compare_routes() {
    let config = ObserverConfig::default()
        .enable_observe_default_route(true)
        .enable_observe_all_routes(true);
    let old = sample_state();
    let mut new = sample_state();
    new.captured_at = old.captured_at + 1;
    new.default_route = Some(Route::new(IpAddress::V4(0), 0, Some(IpAddress::V4(2)), Some(3)));
    assert_eq!(old.compare(&new, &config), NetworkChange::DefaultRoute);
    let mut new2 = sample_state();
    new2.captured_at = old.captured_at + 1;
    new2.all_routes = Some(vec![]);
    assert_eq!(old.compare(&new2, &config), NetworkChange::RoutingTable);
}

#[test]
fn route_mask_values() {
    let r4 = Route::new(IpAddress::V4(0xC0A80100), 24, None, None);
    assert_eq!(r4.mask(), IpAddress::V4(0xFFFFFF00));
    let r4_zero = Route::new(IpAddress::V4(0), 0, None, None);
    assert_eq!(r4_zero.mask(), IpAddress::V4(0));
    let r6 = Route::new(IpAddress::V6(1), 64, None, None);
    assert_eq!(r6.mask(), IpAddress::V6(0xFFFF_FFFF_FFFF_FFFF_0000_0000_0000_0000));
}

#[test]
fn ip_from_octets() {
    assert_eq!(IpAddress::from_octets(1, 2, 3, 4), IpAddress::V4(0x01020304));
    assert!(IpAddress::from_octets(1, 2, 3, 4).is_v4());
    assert!(!IpAddress::V6(1).is_v4());
}

#[test]
fn compare_expiry_boundary() {
    let config = ObserverConfig::new(3600, false, false, false);
    let old = NetworkState::new(1_000_000, None);
    let at_threshold = NetworkState::new(1_003_600, None);
    assert_eq!(old.compare(&at_threshold, &config), NetworkChange::Expired);
    let just_inside = NetworkState::new(1_003_599, None);
    assert_eq!(old.compare(&just_inside, &config), NetworkChange::NoChange);
}

#[test]
fn compare_backward_clock_counts_as_no_elapsed_time() {
    let config = ObserverConfig::new(3600, false, false, false);
    let old = NetworkState::new(1_000_000, None);
    let earlier = NetworkState::new(999_000, None);
    assert_eq!(old.compare(&earlier, &config), NetworkChange::NoChange);
}

#[test]
fn decrypt_absurd_claimed_length_fails() {
    let mut container = vec![0u8; 60];
    container[0] = 0x7F;
    container[1] = 0xC0;
    container[2] = b'\n';
    container[3] = 1;
    for byte in container.iter_mut().skip(36).take(8) {
        *byte = 0xFF;
    }
    assert_eq!(decrypt(b"any key", &container), Err(Error::EncryptionError));
    assert_eq!(NetworkState::open(b"any key", &container), Err(Error::EncryptionError));
}

#[test]
fn decrypt_overlong_claim_fails() {
    let data = b"hello world".to_vec();
    let mut encrypted = encrypt(b"some key", &data).unwrap();
    encrypted[43] = encrypted[43].wrapping_add(1);
    assert_eq!(decrypt(b"some key", &encrypted), Err(Error::EncryptionError));
}
