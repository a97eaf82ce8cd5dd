use std::collections::HashSet;
use tcp_events::address::{AddressKey, IpAddress};

#[test]
fn v4_packs_octets_high_byte_first() {
    let key = AddressKey::v4(127, 0, 0, 1, 8000);
    assert_eq!(key.ip(), IpAddress::V4(0x7f00_0001));
    assert_eq!(key.port(), 8000);
    let top = AddressKey::v4(255, 255, 255, 255, 65535);
    assert_eq!(top.ip(), IpAddress::V4(u32::MAX));
    assert_eq!(top.port(), 65535);
    let low = AddressKey::v4(0, 0, 0, 0, 0);
    assert_eq!(low.ip(), IpAddress::V4(0));
}

#[test]
fn keys_are_equal_when_ip_and_port_match() {
    let a = AddressKey::v4(10, 0, 0, 7, 4242);
    let b = AddressKey::new(IpAddress::V4(0x0a00_0007), 4242);
    assert_eq!(a, b);
    assert!(a.same_peer(&b));
}

#[test]
fn keys_differ_by_port_or_ip() {
    let a = AddressKey::v4(10, 0, 0, 7, 4242);
    let other_port = AddressKey::v4(10, 0, 0, 7, 4243);
    let other_ip = AddressKey::v4(10, 0, 0, 8, 4242);
    let v6 = AddressKey::new(IpAddress::V6(0x0a00_0007), 4242);
    assert_ne!(a, other_port);
    assert_ne!(a, other_ip);
    assert_ne!(a, v6);
    assert!(!a.same_peer(&other_port));
    assert!(!a.same_peer(&other_ip));
    assert!(!a.same_peer(&v6));
}

#[test]
fn equal_keys_hash_alike() {
    let mut seen = HashSet::new();
    assert!(seen.insert(AddressKey::v4(192, 168, 1, 20, 50000)));
    assert!(!seen.insert(AddressKey::new(IpAddress::V4(0xc0a8_0114), 50000)));
    assert!(seen.insert(AddressKey::v4(192, 168, 1, 20, 50001)));
    assert_eq!(seen.len(), 2);
}
