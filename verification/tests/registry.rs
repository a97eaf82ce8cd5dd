use tcp_events::address::AddressKey;
use tcp_events::registry::Registry;

#[test]
fn new_registry_is_empty() {
    let registry = Registry::new();
    assert_eq!(registry.len(), 0);
    assert!(registry.keys().is_empty());
    assert!(!registry.contains(AddressKey::v4(127, 0, 0, 1, 1)));
}

#[test]
fn register_same_key_twice_is_true_once() {
    let key = AddressKey::v4(127, 0, 0, 1, 40000);
    let mut registry = Registry::new();
    assert!(registry.register(key));
    assert!(!registry.register(key));
    assert!(!registry.register(key));
    assert!(!registry.register(AddressKey::v4(127, 0, 0, 1, 40000)));
    assert_eq!(registry.len(), 1);
    assert_eq!(registry.keys(), vec![key]);
}

#[test]
fn register_is_false_until_unregistered() {
    let key = AddressKey::v4(127, 0, 0, 1, 40000);
    let other = AddressKey::v4(127, 0, 0, 1, 40001);
    let mut registry = Registry::new();
    assert!(registry.register(key));
    assert!(registry.register(other));
    assert!(!registry.register(key));
    registry.unregister(other);
    assert!(!registry.register(key));
    registry.unregister(key);
    assert!(!registry.contains(key));
    assert!(registry.register(key));
    assert!(!registry.register(key));
}

#[test]
fn unregister_removes_only_its_key() {
    let a = AddressKey::v4(10, 0, 0, 1, 1000);
    let b = AddressKey::v4(10, 0, 0, 2, 1000);
    let c = AddressKey::v4(10, 0, 0, 3, 1000);
    let mut registry = Registry::new();
    assert!(registry.register(a));
    assert!(registry.register(b));
    assert!(registry.register(c));
    registry.unregister(b);
    assert_eq!(registry.keys(), vec![a, c]);
    assert_eq!(registry.len(), 2);
    assert!(registry.contains(a));
    assert!(!registry.contains(b));
    assert!(registry.contains(c));
}

#[test]
fn unregister_of_absent_key_changes_nothing() {
    let a = AddressKey::v4(10, 0, 0, 1, 1000);
    let b = AddressKey::v4(10, 0, 0, 2, 1000);
    let mut registry = Registry::new();
    registry.unregister(a);
    assert_eq!(registry.len(), 0);
    assert!(registry.register(a));
    registry.unregister(b);
    assert_eq!(registry.keys(), vec![a]);
}

#[test]
fn keys_keep_registration_order() {
    let a = AddressKey::v4(10, 0, 0, 1, 3);
    let b = AddressKey::v4(10, 0, 0, 1, 1);
    let c = AddressKey::v4(10, 0, 0, 1, 2);
    let mut registry = Registry::new();
    registry.register(a);
    registry.register(b);
    registry.register(a);
    registry.register(c);
    assert_eq!(registry.keys(), vec![a, b, c]);
}
