use godot_wasm::registry::ObjectRegistry;

#[test]
fn register_then_get_returns_value() {
    let mut reg: ObjectRegistry<String> = ObjectRegistry::new();
    let h = reg.register("node".to_string());
    assert_ne!(h, 0);
    assert_eq!(reg.get(h), Some(&"node".to_string()));
    assert_eq!(reg.unregister(h), Some("node".to_string()));
    assert_eq!(reg.get(h), None);
    assert_eq!(reg.get(999999), None);
    assert_eq!(reg.get(0), None);
}

#[test]
fn freed_handles_are_reused() {
    let mut reg: ObjectRegistry<i64> = ObjectRegistry::new();
    let a = reg.register(1);
    let b = reg.register(2);
    assert_ne!(a, b);
    assert_eq!(reg.unregister(a), Some(1));
    let c = reg.register(3);
    assert_eq!(c, a);
    assert_eq!(reg.get(b), Some(&2));
    assert_eq!(reg.get(c), Some(&3));
    assert!(!reg.is_full());
}

#[test]
fn replace_and_unregister_are_total() {
    let mut reg: ObjectRegistry<i64> = ObjectRegistry::new();
    assert_eq!(reg.replace(5, 10), None);
    assert_eq!(reg.get(5), None);
    assert_eq!(reg.unregister(5), None);
    let h = reg.register(7);
    assert_eq!(reg.replace(h, 8), Some(7));
    assert_eq!(reg.get(h), Some(&8));
    assert_eq!(reg.unregister(h), Some(8));
    assert_eq!(reg.unregister(h), None);
}
