use godot_wasm::config::{Config, ExternBindingType};
use godot_wasm::store::{
    frame_call, CallError, InitStep, InnerLock, InstanceError, InstanceSlot, InstanceType, StoreData,
    StoreError,
};

#[test]
fn reentrant_call_leaves_lock_free() {
    let id = 0x1000usize;
    let mut l = InnerLock::new();
    let outer = l.acquire(id);
    assert_eq!(l.holder(), Some(id));
    let held = l.release_store();
    assert!(!l.is_locked());
    assert_eq!(l.holder(), None);
    let inner = l.acquire(id);
    assert!(l.is_locked());
    l.leave(inner);
    l.restore(held);
    assert_eq!(l.holder(), Some(id));
    l.leave(outer);
    assert!(!l.is_locked());
    assert_eq!(l.holder(), None);
}

#[test]
fn instance_initializes_once() {
    let mut slot: InstanceSlot<u32> = InstanceSlot::new();
    assert_eq!(slot.get_data(), Err(InstanceError::Uninitialized));
    assert_eq!(slot.begin(), InitStep::Instantiate);
    assert!(slot.complete(Some(7)));
    assert_eq!(slot.begin(), InitStep::AlreadyReady);
    assert_eq!(slot.get_data(), Ok(&7));
}

#[test]
fn failed_initialization_stays_uninitialized() {
    let mut slot: InstanceSlot<u32> = InstanceSlot::new();
    assert!(!slot.complete(None));
    assert_eq!(slot.begin(), InitStep::Refused);
    assert_eq!(slot.get_data(), Err(InstanceError::Uninitialized));
}

#[test]
fn instance_kinds() {
    let core: InstanceType<u8, u16> = InstanceType::Core(1);
    assert_eq!(core.get_core(), Ok(&1));
    assert_eq!(core.get_component(), Err(InstanceError::NotComponent));
    let comp: InstanceType<u8, u16> = InstanceType::Component(2);
    assert_eq!(comp.get_core(), Err(InstanceError::NotCore));
}

#[test]
fn store_registry_follows_configuration() {
    let mut c = Config::new();
    let mut s: StoreData<String> = StoreData::new(&c);
    assert_eq!(s.register_object(Some("a".to_string())), Err(StoreError::RegistryDisabled));
    assert!(s.get_registry().is_err());
    c.extern_bind = ExternBindingType::Registry;
    let mut s: StoreData<String> = StoreData::new(&c);
    assert_eq!(s.register_object(None), Err(StoreError::NullValue));
    let h = s.register_object(Some("a".to_string())).unwrap();
    assert_eq!(s.registry_get(h as i64), Ok(Some(&"a".to_string())));
    assert_eq!(s.registry_get(999999), Ok(None));
    assert_eq!(s.registry_get(-1), Ok(None));
    assert_eq!(s.registry_set(-3, Some("z".to_string())), Ok(None));
    assert_eq!(s.unregister_object(i64::MIN), Ok(None));
    assert_eq!(s.registry_set(h as i64, Some("b".to_string())), Ok(Some("a".to_string())));
    assert_eq!(s.registry_set(h as i64, None), Ok(Some("b".to_string())));
    assert_eq!(s.registry_get(h as i64), Ok(None));
    assert_eq!(s.unregister_object(h as i64), Ok(None));
}

#[test]
fn error_signal_slot() {
    let mut s: StoreData<u8> = StoreData::new(&Config::new());
    assert_eq!(s.signal_error("first".to_string()), None);
    assert_eq!(s.signal_error("second".to_string()), Some("first".to_string()));
    assert_eq!(s.signal_error_cancel(), Some("second".to_string()));
    assert_eq!(s.signal_error_cancel(), None);
}

#[test]
fn epoch_deadline_only_when_configured() {
    let mut c = Config::new();
    assert_eq!(StoreData::<u8>::new(&c).epoch_deadline(), None);
    c.epoch_timeout = 5;
    assert_eq!(StoreData::<u8>::new(&c).epoch_deadline(), Some(5));
}

#[test]
fn call_frames() {
    assert_eq!(frame_call(vec![1u64, 2], 2, 2, 3, 0, true), Ok(vec![1, 2, 0]));
    assert_eq!(frame_call(vec![1u64], 1, 2, 0, 0, false), Err(CallError::ArgumentCount { expected: 2, got: 1 }));
    assert_eq!(frame_call(vec![1u64, 2], 3, 2, 1, 0, false), Ok(vec![1, 2]));
    assert_eq!(frame_call(vec![1u64, 2], 3, 2, 1, 0, true), Err(CallError::ArgumentCount { expected: 2, got: 3 }));
}

#[test]
fn registry_reached_mutably_through_store() {
    let mut c = Config::new();
    let mut s: StoreData<i64> = StoreData::new(&c);
    assert_eq!(s.get_registry_mut().err(), Some(StoreError::RegistryDisabled));
    c.extern_bind = ExternBindingType::Registry;
    let mut s: StoreData<i64> = StoreData::new(&c);
    let h = s.get_registry_mut().unwrap().register(11);
    assert_eq!(s.get_registry().unwrap().get(h), Some(&11));
}

#[test]
fn registration_succeeds_on_an_enabled_registry() {
    let mut c = Config::new();
    c.extern_bind = ExternBindingType::Registry;
    let mut s: StoreData<u8> = StoreData::new(&c);
    for k in 0..10u8 {
        let h = s.register_object(Some(k)).unwrap();
        assert_eq!(s.registry_get(h as i64), Ok(Some(&k)));
    }
    assert_eq!(s.unregister_object(3), Ok(Some(2)));
    assert_eq!(s.registry_get(3), Ok(None));
    assert_eq!(s.register_object(Some(42)), Ok(3));
}
