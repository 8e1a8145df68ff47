use godot_wasm::config::Config;
use godot_wasm::limits::{MemoryLimit, UNLIMITED};

const PAGE: usize = 65536;

#[test]
fn growth_beyond_allowance_is_denied() {
    let mut l = MemoryLimit { max_memory: 5 * PAGE as u64, max_table_entries: UNLIMITED };
    assert!(!l.memory_growing(0, 10 * PAGE, None));
    assert_eq!(l.max_memory, 5 * PAGE as u64);
    assert!(l.memory_growing(PAGE, 4 * PAGE, None));
    assert_eq!(l.max_memory, 2 * PAGE as u64);
}

#[test]
fn table_growth_is_deducted() {
    let mut l = MemoryLimit { max_memory: UNLIMITED, max_table_entries: 5 };
    assert!(!l.table_growing(0, 10, None));
    assert_eq!(l.max_table_entries, 5);
    assert!(l.table_growing(2, 5, None));
    assert_eq!(l.max_table_entries, 2);
    assert!(l.table_growing(5, 7, Some(7)));
    assert_eq!(l.max_table_entries, 0);
    assert!(!l.table_growing(7, 8, None));
}

#[test]
fn guest_maximum_is_checked_first() {
    let mut l = MemoryLimit::new();
    assert!(!l.memory_growing(0, 3 * PAGE, Some(2 * PAGE)));
    assert!(l.memory_growing(0, usize::MAX, None));
    assert_eq!(l.max_memory, UNLIMITED);
}

#[test]
fn limits_from_config() {
    let mut c = Config::new();
    let l = MemoryLimit::from_config(&c);
    assert_eq!(l.max_memory, UNLIMITED);
    assert_eq!(l.max_table_entries, UNLIMITED);
    c.max_memory = Some(100);
    c.max_entries = Some(7);
    let l = MemoryLimit::from_config(&c);
    assert_eq!(l.max_memory, 100);
    assert_eq!(l.max_table_entries, 7);
}
