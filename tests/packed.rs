use godot_wasm::packed::{op_by_name, ArrayAdapter, ArrayError, ArrayOp};
use godot_wasm::values::{Color, Vector2, Vector3};

#[test]
fn from_then_to_round_trips_every_type() {
    let a = ArrayAdapter::new();
    let f = |x: f32| x.to_bits();
    let v3 = vec![
        Vector3 { x: f(1.0), y: f(2.0), z: f(3.0) },
        Vector3 { x: f(4.0), y: f(5.0), z: f(6.0) },
    ];
    let arr = a.from(v3.clone()).unwrap();
    assert_eq!(a.to(&arr).unwrap(), v3);
    let bytes = vec![1u8, 2, 3];
    assert_eq!(a.to(&a.from(bytes.clone()).unwrap()).unwrap(), bytes);
    let ints = vec![i64::MIN, 0, 9];
    assert_eq!(a.to(&a.from(ints.clone()).unwrap()).unwrap(), ints);
    let strs = vec!["a".to_string(), "bc".to_string()];
    assert_eq!(a.to(&a.from(strs.clone()).unwrap()).unwrap(), strs);
    let v2 = vec![Vector2 { x: f(0.5), y: f(-0.5) }];
    assert_eq!(a.to(&a.from(v2.clone()).unwrap()).unwrap(), v2);
    let cs = vec![Color { r: 1, g: 2, b: 3, a: 4 }];
    assert_eq!(a.to(&a.from(cs.clone()).unwrap()).unwrap(), cs);
    let empty: Vec<i32> = vec![];
    assert_eq!(a.to(&a.from(empty.clone()).unwrap()).unwrap(), empty);
}

#[test]
fn ranges_beyond_the_array_fail() {
    let a = ArrayAdapter::new();
    let arr = vec![10i32, 11, 12, 13, 14];
    assert_eq!(a.slice(&arr, 3, 7), Err(ArrayError::RangeOutOfBound { begin: 3, end: 7 }));
    assert_eq!(a.subarray(&arr, 3, 7), Err(ArrayError::RangeOutOfBound { begin: 3, end: 7 }));
    assert_eq!(a.get(&arr, 7), Err(ArrayError::IndexOutOfBound(7)));
    assert_eq!(a.get(&arr, 5), Err(ArrayError::IndexOutOfBound(5)));
    assert_eq!(a.slice(&arr, 2, 5), Ok(vec![12, 13, 14]));
    assert_eq!(a.subarray(&arr, 2, 5), Ok(vec![12, 13, 14]));
    assert_eq!(a.get(&arr, 4), Ok(14));
    assert_eq!(a.slice(&arr, 4, 2), Err(ArrayError::RangeOutOfBound { begin: 4, end: 2 }));
    assert_eq!(a.slice(&arr, 5, 5), Ok(vec![]));
}

#[test]
fn disabled_get_fails_while_len_works() {
    let mut a = ArrayAdapter::new();
    let arr = vec![1i32, 2, 3];
    a.disable(ArrayOp::Get);
    assert_eq!(a.get(&arr, 0), Err(ArrayError::Disabled(ArrayOp::Get)));
    assert_eq!(a.len(&arr), Ok(3));
    assert!(!a.allows(ArrayOp::Get));
    assert!(a.allows(ArrayOp::Len));
    assert!(a.disable_by_name("is-empty"));
    assert_eq!(a.is_empty(&arr), Err(ArrayError::Disabled(ArrayOp::IsEmpty)));
    assert!(!a.disable_by_name("is_empty"));
    assert_eq!(a.count(&arr, 2), Ok(1));
}

#[test]
fn search_operations() {
    let a = ArrayAdapter::new();
    let arr = vec![5u8, 7, 5, 9, 5];
    assert_eq!(a.contains(&arr, 9), Ok(true));
    assert_eq!(a.contains(&arr, 1), Ok(false));
    assert_eq!(a.count(&arr, 5), Ok(3));
    assert_eq!(a.find(&arr, 5, None), Ok(Some(0)));
    assert_eq!(a.find(&arr, 5, Some(1)), Ok(Some(2)));
    assert_eq!(a.find(&arr, 7, Some(2)), Ok(None));
    assert_eq!(a.find(&arr, 5, Some(99)), Ok(None));
    assert_eq!(a.rfind(&arr, 5, None), Ok(Some(4)));
    assert_eq!(a.rfind(&arr, 5, Some(3)), Ok(Some(2)));
    assert_eq!(a.rfind(&arr, 9, Some(2)), Ok(None));
    assert_eq!(a.rfind(&arr, 9, Some(99)), Ok(Some(3)));
    let empty: Vec<u8> = vec![];
    assert_eq!(a.rfind(&empty, 1, None), Ok(None));
    assert_eq!(a.is_empty(&empty), Ok(true));
    let strs = vec!["x".to_string(), "y".to_string()];
    assert_eq!(a.find(&strs, "y".to_string(), None), Ok(Some(1)));
}

#[test]
fn stable_operation_names() {
    assert_eq!(op_by_name("from"), Some(ArrayOp::From));
    assert_eq!(op_by_name("is-empty"), Some(ArrayOp::IsEmpty));
    assert_eq!(op_by_name("subarray"), Some(ArrayOp::Subarray));
    assert_eq!(op_by_name("rfind"), Some(ArrayOp::Rfind));
    assert_eq!(op_by_name("nope"), None);
}
