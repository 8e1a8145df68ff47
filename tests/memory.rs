use godot_wasm::memory::{
    get_16, get_32, get_64, get_8, get_array, put_16, put_32, put_64, put_8, put_array, read_memory,
    write_memory, ArrayKind, MemoryError, TypedArray,
};
use godot_wasm::values::{Color, Vector2, Vector3};

#[test]
fn scalars_are_little_endian() {
    let mut mem = vec![0u8; 16];
    put_32(&mut mem, 0, 0x1234_5678).unwrap();
    assert_eq!(&mem[0..4], &[0x78, 0x56, 0x34, 0x12]);
    assert_eq!(get_32(&mem, 0), Ok(0x1234_5678));
    assert_eq!(get_16(&mem, 1), Ok(0x3456));
    assert_eq!(get_8(&mem, 3), Ok(0x12));
    put_64(&mut mem, 8, -2).unwrap();
    assert_eq!(&mem[8..16], &[0xfe, 0xff, 0xff, 0xff, 0xff, 0xff, 0xff, 0xff]);
    assert_eq!(get_64(&mem, 8), Ok(-2));
}

#[test]
fn puts_keep_only_the_low_bytes() {
    let mut mem = vec![0u8; 4];
    put_8(&mut mem, 0, 0x1ff).unwrap();
    assert_eq!(mem[0], 0xff);
    put_16(&mut mem, 2, -1).unwrap();
    assert_eq!(&mem[2..4], &[0xff, 0xff]);
    assert_eq!(get_16(&mem, 2), Ok(0xffff));
}

#[test]
fn out_of_bounds_access_fails() {
    let mut mem = vec![0u8; 8];
    assert_eq!(get_32(&mem, 5), Err(MemoryError::OutOfBounds { start: 5, len: 4 }));
    assert_eq!(get_64(&mem, 1), Err(MemoryError::OutOfBounds { start: 1, len: 8 }));
    assert_eq!(put_16(&mut mem, 7, 1), Err(MemoryError::OutOfBounds { start: 7, len: 2 }));
    assert_eq!(mem, vec![0u8; 8]);
    assert_eq!(read_memory(&mem, usize::MAX, 2), Err(MemoryError::OutOfBounds { start: usize::MAX, len: 2 }));
    assert_eq!(write_memory(&mut mem, 6, &[1, 2, 3]), Err(MemoryError::OutOfBounds { start: 6, len: 3 }));
    assert_eq!(get_8(&mem, 7), Ok(0));
}

#[test]
fn raw_read_and_write() {
    let mut mem = vec![0u8; 6];
    write_memory(&mut mem, 2, &[9, 8, 7]).unwrap();
    assert_eq!(mem, vec![0, 0, 9, 8, 7, 0]);
    assert_eq!(read_memory(&mem, 1, 3), Ok(vec![0, 9, 8]));
    assert_eq!(read_memory(&mem, 6, 0), Ok(vec![]));
}

#[test]
fn vector3_array_round_trips_through_memory() {
    let f = |x: f32| x.to_bits();
    let v = vec![
        Vector3 { x: f(1.0), y: f(2.0), z: f(3.0) },
        Vector3 { x: f(4.0), y: f(5.0), z: f(6.0) },
    ];
    let mut mem = vec![0u8; 32];
    put_array(&mut mem, 4, &TypedArray::Vector3(v.clone())).unwrap();
    assert_eq!(&mem[4..8], &1.0f32.to_le_bytes());
    assert_eq!(&mem[24..28], &6.0f32.to_le_bytes());
    match get_array(&mem, 4, 2, 36).unwrap() {
        TypedArray::Vector3(back) => assert_eq!(back, v),
        other => panic!("wrong kind {:?}", other),
    }
}

#[test]
fn typed_arrays_round_trip_through_memory() {
    let mut mem = vec![0u8; 64];
    put_array(&mut mem, 0, &TypedArray::Int32(vec![-1, 2, i32::MIN])).unwrap();
    match get_array(&mem, 0, 3, 30).unwrap() {
        TypedArray::Int32(v) => assert_eq!(v, vec![-1, 2, i32::MIN]),
        other => panic!("wrong kind {:?}", other),
    }
    put_array(&mut mem, 0, &TypedArray::Int64(vec![i64::MAX, -7])).unwrap();
    match get_array(&mem, 0, 2, 31).unwrap() {
        TypedArray::Int64(v) => assert_eq!(v, vec![i64::MAX, -7]),
        other => panic!("wrong kind {:?}", other),
    }
    put_array(&mut mem, 1, &TypedArray::Bytes(vec![5, 6, 7])).unwrap();
    match get_array(&mem, 1, 3, 29).unwrap() {
        TypedArray::Bytes(v) => assert_eq!(v, vec![5, 6, 7]),
        other => panic!("wrong kind {:?}", other),
    }
    let c = Color { r: 1.0f32.to_bits(), g: 0.5f32.to_bits(), b: 0.25f32.to_bits(), a: 1.0f32.to_bits() };
    put_array(&mut mem, 0, &TypedArray::Color(vec![c, c])).unwrap();
    match get_array(&mem, 16, 1, 37).unwrap() {
        TypedArray::Color(v) => assert_eq!(v, vec![c]),
        other => panic!("wrong kind {:?}", other),
    }
    let p = Vector2 { x: 2.5f32.to_bits(), y: (-1.0f32).to_bits() };
    put_array(&mut mem, 8, &TypedArray::Vector2(vec![p])).unwrap();
    match get_array(&mem, 8, 1, 35).unwrap() {
        TypedArray::Vector2(v) => assert_eq!(v, vec![p]),
        other => panic!("wrong kind {:?}", other),
    }
    put_array(&mut mem, 0, &TypedArray::Float64(vec![3.25f64.to_bits()])).unwrap();
    match get_array(&mem, 0, 1, 33).unwrap() {
        TypedArray::Float64(v) => assert_eq!(f64::from_bits(v[0]), 3.25),
        other => panic!("wrong kind {:?}", other),
    }
    put_array(&mut mem, 0, &TypedArray::Float32(vec![3.5f32.to_bits()])).unwrap();
    assert_eq!(&mem[0..4], &[0, 0, 0x60, 0x40]);
}

#[test]
fn bulk_transfer_checks_bounds() {
    let mut mem = vec![0u8; 10];
    assert_eq!(
        put_array(&mut mem, 4, &TypedArray::Int32(vec![1, 2])),
        Err(MemoryError::OutOfBounds { start: 4, len: 8 })
    );
    assert_eq!(mem, vec![0u8; 10]);
    assert_eq!(get_array(&mem, 0, 3, 30).err(), Some(MemoryError::OutOfBounds { start: 0, len: 12 }));
    assert_eq!(
        get_array(&mem, 0, usize::MAX, 37).err(),
        Some(MemoryError::OutOfBounds { start: 0, len: usize::MAX })
    );
}

#[test]
fn array_type_ids() {
    assert_eq!(get_array(&[0u8; 4], 0, 1, 34).err(), Some(MemoryError::UnsupportedType(34)));
    assert_eq!(get_array(&[0u8; 4], 0, 1, 4).err(), Some(MemoryError::UnsupportedType(4)));
    assert_eq!(get_array(&[0u8; 4], 0, 1, 38).err(), Some(MemoryError::UnknownType(38)));
    assert_eq!(ArrayKind::from_type_id(36), Ok(ArrayKind::Vector3));
    assert_eq!(ArrayKind::Vector3.stride(), 12);
    assert_eq!(ArrayKind::Color.stride(), 16);
}

#[test]
fn writing_back_what_was_read_changes_nothing() {
    let mut mem: Vec<u8> = (0..64u32).map(|x| (x * 37 + 5) as u8).collect();
    let before = mem.clone();
    for (t, n) in [(29i64, 7usize), (30, 5), (31, 3), (32, 5), (33, 3), (35, 3), (36, 2), (37, 2)] {
        let a = get_array(&mem, 3, n, t).unwrap();
        put_array(&mut mem, 3, &a).unwrap();
        assert_eq!(mem, before);
    }
}
