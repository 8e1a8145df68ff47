use godot_wasm::codec::{parse_format, read_struct, write_struct, FieldCode, StructError, StructValue};

#[test]
fn int32_float32_struct_round_trips() {
    let mut mem = vec![0u8; 16];
    let vals = vec![StructValue::Int(42), StructValue::F32(3.5f32.to_bits())];
    assert_eq!(write_struct(&mut mem, 0, b"if", &vals), Ok(8));
    assert_eq!(&mem[0..8], &[42, 0, 0, 0, 0, 0, 0x60, 0x40]);
    let back = read_struct(&mem, 0, b"if").unwrap();
    assert_eq!(back, vals);
    match back[1] {
        StructValue::F32(b) => assert_eq!(f32::from_bits(b), 3.5),
        _ => panic!("not a float"),
    }
}

#[test]
fn signed_and_unsigned_fields() {
    let mut mem = vec![0u8; 32];
    let vals = vec![
        StructValue::Int(-1),
        StructValue::Int(255),
        StructValue::Int(-300),
        StructValue::Int(65535),
        StructValue::Int(-5),
        StructValue::F64(2.0f64.to_bits()),
    ];
    assert_eq!(write_struct(&mut mem, 3, b"bBhHld", &vals), Ok(22));
    assert_eq!(read_struct(&mem, 3, b"bBhHld"), Ok(vals));
    assert_eq!(read_struct(&mem, 3, b"B"), Ok(vec![StructValue::Int(255)]));
    assert_eq!(read_struct(&mem, 3, b"b"), Ok(vec![StructValue::Int(-1)]));
}

#[test]
fn struct_format_errors() {
    let mut mem = vec![0u8; 8];
    assert_eq!(parse_format(b"iqf"), Err(StructError::UnknownCode { at: 1, code: b'q' }));
    assert_eq!(parse_format(b"Ld"), Ok(vec![FieldCode::U64, FieldCode::F64]));
    assert_eq!(read_struct(&mem, 0, b"i?"), Err(StructError::UnknownCode { at: 1, code: b'?' }));
    assert_eq!(
        write_struct(&mut mem, 0, b"ii", &vec![StructValue::Int(1)]),
        Err(StructError::ValueCount { expected: 2, got: 1 })
    );
    assert_eq!(
        write_struct(&mut mem, 0, b"if", &vec![StructValue::Int(1), StructValue::Int(2)]),
        Err(StructError::TypeMismatch { field: 1 })
    );
    assert_eq!(
        write_struct(&mut mem, 4, b"ii", &vec![StructValue::Int(1), StructValue::Int(2)]),
        Err(StructError::OutOfBounds { start: 4, len: 8 })
    );
    assert_eq!(mem, vec![0u8; 8]);
    assert_eq!(read_struct(&mem, 1, b"l"), Err(StructError::OutOfBounds { start: 1, len: 8 }));
}
