use godot_wasm::externref::{
    array_index, externref_to_variant, externref_to_variant_nonnull, fill_range, grow_action, guest_range,
    variant_to_externref, BridgeError, ExternPayload, GrowAction,
};

#[test]
fn opaque_reference_decoding() {
    assert!(matches!(variant_to_externref::<i32>(None), ExternPayload::Null));
    assert!(matches!(variant_to_externref(Some(3)), ExternPayload::Host(3)));
    assert_eq!(externref_to_variant::<i32>(ExternPayload::Null), Ok(None));
    assert_eq!(externref_to_variant(ExternPayload::Host(4)), Ok(Some(4)));
    assert_eq!(externref_to_variant::<i32>(ExternPayload::Foreign), Err(BridgeError::NotHostValue));
    assert_eq!(externref_to_variant_nonnull::<i32>(ExternPayload::Null), Err(BridgeError::NullValue));
    assert_eq!(externref_to_variant_nonnull(ExternPayload::Host(5)), Ok(5));
}

#[test]
fn bridge_index_checks() {
    assert_eq!(array_index(2, 3), Ok(2));
    assert_eq!(array_index(3, 3), Err(BridgeError::OutOfBound));
    assert_eq!(array_index(-1, 3), Err(BridgeError::OutOfBound));
    assert_eq!(fill_range(1, 2, 3), Ok((1, 3)));
    assert_eq!(fill_range(2, 2, 3), Err(BridgeError::OutOfBound));
    assert_eq!(fill_range(i32::MAX, i32::MAX, 3), Err(BridgeError::OutOfBound));
    assert_eq!(fill_range(0, -1, 3), Err(BridgeError::OutOfBound));
    assert_eq!(guest_range(4, 4, 8), Ok((4, 8)));
    assert_eq!(guest_range(u32::MAX, 1, 8), Err(BridgeError::OutOfBound));
}

#[test]
fn array_growth_actions() {
    assert_eq!(grow_action(3, 2), GrowAction::Push(3));
    assert_eq!(grow_action(-2, 2), GrowAction::Resize(4));
    assert_eq!(grow_action(0, 2), GrowAction::Keep);
}
