use burkaz_core::object::{BurkazObject, BurkazValue, BurkazValueRef, ValueType};

#[test]
fn burkaz_value_ref_typ() {
    let value = BurkazValueRef::wrap(&[0]);
    assert_eq!(value.typ(), ValueType::Null);
    let value = BurkazValueRef::wrap(&[1]);
    assert_eq!(value.typ(), ValueType::Int64);
    let value = BurkazValueRef::wrap(&[2]);
    assert_eq!(value.typ(), ValueType::Text);
    let value = BurkazValueRef::wrap(&[3]);
    assert_eq!(value.typ(), ValueType::Boolean);
    let value = BurkazValueRef::wrap(&[4]);
    assert_eq!(value.typ(), ValueType::Null); // invalid type code
}

#[test]
fn burkaz_value_ref_as_int() {
    let bytes = &[1, 0, 0, 0, 0, 0, 0, 0, 0];
    let value = BurkazValueRef::wrap(bytes);
    assert_eq!(value.typ(), ValueType::Int64);
    assert_eq!(value.as_int(), Some(0));
}

#[test]
fn burkaz_value_ref_as_text() {
    let bytes = &[2, 0, 0, 0, 0, 0, 0, 0, 0];
    let value = BurkazValueRef::wrap(bytes);
    assert_eq!(value.typ(), ValueType::Text);
    assert_eq!(value.as_text(), Some(""));

    let bytes_2 = &[2, 1, 0, 0, 0, 0, 0, 0, 0, 95];
    let value_2 = BurkazValueRef::wrap(bytes_2);
    assert_eq!(value_2.typ(), ValueType::Text);
    assert_eq!(value_2.as_text(), Some("_"));
}

#[test]
fn value_ref_as_int_negative_and_truncated() {
    let bytes = &[1, 0xfe, 0xff, 0xff, 0xff, 0xff, 0xff, 0xff, 0xff];
    assert_eq!(BurkazValueRef::wrap(bytes).as_int(), Some(-2));
    let short = &[1, 0, 0, 0];
    assert_eq!(BurkazValueRef::wrap(short).as_int(), None);
    let text = &[2, 0, 0, 0, 0, 0, 0, 0, 0];
    assert_eq!(BurkazValueRef::wrap(text).as_int(), None);
}

#[test]
fn value_ref_as_text_rejects_bad_lengths_and_utf8() {
    let too_long = &[2, 5, 0, 0, 0, 0, 0, 0, 0, 97];
    assert_eq!(BurkazValueRef::wrap(too_long).as_text(), None);
    let invalid = &[2, 1, 0, 0, 0, 0, 0, 0, 0, 0xff];
    assert_eq!(BurkazValueRef::wrap(invalid).as_text(), None);
    let int = &[1, 0, 0, 0, 0, 0, 0, 0, 0];
    assert_eq!(BurkazValueRef::wrap(int).as_text(), None);
}

#[test]
fn value_ref_as_bool() {
    assert_eq!(BurkazValueRef::wrap(&[3, 1]).as_bool(), Some(true));
    assert_eq!(BurkazValueRef::wrap(&[3, 0]).as_bool(), Some(false));
    assert_eq!(BurkazValueRef::wrap(&[3, 7]).as_bool(), Some(false));
    assert_eq!(BurkazValueRef::wrap(&[3]).as_bool(), None);
    assert_eq!(BurkazValueRef::wrap(&[1, 1]).as_bool(), None);
}

#[test]
fn write_value_then_field_values_reads_back() {
    let mut object = BurkazObject::default();
    object.write_value(7, &BurkazValue::I64(-42));
    object.write_value(3, &BurkazValue::Str("héllo".to_string()));
    object.write_value(7, &BurkazValue::Bool(true));
    object.write_value(7, &BurkazValue::Unsupported);
    object.write_value(9, &BurkazValue::Null);

    let sevens = object.field_values(7);
    assert_eq!(sevens.len(), 2);
    assert_eq!(sevens[0].as_int(), Some(-42));
    assert_eq!(sevens[1].typ(), ValueType::Boolean);
    assert_eq!(sevens[1].as_bool(), Some(true));

    let threes = object.field_values(3);
    assert_eq!(threes.len(), 1);
    assert_eq!(threes[0].as_text(), Some("héllo"));

    let nines = object.field_values(9);
    assert_eq!(nines.len(), 1);
    assert_eq!(nines[0].typ(), ValueType::Null);

    assert_eq!(object.field_values(1).len(), 0);
}

#[test]
fn write_value_layout_is_exact() {
    let mut object = BurkazObject::default();
    object.write_value(1, &BurkazValue::I64(5));
    let bytes = object.to_bytes().unwrap();
    let expected: Vec<u8> = vec![
        1, 0, 0, 0, 0, 0, 0, 0, // one header entry
        1, 0, 0, 0, // field id
        0, 0, 0, 0, // start
        9, 0, 0, 0, // end
        1, 5, 0, 0, 0, 0, 0, 0, 0, // Int64 5
    ];
    assert_eq!(bytes, expected);
}

#[test]
fn object_bytes_roundtrip() {
    let mut object = BurkazObject::default();
    object.write_value(2, &BurkazValue::Str("abc".to_string()));
    object.write_value(4, &BurkazValue::Bool(false));
    let bytes = object.to_bytes().unwrap();
    let back = BurkazObject::from_bytes(&bytes).unwrap();
    assert_eq!(back.to_bytes().unwrap(), bytes);
    assert_eq!(back.field_values(2)[0].as_text(), Some("abc"));
    assert_eq!(back.field_values(4)[0].as_bool(), Some(false));
}

#[test]
fn from_bytes_rejects_truncated_header() {
    assert!(BurkazObject::from_bytes(&[1, 0, 0]).is_none());
    let announced_two_entries: Vec<u8> = vec![2, 0, 0, 0, 0, 0, 0, 0, 1, 0, 0, 0, 0, 0, 0, 0, 1, 0, 0, 0];
    assert!(BurkazObject::from_bytes(&announced_two_entries).is_none());
    let empty: Vec<u8> = vec![0, 0, 0, 0, 0, 0, 0, 0, 9, 9];
    let object = BurkazObject::from_bytes(&empty).unwrap();
    assert_eq!(object.to_bytes().unwrap(), empty);
}

#[test]
fn from_bytes_out_of_range_entry_is_skipped() {
    let bytes: Vec<u8> = vec![
        1, 0, 0, 0, 0, 0, 0, 0, // one entry
        5, 0, 0, 0, 0, 0, 0, 0, 50, 0, 0, 0, // field 5, range 0..50
        3, 1,
    ];
    let object = BurkazObject::from_bytes(&bytes).unwrap();
    assert_eq!(object.field_values(5).len(), 0);
}

#[test]
fn value_ref_as_value_reads_each_kind() {
    let mut object = BurkazObject::default();
    object.write_value(0, &BurkazValue::I64(11));
    object.write_value(0, &BurkazValue::Str("x".to_string()));
    let values = object.field_values(0);
    assert!(matches!(values[0].as_value(), BurkazValue::I64(11)));
    match values[1].as_value() {
        BurkazValue::Str(s) => assert_eq!(s, "x"),
        _ => panic!("expected text"),
    }
}

#[test]
fn field_values_iter_walks_header() {
    let mut object = BurkazObject::default();
    object.write_value(4, &BurkazValue::Bool(true));
    object.write_value(6, &BurkazValue::Null);
    let mut iter = burkaz_core::object::BurkazFieldValuesIter::new(&object);
    let (f, v) = iter.next().unwrap();
    assert_eq!(f, 4);
    assert_eq!(v.as_bool(), Some(true));
    let (f, v) = iter.next().unwrap();
    assert_eq!(f, 6);
    assert_eq!(v.typ(), ValueType::Null);
    assert!(iter.next().is_none());
}

#[test]
fn writes_then_walk_in_call_order() {
    let mut object = BurkazObject::default();
    object.write_value(2, &BurkazValue::I64(-5));
    object.write_value(1, &BurkazValue::Unsupported);
    object.write_value(1, &BurkazValue::Str("ab".to_string()));
    object.write_value(2, &BurkazValue::Bool(false));
    let mut iter = burkaz_core::object::BurkazFieldValuesIter::new(&object);
    let (f, v) = iter.next().unwrap();
    assert_eq!((f, v.as_int()), (2, Some(-5)));
    let (f, v) = iter.next().unwrap();
    assert_eq!((f, v.as_text()), (1, Some("ab")));
    let (f, v) = iter.next().unwrap();
    assert_eq!((f, v.as_bool()), (2, Some(false)));
    assert!(iter.next().is_none());
    assert_eq!(object.field_values(2).len(), 2);
    assert_eq!(object.field_values(1).len(), 1);
    assert!(object.field_values(9).is_empty());
}
