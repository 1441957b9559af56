use burkaz_core::object::ValueType;
use burkaz_core::serializable::{BinaryError, BinarySerializable};

fn roundtrip<T: BinarySerializable + std::fmt::Debug + PartialEq>(value: T, expected: &[u8]) {
    let mut bytes = vec![0xaa];
    value.serialize(&mut bytes);
    assert_eq!(&bytes[1..], expected);
    bytes.push(0x55);
    let (back, pos) = T::deserialize(&bytes, 1).unwrap();
    assert_eq!(back, value);
    assert_eq!(pos, 1 + expected.len());
}

#[test]
fn integers_are_little_endian() {
    roundtrip(0xabu8, &[0xab]);
    roundtrip(0x0102u16, &[2, 1]);
    roundtrip(0x01020304u32, &[4, 3, 2, 1]);
    roundtrip(0x0102030405060708u64, &[8, 7, 6, 5, 4, 3, 2, 1]);
    roundtrip(-1i64, &[0xff; 8]);
}

#[test]
fn bools_and_value_types() {
    roundtrip(true, &[1]);
    roundtrip(false, &[0]);
    assert_eq!(bool::deserialize(&[2], 0), Ok((false, 1)));
    roundtrip(ValueType::Null, &[0]);
    roundtrip(ValueType::Int64, &[1]);
    roundtrip(ValueType::Text, &[2]);
    roundtrip(ValueType::Boolean, &[3]);
    assert_eq!(
        ValueType::deserialize(&[4], 0),
        Err(BinaryError::InvalidValueType(4))
    );
    assert_eq!(ValueType::deserialize(&[], 0), Err(BinaryError::UnexpectedEof));
}

#[test]
fn rejected_value_type_names_its_code() {
    let err = ValueType::deserialize(&[7, 1], 0).unwrap_err();
    assert!(err.is_invalid_data());
    assert_eq!(err.to_string(), "Invalid value type id: 7");
    let err = ValueType::deserialize(&[255], 0).unwrap_err();
    assert_eq!(err.to_string(), "Invalid value type id: 255");
    let eof = ValueType::deserialize(&[1], 1).unwrap_err();
    assert!(!eof.is_invalid_data());
    assert_eq!(eof, BinaryError::UnexpectedEof);
}

#[test]
fn strings_and_vectors() {
    roundtrip("hé".to_string(), &[3, 0, 0, 0, 0, 0, 0, 0, b'h', 0xc3, 0xa9]);
    roundtrip(vec![1u32, 2], &[2, 0, 0, 0, 0, 0, 0, 0, 1, 0, 0, 0, 2, 0, 0, 0]);
    roundtrip(Vec::<u8>::new(), &[0; 8]);
    roundtrip((), &[]);
}

#[test]
fn short_string_reads_what_is_there() {
    let bytes = [10, 0, 0, 0, 0, 0, 0, 0, b'a', b'b'];
    assert_eq!(String::deserialize(&bytes, 0), Ok(("ab".to_string(), 10)));
    let invalid = [1, 0, 0, 0, 0, 0, 0, 0, 0xff];
    assert_eq!(String::deserialize(&invalid, 0), Err(BinaryError::InvalidUtf8));
    assert!(BinaryError::InvalidUtf8.is_invalid_data());
    assert_eq!(u32::deserialize(&[1, 2, 3], 0), Err(BinaryError::UnexpectedEof));
    assert_eq!(
        Vec::<u32>::deserialize(&[1, 0, 0, 0, 0, 0, 0, 0, 1], 0),
        Err(BinaryError::UnexpectedEof)
    );
}
