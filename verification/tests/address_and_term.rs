use burkaz_core::address::BurkazObjectAddr;
use burkaz_core::error::BurkazError;
use burkaz_core::index::locate_object;
use burkaz_core::object::{BurkazValue, ValueType};
use burkaz_core::term::BurkazTerm;

#[test]
fn addr_halves() {
    let addr = BurkazObjectAddr::from(0x0000_0003_0000_0011u64);
    assert_eq!(addr.segment_ord(), 3);
    assert_eq!(addr.doc_id(), 17);
    assert_eq!(addr.val(), 0x0000_0003_0000_0011u64);
}

#[test]
fn addr_text_names_both_halves() {
    let addr = BurkazObjectAddr::from(0x0000_0005_0000_0007u64);
    assert_eq!(addr.doc_id(), 7);
    assert_eq!(addr.segment_ord(), 5);
    assert_eq!(addr.to_string(), "BurkazObjectAddr(segment_ord: 5, doc_id: 7)");
    let big = BurkazObjectAddr::from_parts(4294967295, 10);
    assert_eq!(big.to_string(), "BurkazObjectAddr(segment_ord: 4294967295, doc_id: 10)");
}

#[test]
fn error_texts() {
    assert_eq!(BurkazError::IndexClosed.to_string(), "Index closed");
    assert_eq!(
        BurkazError::UnknownError("boom".to_string()).to_string(),
        "Unknown error: boom"
    );
    assert_eq!(
        BurkazError::NullPointer("index").to_string(),
        "Null pointer error: index"
    );
    let missing = BurkazError::from(BurkazObjectAddr::from_parts(1, 2));
    assert_eq!(
        missing.to_string(),
        "Object not found: BurkazObjectAddr(segment_ord: 1, doc_id: 2)"
    );
}

#[test]
fn addr_parts_roundtrip() {
    let addr = BurkazObjectAddr::from_parts(0xdead_beef, 0x1234_5678);
    assert_eq!(addr.val(), 0xdead_beef_1234_5678u64);
    assert_eq!(addr.into_parts(), (0xdead_beef, 0x1234_5678));
    let back = BurkazObjectAddr::from_parts(addr.segment_ord(), addr.doc_id());
    assert_eq!(back.val(), addr.val());
}

#[test]
fn locate_object_checks_segment() {
    let addr = BurkazObjectAddr::from_parts(2, 9);
    assert_eq!(locate_object(addr, 3).ok(), Some((2, 9)));
    match locate_object(addr, 2) {
        Err(BurkazError::ObjectNotFound(a)) => assert_eq!(a.val(), addr.val()),
        _ => panic!("expected ObjectNotFound"),
    }
    assert!(locate_object(BurkazObjectAddr::from_parts(0, 0), 0).is_err());
}

#[test]
fn term_int_layout_and_fields() {
    let term = BurkazTerm::new(5, &BurkazValue::I64(1));
    assert_eq!(term.as_bytes(), &[5, 0, 0, 0, 1, 1, 0, 0, 0, 0, 0, 0, 0][..]);
    assert_eq!(term.field_id(), Some(5));
    assert_eq!(term.val().typ(), ValueType::Int64);
    assert_eq!(term.val().as_int(), Some(1));
}

#[test]
fn term_text_and_bool() {
    let term = BurkazTerm::new(1, &BurkazValue::Str("ab".to_string()));
    assert_eq!(term.val().as_text(), Some("ab"));
    let term = BurkazTerm::new(2, &BurkazValue::Bool(true));
    assert_eq!(term.val().as_bool(), Some(true));
    assert_eq!(BurkazTerm::wrap(vec![1, 2]).field_id(), None);
}

#[test]
fn term_engine_bytes() {
    let term = BurkazTerm::new(1, &BurkazValue::I64(0));
    assert_eq!(
        term.engine_bytes(),
        vec![0, 0, 0, 1, b'i', 0x80, 0, 0, 0, 0, 0, 0, 0]
    );
    let term = BurkazTerm::new(2, &BurkazValue::I64(-1));
    assert_eq!(
        term.engine_bytes(),
        vec![0, 0, 0, 2, b'i', 0x7f, 0xff, 0xff, 0xff, 0xff, 0xff, 0xff, 0xff]
    );
    let term = BurkazTerm::new(3, &BurkazValue::Str("hi".to_string()));
    assert_eq!(term.engine_bytes(), vec![0, 0, 0, 3, b's', b'h', b'i']);
    let term = BurkazTerm::new(0x0102_0304, &BurkazValue::Bool(true));
    assert_eq!(
        term.engine_bytes(),
        vec![1, 2, 3, 4, b'o', 0, 0, 0, 0, 0, 0, 0, 1]
    );
}

#[test]
fn term_to_tantivy_term_matches_engine() {
    let term = BurkazTerm::new(3, &BurkazValue::I64(-7));
    let engine = term.to_tantivy_term();
    let expected = tantivy::Term::from_field_i64(tantivy::schema::Field::from_field_id(3), -7);
    assert_eq!(engine, expected);
    let term = BurkazTerm::new(4, &BurkazValue::Str("word".to_string()));
    let expected = tantivy::Term::from_field_text(tantivy::schema::Field::from_field_id(4), "word");
    assert_eq!(term.to_tantivy_term(), expected);
    let term = BurkazTerm::new(6, &BurkazValue::Bool(false));
    let expected = tantivy::Term::from_field_bool(tantivy::schema::Field::from_field_id(6), false);
    assert_eq!(term.to_tantivy_term(), expected);
}
