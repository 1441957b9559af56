use burkaz_core::error::{get_last_error, store_error, BurkazErrorSlot};
use burkaz_core::schema::{
    options_from_native, BurkazIndexingStrategy, BurkazSchema, BurkazSchemaField,
    BurkazSchemaFieldOptions, BurkazSchemaFieldType, FieldTypePlan, NativeField,
    NativeFieldOptions,
};

fn native(typ: u8, indexed: u8) -> NativeFieldOptions {
    NativeFieldOptions {
        typ,
        stored: 1,
        coerce: 0,
        indexed,
        fieldnorms: 1,
        fast: 0,
        indexing_strategy: 2,
        fast_tokenizer: None,
        indexing_tokenizer: Some("raw".to_string()),
    }
}

#[test]
fn strategy_codes() {
    assert_eq!(BurkazIndexingStrategy::from_code(1), Some(BurkazIndexingStrategy::Basic));
    assert_eq!(BurkazIndexingStrategy::from_code(2), Some(BurkazIndexingStrategy::Frequencies));
    assert_eq!(
        BurkazIndexingStrategy::from_code(3),
        Some(BurkazIndexingStrategy::FrequenciesAndPositions)
    );
    assert_eq!(BurkazIndexingStrategy::from_code(0), None);
    assert_eq!(BurkazIndexingStrategy::from_code(4), None);
    assert_eq!(BurkazIndexingStrategy::FrequenciesAndPositions.to_code(), 3);
    assert_eq!(BurkazIndexingStrategy::default(), BurkazIndexingStrategy::Basic);
}

#[test]
fn options_from_native_accepts_valid_codes() {
    let o = options_from_native(&native(2, 1)).unwrap();
    assert!(matches!(o.typ, BurkazSchemaFieldType::Text));
    assert!(o.stored && !o.coerce && o.indexed && o.fieldnorms && !o.fast);
    assert_eq!(o.indexing_strategy, Some(BurkazIndexingStrategy::Frequencies));
    assert_eq!(o.indexing_tokenizer.as_deref(), Some("raw"));
    assert_eq!(o.fast_tokenizer, None);
}

#[test]
fn options_from_native_rejects_bad_codes() {
    assert!(options_from_native(&native(0, 1)).is_none());
    assert!(options_from_native(&native(4, 1)).is_none());
    assert!(options_from_native(&native(1, 2)).is_none());
    let mut unknown_strategy = native(1, 1);
    unknown_strategy.indexing_strategy = 9;
    assert_eq!(options_from_native(&unknown_strategy).unwrap().indexing_strategy, None);
}

#[test]
fn schema_from_native_skips_invalid_fields_and_finds_fuzzy_fields() {
    let fields = vec![
        NativeField { name: "count".to_string(), options: native(1, 1) },
        NativeField { name: "bad".to_string(), options: native(7, 1) },
        NativeField { name: "title".to_string(), options: native(2, 1) },
        NativeField { name: "body".to_string(), options: native(2, 0) },
        NativeField { name: "flag".to_string(), options: native(3, 1) },
    ];
    let schema = BurkazSchema::from_native_fields(&fields);
    assert_eq!(schema.fuzzy_fields(), vec![1]);
    let names: Vec<String> = schema.into_fields().into_iter().map(|f| f.name).collect();
    assert_eq!(names, vec!["count", "title", "body", "flag"]);
}

#[test]
fn add_field_appends() {
    let mut schema = BurkazSchema::default();
    let options = options_from_native(&native(2, 1)).unwrap();
    schema.add_field(BurkazSchemaField::new("a".to_string(), options));
    assert_eq!(schema.fuzzy_fields(), vec![0]);
}

#[test]
fn field_type_plans() {
    let text = options_from_native(&native(2, 1)).unwrap();
    match text.into_field_type() {
        FieldTypePlan::Str(t) => {
            assert!(t.stored);
            let indexing = t.indexing.unwrap();
            assert_eq!(indexing.strategy, Some(BurkazIndexingStrategy::Frequencies));
            assert_eq!(indexing.tokenizer.as_deref(), Some("raw"));
            assert!(indexing.fieldnorms);
            assert!(t.fast.is_none());
        }
        _ => panic!("expected text"),
    }
    let unindexed = BurkazSchemaFieldOptions {
        typ: BurkazSchemaFieldType::Text,
        stored: false,
        coerce: true,
        indexed: false,
        fieldnorms: false,
        fast: true,
        indexing_strategy: None,
        fast_tokenizer: Some("lower".to_string()),
        indexing_tokenizer: None,
    };
    match unindexed.into_field_type() {
        FieldTypePlan::Str(t) => {
            assert!(t.coerce && !t.stored);
            assert!(t.indexing.is_none());
            assert_eq!(t.fast, Some(Some("lower".to_string())));
        }
        _ => panic!("expected text"),
    }
    match options_from_native(&native(3, 0)).unwrap().into_field_type() {
        FieldTypePlan::Bool(n) => assert!(n.stored && !n.indexed && n.fieldnorms),
        _ => panic!("expected boolean"),
    }
}

#[test]
fn error_slot_takes_last_message() {
    let mut slot = BurkazErrorSlot::new();
    assert_eq!(get_last_error(&mut slot), None);
    store_error(&mut slot, "first".to_string());
    store_error(&mut slot, "second".to_string());
    assert_eq!(get_last_error(&mut slot), Some("second".to_string()));
    assert_eq!(get_last_error(&mut slot), None);
}
