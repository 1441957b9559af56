use burkaz_core::document::{
    object_create, object_read_boolean, object_read_boolean_list, object_read_int,
    object_read_int_list, object_read_text, object_read_text_list, object_write_boolean,
    object_write_boolean_list, object_write_int, object_write_int_list, object_write_text,
    object_write_text_list,
};

#[test]
fn document_reads_back_writes() {
    let mut doc = object_create();
    assert_eq!(object_read_int(&doc, 0), None);
    object_write_int(&mut doc, 0, 5);
    object_write_int_list(&mut doc, 0, &[6, 7]);
    object_write_boolean(&mut doc, 1, true);
    object_write_boolean_list(&mut doc, 1, &[false]);
    object_write_text(&mut doc, 2, "first");
    object_write_text_list(&mut doc, 2, &["with\0nul".to_string(), "last".to_string()]);

    assert_eq!(object_read_int(&doc, 0), Some(5));
    assert_eq!(object_read_int_list(&doc, 0), vec![5, 6, 7]);
    assert_eq!(object_read_boolean(&doc, 1), Some(true));
    assert_eq!(object_read_boolean_list(&doc, 1), vec![true, false]);
    assert_eq!(object_read_text(&doc, 2), Some("first".to_string()));
    assert_eq!(object_read_text_list(&doc, 2), vec!["first".to_string(), "last".to_string()]);
    assert_eq!(object_read_int(&doc, 2), None);
    assert!(object_read_int_list(&doc, 1).is_empty());
}

#[test]
fn first_text_with_nul_reads_as_none() {
    let mut doc = object_create();
    object_write_text(&mut doc, 3, "a\0b");
    object_write_text(&mut doc, 3, "ok");
    assert_eq!(object_read_text(&doc, 3), None);
    assert_eq!(object_read_text_list(&doc, 3), vec!["ok".to_string()]);
}

#[test]
fn empty_lists_take_any_field_id() {
    let mut doc = object_create();
    object_write_int_list(&mut doc, 70_000, &[]);
    object_write_boolean_list(&mut doc, 70_000, &[]);
    object_write_text_list(&mut doc, 70_000, &[]);
    assert!(object_read_int_list(&doc, 70_000).is_empty());
    assert_eq!(object_read_int(&doc, 70_000), None);
}
