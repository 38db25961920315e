use text_reader::persist::{
    load_record, save_record, FieldValue, ProgressRecord, RawRecord, SchemaError,
};

fn raw(fields: Vec<(&str, FieldValue)>) -> RawRecord {
    RawRecord { fields: fields.into_iter().map(|(k, v)| (k.to_string(), v)).collect() }
}

#[test]
fn record_round_trip() {
    let rec = ProgressRecord { page: 7, readed_time: 1_700_000_000 };
    let saved = save_record(&rec);
    assert_eq!(load_record(&saved), Ok(rec));
}

#[test]
fn record_round_trip_zero_page() {
    let rec = ProgressRecord { page: 0, readed_time: -5 };
    assert_eq!(load_record(&save_record(&rec)), Ok(rec));
}

#[test]
fn fields_load_in_either_order() {
    let r = raw(vec![("readed_time", FieldValue::Int(9)), ("page", FieldValue::UInt(3))]);
    assert_eq!(load_record(&r), Ok(ProgressRecord { page: 3, readed_time: 9 }));
}

#[test]
fn missing_page_is_rejected() {
    let r = raw(vec![("readed_time", FieldValue::Int(9))]);
    assert_eq!(load_record(&r), Err(SchemaError::MissingField));
}

#[test]
fn missing_time_is_rejected() {
    let r = raw(vec![("page", FieldValue::UInt(3))]);
    assert_eq!(load_record(&r), Err(SchemaError::MissingField));
}

#[test]
fn empty_record_is_rejected() {
    let r = raw(vec![]);
    assert_eq!(load_record(&r), Err(SchemaError::MissingField));
}

#[test]
fn unknown_key_is_rejected() {
    let r = raw(vec![
        ("page", FieldValue::UInt(3)),
        ("readed_time", FieldValue::Int(9)),
        ("color", FieldValue::Str("red".to_string())),
    ]);
    assert_eq!(load_record(&r), Err(SchemaError::UnknownField));
}

#[test]
fn duplicate_key_is_rejected() {
    let r = raw(vec![
        ("page", FieldValue::UInt(3)),
        ("page", FieldValue::UInt(4)),
        ("readed_time", FieldValue::Int(9)),
    ]);
    assert_eq!(load_record(&r), Err(SchemaError::DuplicateField));
}

#[test]
fn negative_page_is_rejected() {
    let r = raw(vec![("page", FieldValue::Int(-3)), ("readed_time", FieldValue::Int(9))]);
    assert_eq!(load_record(&r), Err(SchemaError::WrongType));
}

#[test]
fn ill_typed_page_is_rejected() {
    let r = raw(vec![
        ("page", FieldValue::Str("3".to_string())),
        ("readed_time", FieldValue::Int(9)),
    ]);
    assert_eq!(load_record(&r), Err(SchemaError::WrongType));
}

#[test]
fn nested_value_is_rejected() {
    let r = raw(vec![("page", FieldValue::UInt(3)), ("readed_time", FieldValue::Other)]);
    assert_eq!(load_record(&r), Err(SchemaError::WrongType));
}

#[test]
fn unsigned_time_in_range_is_accepted() {
    let r = raw(vec![("page", FieldValue::UInt(3)), ("readed_time", FieldValue::UInt(12))]);
    assert_eq!(load_record(&r), Ok(ProgressRecord { page: 3, readed_time: 12 }));
}

#[test]
fn unsigned_time_out_of_range_is_rejected() {
    let r = raw(vec![("page", FieldValue::UInt(3)), ("readed_time", FieldValue::UInt(u64::MAX))]);
    assert_eq!(load_record(&r), Err(SchemaError::WrongType));
}
