use toasty_driver_surreal::error::ErrorKind;
use toasty_driver_surreal::json::Json;
use toasty_driver_surreal::schema::{Column, ColumnId, Scalar, StorageType, Type};
use toasty_driver_surreal::text::escape_ident;
use toasty_driver_surreal::value::{
    from_surreal, from_surreal_for_column, number_to_stmt, to_surreal, to_surreal_for_column, Decimal, Number, SurValue, Value,
};

fn column(storage_ty: StorageType) -> Column {
    Column { id: ColumnId { table: 0, index: 1 }, name: "payload".to_string(), ty: Type::Scalar(Scalar::String), storage_ty }
}

#[test]
fn large_unsigned_integers_round_trip_through_a_decimal() {
    let s = to_surreal(&Value::U64(u64::MAX)).unwrap();
    assert!(matches!(s, SurValue::Number(Number::Decimal(Decimal { negative: false, magnitude: 18446744073709551615, scale: 0 }))));
    assert!(matches!(from_surreal(&s, &Type::Scalar(Scalar::U64)).unwrap(), Value::U64(u64::MAX)));
}

#[test]
fn integers_strings_and_uuids_round_trip() {
    for v in [Value::I8(-5), Value::I64(i64::MIN), Value::U32(7)] {
        let ty = match v {
            Value::I8(_) => Type::Scalar(Scalar::I8),
            Value::I64(_) => Type::Scalar(Scalar::I64),
            _ => Type::Scalar(Scalar::U32),
        };
        let s = to_surreal(&v).unwrap();
        let back = from_surreal(&s, &ty).unwrap();
        assert_eq!(format!("{back:?}"), format!("{v:?}"));
    }
    let s = to_surreal(&Value::String("héllo".to_string())).unwrap();
    assert!(matches!(from_surreal(&s, &Type::Scalar(Scalar::String)).unwrap(), Value::String(t) if t == "héllo"));
    let s = to_surreal(&Value::Uuid(42)).unwrap();
    assert!(matches!(from_surreal(&s, &Type::Scalar(Scalar::Uuid)).unwrap(), Value::Uuid(42)));
}

#[test]
fn null_object_fields_are_omitted() {
    let v = Value::Object(vec![("a".to_string(), Value::Null), ("b".to_string(), Value::Bool(true))]);
    match to_surreal(&v).unwrap() {
        SurValue::Object(fields) => {
            assert_eq!(fields.len(), 1);
            assert_eq!(fields[0].0, "b");
        }
        other => panic!("expected an object, got {other:?}"),
    }
}

#[test]
fn opaque_values_do_not_encode() {
    let e = to_surreal(&Value::Opaque("SparseRecord".to_string())).unwrap_err();
    assert_eq!(e.kind, ErrorKind::UnsupportedFeature);
}

#[test]
fn json_columns_keep_database_null_apart_from_json_null() {
    let json = column(StorageType::Json);
    assert!(matches!(to_surreal_for_column(&Value::Null, &json).unwrap(), SurValue::Absent));
    assert!(matches!(to_surreal_for_column(&Value::String("null".to_string()), &json).unwrap(), SurValue::Json(t) if t == "null"));
    assert!(matches!(from_surreal_for_column(&SurValue::Absent, &json).unwrap(), Value::Null));
    assert!(matches!(from_surreal_for_column(&SurValue::Null, &json).unwrap(), Value::JsonText(Json::Null)));
}

#[test]
fn invalid_json_text_is_refused_without_echoing_it() {
    let json = column(StorageType::Json);
    let invalid = "{secret-payload";
    let e = to_surreal_for_column(&Value::String(invalid.to_string()), &json).unwrap_err();
    assert_eq!(e.kind, ErrorKind::SerializationFailure);
    assert!(!e.message.contains(invalid));
    assert!(e.message.starts_with("invalid JSON for a SurrealDB native JSON column at line 1, column "));
}

#[test]
fn json_columns_refuse_non_json_values() {
    let json = column(StorageType::Json);
    assert_eq!(from_surreal_for_column(&SurValue::Uuid(1), &json).unwrap_err().kind, ErrorKind::SerializationFailure);
    assert_eq!(
        from_surreal_for_column(&SurValue::Array(vec![SurValue::Absent]), &json).unwrap_err().message,
        "SurrealDB native JSON contained an embedded NONE value"
    );
    assert_eq!(to_surreal_for_column(&Value::I64(1), &json).unwrap_err().kind, ErrorKind::SerializationFailure);
}

#[test]
fn text_columns_take_plain_strings() {
    let text = column(StorageType::Text);
    assert!(matches!(to_surreal_for_column(&Value::String("{x".to_string()), &text).unwrap(), SurValue::String(t) if t == "{x"));
}

#[test]
fn identifiers_double_embedded_backticks() {
    assert_eq!(escape_ident("a`b"), "`a``b`");
    assert_eq!(escape_ident("select"), "`select`");
    assert_ne!(escape_ident("a``"), escape_ident("a`"));
}

#[test]
fn uuid_text_decodes_for_uuid_columns() {
    let s = SurValue::String("67e55044-10b1-426f-9247-bb680e5fe0c8".to_string());
    assert!(matches!(
        from_surreal(&s, &Type::Scalar(Scalar::Uuid)).unwrap(),
        Value::Uuid(0x67e5504410b1426f9247bb680e5fe0c8)
    ));
    let bad = SurValue::String("not-a-uuid".to_string());
    assert_eq!(from_surreal(&bad, &Type::Scalar(Scalar::Uuid)).unwrap_err().kind, ErrorKind::UnsupportedFeature);
    assert!(matches!(from_surreal(&bad, &Type::Scalar(Scalar::String)).unwrap(), Value::String(t) if t == "not-a-uuid"));
}

#[test]
fn decimals_narrow_through_their_truncation() {
    let d = |negative: bool, magnitude: u128, scale: u32| Number::Decimal(Decimal { negative, magnitude, scale });
    let i32_ty = Type::Scalar(Scalar::I32);
    assert!(matches!(number_to_stmt(d(true, 12345, 2), &i32_ty).unwrap(), Value::I32(-123)));
    assert!(matches!(number_to_stmt(d(false, 7, 0), &Type::Scalar(Scalar::I64)).unwrap(), Value::I64(7)));
    assert!(matches!(number_to_stmt(d(false, 0, 3), &Type::Scalar(Scalar::Bool)).unwrap(), Value::Bool(false)));
    assert!(matches!(
        number_to_stmt(d(true, 9_223_372_036_854_775_808, 0), &Type::Scalar(Scalar::I64)).unwrap(),
        Value::I64(i64::MIN)
    ));
    let too_big = d(false, 1u128 << 70, 0);
    assert!(matches!(number_to_stmt(too_big, &Type::Scalar(Scalar::I64)).unwrap(), Value::I64(0)));
}

#[test]
fn an_opaque_value_is_refused_by_its_description() {
    let e = to_surreal(&Value::List(vec![Value::I64(1), Value::Opaque("Interval(3s)".to_string())])).unwrap_err();
    assert_eq!(e.kind, ErrorKind::UnsupportedFeature);
    assert_eq!(e.message, "SurrealDB driver cannot encode value variant: Interval(3s)");
}
