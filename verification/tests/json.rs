use serde_json::Value as JsonValue;
use toasty_driver_surreal::error::ErrorKind;
use toasty_driver_surreal::json::{json_to_native, surreal_to_json, Json, JsonNumber};
use toasty_driver_surreal::schema::{Column, ColumnId, Scalar, StorageType, Type};
use toasty_driver_surreal::value::{
    from_surreal_for_column, to_surreal_for_column, Decimal, FloatBits, Number, SurValue, Value,
};

fn json_column() -> Column {
    Column { id: ColumnId { table: 0, index: 1 }, name: "payload".to_string(), ty: Type::Scalar(Scalar::String), storage_ty: StorageType::Json }
}

fn from_serde(v: &JsonValue) -> Json {
    match v {
        JsonValue::Null => Json::Null,
        JsonValue::Bool(b) => Json::Bool(*b),
        JsonValue::Number(n) => Json::Number(if let Some(u) = n.as_u64() {
            JsonNumber::PosInt(u)
        } else if let Some(i) = n.as_i64() {
            JsonNumber::NegInt(i)
        } else {
            JsonNumber::Float(FloatBits::Double(n.as_f64().unwrap().to_bits()))
        }),
        JsonValue::String(s) => Json::String(s.clone()),
        JsonValue::Array(xs) => Json::Array(xs.iter().map(from_serde).collect()),
        JsonValue::Object(m) => Json::Object(m.iter().map(|(k, v)| (k.clone(), from_serde(v))).collect()),
    }
}

fn to_serde(j: &Json) -> JsonValue {
    match j {
        Json::Null => JsonValue::Null,
        Json::Bool(b) => JsonValue::Bool(*b),
        Json::Number(JsonNumber::PosInt(u)) => JsonValue::from(*u),
        Json::Number(JsonNumber::NegInt(i)) => JsonValue::from(*i),
        Json::Number(JsonNumber::Float(FloatBits::Double(b))) => JsonValue::from(f64::from_bits(*b)),
        Json::Number(JsonNumber::Float(FloatBits::Single(b))) => JsonValue::from(f32::from_bits(*b) as f64),
        Json::String(s) => JsonValue::String(s.clone()),
        Json::Array(xs) => JsonValue::Array(xs.iter().map(to_serde).collect()),
        Json::Object(fs) => JsonValue::Object(fs.iter().map(|(k, v)| (k.clone(), to_serde(v))).collect()),
    }
}

/// Writes JSON text to a native JSON column and reads it back, as the driver does.
fn write(text: &str) -> SurValue {
    match to_surreal_for_column(&Value::String(text.to_string()), &json_column()).unwrap() {
        SurValue::Json(t) => json_to_native(&from_serde(&serde_json::from_str(&t).unwrap())),
        other => other,
    }
}

fn read(s: &SurValue) -> Value {
    from_surreal_for_column(s, &json_column()).unwrap()
}

#[test]
fn native_json_distinguishes_database_null_from_json_null() {
    assert!(matches!(write_value(&Value::Null), SurValue::Absent));
    assert!(matches!(write("null"), SurValue::Null));
    assert!(matches!(read(&SurValue::Absent), Value::Null));
    match read(&SurValue::Null) {
        Value::JsonText(j) => assert_eq!(serde_json::to_string(&to_serde(&j)).unwrap(), "null"),
        other => panic!("JSON null must read back as JSON text, got {other:?}"),
    }
}

fn write_value(v: &Value) -> SurValue {
    to_surreal_for_column(v, &json_column()).unwrap()
}

#[test]
fn native_json_preserves_null_object_members() {
    let input = r#"{"present":null,"items":[1,true]}"#;
    let encoded = write(input);
    let SurValue::Object(object) = &encoded else {
        panic!("native JSON object must encode as a SurrealDB object");
    };
    assert!(object.iter().any(|(k, v)| k == "present" && matches!(v, SurValue::Null)));

    let Value::JsonText(decoded) = read(&encoded) else {
        panic!("native JSON object must decode as serialized JSON text");
    };
    assert_eq!(to_serde(&decoded), serde_json::from_str::<JsonValue>(input).unwrap());
}

#[test]
fn native_json_rejects_invalid_text_without_echoing_it() {
    let invalid = "{secret-payload";
    let error = to_surreal_for_column(&Value::String(invalid.to_string()), &json_column()).unwrap_err();
    assert_eq!(error.kind, ErrorKind::SerializationFailure);
    assert!(!error.message.contains(invalid));
}

#[test]
fn native_json_round_trips_top_level_scalars_and_large_unsigned_numbers() {
    for input in ["true", "42", r#""text""#, "18446744073709551615"] {
        let encoded = write(input);
        let Value::JsonText(decoded) = read(&encoded) else {
            panic!("native JSON scalar must decode as serialized JSON text");
        };
        assert_eq!(to_serde(&decoded), serde_json::from_str::<JsonValue>(input).unwrap());
    }
}

#[test]
fn large_unsigned_json_numbers_are_stored_as_decimals() {
    assert!(matches!(
        write("18446744073709551615"),
        SurValue::Number(Number::Decimal(Decimal { negative: false, magnitude: 18446744073709551615, scale: 0 }))
    ));
    assert!(matches!(write("-3"), SurValue::Number(Number::Int(-3))));
}

#[test]
fn stored_decimals_read_back_as_json_numbers() {
    let d = SurValue::Number(Number::Decimal(Decimal { negative: false, magnitude: 15, scale: 1 }));
    match surreal_to_json(&d).unwrap() {
        Json::Number(JsonNumber::Float(FloatBits::Double(b))) => assert_eq!(f64::from_bits(b), 1.5),
        other => panic!("expected a float, got {other:?}"),
    }
    let big = SurValue::Number(Number::Decimal(Decimal { negative: false, magnitude: 18446744073709551615, scale: 0 }));
    assert!(matches!(surreal_to_json(&big).unwrap(), Json::Number(JsonNumber::PosInt(u64::MAX))));
}

#[test]
fn non_json_values_are_refused_in_order() {
    let nan = SurValue::Number(Number::Float(FloatBits::Double(f64::NAN.to_bits())));
    assert_eq!(surreal_to_json(&nan).unwrap_err().message, "SurrealDB native JSON contained a non-finite number");
    let mixed = SurValue::Array(vec![SurValue::Uuid(1), SurValue::Absent]);
    assert_eq!(surreal_to_json(&mixed).unwrap_err().message, "SurrealDB native JSON column contained a non-JSON value");
    let none_first = SurValue::Object(vec![("a".to_string(), SurValue::Absent), ("b".to_string(), nan)]);
    assert_eq!(surreal_to_json(&none_first).unwrap_err().message, "SurrealDB native JSON contained an embedded NONE value");
}
