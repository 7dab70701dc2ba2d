use toasty_driver_surreal::error::{DriverError, ErrorKind};
use toasty_driver_surreal::expr::Expr;
use toasty_driver_surreal::op::ExecResponse;
use toasty_driver_surreal::schema::{Column, ColumnId, Index, Scalar, StorageType, Table, Type};
use toasty_driver_surreal::value::{Number, RecordKey, SurValue, Value};
use toasty_driver_surreal::write::{
    ignore_conflict, insert_row_query, insert_rows, returning_ok, update_by_key_query, update_response, upsert_query,
    upsert_response, Assignment, InsertSource, Returning, UpsertAction, UpsertClause,
};

fn col(index: usize) -> ColumnId {
    ColumnId { table: 0, index }
}

fn users() -> Table {
    Table {
        id: 0,
        name: "users".to_string(),
        columns: vec![
            Column { id: col(0), name: "id".to_string(), ty: Type::Scalar(Scalar::I64), storage_ty: StorageType::Integer(8) },
            Column { id: col(1), name: "name".to_string(), ty: Type::Scalar(Scalar::String), storage_ty: StorageType::Text },
            Column { id: col(2), name: "age".to_string(), ty: Type::Scalar(Scalar::I64), storage_ty: StorageType::Integer(8) },
            Column { id: col(3), name: "payload".to_string(), ty: Type::Scalar(Scalar::String), storage_ty: StorageType::Json },
        ],
        primary_key: vec![col(0)],
        indices: vec![Index { name: "users_pk".to_string(), columns: vec![col(0)], unique: true, primary_key: true }],
    }
}

fn lit(v: Value) -> Expr {
    Expr::Value(v)
}

fn is_rid(v: &SurValue, n: i64) -> bool {
    matches!(v, SurValue::RecordId(rid) if rid.table == "users" && matches!(rid.key, RecordKey::Number(k) if k == n))
}

#[test]
fn update_renders_set_items_in_order() {
    let q = update_by_key_query(
        &users(),
        &vec![Value::I64(1)],
        &vec![
            (col(1), Assignment::Replace(lit(Value::String("Bob".to_string())))),
            (col(2), Assignment::Add(lit(Value::I64(1)))),
            (col(2), Assignment::Replace(lit(Value::Null))),
        ],
        &None,
        &None,
        true,
    )
    .unwrap();
    assert_eq!(q.sql, "UPDATE $rid SET `name` = $p0, `age` = `age` + $p1, `age` = NONE RETURN AFTER");
    assert_eq!(q.binds.len(), 3);
    assert_eq!(q.binds[0].0, "p0");
    assert!(matches!(&q.binds[0].1, SurValue::String(s) if s == "Bob"));
    assert!(matches!(q.binds[1].1, SurValue::Number(Number::Int(1))));
    assert_eq!(q.binds[2].0, "rid");
    assert!(is_rid(&q.binds[2].1, 1));
}

#[test]
fn update_appends_a_single_item_as_a_one_item_list() {
    let q = update_by_key_query(&users(), &vec![Value::I64(1)], &vec![(col(2), Assignment::Append(lit(Value::I64(3))))], &None, &None, false).unwrap();
    assert_eq!(q.sql, "UPDATE $rid SET `age` += $p0");
    assert!(matches!(&q.binds[0].1, SurValue::Array(items) if items.len() == 1 && matches!(items[0], SurValue::Number(Number::Int(3)))));
}

#[test]
fn update_writes_json_columns_as_the_json_they_hold() {
    let q = update_by_key_query(&users(), &vec![Value::I64(1)], &vec![(col(3), Assignment::Replace(lit(Value::String("[1,2]".to_string()))))], &None, &None, false).unwrap();
    assert!(matches!(&q.binds[0].1, SurValue::Json(t) if t == "[1,2]"));
    let e = update_by_key_query(&users(), &vec![Value::I64(1)], &vec![(col(3), Assignment::Replace(lit(Value::String("{oops".to_string()))))], &None, &None, false).unwrap_err();
    assert_eq!(e.kind, ErrorKind::SerializationFailure);
    assert!(!e.message.contains("{oops"));
}

#[test]
fn update_refuses_unsupported_assignments_and_key_counts() {
    let e = update_by_key_query(&users(), &vec![Value::I64(1)], &vec![(col(2), Assignment::Other("Pop".to_string()))], &None, &None, false).unwrap_err();
    assert_eq!(e.kind, ErrorKind::UnsupportedFeature);
    assert_eq!(e.message, "SurrealDB driver does not support update assignment: Pop");
    let e = update_by_key_query(&users(), &vec![], &vec![], &None, &None, false).unwrap_err();
    assert_eq!(e.message, "SurrealDB update expects exactly one key, got 0");
}

#[test]
fn a_conditional_update_that_updated_nothing_failed_its_condition() {
    let e = update_response(&users(), &vec![], true, &None).unwrap_err();
    assert_eq!(e.kind, ErrorKind::ConditionFailed);
    assert_eq!(e.message, "SurrealDB update condition did not match");
    assert!(matches!(update_response(&users(), &vec![SurValue::Null], false, &None), Ok(ExecResponse::Count(1))));
}

#[test]
fn insert_creates_one_record_with_non_null_content() {
    let q = insert_row_query(
        &users(),
        &vec![col(0), col(1), col(2)],
        &vec![lit(Value::I64(1)), lit(Value::String("Alice".to_string())), lit(Value::Null)],
        false,
    )
    .unwrap();
    assert_eq!(q.sql, "CREATE $rid CONTENT $data");
    assert_eq!(q.binds[0].0, "rid");
    assert!(is_rid(&q.binds[0].1, 1));
    assert_eq!(q.binds[1].0, "data");
    match &q.binds[1].1 {
        SurValue::Object(fields) => {
            assert_eq!(fields.len(), 1);
            assert_eq!(fields[0].0, "name");
            assert!(matches!(&fields[0].1, SurValue::String(s) if s == "Alice"));
        }
        other => panic!("content must be an object, got {other:?}"),
    }
}

#[test]
fn insert_refuses_a_non_literal_entry_by_position() {
    let e = insert_row_query(&users(), &vec![col(0), col(1)], &vec![lit(Value::I64(1)), Expr::Reference(col(2))], true).unwrap_err();
    assert_eq!(e.kind, ErrorKind::InvalidStatement);
    assert_eq!(e.message, "SurrealDB insert row entry did not lower to a literal at position 1");
}

#[test]
fn insert_requires_a_values_source() {
    let e = insert_rows(InsertSource::Other("Select".to_string())).unwrap_err();
    assert_eq!(e.message, "SurrealDB insert requires a VALUES source");
}

fn clause(shared: Vec<(ColumnId, Assignment)>, defaults: Vec<(ColumnId, Assignment)>, action: UpsertAction) -> Option<UpsertClause> {
    Some(UpsertClause { target: Some(vec![col(0)]), shared, defaults, action })
}

fn row() -> InsertSource {
    InsertSource::Values(vec![vec![lit(Value::I64(1)), lit(Value::String("A".to_string())), lit(Value::I64(3))]])
}

#[test]
fn upsert_sets_create_only_values_with_a_fallback() {
    let (q, cols) = upsert_query(&users(), &vec![col(0), col(1), col(2)], &row(), &clause(vec![], vec![], UpsertAction::Update), &None).unwrap();
    assert!(cols.is_none());
    assert_eq!(q.sql, "UPSERT $rid SET `name` = `name` ?? $p0, `age` = `age` ?? $p1");
    assert_eq!(q.binds[0].0, "rid");
    assert_eq!(q.binds[1].0, "p0");
    assert_eq!(q.binds[2].0, "p1");
}

#[test]
fn upsert_folds_the_declared_default_into_shared_mutations() {
    let (q, _) = upsert_query(
        &users(),
        &vec![col(0), col(1), col(2)],
        &row(),
        &clause(vec![(col(2), Assignment::Add(lit(Value::I64(1))))], vec![(col(2), Assignment::Replace(lit(Value::I64(0))))], UpsertAction::Update),
        &Some(Returning::Record(vec![Expr::Reference(col(0)), Expr::Reference(col(2))])),
    )
    .unwrap();
    assert_eq!(q.sql, "UPSERT $rid SET `name` = `name` ?? $p0, `age` = (`age` ?? $p1) + $p2 RETURN AFTER");
    assert!(matches!(q.binds[2].1, SurValue::Number(Number::Int(0))));
    assert!(matches!(q.binds[3].1, SurValue::Number(Number::Int(1))));
}

#[test]
fn upsert_merges_the_content_when_there_is_nothing_to_set() {
    let source = InsertSource::Values(vec![vec![lit(Value::I64(1))]]);
    let (q, _) = upsert_query(&users(), &vec![col(0)], &source, &clause(vec![], vec![], UpsertAction::Update), &None).unwrap();
    assert_eq!(q.sql, "UPSERT $rid MERGE $p0");
    assert!(matches!(&q.binds[1].1, SurValue::Object(f) if f.is_empty()));
}

#[test]
fn upsert_refuses_operator_mutations_without_a_literal_default() {
    let e = upsert_query(&users(), &vec![col(0), col(1), col(2)], &row(), &clause(vec![(col(2), Assignment::Add(lit(Value::I64(1))))], vec![], UpsertAction::Update), &None).unwrap_err();
    assert_eq!(e.kind, ErrorKind::InvalidStatement);
    assert_eq!(e.message, "SurrealDB shared upsert mutation requires a literal #[default] value");
}

#[test]
fn upsert_only_targets_the_primary_key() {
    let c = Some(UpsertClause { target: Some(vec![col(1)]), shared: vec![], defaults: vec![], action: UpsertAction::Update });
    let e = upsert_query(&users(), &vec![col(0), col(1), col(2)], &row(), &c, &None).unwrap_err();
    assert_eq!(e.kind, ErrorKind::UnsupportedFeature);
    assert_eq!(e.message, "SurrealDB upsert only supports targeting the primary key");
    let e = upsert_query(&users(), &vec![col(0)], &InsertSource::Values(vec![]), &clause(vec![], vec![], UpsertAction::Ignore), &None).unwrap_err();
    assert_eq!(e.message, "SurrealDB upsert requires exactly one row");
}

#[test]
fn insert_or_ignore_creates_and_ignores_a_duplicate() {
    let (q, _) = upsert_query(&users(), &vec![col(0), col(1), col(2)], &row(), &clause(vec![], vec![], UpsertAction::Ignore), &None).unwrap();
    assert_eq!(q.sql, "CREATE $rid CONTENT $data");
    let dup = DriverError { kind: ErrorKind::ConditionFailed, message: "Database record `users:1` already exists".to_string() };
    assert!(matches!(ignore_conflict(dup, false), Ok(ExecResponse::Count(0))));
    let other = DriverError { kind: ErrorKind::DriverOperationFailed, message: "boom".to_string() };
    assert!(matches!(ignore_conflict(other, true), Err(e) if e.message == "boom"));
}

#[test]
fn an_upsert_counts_at_least_one_row() {
    assert!(matches!(upsert_response(&users(), &vec![], &None), Ok(ExecResponse::Count(1))));
    assert!(matches!(upsert_response(&users(), &vec![SurValue::Null, SurValue::Null], &None), Ok(ExecResponse::Count(2))));
}

#[test]
fn upsert_errors_carry_the_failing_part_in_their_message() {
    let opaque = || Value::Opaque("Interval(3s)".to_string());
    let bad_row = InsertSource::Values(vec![vec![lit(Value::I64(1)), lit(opaque()), lit(Value::I64(3))]]);
    let e = upsert_query(&users(), &vec![col(0), col(1), col(2)], &bad_row, &clause(vec![], vec![], UpsertAction::Update), &None)
        .unwrap_err();
    assert_eq!(e.kind, ErrorKind::UnsupportedFeature);
    assert_eq!(e.message, "SurrealDB driver cannot encode value variant: Interval(3s)");

    let bad_key = InsertSource::Values(vec![vec![lit(Value::U64(u64::MAX)), lit(Value::String("A".to_string())), lit(Value::I64(3))]]);
    let e = upsert_query(&users(), &vec![col(0), col(1), col(2)], &bad_key, &clause(vec![], vec![], UpsertAction::Update), &None)
        .unwrap_err();
    assert_eq!(e.message, "SurrealDB record id integers are i64; u64 keys above i64::MAX are not supported");

    let shared = vec![(col(2), Assignment::Other("Pop".to_string()))];
    let e = upsert_query(&users(), &vec![col(0), col(1), col(2)], &row(), &clause(shared, vec![], UpsertAction::Update), &None)
        .unwrap_err();
    assert_eq!(e.kind, ErrorKind::UnsupportedFeature);
    assert_eq!(e.message, "SurrealDB driver does not support shared upsert mutation: Pop");

    let bad_json = InsertSource::Values(vec![vec![lit(Value::I64(1)), lit(Value::String("A".to_string())), lit(Value::I64(3)), lit(Value::I64(4))]]);
    let e = upsert_query(&users(), &vec![col(0), col(1), col(2), col(3)], &bad_json, &clause(vec![], vec![], UpsertAction::Update), &None)
        .unwrap_err();
    assert_eq!(e.kind, ErrorKind::SerializationFailure);
    assert_eq!(e.message, "SurrealDB native JSON columns require serialized JSON text or a database null");
}

#[test]
fn returning_projections_are_checked_against_the_table() {
    assert!(returning_ok(&users(), &None));
    assert!(returning_ok(&users(), &Some(Returning::Record(vec![Expr::Reference(col(1))]))));
    assert!(!returning_ok(&users(), &Some(Returning::Record(vec![Expr::Reference(col(9))]))));
    assert!(!returning_ok(&users(), &Some(Returning::Record(vec![lit(Value::I64(1))]))));
}

#[test]
fn update_errors_carry_the_failing_part_in_their_message() {
    let nonliteral = vec![(col(2), Assignment::Add(Expr::Reference(col(2))))];
    let e = update_by_key_query(&users(), &vec![Value::I64(1)], &nonliteral, &None, &None, false).unwrap_err();
    assert_eq!(e.message, "SurrealDB driver does not support update assignment: Add of a non-literal expression");
    let filter = Some(Expr::Other("Subquery".to_string()));
    let e = update_by_key_query(&users(), &vec![Value::I64(1)], &vec![], &filter, &None, false).unwrap_err();
    assert_eq!(e.kind, ErrorKind::UnsupportedFeature);
    assert_eq!(e.message, "SurrealDB driver cannot translate filter expression: Subquery");
    let e = update_by_key_query(&users(), &vec![Value::U64(u64::MAX)], &vec![], &None, &None, false).unwrap_err();
    assert_eq!(e.message, "SurrealDB record id integers are i64; u64 keys above i64::MAX are not supported");
}
