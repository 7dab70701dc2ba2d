use toasty_driver_surreal::error::ErrorKind;
use toasty_driver_surreal::expr::{refs_ok, BinaryOp, Expr};
use toasty_driver_surreal::op::{cols_ok, keyset_response, Direction, ExecResponse, Pagination};
use toasty_driver_surreal::operation::{
    delete_by_key_query, delete_response, find_pk_by_index_query, get_by_key_query, query_pk_query,
    rows_response, scan_query,
};
use toasty_driver_surreal::schema::{Column, ColumnId, Index, Scalar, StorageType, Table, Type};
use toasty_driver_surreal::value::{Number, RecordKey, SurValue, Value};

fn col(index: usize) -> ColumnId {
    ColumnId { table: 0, index }
}

fn users() -> Table {
    Table {
        id: 0,
        name: "users".to_string(),
        columns: vec![
            Column { id: col(0), name: "id".to_string(), ty: Type::Scalar(Scalar::I64), storage_ty: StorageType::Integer(8) },
            Column { id: col(1), name: "name".to_string(), ty: Type::Scalar(Scalar::String), storage_ty: StorageType::Text },
            Column { id: col(2), name: "age".to_string(), ty: Type::Scalar(Scalar::I64), storage_ty: StorageType::Integer(8) },
        ],
        primary_key: vec![col(0)],
        indices: vec![Index { name: "users_pk".to_string(), columns: vec![col(0)], unique: true, primary_key: true }],
    }
}

fn eq(c: usize, v: Value) -> Expr {
    Expr::BinaryOp { op: BinaryOp::Eq, lhs: Box::new(Expr::Reference(col(c))), rhs: Box::new(Expr::Value(v)) }
}

fn is_rid(v: &SurValue, n: i64) -> bool {
    matches!(v, SurValue::RecordId(rid) if rid.table == "users" && matches!(rid.key, RecordKey::Number(k) if k == n))
}

#[test]
fn get_by_key_binds_each_key_as_a_record_id() {
    let q = get_by_key_query(&users(), &vec![Value::I64(1), Value::I64(2)], &vec![col(0), col(1)])
        .unwrap()
        .unwrap();
    assert_eq!(q.sql, "SELECT record::id(id) AS `id`, `name` FROM $k0, $k1");
    assert_eq!(q.binds.len(), 2);
    assert_eq!(q.binds[0].0, "k0");
    assert!(is_rid(&q.binds[0].1, 1));
    assert_eq!(q.binds[1].0, "k1");
    assert!(is_rid(&q.binds[1].1, 2));
}

#[test]
fn get_by_key_without_keys_needs_no_query() {
    assert!(get_by_key_query(&users(), &vec![], &vec![col(0)]).unwrap().is_none());
}

#[test]
fn get_by_key_refuses_a_key_that_is_not_a_record_key() {
    let e = get_by_key_query(&users(), &vec![Value::Bool(true)], &vec![col(0)]).unwrap_err();
    assert_eq!(e.kind, ErrorKind::UnsupportedFeature);
}

#[test]
fn delete_by_key_returns_the_deleted_row() {
    let q = delete_by_key_query(&users(), &vec![Value::I64(7)], &None, &None).unwrap();
    assert_eq!(q.sql, "DELETE $rid RETURN BEFORE");
    assert_eq!(q.binds.len(), 1);
    assert_eq!(q.binds[0].0, "rid");
    assert!(is_rid(&q.binds[0].1, 7));
}

#[test]
fn delete_by_key_renders_the_condition_before_the_record_id() {
    let cond = eq(1, Value::String("x".to_string()));
    let q = delete_by_key_query(&users(), &vec![Value::I64(7)], &None, &Some(cond)).unwrap();
    assert_eq!(q.sql, "DELETE $rid WHERE `name` = $p0 RETURN BEFORE");
    assert_eq!(q.binds[0].0, "p0");
    assert!(matches!(&q.binds[0].1, SurValue::String(s) if s == "x"));
    assert_eq!(q.binds[1].0, "rid");
}

#[test]
fn delete_by_key_expects_exactly_one_key() {
    let e = delete_by_key_query(&users(), &vec![Value::I64(1), Value::I64(2)], &None, &None).unwrap_err();
    assert_eq!(e.kind, ErrorKind::InvalidStatement);
    assert_eq!(e.message, "SurrealDB delete expects exactly one key, got 2");
}

#[test]
fn a_conditional_delete_that_deleted_nothing_failed_its_condition() {
    let e = delete_response(&vec![], true).unwrap_err();
    assert_eq!(e.kind, ErrorKind::ConditionFailed);
    assert_eq!(e.message, "SurrealDB delete condition did not match");
    assert!(matches!(delete_response(&vec![], false), Ok(ExecResponse::Count(0))));
    assert!(matches!(delete_response(&vec![SurValue::Null], true), Ok(ExecResponse::Count(1))));
}

#[test]
fn find_pk_by_index_selects_the_primary_key() {
    let q = find_pk_by_index_query(&users(), &eq(1, Value::String("a".to_string()))).unwrap();
    assert_eq!(q.sql, "SELECT record::id(id) AS `id` FROM `users` WHERE `name` = $p0");
    assert_eq!(q.binds.len(), 1);
}

#[test]
fn query_pk_ands_the_filter_and_orders_cursor_pages() {
    let pk = eq(0, Value::I64(5));
    let filter = Expr::BinaryOp {
        op: BinaryOp::Gt,
        lhs: Box::new(Expr::Reference(col(2))),
        rhs: Box::new(Expr::Value(Value::I64(20))),
    };
    let q = query_pk_query(
        &users(),
        &pk,
        &Some(filter),
        &vec![col(0), col(1)],
        None,
        &Some(Pagination::Cursor { page_size: 10, after: None }),
    )
    .unwrap();
    assert_eq!(
        q.sql,
        "SELECT record::id(id) AS `id`, `name`, record::id(id) AS __toasty_sort_key FROM `users` WHERE (record::id(id) = $p0) AND (`age` > $p1) ORDER BY __toasty_sort_key ASC LIMIT 10"
    );
    assert_eq!(q.binds.len(), 2);
    assert!(matches!(q.binds[1].1, SurValue::Number(Number::Int(20))));
}

#[test]
fn query_pk_resumes_after_the_cursor_in_the_requested_direction() {
    let q = query_pk_query(
        &users(),
        &eq(0, Value::I64(5)),
        &None,
        &vec![col(1)],
        Some(Direction::Desc),
        &Some(Pagination::Cursor { page_size: 3, after: Some(Value::I64(9)) }),
    )
    .unwrap();
    assert_eq!(
        q.sql,
        "SELECT `name`, record::id(id) AS __toasty_sort_key FROM `users` WHERE record::id(id) = $p0 AND record::id(id) < $p1 ORDER BY __toasty_sort_key DESC LIMIT 3"
    );
    assert_eq!(q.binds[1].0, "p1");
    assert!(matches!(q.binds[1].1, SurValue::Number(Number::Int(9))));
}

#[test]
fn scan_paginates_by_offset_without_ordering() {
    let (q, select) = scan_query(&users(), &vec![0, 1], &None, &Some(Pagination::Offset { limit: 5, offset: Some(10) })).unwrap();
    assert_eq!(q.sql, "SELECT record::id(id) AS `id`, `name` FROM `users` LIMIT 5 START 10");
    assert_eq!(select, vec![col(0), col(1)]);
    assert!(q.binds.is_empty());
}

#[test]
fn an_untranslatable_filter_is_unsupported() {
    let e = find_pk_by_index_query(&users(), &Expr::Other("Func".to_string())).unwrap_err();
    assert_eq!(e.kind, ErrorKind::UnsupportedFeature);
}

fn with_json_column() -> Table {
    let mut t = users();
    t.columns.push(Column { id: col(3), name: "payload".to_string(), ty: Type::Scalar(Scalar::String), storage_ty: StorageType::Json });
    t
}

#[test]
fn a_literal_compared_with_a_json_column_is_bound_as_json() {
    let q = find_pk_by_index_query(&with_json_column(), &eq(3, Value::String("[{\"version\":2},null]".to_string()))).unwrap();
    assert_eq!(q.sql, "SELECT record::id(id) AS `id` FROM `users` WHERE `payload` = $p0");
    assert!(matches!(&q.binds[0].1, SurValue::Json(t) if t == "[{\"version\":2},null]"));

    let reversed = Expr::BinaryOp {
        op: BinaryOp::Ne,
        lhs: Box::new(Expr::Value(Value::String("1".to_string()))),
        rhs: Box::new(Expr::Reference(col(3))),
    };
    let q = find_pk_by_index_query(&with_json_column(), &reversed).unwrap();
    assert_eq!(q.sql, "SELECT record::id(id) AS `id` FROM `users` WHERE $p0 != `payload`");
    assert!(matches!(&q.binds[0].1, SurValue::Json(t) if t == "1"));
}

#[test]
fn invalid_json_compared_with_a_json_column_is_a_serialization_failure() {
    let e = find_pk_by_index_query(&with_json_column(), &eq(3, Value::String("{nope".to_string()))).unwrap_err();
    assert_eq!(e.kind, ErrorKind::SerializationFailure);
}

#[test]
fn the_first_part_that_fails_decides_the_error() {
    let bad_json = || eq(3, Value::String("{nope".to_string()));
    let untranslatable = || Expr::Other("subquery".to_string());
    let json_first = Expr::And(vec![bad_json(), untranslatable()]);
    let e = find_pk_by_index_query(&with_json_column(), &json_first).unwrap_err();
    assert_eq!(e.kind, ErrorKind::SerializationFailure);
    let other_first = Expr::Or(vec![untranslatable(), bad_json()]);
    let e = find_pk_by_index_query(&with_json_column(), &other_first).unwrap_err();
    assert_eq!(e.kind, ErrorKind::UnsupportedFeature);
}

#[test]
fn a_literal_compared_with_a_text_column_stays_text() {
    let q = find_pk_by_index_query(&users(), &eq(1, Value::String("{nope".to_string()))).unwrap();
    assert!(matches!(&q.binds[0].1, SurValue::String(t) if t == "{nope"));
}

fn row(id: i64, name: &str) -> SurValue {
    SurValue::Object(vec![
        ("id".to_string(), SurValue::Number(Number::Int(id))),
        ("name".to_string(), SurValue::String(name.to_string())),
        ("__toasty_sort_key".to_string(), SurValue::Number(Number::Int(id))),
    ])
}

#[test]
fn a_full_cursor_page_offers_the_next_cursor() {
    let limit = Some(Pagination::Cursor { page_size: 2, after: None });
    let rows = vec![row(1, "a"), row(2, "b")];
    match keyset_response(&users(), &rows, &limit, Some(col(0)), &vec![col(0), col(1)]).unwrap() {
        ExecResponse::Rows { records, next_cursor } => {
            assert_eq!(records.len(), 2);
            assert!(matches!(records[1][0], Value::I64(2)));
            assert!(matches!(&records[1][1], Value::String(s) if s == "b"));
            assert!(matches!(next_cursor, Some(Value::I64(2))));
        }
        other => panic!("expected rows, got {other:?}"),
    }
}

#[test]
fn a_short_cursor_page_is_the_last() {
    let limit = Some(Pagination::Cursor { page_size: 3, after: None });
    let rows = vec![row(1, "a"), row(2, "b")];
    match keyset_response(&users(), &rows, &limit, Some(col(0)), &vec![col(0)]).unwrap() {
        ExecResponse::Rows { records, next_cursor } => {
            assert_eq!(records.len(), 2);
            assert!(next_cursor.is_none());
        }
        other => panic!("expected rows, got {other:?}"),
    }
}

#[test]
fn missing_fields_read_as_null_and_keys_read_back_as_written() {
    let rows = vec![SurValue::Object(vec![("id".to_string(), SurValue::Number(Number::Int(7)))])];
    match rows_response(&users(), &rows, &vec![col(0), col(2)]).unwrap() {
        ExecResponse::Rows { records, .. } => {
            assert!(matches!(records[0][0], Value::I64(7)));
            assert!(matches!(records[0][1], Value::Null));
        }
        other => panic!("expected rows, got {other:?}"),
    }
}

#[test]
fn references_and_columns_are_checked_against_the_table() {
    assert!(refs_ok(&users(), &Expr::And(vec![eq(1, Value::I64(1)), Expr::Not(Box::new(Expr::Reference(col(0))))])));
    assert!(!refs_ok(&users(), &Expr::Or(vec![eq(1, Value::I64(1)), Expr::Reference(col(7))])));
    assert!(cols_ok(&users(), &vec![col(0), col(1)]));
    assert!(!cols_ok(&users(), &vec![col(0), col(7)]));
}

#[test]
fn an_any_comparison_other_than_equality_names_its_operator() {
    let any = Expr::AnyOp { op: BinaryOp::Lt, lhs: Box::new(Expr::Value(Value::I64(1))), rhs: Box::new(Expr::Reference(col(1))) };
    let e = find_pk_by_index_query(&users(), &any).unwrap_err();
    assert_eq!(e.kind, ErrorKind::UnsupportedFeature);
    assert_eq!(e.message, "SurrealDB driver only supports `= ANY` list membership, got <");
}
