use toasty_driver_surreal::conn::{
    migration_step, MigrationAction, MigrationFailure, MigrationStage, applied_migrations_sql, blank, classify_error, classify_migration_error, parse_applied_migrations,
    parse_u64, record_migration_query, runnable_statements, tracking_table_sql, OperationKind, Route,
    TransactionAction, TransactionMode, TransactionOp,
};
use toasty_driver_surreal::error::ErrorKind;
use toasty_driver_surreal::value::{RecordKey, SurValue};
use toasty_driver_surreal::Connection;

#[test]
fn classifies_typed_transaction_conflict() {
    let error = classify_error("transaction conflict", true);
    assert_eq!(error.kind, ErrorKind::SerializationFailure);
}

#[test]
fn classifies_embedded_commit_conflict_compatibility_message() {
    let error = classify_error(
        "Transaction conflict: Transaction write conflict. This transaction can be retried",
        false,
    );
    assert_eq!(error.kind, ErrorKind::SerializationFailure);
}

#[test]
fn classifies_duplicates_and_other_failures() {
    let e = classify_error("Database record `t:1` already exists", false);
    assert_eq!(e.kind, ErrorKind::ConditionFailed);
    assert_eq!(e.message, "Database record `t:1` already exists");
    assert_eq!(classify_error("disk full", false).kind, ErrorKind::DriverOperationFailed);
}

#[test]
fn migration_errors_get_fixed_messages() {
    let e = classify_migration_error("An error occurred: manual migration required: type conversion", false);
    assert_eq!(e.kind, ErrorKind::UnsupportedFeature);
    assert_eq!(e.message, "SurrealDB migration requires manual editing before it can be applied");
    let e = classify_migration_error("secret-migration-payload failed", false);
    assert_eq!(e.kind, ErrorKind::DriverOperationFailed);
    assert!(!e.message.contains("secret"));
    assert_eq!(classify_migration_error("x", true).kind, ErrorKind::SerializationFailure);
    assert_eq!(classify_migration_error("index already exists", false).kind, ErrorKind::ConditionFailed);
}

#[test]
fn transaction_lifecycle_tracks_the_state() {
    let mut c = Connection::new();
    assert!(!c.in_transaction());
    let start = TransactionOp::Start { isolation: false, read_only: true, mode: TransactionMode::Default };
    assert_eq!(c.transaction_step(&start).unwrap(), TransactionAction::Begin { read_only: true });
    assert!(!c.in_transaction());
    c.begun(true);
    assert!(c.in_transaction());
    assert!(c.is_read_only());

    let e = c.route(&OperationKind::QuerySqlInsert).unwrap_err();
    assert_eq!(e.kind, ErrorKind::ReadOnlyTransaction);
    assert_eq!(e.message, "Insert is not allowed in a read-only transaction");
    assert_eq!(c.route(&OperationKind::GetByKey).unwrap(), Route::GetByKey);

    let e = c.transaction_step(&start).unwrap_err();
    assert_eq!(e.message, "SurrealDB connection already has an active transaction");
    assert_eq!(c.transaction_step(&TransactionOp::Rollback).unwrap(), TransactionAction::Cancel);
    assert!(!c.in_transaction());
    assert!(!c.is_read_only());
    assert_eq!(c.route(&OperationKind::Upsert).unwrap(), Route::Upsert);
}

#[test]
fn unsupported_transaction_options_are_structured() {
    let mut c = Connection::new();
    let e = c.transaction_step(&TransactionOp::Start { isolation: true, read_only: false, mode: TransactionMode::Default }).unwrap_err();
    assert_eq!(e.kind, ErrorKind::UnsupportedFeature);
    let e = c.transaction_step(&TransactionOp::Start { isolation: false, read_only: false, mode: TransactionMode::Immediate }).unwrap_err();
    assert_eq!(e.message, "SurrealDB driver does not support TransactionMode::Immediate");
    let e = c.transaction_step(&TransactionOp::Commit).unwrap_err();
    assert_eq!(e.message, "cannot commit without an active SurrealDB transaction");
    let e = c.transaction_step(&TransactionOp::Rollback).unwrap_err();
    assert_eq!(e.message, "cannot roll back without an active SurrealDB transaction");
    c.begun(false);
    let e = c.transaction_step(&TransactionOp::Savepoint("sp".to_string())).unwrap_err();
    assert_eq!(e.kind, ErrorKind::UnsupportedFeature);
    assert!(c.in_transaction());
    assert_eq!(c.transaction_step(&TransactionOp::Commit).unwrap(), TransactionAction::Commit);
    assert!(!c.in_transaction());
}

#[test]
fn migrations_are_refused_inside_a_user_transaction() {
    let mut c = Connection::new();
    assert!(c.ensure_no_active_transaction("apply a migration").is_ok());
    c.begun(false);
    let e = c.ensure_no_active_transaction("apply a migration").unwrap_err();
    assert_eq!(e.kind, ErrorKind::InvalidStatement);
    assert_eq!(e.message, "cannot apply a migration while a SurrealDB transaction is active");
}

#[test]
fn raw_sql_and_other_statements_are_unsupported() {
    let c = Connection::new();
    assert_eq!(c.route(&OperationKind::RawSql).unwrap_err().kind, ErrorKind::UnsupportedFeature);
    let e = c.route(&OperationKind::QuerySql("Update".to_string())).unwrap_err();
    assert_eq!(e.message, "SurrealDB driver only accepts insert statements via QuerySql, got: Update");
    let e = c.route(&OperationKind::Insert { carries_insert: false }).unwrap_err();
    assert_eq!(e.kind, ErrorKind::InvalidStatement);
}

#[test]
fn tracking_queries_name_the_tracking_table() {
    assert_eq!(tracking_table_sql(), "DEFINE TABLE IF NOT EXISTS `__toasty_migrations` SCHEMALESS");
    assert_eq!(applied_migrations_sql(), "SELECT record::id(id) AS `migration_id` FROM `__toasty_migrations`");
    let q = record_migration_query(18446744073709551615, "full-u64");
    assert_eq!(q.sql, "CREATE $migration_record SET name = $migration_name, applied_at = time::now() RETURN NONE");
    assert!(matches!(&q.binds[0].1, SurValue::RecordId(rid) if rid.table == "__toasty_migrations" && matches!(&rid.key, RecordKey::String(k) if k == "18446744073709551615")));
    assert!(matches!(&q.binds[1].1, SurValue::String(n) if n == "full-u64"));
}

#[test]
fn parses_migration_ids_as_u64() {
    assert_eq!(parse_u64("18446744073709551615"), Some(u64::MAX));
    assert_eq!(parse_u64("18446744073709551616"), None);
    assert_eq!(parse_u64("+7"), Some(7));
    assert_eq!(parse_u64("+"), None);
    assert_eq!(parse_u64(""), None);
    assert_eq!(parse_u64("not-a-u64"), None);
    assert_eq!(parse_u64("-1"), None);
}

fn tracking_row(id: &str) -> SurValue {
    SurValue::Object(vec![("migration_id".to_string(), SurValue::String(id.to_string()))])
}

#[test]
fn malformed_tracking_rows_are_sanitized_serialization_errors() {
    assert_eq!(parse_applied_migrations(&vec![tracking_row("10"), tracking_row("11")]).unwrap(), vec![10, 11]);
    let e = parse_applied_migrations(&vec![tracking_row("10"), tracking_row("not-a-u64")]).unwrap_err();
    assert_eq!(e.kind, ErrorKind::SerializationFailure);
    assert!(!e.message.contains("not-a-u64"));
    assert!(parse_applied_migrations(&vec![SurValue::Null]).is_err());
}

#[test]
fn blank_statements_are_skipped() {
    assert!(blank(" \t\n\u{3000}"));
    assert!(!blank(" RETURN NONE "));
    let statements = vec!["DEFINE TABLE t SCHEMALESS".to_string(), "  \n".to_string(), "RETURN NONE".to_string()];
    assert_eq!(runnable_statements(&statements), vec![0, 2]);
}

#[test]
fn a_recorded_migration_id_reads_back_as_itself() {
    for id in [0u64, 7, i64::MAX as u64 + 1, u64::MAX] {
        let q = record_migration_query(id, "m");
        let key = match &q.binds[0].1 {
            SurValue::RecordId(rid) => match &rid.key {
                RecordKey::String(k) => k.clone(),
                other => panic!("expected a text key, got {other:?}"),
            },
            other => panic!("expected a record id, got {other:?}"),
        };
        assert_eq!(parse_applied_migrations(&vec![tracking_row(&key)]).unwrap(), vec![id]);
    }
}

#[test]
fn a_migration_runs_its_statements_then_records_then_commits() {
    let runnable = vec![0usize, 2];
    assert_eq!(migration_step(&runnable, MigrationStage::Begin, true), MigrationAction::Run { position: 0, index: 0 });
    assert_eq!(migration_step(&runnable, MigrationStage::Statement(0), true), MigrationAction::Run { position: 1, index: 2 });
    assert_eq!(migration_step(&runnable, MigrationStage::Statement(1), true), MigrationAction::Record);
    assert_eq!(migration_step(&runnable, MigrationStage::Record, true), MigrationAction::Commit);
    assert_eq!(migration_step(&runnable, MigrationStage::Commit, true), MigrationAction::Succeed);
    assert_eq!(migration_step(&vec![], MigrationStage::Begin, true), MigrationAction::Record);
}

#[test]
fn a_failed_migration_is_cancelled() {
    let runnable = vec![0usize, 1];
    assert_eq!(migration_step(&runnable, MigrationStage::Begin, false), MigrationAction::Fail(MigrationFailure::Begin));
    assert_eq!(migration_step(&runnable, MigrationStage::Statement(1), false), MigrationAction::Cancel);
    assert_eq!(migration_step(&runnable, MigrationStage::Record, false), MigrationAction::Cancel);
    assert_eq!(migration_step(&runnable, MigrationStage::Cancel, true), MigrationAction::Fail(MigrationFailure::Apply));
    assert_eq!(migration_step(&runnable, MigrationStage::Cancel, false), MigrationAction::Fail(MigrationFailure::Cancel));
    assert_eq!(migration_step(&runnable, MigrationStage::Commit, false), MigrationAction::Fail(MigrationFailure::Commit));
}
