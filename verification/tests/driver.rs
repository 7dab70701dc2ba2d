use toasty_driver_surreal::driver::{surrealdb_capability, Engine};
use toasty_driver_surreal::SurrealDb;

#[test]
fn capability_is_key_value() {
    let cap = surrealdb_capability();
    assert!(cap.sql.is_none());
    assert!(cap.sql_placeholder.is_none());
    assert!(cap.scan);
    assert!(!cap.scan_supports_sort);
    assert!(cap.index_or_predicate);
    assert!(cap.upsert_primary_key);
    assert!(cap.native_json);
    assert!(!cap.native_jsonb);
}

#[test]
fn capability_reports_json_but_not_jsonb() {
    let driver = SurrealDb::mem();
    assert!(driver.capability().native_json);
    assert!(!driver.capability().native_jsonb);
}

#[test]
fn drivers_default_to_the_toasty_namespace_and_database() {
    let d = SurrealDb::mem();
    assert_eq!(d.namespace, "toasty");
    assert_eq!(d.database, "toasty");
    assert_eq!(d.url(), "surrealdb:mem");
    assert_eq!(d.max_connections(), Some(1));
    assert!(d.data_path().is_none());
}

#[test]
fn file_backed_drivers_name_their_path() {
    let d = SurrealDb::surrealkv("/tmp/data".to_string()).namespace("ns".to_string()).database("db".to_string());
    assert!(matches!(&d.engine, Engine::SurrealKv(p) if p == "/tmp/data"));
    assert_eq!(d.url(), "surrealdb:surrealkv:/tmp/data");
    assert_eq!(d.namespace, "ns");
    assert_eq!(d.database, "db");
    assert_eq!(d.max_connections(), None);
    assert_eq!(d.data_path().map(|p| p.as_str()), Some("/tmp/data"));
    assert_eq!(SurrealDb::rocksdb("r".to_string()).url(), "surrealdb:rocksdb:r");
}

#[test]
fn capability_is_valid() {
    let profile = surrealdb_capability();
    let cap = toasty_core::driver::Capability {
        driver_name: "SurrealDB",
        sql: None,
        sql_placeholder: None,
        scan: profile.scan,
        scan_supports_sort: profile.scan_supports_sort,
        index_or_predicate: profile.index_or_predicate,
        upsert_primary_key: profile.upsert_primary_key,
        primary_key_ne_predicate: profile.primary_key_ne_predicate,
        native_json: profile.native_json,
        native_jsonb: profile.native_jsonb,
        ..toasty_core::driver::Capability::DYNAMODB
    };
    cap.validate()
        .expect("SurrealDB capability profile must satisfy toasty-core invariants");
}
