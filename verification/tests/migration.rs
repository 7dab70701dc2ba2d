use toasty_driver_surreal::migration::{diffs_ok, generate, ColumnDiff, IndexDiff, TableDiff};
use toasty_driver_surreal::schema::{table_ok, Column, ColumnId, Index, Scalar, StorageType, Table, Type};

fn schema(table_name: &str, value_name: &str) -> Table {
    let id = ColumnId { table: 0, index: 0 };
    let value = ColumnId { table: 0, index: 1 };
    Table {
        id: 0,
        name: table_name.to_string(),
        columns: vec![
            Column {
                id,
                name: "id".to_string(),
                ty: Type::Scalar(Scalar::I64),
                storage_ty: StorageType::Integer(8),
            },
            Column {
                id: value,
                name: value_name.to_string(),
                ty: Type::Scalar(Scalar::String),
                storage_ty: StorageType::Text,
            },
        ],
        primary_key: vec![id],
        indices: vec![
            Index {
                name: "items_pk".to_string(),
                columns: vec![id],
                unique: true,
                primary_key: true,
            },
            Index {
                name: "items_value".to_string(),
                columns: vec![value],
                unique: false,
                primary_key: false,
            },
        ],
    }
}

fn copy_column(c: &Column) -> Column {
    Column {
        id: c.id,
        name: c.name.clone(),
        ty: c.ty.duplicate(),
        storage_ty: copy_storage(&c.storage_ty),
    }
}

fn copy_storage(s: &StorageType) -> StorageType {
    match s {
        StorageType::Integer(n) => StorageType::Integer(*n),
        StorageType::Text => StorageType::Text,
        StorageType::Json => StorageType::Json,
        other => panic!("unexpected storage type in test schema: {other:?}"),
    }
}

fn copy_index(i: &Index) -> Index {
    Index {
        name: i.name.clone(),
        columns: i.columns.clone(),
        unique: i.unique,
        primary_key: i.primary_key,
    }
}

fn copy_table(t: &Table) -> Table {
    Table {
        id: t.id,
        name: t.name.clone(),
        columns: t.columns.iter().map(copy_column).collect(),
        primary_key: t.primary_key.clone(),
        indices: t.indices.iter().map(copy_index).collect(),
    }
}

fn statements(diff: Vec<TableDiff>) -> Vec<String> {
    generate(&diff)
}

#[test]
fn creates_and_drops_tables_with_secondary_indices() {
    let items = schema("items", "value");

    let create = statements(vec![TableDiff::Create(copy_table(&items))]);
    assert_eq!(
        create,
        vec![
            "DEFINE TABLE `items` SCHEMALESS",
            "DEFINE INDEX `items_value` ON TABLE `items` COLUMNS `value`",
        ]
    );
    assert!(create.iter().all(|statement| !statement.contains("items_pk")));

    assert_eq!(
        statements(vec![TableDiff::Drop(copy_table(&items))]),
        vec!["REMOVE TABLE `items`"]
    );
}

#[test]
fn alters_secondary_index_by_removing_then_defining() {
    let previous = schema("items", "value");
    let mut next = copy_table(&previous);
    next.indices[1].unique = true;
    let index_change = IndexDiff::Alter {
        previous: copy_index(&previous.indices[1]),
        next: copy_index(&next.indices[1]),
    };
    let statements = statements(vec![TableDiff::Alter {
        previous,
        next,
        columns: vec![],
        indices: vec![index_change],
    }]);

    assert_eq!(
        statements,
        vec![
            "REMOVE INDEX `items_value` ON TABLE `items`",
            "DEFINE INDEX `items_value` ON TABLE `items` COLUMNS `value` UNIQUE",
        ]
    );
}

#[test]
fn schemaless_add_is_noop_and_drop_unsets_stored_data() {
    let full = schema("items", "value");
    let mut id_only = copy_table(&full);
    id_only.columns.pop();
    id_only.indices.pop();

    assert_eq!(
        statements(vec![TableDiff::Alter {
            previous: copy_table(&id_only),
            next: copy_table(&full),
            columns: vec![ColumnDiff::Add(copy_column(&full.columns[1]))],
            indices: vec![IndexDiff::Create(copy_index(&full.indices[1]))],
        }]),
        vec!["DEFINE INDEX `items_value` ON TABLE `items` COLUMNS `value`"]
    );
    assert_eq!(
        statements(vec![TableDiff::Alter {
            previous: copy_table(&full),
            next: copy_table(&id_only),
            columns: vec![ColumnDiff::Drop(copy_column(&full.columns[1]))],
            indices: vec![IndexDiff::Drop(copy_index(&full.indices[1]))],
        }]),
        vec![
            "REMOVE INDEX `items_value` ON TABLE `items`",
            "UPDATE `items` UNSET `value` RETURN NONE",
        ]
    );

    let mut no_index_full = copy_table(&full);
    no_index_full.indices.pop();
    assert_eq!(
        statements(vec![TableDiff::Alter {
            previous: copy_table(&id_only),
            next: copy_table(&no_index_full),
            columns: vec![ColumnDiff::Add(copy_column(&full.columns[1]))],
            indices: vec![],
        }]),
        vec!["RETURN NONE"]
    );
}

#[test]
fn column_rename_moves_data_and_rebuilds_unchanged_index() {
    let previous = schema("items", "value");
    let next = schema("items", "renamed");
    let rename = ColumnDiff::Alter {
        previous: copy_column(&previous.columns[1]),
        next: copy_column(&next.columns[1]),
    };

    assert_eq!(
        statements(vec![TableDiff::Alter {
            previous,
            next,
            columns: vec![rename],
            indices: vec![],
        }]),
        vec![
            "REMOVE INDEX `items_value` ON TABLE `items`",
            "DEFINE INDEX `items_value` ON TABLE `items` COLUMNS `renamed`",
            "UPDATE `items` SET `renamed` = `value` WHERE `value` IS NOT NONE RETURN NONE",
            "UPDATE `items` UNSET `value` RETURN NONE",
        ]
    );
}

#[test]
fn unsafe_changes_emit_guards_instead_of_panicking() {
    let previous = schema("items", "value");
    let mut typed = copy_table(&previous);
    typed.columns[1].storage_ty = StorageType::Json;
    let retype = ColumnDiff::Alter {
        previous: copy_column(&previous.columns[1]),
        next: copy_column(&typed.columns[1]),
    };

    let typed_statements = statements(vec![TableDiff::Alter {
        previous: copy_table(&previous),
        next: typed,
        columns: vec![retype],
        indices: vec![],
    }]);
    assert_eq!(typed_statements.len(), 1);
    assert!(typed_statements[0].starts_with("THROW 'manual migration required:"));
    assert!(typed_statements[0].contains("column type change"));

    let renamed = schema("renamed_items", "value");
    let rename_statements = statements(vec![TableDiff::Alter {
        previous,
        next: renamed,
        columns: vec![],
        indices: vec![],
    }]);
    assert_eq!(rename_statements.len(), 1);
    assert!(rename_statements[0].contains("table rename"));
}

#[test]
fn primary_key_alias_rename_is_a_physical_noop() {
    let previous = schema("items", "value");
    let mut next = copy_table(&previous);
    next.columns[0].name = "renamed_id".to_string();
    let rename = ColumnDiff::Alter {
        previous: copy_column(&previous.columns[0]),
        next: copy_column(&next.columns[0]),
    };

    assert_eq!(
        statements(vec![TableDiff::Alter {
            previous,
            next,
            columns: vec![rename],
            indices: vec![],
        }]),
        vec!["RETURN NONE"]
    );
}

#[test]
fn manual_guard_escapes_quotes_and_backslashes() {
    assert_eq!(
        toasty_driver_surreal::migration::manual_guard("it's a \\ test"),
        "THROW 'manual migration required: it\\'s a \\\\ test'"
    );
}

#[test]
fn push_unique_skips_a_statement_already_present() {
    let mut statements = vec!["A".to_string()];
    toasty_driver_surreal::migration::push_unique(&mut statements, "B".to_string());
    toasty_driver_surreal::migration::push_unique(&mut statements, "A".to_string());
    assert_eq!(statements, vec!["A", "B"]);
}

#[test]
fn define_table_statements_for_push_schema_are_idempotent() {
    let items = schema("items", "value");
    assert_eq!(
        toasty_driver_surreal::migration::define_table_statements(&items, true),
        vec![
            "DEFINE TABLE IF NOT EXISTS `items` SCHEMALESS",
            "DEFINE INDEX IF NOT EXISTS `items_value` ON TABLE `items` COLUMNS `value`",
        ]
    );
}

#[test]
fn schema_changes_are_checked_against_their_tables() {
    let good = schema("items", "value");
    assert!(table_ok(&good));
    let mut bad = schema("items", "value");
    bad.primary_key = vec![ColumnId { table: 0, index: 5 }];
    assert!(!table_ok(&bad));
    let stray = Index { name: "stray".to_string(), columns: vec![ColumnId { table: 0, index: 9 }], unique: false, primary_key: false };
    let alter = TableDiff::Alter {
        previous: schema("items", "value"),
        next: schema("items", "value"),
        columns: vec![],
        indices: vec![IndexDiff::Create(stray)],
    };
    assert!(!diffs_ok(&vec![alter]));
    assert!(diffs_ok(&vec![TableDiff::Create(schema("items", "value"))]));
}
