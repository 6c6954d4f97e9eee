use catalog_ddl::metadata::{Column, Options, Table, TableSchema};
use catalog_ddl::system_tables::{
    CatalogError, CreateOptions, CreateTableRequest, DropOptions, DropTableRequest,
    SystemTablesBuilder,
};
use std::sync::Arc;

fn empty_options() -> Options {
    Options::new()
}

fn simple_table(name: &str, engine: &str) -> Table {
    Table {
        name: name.to_string(),
        schema: TableSchema {
            columns: vec![Column {
                name: "ts".to_string(),
                data_type: "Timestamp".to_string(),
                is_nullable: false,
                is_tag: false,
                comment: String::new(),
            }],
            key_columns: vec!["ts".to_string()],
            timestamp_name: "ts".to_string(),
        },
        engine_type: engine.to_string(),
        options: empty_options(),
    }
}

#[test]
fn builder_last_insert_wins() {
    let st = SystemTablesBuilder::new()
        .insert_table(simple_table("numbers", "First"))
        .insert_table(simple_table("words", "Only"))
        .insert_table(simple_table("numbers", "Second"))
        .build();
    let found = st.table_by_name("numbers").unwrap().unwrap();
    assert_eq!(found.name().as_str(), "numbers");
    assert_eq!(found.engine_type().as_str(), "Second");
    assert_eq!(found.schema().timestamp_name, "ts");
    let other = st.table_by_name("words").unwrap().unwrap();
    assert_eq!(other.engine_type, "Only");
}

#[test]
fn table_by_name_missing_is_none_not_error() {
    let st = SystemTablesBuilder::new()
        .insert_table(simple_table("numbers", "Analytic"))
        .build();
    let r = st.table_by_name("absent").unwrap();
    assert!(r.is_none());
    let r = st.table_by_name("").unwrap();
    assert!(r.is_none());
}

#[test]
fn empty_registry_finds_nothing() {
    let st = SystemTablesBuilder::new().build();
    assert!(st.table_by_name("anything").unwrap().is_none());
    assert_eq!(st.all_tables().unwrap().len(), 0);
}

#[test]
fn all_tables_returns_each_registered_handle() {
    let st = SystemTablesBuilder::new()
        .insert_table(simple_table("one", "A"))
        .insert_table(simple_table("two", "B"))
        .build();
    let all = st.all_tables().unwrap();
    assert_eq!(all.len(), 2);
    let mut names: Vec<String> = all.iter().map(|t| t.name.clone()).collect();
    names.sort();
    assert_eq!(names, vec!["one".to_string(), "two".to_string()]);
}

#[test]
fn all_tables_deduplicates_overwritten_names() {
    let st = SystemTablesBuilder::new()
        .insert_table(simple_table("numbers", "First"))
        .insert_table(simple_table("numbers", "Second"))
        .build();
    let all = st.all_tables().unwrap();
    assert_eq!(all.len(), 1);
    assert_eq!(all[0].engine_type, "Second");
}

#[test]
fn schema_and_catalog_names_are_fixed() {
    let st = SystemTablesBuilder::new().build();
    assert_eq!(st.name(), "public");
    assert_eq!(st.catalog_name(), "system");
}

#[test]
fn schema_by_name_exact_match_only() {
    let st = SystemTablesBuilder::new()
        .insert_table(simple_table("numbers", "Analytic"))
        .build();
    let hit = st.schema_by_name("public").unwrap();
    assert!(hit.is_some());
    let schema = hit.unwrap();
    let t = schema.table_by_name("numbers").unwrap().unwrap();
    assert_eq!(t.name, "numbers");
    assert!(st.schema_by_name("system").unwrap().is_none());
    assert!(st.schema_by_name("Public").unwrap().is_none());
    assert!(st.schema_by_name("").unwrap().is_none());
}

fn assert_unsupported<T>(r: Result<T, CatalogError>) {
    match r {
        Err(CatalogError::UnSupported { msg }) => {
            assert_eq!(msg, "system tables not supported");
        }
        Ok(_) => panic!("expected the unsupported error"),
    }
}

#[test]
fn every_mutation_fails_with_the_same_taxonomy_value() {
    let st = SystemTablesBuilder::new()
        .insert_table(simple_table("numbers", "Analytic"))
        .build();
    assert_unsupported(st.alloc_table_id("numbers"));
    assert_unsupported(st.alloc_table_id(""));
    assert_unsupported(st.create_table(
        CreateTableRequest { table_name: "fresh".to_string() },
        CreateOptions { create_if_not_exists: true },
    ));
    assert_unsupported(st.drop_table(
        DropTableRequest { table_name: "numbers".to_string() },
        DropOptions { ignore_missing: false },
    ));
    assert_unsupported(st.create_schema("another"));
}

#[test]
fn all_schemas_enumeration_is_unsupported() {
    let st = SystemTablesBuilder::new().build();
    match st.all_schemas() {
        Err(CatalogError::UnSupported { msg }) => {
            assert_eq!(msg, "system tables not supported")
        }
        Ok(_) => panic!("expected the unsupported error"),
    }
}

#[test]
fn registry_clone_serves_the_same_tables() {
    let st = SystemTablesBuilder::new()
        .insert_table(simple_table("numbers", "Analytic"))
        .build();
    let st2 = st.clone();
    let t = st2.table_by_name("numbers").unwrap().unwrap();
    assert_eq!(t.engine_type, "Analytic");
    assert!(st2.table_by_name("absent").unwrap().is_none());
}

#[test]
fn registry_handles_are_shared() {
    let st = SystemTablesBuilder::new()
        .insert_table(simple_table("numbers", "Analytic"))
        .build();
    let a = st.table_by_name("numbers").unwrap().unwrap();
    let b = st.table_by_name("numbers").unwrap().unwrap();
    assert!(Arc::ptr_eq(&a, &b));
}
