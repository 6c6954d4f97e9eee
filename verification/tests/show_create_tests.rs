use catalog_ddl::metadata::{Column, Options, Table, TableSchema};
use catalog_ddl::show_create::{
    Error, Output, ShowCreateInInterpreter, ShowCreateObject, ShowCreatePlan,
};
use std::sync::Arc;

fn col(name: &str, data_type: &str, nullable: bool, tag: bool, comment: &str) -> Column {
    Column {
        name: name.to_string(),
        data_type: data_type.to_string(),
        is_nullable: nullable,
        is_tag: tag,
        comment: comment.to_string(),
    }
}

fn table(
    name: &str,
    columns: Vec<Column>,
    keys: &[&str],
    ts: &str,
    engine: &str,
    opts: &[(&str, &str)],
) -> Table {
    let mut options = Options::new();
    for (k, v) in opts {
        options.insert(k.to_string(), v.to_string());
    }
    Table {
        name: name.to_string(),
        schema: TableSchema {
            columns,
            key_columns: keys.iter().map(|s| s.to_string()).collect(),
            timestamp_name: ts.to_string(),
        },
        engine_type: engine.to_string(),
        options,
    }
}

fn metrics_table() -> Table {
    table(
        "metrics",
        vec![
            col("ts", "Timestamp", false, false, ""),
            col("host", "String", false, true, ""),
        ],
        &["host", "ts"],
        "ts",
        "Analytic",
        &[("ttl", "7d")],
    )
}

#[test]
fn round_trip_metrics_table() {
    let sql = ShowCreateInInterpreter::render_table_sql(Arc::new(metrics_table()));
    assert_eq!(
        sql,
        "CREATE TABLE `metrics` (`ts` Timestamp NOT NULL, `host` String TAG NOT NULL, \
         PRIMARY KEY(host,ts), TIMESTAMP KEY(ts)) ENGINE=Analytic WITH(ttl='7d')"
    );
}

#[test]
fn option_rendering_is_sorted_by_key() {
    let mut o = Options::new();
    o.insert("zebra".to_string(), "1".to_string());
    o.insert("alpha".to_string(), "2".to_string());
    assert_eq!(
        ShowCreateInInterpreter::render_options(&o),
        " WITH(alpha='2', zebra='1')"
    );
}

#[test]
fn option_rendering_is_order_independent() {
    let mut a = Options::new();
    a.insert("zebra".to_string(), "1".to_string());
    a.insert("alpha".to_string(), "2".to_string());
    let mut b = Options::new();
    b.insert("alpha".to_string(), "2".to_string());
    b.insert("zebra".to_string(), "1".to_string());
    assert_eq!(
        ShowCreateInInterpreter::render_options(&a),
        ShowCreateInInterpreter::render_options(&b)
    );
}

#[test]
fn option_insert_overwrites_earlier_value() {
    let mut o = Options::new();
    o.insert("ttl".to_string(), "7d".to_string());
    o.insert("ttl".to_string(), "30d".to_string());
    assert_eq!(ShowCreateInInterpreter::render_options(&o), " WITH(ttl='30d')");
}

#[test]
fn option_keys_sort_with_prefixes_first() {
    let mut o = Options::new();
    o.insert("ab".to_string(), "2".to_string());
    o.insert("a".to_string(), "1".to_string());
    assert_eq!(
        ShowCreateInInterpreter::render_options(&o),
        " WITH(a='1', ab='2')"
    );
}

#[test]
fn zero_options_omit_the_with_clause() {
    let t = metrics_table();
    assert_eq!(
        ShowCreateInInterpreter::render_options(t.options()),
        " WITH(ttl='7d')"
    );
    let o = Options::new();
    assert_eq!(ShowCreateInInterpreter::render_options(&o), "");
    let t = table(
        "bare",
        vec![col("ts", "Timestamp", false, false, "")],
        &["ts"],
        "ts",
        "Analytic",
        &[],
    );
    let sql = ShowCreateInInterpreter::render_table_sql(Arc::new(t));
    assert_eq!(
        sql,
        "CREATE TABLE `bare` (`ts` Timestamp NOT NULL, PRIMARY KEY(ts), \
         TIMESTAMP KEY(ts)) ENGINE=Analytic"
    );
}

#[test]
fn column_clauses_follow_declared_order() {
    let t = table(
        "t",
        vec![col("a", "T", true, true, ""), col("b", "T", false, false, "c")],
        &[],
        "ts",
        "E",
        &[],
    );
    let rendered = ShowCreateInInterpreter::render_columns_and_constrains(&Arc::new(t));
    assert_eq!(
        rendered,
        "`a` T TAG, `b` T NOT NULL COMMENT 'c', PRIMARY KEY(), TIMESTAMP KEY(ts)"
    );
}

#[test]
fn zero_columns_still_render_the_key_clauses() {
    let t = table("x", vec![], &[], "t", "E", &[]);
    let sql = ShowCreateInInterpreter::render_table_sql(Arc::new(t));
    assert_eq!(sql, "CREATE TABLE `x` (PRIMARY KEY(), TIMESTAMP KEY(t)) ENGINE=E");
}

#[test]
fn execute_renders_one_row_with_two_columns() {
    let plan = ShowCreatePlan {
        table: Arc::new(metrics_table()),
        obj_type: ShowCreateObject::Table,
    };
    let interpreter = ShowCreateInInterpreter::create(plan);
    let out = interpreter.execute().unwrap();
    let Output::Records(batches) = out;
    assert_eq!(batches.len(), 1);
    let batch = &batches[0];
    assert_eq!(batch.fields.len(), 2);
    assert_eq!(batch.fields[0].name, "Table");
    assert!(!batch.fields[0].nullable);
    assert_eq!(batch.fields[1].name, "Create Table");
    assert!(!batch.fields[1].nullable);
    assert_eq!(batch.rows.len(), 1);
    assert_eq!(batch.rows[0].len(), 2);
    assert_eq!(batch.rows[0][0], "metrics");
    assert_eq!(
        batch.rows[0][1],
        "CREATE TABLE `metrics` (`ts` Timestamp NOT NULL, `host` String TAG NOT NULL, \
         PRIMARY KEY(host,ts), TIMESTAMP KEY(ts)) ENGINE=Analytic WITH(ttl='7d')"
    );
}

#[test]
fn non_table_object_kind_is_rejected() {
    let plan = ShowCreatePlan {
        table: Arc::new(metrics_table()),
        obj_type: ShowCreateObject::View,
    };
    let interpreter = ShowCreateInInterpreter::create(plan);
    match interpreter.execute() {
        Err(Error::UnsupportedType { obj_type }) => {
            assert_eq!(obj_type, ShowCreateObject::View);
        }
        Ok(_) => panic!("a non-table object kind must be rejected"),
    }
}
