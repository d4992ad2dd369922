use altiumdb::db::{add_column_sql, base_column_names, sql_param, Component};
use altiumdb::statements::{
    add_component_sql, columns_sql, custom_value_query, delete_sql, ensure_table_statements,
    insert_columns, insert_values, migration_statements, mpn_count_sql, numbered_params,
    set_custom_value_statement, table_exists_sql, update_statement,
};
use rusqlite::Connection;

fn exec(c: &Connection, sql: &str, vals: &[String]) -> usize {
    c.prepare(sql)
        .unwrap()
        .execute(rusqlite::params_from_iter(vals.iter()))
        .unwrap()
}

fn columns(c: &Connection, t: &str) -> Vec<String> {
    c.prepare(&columns_sql(false, t))
        .unwrap()
        .query_map([], |r| r.get(1))
        .unwrap()
        .collect::<Result<_, _>>()
        .unwrap()
}

fn table_exists(c: &Connection, t: &str) -> bool {
    c.query_row(&table_exists_sql(false), [t], |r| r.get::<_, i64>(0))
        .unwrap()
        != 0
}

fn ensure_table(c: &Connection, t: &str) {
    let exists = table_exists(c, t);
    let cols = if exists { columns(c, t) } else { Vec::new() };
    for sql in ensure_table_statements(false, t, exists, &cols) {
        exec(c, &sql, &[]);
    }
}

fn add_component(c: &Connection, t: &str, x: &Component) -> i64 {
    let table_columns = columns(c, t);
    let cols = insert_columns(&table_columns);
    let vals = insert_values(x, &table_columns, &Vec::new());
    let ps = numbered_params(false, cols.len());
    exec(c, &add_component_sql(false, t, &cols, &ps, false), &vals);
    c.last_insert_rowid()
}

fn mpn_exists(c: &Connection, t: &str, m: &str) -> bool {
    c.query_row(&mpn_count_sql(t, &sql_param(false, 1)), [m], |r| r.get::<_, i64>(0))
        .unwrap()
        > 0
}

fn update_component(c: &Connection, t: &str, x: &Component) {
    let ps = numbered_params(false, base_column_names().len());
    let (sql, vals) = update_statement(false, t, x, &ps);
    exec(c, &sql, &vals);
}

#[test]
fn sqlite_unified_crud_and_custom_fields() {
    let db = Connection::open_in_memory().unwrap();
    let t = "Parts \"quoted\"";
    ensure_table(&db, t);
    exec(&db, &add_column_sql(t, "Custom Field"), &[]);
    let id = add_component(
        &db,
        t,
        &Component {
            mpn: "R-1".into(),
            manufacturer: "Acme".into(),
            ..Default::default()
        },
    );
    assert!(mpn_exists(&db, t, "R-1"));
    let (sql, vals) =
        set_custom_value_statement(false, t, &id.to_string(), "Custom Field", "x", "?");
    exec(&db, &sql, &vals);
    let (sql, param) = custom_value_query(false, t, &id.to_string(), "Custom Field");
    let value: Option<String> = db.query_row(&sql, [param], |r| r.get(0)).unwrap();
    assert_eq!(value.unwrap_or_default(), "x");
    update_component(
        &db,
        t,
        &Component {
            id: id.to_string(),
            mpn: "R-2".into(),
            ..Default::default()
        },
    );
    assert!(mpn_exists(&db, t, "R-2"));
    exec(&db, &delete_sql(false, t), &[id.to_string()]);
    assert!(!mpn_exists(&db, t, "R-2"));
}

#[test]
fn migration_runs_on_an_old_table() {
    let db = Connection::open_in_memory().unwrap();
    exec(
        &db,
        "CREATE TABLE \"Old\" (\"id\" INTEGER PRIMARY KEY AUTOINCREMENT, \"Design Item ID\" TEXT NOT NULL DEFAULT '', \"Comment\" TEXT NOT NULL DEFAULT '', \"Manufacturer\" TEXT NOT NULL DEFAULT '', \"Description\" TEXT NOT NULL DEFAULT '', \"Verified\" BIGINT NOT NULL DEFAULT 0, \"Library Ref\" TEXT NOT NULL DEFAULT '', \"Footprint Ref\" TEXT NOT NULL DEFAULT '')",
        &[],
    );
    for sql in migration_statements("Old", &columns(&db, "Old")) {
        exec(&db, &sql, &[]);
    }
    let cols = columns(&db, "Old");
    assert!(cols.contains(&"MPN".to_string()));
    assert!(!cols.contains(&"Comment".to_string()));
    assert!(migration_statements("Old", &cols).is_empty());
    let id = add_component(
        &db,
        "Old",
        &Component {
            mpn: "C1".into(),
            ..Default::default()
        },
    );
    assert!(id > 0);
    assert!(mpn_exists(&db, "Old", "C1"));
}
