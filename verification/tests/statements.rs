use altiumdb::db::Component;
use altiumdb::statements::{
    add_component_sql, clone_component_sql, clone_table_columns, columns_sql, copy_rows_sql,
    custom_value_query, delete_sql, ensure_table_statements, insert_columns, insert_sql,
    insert_values, marked_mpn_of, migration_statements, mpn_count_sql, mpn_like_sql, mpn_pattern,
    not_found_message, numbered_params, pg_column_cast, row_insert_entries,
    set_custom_value_statement, table_exists_sql, tables_sql, update_statement,
};

fn strings(v: &[&str]) -> Vec<String> {
    v.iter().map(|s| s.to_string()).collect()
}

fn pairs(v: &[(&str, &str)]) -> Vec<(String, String)> {
    v.iter().map(|(k, x)| (k.to_string(), x.to_string())).collect()
}

const BASE: [&str; 18] = [
    "MPN",
    "Manufacturer",
    "Description",
    "Verified",
    "Library Ref",
    "Library Path",
    "Footprint Ref",
    "Footprint Path",
    "Footprint Ref 2",
    "Footprint Path 2",
    "Footprint Ref 3",
    "Footprint Path 3",
    "ComponentLink1Description",
    "ComponentLink1URL",
    "ComponentLink2Description",
    "ComponentLink2URL",
    "ComponentLink3Description",
    "ComponentLink3URL",
];

#[test]
fn marked_ids_name_an_mpn() {
    assert_eq!(marked_mpn_of("__mpn__R-1"), Some("R-1".to_string()));
    assert_eq!(marked_mpn_of("__mpn__"), Some(String::new()));
    assert_eq!(marked_mpn_of("12"), None);
    assert_eq!(
        not_found_message("7", "Parts"),
        "component '7' was not found in table 'Parts'"
    );
}

#[test]
fn insert_columns_and_values_line_up() {
    let table = strings(&["id", "MPN", "Tolerance", "Manufacturer", "Power"]);
    let cols = insert_columns(&table);
    let mut expected = strings(&BASE);
    expected.push("Tolerance".to_string());
    expected.push("Power".to_string());
    assert_eq!(cols, expected);

    let mut c = Component::default();
    c.mpn = "R1".to_string();
    c.verified = true;
    let vals = insert_values(&c, &table, &pairs(&[("Power", "0.1W"), ("Other", "x")]));
    assert_eq!(vals.len(), cols.len());
    assert_eq!(vals[0], "R1");
    assert_eq!(vals[3], "1");
    assert_eq!(vals[18], "");
    assert_eq!(vals[19], "0.1W");
}

#[test]
fn insert_statements() {
    assert_eq!(numbered_params(false, 3), strings(&["?", "?", "?"]));
    assert_eq!(numbered_params(true, 2), strings(&["$1", "$2"]));
    let cols = strings(&["MPN", "Value"]);
    let ps = strings(&["?", "?"]);
    assert_eq!(
        insert_sql("Parts \"x\"", &cols, &ps),
        "INSERT INTO \"Parts \"\"x\"\"\" (\"MPN\",\"Value\") VALUES (?,?)"
    );
    assert_eq!(
        add_component_sql(false, "P", &cols, &ps, false),
        "INSERT INTO \"P\" (\"MPN\",\"Value\") VALUES (?,?)"
    );
    let pg = strings(&["CAST($1::text AS text)", "CAST($2::text AS text)"]);
    assert_eq!(
        add_component_sql(true, "P", &cols, &pg, true),
        "INSERT INTO \"P\" (\"MPN\",\"Value\") VALUES (CAST($1::text AS text),CAST($2::text AS text)) RETURNING \"id\""
    );
    assert_eq!(
        add_component_sql(true, "P", &cols, &pg, false),
        "INSERT INTO \"P\" (\"id\", \"MPN\",\"Value\") SELECT COALESCE(MAX(\"id\"), 0) + 1, CAST($1::text AS text),CAST($2::text AS text) FROM \"P\" RETURNING \"id\""
    );
    assert_eq!(
        mpn_count_sql("P", "?"),
        "SELECT COUNT(*) FROM \"P\" WHERE \"MPN\"=?"
    );
}

#[test]
fn postgres_column_casts() {
    assert_eq!(
        pg_column_cast("P", "Verified", 4, Some(("bigint".to_string(), "N".to_string()))),
        Ok("CAST(NULLIF($4::text, '') AS bigint)".to_string())
    );
    assert_eq!(
        pg_column_cast("P", "Nope", 1, None),
        Err("PostgreSQL column 'Nope' was not found in table 'P'".to_string())
    );
}

#[test]
fn update_statements_pick_the_row() {
    let mut c = Component::default();
    c.id = "__mpn__OLD".to_string();
    c.mpn = "NEW".to_string();
    let q: Vec<String> = (0..18).map(|_| "?".to_string()).collect();
    let (sql, vals) = update_statement(false, "P", &c, &q);
    let sets: Vec<String> = BASE.iter().map(|c| format!("\"{c}\"=?")).collect();
    assert_eq!(sql, format!("UPDATE \"P\" SET {} WHERE \"id\"=?", sets.join(",")));
    assert_eq!(vals.len(), 19);
    assert_eq!(vals[18], "OLD");

    let pgp: Vec<String> = (1..=18).map(|i| format!("${i}")).collect();
    let (sql, vals) = update_statement(true, "P", &c, &pgp);
    assert!(sql.ends_with(" WHERE \"MPN\"=$19::text"));
    assert_eq!(vals[18], "OLD");

    c.id = "5".to_string();
    let (sql, vals) = update_statement(true, "P", &c, &pgp);
    assert!(sql.ends_with(" WHERE CAST(\"id\" AS text)=$19::text"));
    assert_eq!(vals[18], "5");

    c.id = String::new();
    let (_, vals) = update_statement(false, "P", &c, &q);
    assert_eq!(vals[18], "NEW");
}

#[test]
fn delete_and_clone_statements() {
    assert_eq!(delete_sql(false, "P"), "DELETE FROM \"P\" WHERE \"id\"=?");
    assert_eq!(
        delete_sql(true, "P"),
        "DELETE FROM \"P\" WHERE CAST(\"id\" AS text)=$1 OR \"MPN\"=$1"
    );
    let cols = strings(&["id", "MPN", "Value", "Note"]);
    assert_eq!(
        clone_component_sql(false, "P", &cols, "?"),
        "INSERT INTO \"P\" (\"MPN\",\"Value\",\"Note\") SELECT ?,\"Value\",\"Note\" FROM \"P\" WHERE \"id\"=?"
    );
    assert_eq!(
        clone_component_sql(true, "P", &cols, "CAST($1::text AS text)"),
        "INSERT INTO \"P\" (\"MPN\",\"Value\",\"Note\") SELECT CAST($1::text AS text),\"Value\",\"Note\" FROM \"P\" WHERE CAST(\"id\" AS text)=$2::text OR \"MPN\"=$2::text"
    );
}

#[test]
fn cloning_a_table() {
    let old = strings(&["id", "MPN", "Value", "Value", "Note"]);
    let new = strings(&["id", "MPN"]);
    assert_eq!(clone_table_columns(&old, &new), strings(&["Value", "Note"]));
    assert_eq!(
        copy_rows_sql("A", "B", &old),
        Some("INSERT INTO \"B\" (\"MPN\",\"Value\",\"Value\",\"Note\") SELECT \"MPN\",\"Value\",\"Value\",\"Note\" FROM \"A\"".to_string())
    );
    assert_eq!(copy_rows_sql("A", "B", &strings(&["id"])), None);
}

#[test]
fn custom_value_statements() {
    assert_eq!(
        custom_value_query(false, "P", "__mpn__R1", "Tol"),
        (
            "SELECT \"Tol\" FROM \"P\" WHERE \"MPN\"=?".to_string(),
            "R1".to_string()
        )
    );
    assert_eq!(
        custom_value_query(true, "P", "3", "Tol"),
        (
            "SELECT CAST(\"Tol\" AS text) FROM \"P\" WHERE CAST(\"id\" AS text)=$1::text".to_string(),
            "3".to_string()
        )
    );
    assert_eq!(
        set_custom_value_statement(false, "P", "3", "Tol", "1%", "?"),
        (
            "UPDATE \"P\" SET \"Tol\"=? WHERE \"id\"=?".to_string(),
            strings(&["1%", "3"])
        )
    );
    assert_eq!(
        set_custom_value_statement(true, "P", "__mpn__R1", "Tol", "1%", "CAST($1::text AS text)"),
        (
            "UPDATE \"P\" SET \"Tol\"=CAST($1::text AS text) WHERE \"MPN\"=$2::text".to_string(),
            strings(&["1%", "R1"])
        )
    );
}

#[test]
fn row_insert_keeps_known_nonempty_columns_sorted() {
    let cols = strings(&["id", "MPN", "Value", "Category"]);
    let vals = pairs(&[
        ("Value", "10k"),
        ("id", "9"),
        ("MPN", "R1"),
        ("Unknown", "x"),
        ("Category", ""),
    ]);
    assert_eq!(
        row_insert_entries(&cols, &vals),
        pairs(&[("MPN", "R1"), ("Value", "10k")])
    );
}

#[test]
fn table_upkeep_statements() {
    assert_eq!(ensure_table_statements(false, "P", false, &[]).len(), 1);
    assert!(ensure_table_statements(false, "P", false, &[])[0]
        .starts_with("CREATE TABLE \"P\" (\"id\" INTEGER PRIMARY KEY AUTOINCREMENT"));
    let full = strings(&BASE);
    assert!(ensure_table_statements(true, "P", true, &full).is_empty());
    let old = strings(&["id", "Design Item ID", "Comment", "Datasheet", "MPN2"]);
    let stmts = migration_statements("P", &old);
    assert_eq!(
        stmts[0],
        "ALTER TABLE \"P\" RENAME COLUMN \"Design Item ID\" TO \"MPN\""
    );
    assert_eq!(
        stmts[1],
        "ALTER TABLE \"P\" RENAME COLUMN \"Datasheet\" TO \"ComponentLink1URL\""
    );
    assert_eq!(stmts[2], "ALTER TABLE \"P\" DROP COLUMN \"Comment\"");
    assert_eq!(
        stmts[3],
        "ALTER TABLE \"P\" ADD COLUMN \"ComponentLink1Description\" TEXT NOT NULL DEFAULT ''"
    );
    assert!(!stmts
        .iter()
        .any(|s| s.contains("ADD COLUMN \"ComponentLink1URL\"")));
    assert_eq!(stmts.len(), 3 + 11);
    let both = strings(&["Symbols", "Library Ref"]);
    assert!(!migration_statements("P", &both)
        .iter()
        .any(|s| s.contains("RENAME")));
}

#[test]
fn migrating_twice_changes_nothing_more() {
    let old = strings(&["id", "Symbols", "Footprint Reference", "No BOM", "Keywords"]);
    let first = migration_statements("P", &old);
    assert!(!first.is_empty());
    let after = strings(&[
        "id",
        "Library Ref",
        "Footprint Ref",
        "ComponentLink1Description",
        "ComponentLink1URL",
        "ComponentLink2Description",
        "ComponentLink2URL",
        "ComponentLink3Description",
        "ComponentLink3URL",
        "Library Path",
        "Footprint Path",
        "Footprint Ref 2",
        "Footprint Path 2",
        "Footprint Ref 3",
        "Footprint Path 3",
    ]);
    assert!(migration_statements("P", &after).is_empty());
}

#[test]
fn search_queries() {
    assert_eq!(mpn_pattern("  "), None);
    assert_eq!(mpn_pattern(" r1"), Some("% r1%".to_string()));
    let q = mpn_like_sql(false, "P");
    assert!(q.starts_with("SELECT \"id\", \"MPN\", "));
    assert!(q.ends_with(" FROM \"P\" WHERE \"MPN\" LIKE ? ORDER BY \"MPN\""));
    assert!(mpn_like_sql(true, "P").contains("WHERE \"MPN\" LIKE $1 ORDER BY"));
    assert_eq!(
        table_exists_sql(false),
        "SELECT COUNT(*) > 0 FROM sqlite_master WHERE type='table' AND name=?"
    );
    assert!(tables_sql(true).contains("table_type='BASE TABLE'"));
    assert_eq!(columns_sql(false, "P"), "PRAGMA table_info(\"P\")");
    assert!(columns_sql(true, "P").ends_with("ORDER BY ordinal_position"));
}

#[test]
fn component_keys_fall_back_to_marked_mpn() {
    let mut c = Component::default();
    c.mpn = "R7".to_string();
    let key = altiumdb::statements::component_key(&c);
    assert_eq!(key, "__mpn__R7");
    assert_eq!(marked_mpn_of(&key), Some("R7".to_string()));
    c.id = "12".to_string();
    assert_eq!(altiumdb::statements::component_key(&c), "12");
}

#[test]
fn copies_are_made_from_id_or_mpn() {
    let mut c = Component::default();
    c.mpn = "R7".to_string();
    assert_eq!(altiumdb::statements::clone_source(&c), "R7");
    c.id = "3".to_string();
    assert_eq!(altiumdb::statements::clone_source(&c), "3");
}
