use altiumdb::db::{
    add_column_sql, base_column_names, component_sql, component_values, convert_pg_value,
    create_table_sql, custom_columns, distinct_values_sql, drop_column_sql, drop_table_sql,
    is_postgres_kind, missing_base_columns, parse_postgres_connection_string, pg_cast_expression,
    pg_value_kind, postgres_connection_string, qi, rename_column_sql, rename_table_sql,
    search_sql, sql_param, Component, PgValue, PgValueKind,
};

#[test]
fn postgres_parameter_conversion_uses_column_types() {
    assert_eq!(pg_value_kind("bigint", "int8"), PgValueKind::Integer);
    assert_eq!(pg_value_kind("boolean", "bool"), PgValueKind::Boolean);
    assert_eq!(
        pg_value_kind("double precision", "float8"),
        PgValueKind::Float
    );
    assert_eq!(pg_value_kind("numeric", "numeric"), PgValueKind::Float);
    assert_eq!(pg_value_kind("text", "text"), PgValueKind::Text);

    assert!(convert_pg_value(PgValueKind::Integer, "42").is_ok());
    assert!(convert_pg_value(PgValueKind::Boolean, "1").is_ok());
    assert!(convert_pg_value(PgValueKind::Float, "1.25").is_ok());
    assert!(convert_pg_value(PgValueKind::Integer, "not-a-number").is_err());
    assert!(convert_pg_value(PgValueKind::Boolean, "maybe").is_err());
    assert_eq!(
        pg_cast_expression(3, "my_schema.my_domain", "S"),
        "CAST($3::text AS my_schema.my_domain)"
    );
    assert_eq!(
        pg_cast_expression(4, "integer", "N"),
        "CAST(NULLIF($4::text, '') AS integer)"
    );
}

#[test]
fn converted_values() {
    assert!(matches!(convert_pg_value(PgValueKind::Integer, "-7"), Ok(PgValue::Integer(-7))));
    assert!(matches!(convert_pg_value(PgValueKind::Boolean, " Yes "), Ok(PgValue::Boolean(true))));
    assert!(matches!(convert_pg_value(PgValueKind::Boolean, "n"), Ok(PgValue::Boolean(false))));
    assert_eq!(
        convert_pg_value(PgValueKind::Float, "x").unwrap_err(),
        "invalid PostgreSQL numeric value: x"
    );
    assert_eq!(
        convert_pg_value(PgValueKind::Integer, " 4").unwrap_err(),
        "invalid PostgreSQL integer value:  4"
    );
    assert!(matches!(convert_pg_value(PgValueKind::Text, " a "), Ok(PgValue::Text(ref s)) if s == " a "));
    assert_eq!(pg_value_kind("USER-DEFINED", "serial"), PgValueKind::Integer);
    assert_eq!(pg_value_kind("USER-DEFINED", "citext"), PgValueKind::Text);
}

#[test]
fn quoting_and_placeholders() {
    assert_eq!(qi("Parts \"quoted\""), "\"Parts \"\"quoted\"\"\"");
    assert_eq!(qi(""), "\"\"");
    assert_eq!(sql_param(true, 12), "$12");
    assert_eq!(sql_param(false, 12), "?");
}

#[test]
fn connection_strings() {
    assert_eq!(
        postgres_connection_string(" db.local ", "5432", "parts", "", "  "),
        "host=db.local port=5432 dbname=parts"
    );
    assert_eq!(postgres_connection_string("", "", "", "", ""), "");
    let f = parse_postgres_connection_string("host=db.local  PORT=5433 database='parts' username=\"me\" junk pass=s=1");
    assert_eq!(f, ["db.local", "5433", "parts", "me", "s=1"].map(String::from));
    let empty = parse_postgres_connection_string("");
    assert!(empty.iter().all(|s| s.is_empty()));
}

#[test]
fn connection_string_round_trip() {
    let s = postgres_connection_string("h", " 1 ", "d", "u", "p");
    assert_eq!(parse_postgres_connection_string(&s), ["h", "1", "d", "u", "p"].map(String::from));
}

#[test]
fn database_kind() {
    assert!(is_postgres_kind("PostgreSQL"));
    assert!(is_postgres_kind("postgres"));
    assert!(!is_postgres_kind("sqlite"));
}

#[test]
fn component_queries() {
    let cols = base_column_names();
    assert_eq!(cols.len(), 18);
    assert_eq!(cols[0], "MPN");
    let sql = component_sql(false, "Res");
    assert!(sql.starts_with("SELECT \"id\", \"MPN\", \"Manufacturer\", "));
    assert!(sql.ends_with(" FROM \"Res\" ORDER BY \"MPN\""));
    let pg = component_sql(true, "Res");
    assert!(pg.starts_with("SELECT CAST(\"id\" AS varchar), \"MPN\""));

    let filters = vec![
        ("Package".to_string(), vec!["0402".to_string(), "0603".to_string()]),
        ("Empty".to_string(), vec![]),
        ("Value".to_string(), vec!["10k".to_string()]),
    ];
    let (sql, vals) = search_sql(true, "Res", &filters);
    assert!(sql.ends_with(" FROM \"Res\" WHERE 1=1 AND \"Package\" IN ($1,$2) AND \"Value\" IN ($3) ORDER BY \"MPN\""));
    assert_eq!(vals, vec!["0402", "0603", "10k"]);
    let (sql, _) = search_sql(false, "Res", &filters);
    assert!(sql.contains("\"Package\" IN (?,?) AND \"Value\" IN (?)"));
}

#[test]
fn table_statements() {
    assert_eq!(
        add_column_sql("T", "C"),
        "ALTER TABLE \"T\" ADD COLUMN \"C\" TEXT NOT NULL DEFAULT ''"
    );
    assert_eq!(rename_column_sql("T", "a", "b"), "ALTER TABLE \"T\" RENAME COLUMN \"a\" TO \"b\"");
    assert_eq!(drop_column_sql("T", "a"), "ALTER TABLE \"T\" DROP COLUMN \"a\"");
    assert_eq!(drop_table_sql("T"), "DROP TABLE IF EXISTS \"T\"");
    assert_eq!(rename_table_sql("a", "b"), "ALTER TABLE \"a\" RENAME TO \"b\"");
    assert_eq!(
        distinct_values_sql("T", "C"),
        "SELECT DISTINCT \"C\" FROM \"T\" WHERE \"C\" IS NOT NULL AND \"C\" <> '' ORDER BY \"C\""
    );
    let create = create_table_sql(false, "T");
    assert!(create.starts_with("CREATE TABLE \"T\" (\"id\" INTEGER PRIMARY KEY AUTOINCREMENT , \"MPN\" TEXT NOT NULL DEFAULT ''"));
    assert!(create.contains("\"Verified\" BIGINT NOT NULL DEFAULT 0"));
    assert!(create_table_sql(true, "T").starts_with("CREATE TABLE \"T\" (\"id\" BIGSERIAL PRIMARY KEY, "));
}

#[test]
fn component_values_and_custom_columns() {
    let c = Component { mpn: "R-1".into(), verified: true, component_link3_url: "u".into(), ..Default::default() };
    let v = component_values(&c);
    assert_eq!(v.len(), 18);
    assert_eq!(v[0], "R-1");
    assert_eq!(v[3], "1");
    assert_eq!(v[17], "u");
    let cols: Vec<String> = ["id", "MPN", "Package", "Verified", "Tolerance"].iter().map(|s| s.to_string()).collect();
    assert_eq!(custom_columns(&cols), vec!["Package", "Tolerance"]);
    let have: Vec<String> = ["MPN", "Library Path", "ComponentLink1URL"].iter().map(|s| s.to_string()).collect();
    let missing = missing_base_columns(&have);
    assert_eq!(missing.len(), 10);
    assert_eq!(missing[0], "ComponentLink1Description");
    assert!(!missing.contains(&"Library Path".to_string()));
}
