use altiumdb::altium_dbl::{create_library, dbl_path_for_db, AltiumDbl};

#[test]
fn round_trip_ini() {
    let mut dbl = AltiumDbl::new("test.sqlite");
    dbl.add_library(create_library("Resistors"));
    dbl.ensure_base_fields();
    let ini = dbl.to_ini();
    let parsed = AltiumDbl::from_ini(&ini).unwrap();
    assert_eq!(parsed.libraries.len(), 1);
    assert_eq!(parsed.libraries[0].table, "Resistors");
    assert_eq!(
        parsed.libraries[0].fields.len(),
        dbl.libraries[0].fields.len()
    );
    assert!(parsed.libraries[0]
        .fields
        .iter()
        .any(|f| f.is_key && f.column == "MPN"));
    assert!(parsed.libraries[0]
        .fields
        .iter()
        .any(|f| f.column == "Library Path" && f.parameter == "[Library Path]"));
    assert!(parsed.libraries[0]
        .fields
        .iter()
        .any(|f| f.column == "Footprint Path" && f.parameter == "[Footprint Path]"));
    assert!(parsed.libraries[0].enabled);
    assert!(parsed
        .database_links
        .iter()
        .any(|(k, v)| k == "ConnectionString" && v.contains("Data Source=test")));
    assert!(parsed
        .database_links
        .iter()
        .any(|(k, v)| k == "AddMode" && v == "3"));
}

#[test]
fn skips_internal_tables_and_preserves_state() {
    let content = [
        "[OutputDatabaseLinkFile]\n",
        "Version=1.1\n",
        "[DatabaseLinks]\n",
        "ConnectionString=Provider=MSDASQL.1;Persist Security Info=False;Data Source=gortpower\n",
        "AddMode=3\n",
        "RemoveMode=1\n",
        "UpdateMode=2\n",
        "ViewMode=0\n",
        "LeftQuote=[\n",
        "RightQuote=]\n",
        "QuoteTableNames=1\n",
        "UseTableSchemaName=0\n",
        "DefaultColumnType=VARCHAR(255)\n",
        "LibraryDatabaseType=\n",
        "LibraryDatabasePath=\n",
        "DatabasePathRelative=0\n",
        "TopPanelCollapsed=0\n",
        "LibrarySearchPath=C:\\libs\\symbols;C:\\libs\\footprints\n",
        "OrcadMultiValueDelimiter=,\n",
        "SearchSubDirectories=0\n",
        "SchemaName=\n",
        "LastFocusedTable=\n",
        "[Table1]\n",
        "SchemaName=\n",
        "TableName=Resistors\n",
        "Enabled=False\n",
        "UserWhere=1\n",
        "UserWhereText=[MPN] = 'R1'\n",
        "[Table2]\n",
        "SchemaName=\n",
        "TableName=sqlite_sequence\n",
        "Enabled=True\n",
        "UserWhere=0\n",
        "UserWhereText=\n",
    ]
    .concat();
    let parsed = AltiumDbl::from_ini(&content).unwrap();
    assert_eq!(parsed.libraries.len(), 1);
    assert_eq!(parsed.libraries[0].table, "Resistors");
    assert!(!parsed.libraries[0].enabled);
    assert!(parsed.libraries[0].user_where);
    assert_eq!(parsed.libraries[0].user_where_text, "[MPN] = 'R1'");
    assert!(parsed
        .database_links
        .iter()
        .any(|(k, v)| k == "LibrarySearchPath" && v.contains("symbols")));

    let mut dbl = parsed;
    dbl.set_dsn("gortpower");
    assert_eq!(
        dbl.connection_string,
        "Provider=MSDASQL.1;Persist Security Info=False;Data Source=gortpower"
    );
    let out = dbl.to_ini();
    assert!(!out.contains("sqlite_sequence"));
    assert!(out.contains("Enabled=False"));
    assert!(out.contains("LibrarySearchPath=C:\\libs\\symbols;C:\\libs\\footprints"));
}

#[test]
fn canonical_ini_roundtrips_unchanged() {
    // A file already produced by this tool must round-trip byte-for-byte, so
    // repeated saves do not touch the file.
    let mut dbl = AltiumDbl::new("test.sqlite");
    dbl.add_library(create_library("Resistors"));
    dbl.set_dsn("gortpower");
    dbl.ensure_base_fields();
    let canonical = dbl.to_ini();
    let reparsed = AltiumDbl::from_ini(&canonical).unwrap();
    assert_eq!(canonical, reparsed.to_ini());
}

#[test]
fn written_text_starts_with_header_and_links() {
    let dbl = AltiumDbl::new("parts.sqlite");
    let ini = dbl.to_ini();
    assert!(ini.starts_with("[OutputDatabaseLinkFile]\nVersion=1.1\n[DatabaseLinks]\n"));
    assert!(ini.contains("ConnectionString="));
    assert!(ini.contains("Data Source=parts"));
    assert!(ini.ends_with('\n'));
}

#[test]
fn ensure_base_fields_is_idempotent() {
    let mut dbl = AltiumDbl::new("test.sqlite");
    dbl.add_library(create_library("Caps"));
    dbl.ensure_base_fields();
    let once = dbl.to_ini();
    dbl.ensure_base_fields();
    assert_eq!(once, dbl.to_ini());
}

#[test]
fn add_and_remove_library() {
    let mut dbl = AltiumDbl::new("test.sqlite");
    dbl.add_library(create_library("A"));
    dbl.add_library(create_library("B"));
    assert!(dbl.find_library("A").is_some());
    dbl.remove_library("A");
    assert!(dbl.find_library("A").is_none());
    assert_eq!(dbl.libraries.len(), 1);
    assert_eq!(dbl.libraries[0].table, "B");
}

#[test]
fn find_library_mut_edits_in_place() {
    let mut dbl = AltiumDbl::new("test.sqlite");
    dbl.add_library(create_library("A"));
    if let Some(l) = dbl.find_library_mut("A") {
        l.enabled = false;
    }
    assert!(!dbl.libraries[0].enabled);
}

#[test]
fn set_database_link_replaces_value() {
    let mut dbl = AltiumDbl::new("test.sqlite");
    dbl.set_database_link("AddMode", "1");
    assert!(dbl.database_links.iter().any(|(k, v)| k == "AddMode" && v == "1"));
    assert_eq!(
        dbl.database_links.iter().filter(|(k, _)| k == "AddMode").count(),
        1
    );
}

#[test]
fn reading_never_fails_and_ignores_unknown_lines() {
    let parsed = AltiumDbl::from_ini("garbage\n[Table1]\nTableName=X\nEnabled=True\n").unwrap();
    assert_eq!(parsed.libraries.len(), 1);
    assert_eq!(parsed.libraries[0].table, "X");
    assert!(parsed.connection_string.is_empty());
}

#[test]
fn dbl_path_replaces_extension() {
    assert_eq!(dbl_path_for_db("C:\\db\\parts.sqlite"), "C:\\db\\parts.DbLib");
}

#[test]
fn save_text_skips_unchanged_file() {
    let mut dbl = AltiumDbl::new("test.sqlite");
    dbl.add_library(create_library("Resistors"));
    dbl.ensure_base_fields();
    let first = dbl.save_text(None).unwrap();
    assert_eq!(first, dbl.to_ini());
    assert!(dbl.save_text(Some(&first)).is_none());
    assert_eq!(dbl.save_text(Some("stale")).unwrap(), first);
}

#[test]
fn load_text_points_at_given_or_default_source() {
    let mut dbl = AltiumDbl::new("old.sqlite");
    dbl.add_library(create_library("Resistors"));
    let ini = dbl.to_ini();
    let named = AltiumDbl::load_text(&ini, "C:\\db\\parts.sqlite", "  gortpower ").unwrap();
    assert_eq!(
        named.connection_string,
        "Provider=MSDASQL.1;Persist Security Info=False;Data Source=gortpower"
    );
    assert_eq!(named.libraries.len(), 1);
    let fallback = AltiumDbl::load_text(&ini, "C:\\db\\parts.sqlite", "   ").unwrap();
    assert_eq!(
        fallback.connection_string,
        "Provider=MSDASQL.1;Persist Security Info=False;Data Source=parts"
    );
    assert!(fallback
        .database_links
        .iter()
        .any(|(k, v)| k == "ConnectionString" && v.ends_with("Data Source=parts")));
}

#[test]
fn links_and_libraries_read_back() {
    let mut dbl = AltiumDbl::new("test.sqlite");
    dbl.set_database_link("AddMode", "1");
    dbl.set_database_link("Custom", "x");
    let get = |d: &AltiumDbl, k: &str| {
        d.database_links
            .iter()
            .find(|(key, _)| key == k)
            .map(|(_, v)| v.clone())
    };
    assert_eq!(get(&dbl, "AddMode"), Some("1".to_string()));
    assert_eq!(get(&dbl, "Custom"), Some("x".to_string()));
    assert_eq!(get(&dbl, "RemoveMode"), Some("1".to_string()));
    assert_eq!(get(&dbl, "UpdateMode"), Some("2".to_string()));

    dbl.add_library(create_library("Resistors"));
    dbl.add_library(create_library("Capacitors"));
    assert_eq!(dbl.find_library("Capacitors").unwrap().table, "Capacitors");
    dbl.remove_library("Resistors");
    assert!(dbl.find_library("Resistors").is_none());
    assert_eq!(dbl.find_library("Capacitors").unwrap().table, "Capacitors");
}

#[test]
fn ordering_fields_twice_changes_nothing() {
    let mut dbl = AltiumDbl::new("test.sqlite");
    let mut lib = create_library("Resistors");
    lib.fields.reverse();
    lib.fields.push(lib.fields[0].clone());
    dbl.add_library(lib);
    dbl.ensure_base_fields();
    let once = dbl.to_ini();
    let columns: Vec<String> = dbl.libraries[0].fields.iter().map(|f| f.column.clone()).collect();
    assert_eq!(columns[0], "MPN");
    assert_eq!(columns[17], "Verified");
    assert_eq!(columns.len(), 18);
    dbl.ensure_base_fields();
    assert_eq!(dbl.to_ini(), once);
}

#[test]
fn ordered_fields_take_first_of_each_column() {
    let mut dbl = AltiumDbl::new("test.sqlite");
    let mut lib = create_library("Resistors");
    let base = lib.fields.clone();
    let mut extra_a = base[0].clone();
    extra_a.column = "Tolerance".to_string();
    extra_a.parameter = "Tol".to_string();
    let mut extra_b = base[0].clone();
    extra_b.column = "Power".to_string();
    let mut mpn_later = base[0].clone();
    mpn_later.parameter = "Second MPN".to_string();
    let mut mpn_first = base[0].clone();
    mpn_first.parameter = "First MPN".to_string();
    let mut tol_again = extra_a.clone();
    tol_again.parameter = "Tol again".to_string();
    lib.fields = vec![extra_a, mpn_first, extra_b, mpn_later, tol_again];
    dbl.add_library(lib);
    dbl.ensure_base_fields();
    let fields = &dbl.libraries[0].fields;
    let columns: Vec<&str> = fields.iter().map(|f| f.column.as_str()).collect();
    assert_eq!(columns.len(), 20);
    for i in 0..18 {
        assert_eq!(columns[i], base[i].column);
    }
    assert_eq!(fields[0].parameter, "First MPN");
    assert_eq!(fields[1].parameter, base[1].parameter);
    assert_eq!(columns[18], "Tolerance");
    assert_eq!(fields[18].parameter, "Tol");
    assert_eq!(columns[19], "Power");
}

#[test]
fn read_libraries_are_named_by_table_and_internal_sections_ignored() {
    let content = [
        "[DatabaseLinks]\n",
        "AddMode=3\n",
        "[Table1]\n",
        "TableName=sqlite_stat1\n",
        "Enabled=False\n",
        "UserWhere=1\n",
        "UserWhereText=x\n",
        "[Table2]\n",
        "TableName=Caps\n",
        "Enabled=False\n",
    ]
    .concat();
    let parsed = AltiumDbl::from_ini(&content).unwrap();
    assert_eq!(parsed.libraries.len(), 1);
    assert_eq!(parsed.libraries[0].name, "Caps");
    assert_eq!(parsed.libraries[0].table, "Caps");
    assert!(!parsed.libraries[0].enabled);
    assert!(!parsed.libraries[0].user_where);
    assert_eq!(parsed.libraries[0].user_where_text, "");
}

#[test]
fn round_trip_without_connection_string_link() {
    let mut dbl = AltiumDbl::new("test.sqlite");
    dbl.database_links.retain(|(k, _)| k != "ConnectionString");
    dbl.connection_string = " not written \n".to_string();
    dbl.add_library(create_library("Diodes"));
    let text = dbl.to_ini();
    assert!(!text.contains("not written"));
    let back = AltiumDbl::from_ini(&text).unwrap();
    assert_eq!(back.connection_string, "");
    assert_eq!(back.to_ini(), text);
}
