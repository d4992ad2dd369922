use altiumdb::db::Component;
use altiumdb::settings::{
    browse_file_stem, config_database_type, config_db_name, config_dsn, is_sqlite_kind, open_target, default_database_type, default_pg_host, default_pg_port,
    default_remind_minutes, name_candidate, preview_bg, search_param_columns, standard_value,
    BrowseTarget, Theme, DARK_BG, LIGHT_BG,
};

#[test]
fn settings_defaults() {
    assert_eq!(default_database_type(), "sqlite");
    assert_eq!(default_pg_host(), "localhost");
    assert_eq!(default_pg_port(), "5432");
    assert_eq!(default_remind_minutes(), 30);
}

#[test]
fn preview_background_follows_theme() {
    assert_eq!(preview_bg(Theme::Dark, false), DARK_BG);
    assert_eq!(preview_bg(Theme::Light, true), LIGHT_BG);
    assert_eq!(preview_bg(Theme::System, true), "#1E1E1E");
    assert_eq!(preview_bg(Theme::System, false), "#FFFFFF");
}

#[test]
fn browse_targets_split_symbols_from_footprints() {
    assert!(BrowseTarget::Symbols.is_symbols());
    assert!(BrowseTarget::DefaultSymbol.is_symbols());
    assert!(!BrowseTarget::Footprint1.is_symbols());
    assert!(!BrowseTarget::Footprint2.is_symbols());
    assert!(!BrowseTarget::Footprint3.is_symbols());
    assert!(!BrowseTarget::DefaultFootprint.is_symbols());
}

#[test]
fn copy_names_count_up() {
    assert_eq!(name_candidate("Resistors", 0), "Resistors");
    assert_eq!(name_candidate("Resistors", 1), "Resistors_1");
    assert_eq!(name_candidate("Resistors", 12), "Resistors_12");
}

#[test]
fn browsed_file_stem() {
    assert_eq!(browse_file_stem("CAP 0603_1608.PcbLib"), "CAP 0603_1608");
    assert_eq!(browse_file_stem("C:\\lib\\RES.SchLib"), "RES");
    assert_eq!(browse_file_stem(""), "");
}

#[test]
fn standard_fields_come_from_component() {
    let mut c = Component::default();
    c.manufacturer = "Acme".to_string();
    c.footprint_path3 = "p3".to_string();
    c.component_link2_url = "u2".to_string();
    assert_eq!(standard_value(&c, "Manufacturer"), Some("Acme".to_string()));
    assert_eq!(standard_value(&c, "Footprint Path 3"), Some("p3".to_string()));
    assert_eq!(standard_value(&c, "ComponentLink2URL"), Some("u2".to_string()));
    assert_eq!(standard_value(&c, "Description"), Some(String::new()));
    assert_eq!(standard_value(&c, "Tolerance"), None);
    assert_eq!(standard_value(&c, "MPN"), None);
}

#[test]
fn search_parameters_leave_out_identity_columns() {
    let cols: Vec<String> = ["id", "MPN", "Manufacturer", "Verified", "Value"]
        .iter()
        .map(|s| s.to_string())
        .collect();
    assert_eq!(
        search_param_columns(&cols),
        vec!["Manufacturer".to_string(), "Value".to_string()]
    );
}

#[test]
fn configured_database() {
    assert_eq!(config_database_type(""), "sqlite");
    assert_eq!(config_database_type("postgres"), "postgres");
    assert_eq!(config_dsn("gortpower", "", "", "", "", ""), "gortpower");
    assert_eq!(
        config_dsn("ignored", "", "", "parts", "me", ""),
        "host=localhost port=5432 dbname=parts user=me"
    );
    assert_eq!(
        config_dsn("", " db.local ", "6543", "", "", "pw"),
        "host=db.local port=6543 password=pw"
    );
    assert!(is_sqlite_kind("SQLite"));
    assert!(!is_sqlite_kind("postgres"));
    assert_eq!(open_target("SQLITE", "a.sqlite", "host=x"), "a.sqlite");
    assert_eq!(open_target("postgresql", "a.sqlite", "host=x"), "host=x");
    assert_eq!(config_db_name("altiumdb.config"), "altiumdb.sqlite");
    assert_eq!(config_db_name("parts"), "parts.sqlite");
    assert_eq!(config_db_name(".config"), ".sqlite");
}

#[test]
fn browse_listing_puts_folders_first() {
    let entries: Vec<(String, bool)> = vec![
        ("zeta.SchLib".to_string(), false),
        ("Passives".to_string(), true),
        ("alpha.schlib".to_string(), false),
        ("board.PcbLib".to_string(), false),
        ("Active".to_string(), true),
        ("notes.txt".to_string(), false),
    ];
    assert_eq!(
        altiumdb::settings::browse_listing(&entries, true),
        vec![
            ("Active".to_string(), true),
            ("Passives".to_string(), true),
            ("alpha.schlib".to_string(), false),
            ("zeta.SchLib".to_string(), false),
        ]
    );
    assert_eq!(
        altiumdb::settings::browse_listing(&entries, false),
        vec![
            ("Active".to_string(), true),
            ("Passives".to_string(), true),
            ("board.PcbLib".to_string(), false),
        ]
    );
}
