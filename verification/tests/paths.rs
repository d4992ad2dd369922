use altiumdb::paths::{
    file_name, file_stem, is_absolute, join, path_starts_with, relative_library_path,
    resolve_library_path, set_extension, LibraryPathLookup,
};

#[test]
fn library_path_keeps_only_file_name() {
    let folder = "C:\\gortpowerlib\\footprints";
    let full = "C:\\gortpowerlib\\footprints\\Capacitor - MLCC\\CAP 0603_1608.PcbLib";
    assert_eq!(relative_library_path(folder, full), "CAP 0603_1608.PcbLib");
}

#[test]
fn resolve_keeps_legacy_subdirectory_paths() {
    let folder = "C:\\gortpowerlib\\footprints";
    let rel = "\\Capacitor - MLCC\\CAP 0603_1608.PcbLib";
    assert_eq!(
        resolve_library_path(folder, rel).finish(None),
        "C:\\gortpowerlib\\footprints\\Capacitor - MLCC\\CAP 0603_1608.PcbLib"
    );
}

#[test]
fn relative_path_outside_folder_is_kept() {
    assert_eq!(
        relative_library_path("C:\\libs", "  D:\\other\\x.PcbLib "),
        "D:\\other\\x.PcbLib"
    );
    assert_eq!(relative_library_path("", "C:\\libs\\x.PcbLib"), "C:\\libs\\x.PcbLib");
}

#[test]
fn relative_path_compares_whole_components() {
    // "C:\libs2" does not lie under "C:\libs".
    assert_eq!(
        relative_library_path("C:\\libs", "C:\\libs2\\x.PcbLib"),
        "C:\\libs2\\x.PcbLib"
    );
    assert_eq!(relative_library_path("c:/libs/", "C:\\libs\\sub\\x.PcbLib"), "x.PcbLib");
}

#[test]
fn resolve_bare_name_asks_for_a_search() {
    let r = resolve_library_path(" C:\\libs ", "CAP.PcbLib");
    assert_eq!(
        r,
        LibraryPathLookup::Search { folder: "C:\\libs".to_string(), name: "CAP.PcbLib".to_string() }
    );
    assert_eq!(r.clone().finish(Some("C:\\libs\\a\\CAP.PcbLib".to_string())), "C:\\libs\\a\\CAP.PcbLib");
    assert_eq!(r.finish(None), "C:\\libs\\CAP.PcbLib");
}

#[test]
fn resolve_absolute_and_empty() {
    assert_eq!(resolve_library_path("C:\\libs", "  "), LibraryPathLookup::Resolved(String::new()));
    assert_eq!(
        resolve_library_path("C:\\libs", "D:\\x.PcbLib"),
        LibraryPathLookup::Resolved("D:\\x.PcbLib".to_string())
    );
    assert_eq!(
        resolve_library_path("", "sub/x.PcbLib"),
        LibraryPathLookup::Resolved("sub/x.PcbLib".to_string())
    );
    assert_eq!(resolve_library_path("", "x.PcbLib").finish(None), "x.PcbLib");
}

#[test]
fn windows_path_rules() {
    assert!(is_absolute("C:\\x"));
    assert!(is_absolute("\\\\server\\share"));
    assert!(!is_absolute("\\x"));
    assert!(!is_absolute("C:x"));
    assert_eq!(join("C:\\a", "b"), "C:\\a\\b");
    assert_eq!(join("C:\\a\\", "b"), "C:\\a\\b");
    assert_eq!(join("C:", "b"), "C:b");
    assert_eq!(join("C:\\a", "\\b"), "C:\\b");
    assert_eq!(join("C:\\a", "D:\\b"), "D:\\b");
    assert!(path_starts_with("C:\\a\\b", "c:\\a"));
    assert!(!path_starts_with("C:\\ab", "C:\\a"));
}

#[test]
fn file_name_and_stem() {
    assert_eq!(file_name("C:\\a\\b.PcbLib"), Some("b.PcbLib".to_string()));
    assert_eq!(file_name("C:\\a\\.."), None);
    assert_eq!(file_stem("dir/x.tar.gz"), Some("x.tar".to_string()));
    assert_eq!(file_stem(".hidden"), Some(".hidden".to_string()));
    assert_eq!(set_extension("C:\\db\\parts.sqlite", "DbLib"), "C:\\db\\parts.DbLib");
}

#[test]
fn extension_of_file_names() {
    assert_eq!(altiumdb::paths::extension("C:\\lib\\RES.SchLib"), Some("SchLib".to_string()));
    assert_eq!(altiumdb::paths::extension("a.tar.gz"), Some("gz".to_string()));
    assert_eq!(altiumdb::paths::extension(".hidden"), None);
    assert_eq!(altiumdb::paths::extension("noext"), None);
    assert_eq!(altiumdb::paths::extension("dir\\"), None);
    assert_eq!(altiumdb::paths::extension("trail."), Some(String::new()));
}

#[test]
fn stored_library_path_is_searched_for_again() {
    let folder = "C:\\gortpowerlib\\footprints";
    let stored = relative_library_path(
        folder,
        "C:\\gortpowerlib\\footprints\\Capacitor - MLCC\\CAP 0603_1608.PcbLib",
    );
    assert_eq!(stored, "CAP 0603_1608.PcbLib");
    assert_eq!(
        resolve_library_path(folder, &stored),
        LibraryPathLookup::Search {
            folder: folder.to_string(),
            name: "CAP 0603_1608.PcbLib".to_string()
        }
    );
    let found = resolve_library_path(folder, &stored)
        .finish(Some("C:\\gortpowerlib\\footprints\\Capacitor - MLCC\\CAP 0603_1608.PcbLib".to_string()));
    assert!(found.ends_with("Capacitor - MLCC\\CAP 0603_1608.PcbLib"));
    let missing = resolve_library_path(folder, &stored).finish(None);
    assert_eq!(missing, "C:\\gortpowerlib\\footprints\\CAP 0603_1608.PcbLib");
}
