use altiumdb::db::Component;
use altiumdb::import::{
    assign_value, complete_row, component_from_values, custom_values_to_save, find_by_mpn,
    lcsc_assignment_list, lcsc_category, lcsc_failure, lcsc_summary, lcsc_values, library_ref,
    lookup_value, new_columns, parse_lcsc_codes, row_kind, row_values, sheet_summary, JsonText,
    LcscParam, LcscProduct, LibraryDefaults, RowKind,
};

fn text(s: &str) -> JsonText {
    JsonText::Text(s.to_string())
}

fn pairs(v: &[(&str, &str)]) -> Vec<(String, String)> {
    v.iter().map(|(k, x)| (k.to_string(), x.to_string())).collect()
}

fn strings(v: &[&str]) -> Vec<String> {
    v.iter().map(|s| s.to_string()).collect()
}

fn empty_product() -> LcscProduct {
    LcscProduct {
        catalog_name: JsonText::Absent,
        catalog_name_en: JsonText::Absent,
        category_name_en: JsonText::Absent,
        parent_catalog: JsonText::Absent,
        product_model: JsonText::Absent,
        brand_name_en: JsonText::Absent,
        product_name_en: JsonText::Absent,
        pdf_url: JsonText::Absent,
        encap_standard: JsonText::Absent,
        params: None,
    }
}

fn defaults() -> LibraryDefaults {
    LibraryDefaults {
        symbol: " C:\\lib\\symbols\\Passives\\RES.SchLib ".to_string(),
        symbols_folder: "C:\\lib\\symbols".to_string(),
        footprint: String::new(),
        footprints_folder: "C:\\lib\\footprints".to_string(),
    }
}

#[test]
fn later_assignment_replaces_value_in_place() {
    let mut v: Vec<(String, String)> = Vec::new();
    assign_value(&mut v, "MPN", "R1");
    assign_value(&mut v, "Value", "10k");
    assign_value(&mut v, "MPN", "R2");
    assert_eq!(v, pairs(&[("MPN", "R2"), ("Value", "10k")]));
    assert_eq!(lookup_value(&v, "MPN"), Some("R2".to_string()));
    assert_eq!(lookup_value(&v, "Tolerance"), None);
}

#[test]
fn library_ref_is_file_stem_of_trimmed_path() {
    assert_eq!(library_ref("  C:\\lib\\RES.SchLib "), "RES");
    assert_eq!(library_ref("plain"), "plain");
    assert_eq!(library_ref("   "), "");
}

#[test]
fn lcsc_category_prefers_first_present_member() {
    let mut p = empty_product();
    p.catalog_name_en = text("  Chip Resistor  ");
    p.category_name_en = text("Other");
    assert_eq!(lcsc_category(&p), Ok("Chip Resistor".to_string()));

    let mut q = empty_product();
    q.catalog_name = text("   ");
    q.category_name_en = text("Ignored");
    q.parent_catalog = text("Resistors");
    assert_eq!(lcsc_category(&q), Ok("Resistors".to_string()));

    let r = empty_product();
    assert_eq!(
        lcsc_category(&r),
        Err("LCSC response has no category".to_string())
    );
}

#[test]
fn lcsc_product_assignments_in_order() {
    let mut p = empty_product();
    p.product_model = text(" RC0603FR-0710KL ");
    p.brand_name_en = text("YAGEO");
    p.product_name_en = text("10kΩ resistor");
    p.pdf_url = text("https://example.com/ds.pdf");
    p.encap_standard = text("0603");
    p.params = Some(vec![
        LcscParam {
            param_name_en: text("Resistance"),
            param_name: JsonText::Absent,
            param_value_en: text("10kΩ"),
            param_value: JsonText::Absent,
        },
        LcscParam {
            param_name_en: text("Tolerance"),
            param_name: JsonText::Absent,
            param_value_en: JsonText::Other,
            param_value: text("1%"),
        },
        LcscParam {
            param_name_en: JsonText::Absent,
            param_name: text("Power"),
            param_value_en: JsonText::Absent,
            param_value: JsonText::Absent,
        },
    ]);
    let asg = lcsc_assignment_list("C25804", &p, &defaults());
    assert_eq!(
        asg,
        pairs(&[
            ("Verified", "0"),
            ("MPN", "RC0603FR-0710KL"),
            ("Manufacturer", "YAGEO"),
            ("Description", "10kΩ resistor"),
            ("ComponentLink1Description", "Datasheet"),
            ("ComponentLink1URL", "https://example.com/ds.pdf"),
            ("Package", "0603"),
            ("Library Ref", "RES"),
            ("Library Path", "RES.SchLib"),
            ("Resistance", "10kΩ"),
        ])
    );
}

#[test]
fn lcsc_values_fall_back_to_code_and_keep_last_parameter() {
    let mut p = empty_product();
    p.params = Some(vec![
        LcscParam {
            param_name_en: text("Manufacturer"),
            param_name: JsonText::Absent,
            param_value_en: text("Acme"),
            param_value: JsonText::Absent,
        },
    ]);
    let d = LibraryDefaults {
        symbol: String::new(),
        symbols_folder: String::new(),
        footprint: String::new(),
        footprints_folder: String::new(),
    };
    let v = lcsc_values("C1", &p, &d);
    assert_eq!(
        v,
        pairs(&[
            ("Verified", "0"),
            ("MPN", "C1"),
            ("Manufacturer", "Acme"),
            ("Description", ""),
            ("ComponentLink1Description", "Datasheet"),
            ("ComponentLink1URL", ""),
        ])
    );
}

#[test]
fn component_takes_standard_values() {
    let v = pairs(&[
        ("MPN", "R1"),
        ("Manufacturer", "Acme"),
        ("Verified", "1"),
        ("Library Ref", "RES"),
        ("Custom", "x"),
    ]);
    let c = component_from_values(&v);
    assert_eq!(c.mpn, "R1");
    assert_eq!(c.manufacturer, "Acme");
    assert!(!c.verified);
    assert_eq!(c.library_ref, "RES");
    assert_eq!(c.description, "");
    assert_eq!(c.id, "");
}

#[test]
fn find_by_mpn_ignores_ascii_case() {
    let mut a = Component::default();
    a.mpn = "abc-1".to_string();
    let mut b = Component::default();
    b.mpn = "XYZ".to_string();
    let comps = vec![a, b];
    assert_eq!(find_by_mpn(&comps, "xyz"), Some(1));
    assert_eq!(find_by_mpn(&comps, "ABC-1"), Some(0));
    assert_eq!(find_by_mpn(&comps, "nope"), None);
}

#[test]
fn custom_columns_split_into_new_and_existing() {
    let v = pairs(&[
        ("MPN", "R1"),
        ("Resistance", "10k"),
        ("id", "7"),
        ("Tolerance", "1%"),
    ]);
    let cols = strings(&["id", "MPN", "Tolerance"]);
    assert_eq!(new_columns(&v, &cols), strings(&["Resistance"]));
    assert_eq!(
        custom_values_to_save(&v, &cols),
        pairs(&[("Tolerance", "1%")])
    );
}

#[test]
fn row_values_skip_blank_headers_and_cells() {
    let headers = strings(&[" MPN ", "", "Category", "Value", "MPN"]);
    let cells = strings(&["R1", "junk", "", "10k", "R2"]);
    let v = row_values(&headers, &cells);
    assert_eq!(v, pairs(&[("MPN", "R2"), ("Value", "10k")]));
    let short = row_values(&headers, &strings(&["R9"]));
    assert_eq!(short, pairs(&[("MPN", "R9")]));
}

#[test]
fn row_kind_covers_each_case() {
    assert_eq!(row_kind(&pairs(&[("Category", "Res")])), RowKind::NoMpn);
    assert_eq!(row_kind(&pairs(&[("MPN", "  ")])), RowKind::NoMpn);
    assert_eq!(row_kind(&pairs(&[("MPN", "R1")])), RowKind::NoCategory);
    assert_eq!(
        row_kind(&pairs(&[("MPN", " R1 "), ("Category", " Resistors ")])),
        RowKind::Candidate {
            mpn: "R1".to_string(),
            category: "Resistors".to_string()
        }
    );
}

#[test]
fn complete_row_fills_only_missing_library_columns() {
    let mut v = pairs(&[("MPN", " R1 "), ("Library Ref", "MINE")]);
    complete_row(&mut v, "R1", &defaults());
    assert_eq!(
        v,
        pairs(&[
            ("MPN", "R1"),
            ("Library Ref", "MINE"),
            ("Library Path", "RES.SchLib"),
        ])
    );
}

#[test]
fn lcsc_codes_are_trimmed_and_upper_cased() {
    assert_eq!(
        parse_lcsc_codes(" c25804, ,C1525 ,c2"),
        strings(&["C25804", "C1525", "C2"])
    );
    assert!(parse_lcsc_codes("").is_empty());
}

#[test]
fn import_messages() {
    assert_eq!(lcsc_failure("C1", "network"), "C1: network");
    assert_eq!(
        lcsc_summary(2, 1, &[]),
        (true, "LCSC import complete: 2 added, 1 updated".to_string())
    );
    assert_eq!(
        lcsc_summary(0, 0, &strings(&["C1: a", "C2: b"])),
        (
            false,
            "LCSC import: 0 added, 0 updated; failed: C1: a; C2: b".to_string()
        )
    );
    assert_eq!(
        sheet_summary(3, 1, 2, 0),
        "Imported: 3, skipped (no matching category table): 1, skipped (duplicate MPN): 2, skipped (no MPN): 0"
    );
}

#[test]
fn new_component_takes_default_libraries() {
    let mut d = defaults();
    d.footprint = "  CAP.PcbLib ".to_string();
    let c = altiumdb::import::new_component("R1", &d);
    assert_eq!(c.mpn, "R1");
    assert_eq!(c.library_ref, "RES");
    assert_eq!(c.library_path, "RES.SchLib");
    assert_eq!(c.footprint_ref, "CAP");
    assert_eq!(c.footprint_path, "CAP.PcbLib");
    assert!(!c.verified);
    let bare = altiumdb::import::new_component("X", &LibraryDefaults {
        symbol: String::new(),
        symbols_folder: String::new(),
        footprint: String::new(),
        footprints_folder: String::new(),
    });
    assert_eq!((bare.library_ref.as_str(), bare.library_path.as_str()), ("", ""));
}
