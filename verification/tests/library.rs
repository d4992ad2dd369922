use altiumdb::altium::library::{
    list_footprints, list_symbols, pick_footprint, pick_symbol, read_pcb_library,
    read_sch_library, sort_names, symbol_part,
};
use std::io::{Cursor, Write};

fn block(payload: &[u8]) -> Vec<u8> {
    let mut out = (payload.len() as u32).to_le_bytes().to_vec();
    out.extend_from_slice(payload);
    out
}

fn text_record(body: &str) -> Vec<u8> {
    let mut payload = body.as_bytes().to_vec();
    payload.push(0);
    block(&payload)
}

fn track_footprint(x2: i32) -> Vec<u8> {
    let mut data = block(b"\x04NAME");
    data.push(4);
    let mut c = vec![1u8];
    c.extend([0u8; 12]);
    for v in [0, 0, x2, 0, 10] {
        c.extend(v.to_le_bytes());
    }
    data.extend(block(&c));
    data
}

/// A compound file with the given streams (parent storages created first).
fn compound(streams: &[(&str, Vec<u8>)], storages: &[&str]) -> Vec<u8> {
    let mut comp = cfb::CompoundFile::create(Cursor::new(Vec::new())).unwrap();
    for s in storages {
        comp.create_storage(s).unwrap();
    }
    for (path, bytes) in streams {
        let mut stream = comp.create_stream(path).unwrap();
        stream.write_all(bytes).unwrap();
    }
    comp.flush().unwrap();
    comp.into_inner().into_inner()
}

#[test]
fn names_sort_ignoring_case_and_stably() {
    let names: Vec<String> = ["b", "A", "a", "C", "B"].iter().map(|s| s.to_string()).collect();
    assert_eq!(sort_names(&names), vec!["A", "a", "b", "B", "C"]);
}

#[test]
fn pcb_library_from_compound_file() {
    let data = compound(
        &[
            ("/zeta/Data", track_footprint(100)),
            ("/Alpha/Data", track_footprint(200)),
            ("/Broken/Data", vec![0, 0, 0, 0]),
            ("/Library/Data", b"|LAYER57NAME=Courtyard".to_vec()),
        ],
        &["/zeta", "/Alpha", "/Broken", "/Library"],
    );
    let lib = read_pcb_library(&data).unwrap();
    assert_eq!(list_footprints(&lib), vec!["Alpha", "zeta"]);
    assert_eq!(lib.courtyard_layers, vec![57]);
    assert_eq!(lib.footprints[0].prims.len(), 1);
    assert_eq!(pick_footprint(&lib, "zeta"), Ok(1));
    assert_eq!(pick_footprint(&lib, "missing"), Ok(0));
}

#[test]
fn pcb_library_errors() {
    match read_pcb_library(b"not a compound file") {
        Err(e) => assert!(e.starts_with("OLE: ")),
        Ok(_) => panic!("error expected"),
    }
    let empty = read_pcb_library(&compound(&[], &[])).unwrap();
    assert!(empty.footprints.is_empty());
    assert_eq!(
        pick_footprint(&empty, "x"),
        Err("library has no footprints".to_string())
    );
}

#[test]
fn sch_library_from_compound_file() {
    let mut res = text_record("|RECORD=1|LibReference=RES|PartCount=3");
    res.extend(text_record("|RECORD=4|LOCATION.X=0|TEXT=R"));
    let cap = text_record("|RECORD=1|LibReference=CAP");
    let data = compound(
        &[
            ("/FileHeader", text_record("|HEADER=x|Size1=10|Size2=12")),
            ("/R_0402/Data", res),
            ("/C_0402/Data", cap),
            ("/Storage/Data", text_record("|RECORD=1")),
        ],
        &["/R_0402", "/C_0402", "/Storage"],
    );
    let lib = read_sch_library(&data).unwrap();
    let mut names = list_symbols(&lib);
    names.sort();
    assert_eq!(names, vec!["C_0402", "R_0402"]);
    assert_eq!(
        lib.font_sizes,
        vec![(1usize, "10".to_string()), (2usize, "12".to_string())]
    );
    let r = pick_symbol(&lib, "RES").unwrap();
    assert_eq!(lib.symbols[r].name, "R_0402");
    assert_eq!(symbol_part(&lib.symbols[r]), Some(1));
    let c = pick_symbol(&lib, "C_0402").unwrap();
    assert_eq!(symbol_part(&lib.symbols[c]), None);
    assert_eq!(pick_symbol(&lib, "unknown"), Ok(0));
    match read_sch_library(b"garbage") {
        Err(e) => assert!(e.starts_with("OLE: ")),
        Ok(_) => panic!("error expected"),
    }
}

fn entry(path: &[&str], is_stream: bool) -> altiumdb::altium::library::OleEntry {
    altiumdb::altium::library::OleEntry {
        path: path.iter().map(|s| s.to_string()).collect(),
        name: path.last().unwrap().to_string(),
        is_stream,
        is_storage: !is_stream,
    }
}

#[test]
fn storages_named_in_a_listing() {
    let es = vec![
        entry(&["/"], false),
        entry(&["/", "R0603"], false),
        entry(&["/", "R0603", "Data"], true),
        entry(&["/", "R0603", "WideStrings"], true),
        entry(&["/", "Library"], false),
        entry(&["/", "Library", "Data"], true),
        entry(&["/", "FileHeader"], false),
        entry(&["/", "C0402"], false),
        entry(&["/", "C0402", "data"], true),
    ];
    assert_eq!(
        altiumdb::altium::library::footprint_storage_names(&es),
        vec!["R0603".to_string(), "C0402".to_string()]
    );
    assert_eq!(
        altiumdb::altium::library::symbol_storage_names(&es),
        vec!["R0603".to_string(), "Library".to_string(), "C0402".to_string()]
    );
    let sorted = altiumdb::altium::library::sort_keyed(vec![
        ("b".to_string(), "B1".to_string()),
        ("a".to_string(), "A".to_string()),
        ("b".to_string(), "B2".to_string()),
    ]);
    let names: Vec<&str> = sorted.iter().map(|(_, n)| n.as_str()).collect();
    assert_eq!(names, vec!["A", "B1", "B2"]);
}
