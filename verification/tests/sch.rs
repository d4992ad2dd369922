use altiumdb::altium::sch::{
    belongs_to_part, is_float_text_exec, parse_font_sizes, parse_graphic, parse_label,
    parse_pin_blob, parse_symbol, Point, SchPrimKind,
};
use altiumdb::altium::records::parse_stream_records;

fn text_record(body: &str) -> Vec<u8> {
    let mut payload = body.as_bytes().to_vec();
    payload.push(0);
    let mut out = (payload.len() as u32).to_le_bytes().to_vec();
    out.extend(payload);
    out
}

fn binary_record(payload: &[u8]) -> Vec<u8> {
    let mut out = ((payload.len() as u32) | 0x0100_0000).to_le_bytes().to_vec();
    out.extend_from_slice(payload);
    out
}

fn pin_blob(name: &str, designator: &str, flags: u8) -> Vec<u8> {
    let mut b = vec![2u8];
    b.extend(0u32.to_le_bytes());
    b.extend(1i16.to_le_bytes());
    b.push(0);
    b.extend([0u8; 4]);
    b.push(0);
    b.push(0);
    b.push(0x34);
    b.push(flags);
    b.extend(30i16.to_le_bytes());
    b.extend((-20i16).to_le_bytes());
    b.extend(40i16.to_le_bytes());
    b.extend(0x00FF00u32.to_le_bytes());
    b.push(name.len() as u8);
    b.extend(name.as_bytes());
    b.push(designator.len() as u8);
    b.extend(designator.as_bytes());
    while b.len() < 30 {
        b.push(0);
    }
    b
}

fn record(body: &str) -> altiumdb::altium::records::StreamRecord {
    parse_stream_records(&text_record(body)).remove(0)
}

#[test]
fn numbers_accepted_by_f64() {
    for ok in ["1", "1.5", ".5", "5.", "-2e3", "+1E-2", "inf", "-Infinity", "NaN"] {
        let v: Vec<char> = ok.chars().collect();
        assert!(is_float_text_exec(&v), "{ok}");
        assert!(ok.parse::<f64>().is_ok());
    }
    for bad in ["", ".", "e5", "1e", "1.2.3", "abc", " 1", "1,5", "+"] {
        let v: Vec<char> = bad.chars().collect();
        assert!(!is_float_text_exec(&v), "{bad}");
        assert!(bad.parse::<f64>().is_err());
    }
}

#[test]
fn polyline_points_and_defaults() {
    let rec = record("|RECORD=6|LOCATIONCOUNT=2|X1=10|Y1=20|X1_Frac=50000|X2=-3|COLOR=16711680");
    match parse_graphic(&rec, 6).unwrap() {
        SchPrimKind::Polyline { points, width, color } => {
            assert_eq!(points.len(), 2);
            assert_eq!((points[0].x, points[0].y), (1_050_000, 2_000_000));
            assert_eq!((points[1].x, points[1].y), (-300_000, 0));
            assert_eq!(width, 1);
            assert_eq!(color, 0xFF0000);
        }
        _ => panic!("polyline expected"),
    }
    let no_points = record("|RECORD=6");
    assert!(parse_graphic(&no_points, 6).is_none());
    let counted = record("|RECORD=5|X3=1|Y7=2");
    match parse_graphic(&counted, 5).unwrap() {
        SchPrimKind::Bezier { points, .. } => assert_eq!(points.len(), 7),
        _ => panic!("bezier expected"),
    }
}

#[test]
fn ellipse_needs_numeric_radii() {
    let rec = record("|RECORD=8|LOCATION.X=5|RADIUS=2.5|SECONDARYRADIUS= 3 |ISSOLID=T|AREACOLOR=255");
    match parse_graphic(&rec, 8).unwrap() {
        SchPrimKind::Ellipse { center, radius_x, radius_y, solid, area_color, color } => {
            assert_eq!((center.x, center.y), (500_000, 0));
            assert_eq!(radius_x, "2.5");
            assert_eq!(radius_y, "3");
            assert!(solid);
            assert_eq!(area_color, 255);
            assert_eq!(color, 0);
        }
        _ => panic!("ellipse expected"),
    }
    let bad = record("|RECORD=8|LOCATION.X=5|RADIUS=x|SECONDARYRADIUS=3");
    assert!(parse_graphic(&bad, 8).is_none());
    let no_location = record("|RECORD=8|RADIUS=1|SECONDARYRADIUS=3");
    assert!(parse_graphic(&no_location, 8).is_none());
}

#[test]
fn arc_defaults_and_rectangles() {
    let arc = record("|RECORD=12|LOCATION.Y=1|SECONDARYRADIUS=4|ENDANGLE=180");
    match parse_graphic(&arc, 12).unwrap() {
        SchPrimKind::Arc { radius, start_angle, end_angle, .. } => {
            assert_eq!(radius, "4");
            assert_eq!(start_angle, "0");
            assert_eq!(end_angle, "180");
        }
        _ => panic!("arc expected"),
    }
    let rect = record("|RECORD=14|CORNER.X=10|CORNER.Y=5");
    match parse_graphic(&rect, 14).unwrap() {
        SchPrimKind::RoundRect { p1, p2, corner_x, .. } => {
            assert_eq!((p1.x, p1.y), (0, 0));
            assert_eq!((p2.x, p2.y), (1_000_000, 500_000));
            assert_eq!(corner_x, "0");
        }
        _ => panic!("rectangle expected"),
    }
    let line = record("|RECORD=13|LOCATION.X=1|CORNER.Y=2|LINEWIDTH=2");
    match parse_graphic(&line, 13).unwrap() {
        SchPrimKind::Polyline { points, width, .. } => {
            assert_eq!(points.len(), 2);
            assert_eq!(width, 2);
        }
        _ => panic!("line expected"),
    }
    assert!(parse_graphic(&line, 99).is_none());
}

#[test]
fn labels() {
    let rec = record("|RECORD=4|LOCATION.X=1|TEXT=Vcc|FONTID=3");
    match parse_label(&rec).unwrap() {
        SchPrimKind::Label { pos, text, font_id, orientation, .. } => {
            assert_eq!((pos.x, pos.y), (100_000, 0));
            assert_eq!(text, "Vcc");
            assert_eq!(font_id, 3);
            assert_eq!(orientation, 0);
        }
        _ => panic!("label expected"),
    }
    assert!(parse_label(&record("|RECORD=4|TEXT=x")).is_none());
}

#[test]
fn pin_blobs() {
    let pin = parse_pin_blob(&pin_blob("VIN", "3", 0x0D)).unwrap();
    assert_eq!(pin.owner_part_id, 1);
    assert_eq!(pin.electrical, 4);
    assert_eq!(pin.orientation, 1);
    assert!(pin.hidden);
    assert!(pin.show_name);
    assert!(!pin.show_designator);
    assert_eq!((pin.length, pin.x, pin.y), (30, -20, 40));
    assert_eq!(pin.color, 0x00FF00);
    assert_eq!(pin.name, "VIN");
    assert_eq!(pin.designator, "3");
    assert!(parse_pin_blob(&[2u8; 10]).is_none());
}

#[test]
fn symbol_from_records() {
    let mut data = text_record("|RECORD=1|LibReference=RES|PartCount=3");
    data.extend(text_record("|RECORD=14|OWNERPARTID=2|CORNER.X=1"));
    data.extend(binary_record(&pin_blob("A", "1", 0)));
    data.extend(binary_record(&[7u8; 40]));
    data.extend(text_record("|RECORD=4|LOCATION.X=0|TEXT=R"));
    data.extend(text_record("|RECORD=41|TEXT=ignored"));
    let sym = parse_symbol("R_0402", &data).unwrap();
    assert_eq!(sym.name, "R_0402");
    assert_eq!(sym.lib_reference, "RES");
    assert_eq!(sym.part_count, 3);
    assert_eq!(sym.prims.len(), 2);
    assert_eq!(sym.prims[0].owner_part, 2);
    assert_eq!(sym.prims[1].owner_part, -1);
    assert_eq!(sym.pins.len(), 1);
    assert!(parse_symbol("x", &[]).is_none());
    let plain = parse_symbol("Y", &text_record("|RECORD=99")).unwrap();
    assert_eq!((plain.lib_reference.as_str(), plain.part_count), ("Y", 1));
}

#[test]
fn part_filter() {
    assert!(belongs_to_part(3, None));
    assert!(belongs_to_part(-1, Some(2)));
    assert!(belongs_to_part(2, Some(2)));
    assert!(!belongs_to_part(1, Some(2)));
}

#[test]
fn font_sizes_from_header() {
    let mut data = text_record("|HEADER=x|Size1=10|Size2= 12.5 |SizeX=3|Size3=big|FontName1=Times");
    data.extend(text_record("|Size9=99"));
    assert_eq!(
        parse_font_sizes(&data),
        vec![(1usize, "10".to_string()), (2usize, "12.5".to_string())]
    );
}

#[test]
fn point_is_fixed_point() {
    let p = Point { x: 1, y: -1 };
    assert_eq!(p.x + p.y, 0);
}
