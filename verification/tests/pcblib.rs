use altiumdb::altium::pcblib::{
    parse_arc, parse_courtyard_layers, parse_fill, parse_footprint, parse_region, parse_track,
    parse_via, parse_wide_strings, Prim, RegionVertex,
};

fn le32(v: i32) -> [u8; 4] {
    v.to_le_bytes()
}

fn block(payload: &[u8]) -> Vec<u8> {
    let mut out = (payload.len() as u32).to_le_bytes().to_vec();
    out.extend_from_slice(payload);
    out
}

fn track_payload(layer: u8, x1: i32, y1: i32, x2: i32, y2: i32, w: i32) -> Vec<u8> {
    let mut c = vec![layer];
    c.extend([0u8; 12]);
    for v in [x1, y1, x2, y2, w] {
        c.extend(le32(v));
    }
    c
}

fn pad_record(designator: &str, x: i32, y: i32, hole: u32, sr6: Option<&[u8]>) -> Vec<u8> {
    let mut out = vec![2u8];
    let mut d = vec![designator.len() as u8];
    d.extend(designator.as_bytes());
    out.extend(block(&d));
    for _ in 0..3 {
        out.extend(block(&[0u8]));
    }
    let mut c = vec![1u8];
    c.extend([0u8; 12]);
    for v in [x, y, 1000, 2000] {
        c.extend(le32(v));
    }
    c.extend([0u8; 8]);
    for v in [1100, 2100] {
        c.extend(le32(v));
    }
    c.extend(hole.to_le_bytes());
    c.extend([2u8, 2, 9]);
    c.extend(90.0f64.to_bits().to_le_bytes());
    out.extend(block(&c));
    if let Some(s) = sr6 {
        out.extend(block(s));
    }
    out
}

#[test]
fn fixed_layout_payloads() {
    let t = parse_track(&track_payload(1, 10, 20, 30, 40, 5)).unwrap();
    assert_eq!((t.layer, t.x1, t.y1, t.x2, t.y2, t.width), (1, 10, 20, 30, 40, 5));
    assert!(parse_track(&track_payload(1, 10, 20, 30, 40, 5)[..32]).is_none());

    let mut a = vec![33u8];
    a.extend([0u8; 12]);
    for v in [100, -200, 50] {
        a.extend(le32(v));
    }
    a.extend(0.0f64.to_bits().to_le_bytes());
    a.extend(360.0f64.to_bits().to_le_bytes());
    a.extend(le32(7));
    let arc = parse_arc(&a).unwrap();
    assert_eq!((arc.layer, arc.cx, arc.cy, arc.radius, arc.width), (33, 100, -200, 50, 7));
    assert_eq!(f64::from_bits(arc.end_angle), 360.0);

    let mut v = vec![0u8; 13];
    for x in [1, 2, 300, 150] {
        v.extend(le32(x));
    }
    let via = parse_via(&v).unwrap();
    assert_eq!((via.x, via.y, via.diameter, via.hole_size), (1, 2, 300, 150));

    let mut f = vec![32u8];
    f.extend([0u8; 12]);
    for x in [0, 0, 10, 10] {
        f.extend(le32(x));
    }
    f.extend(45.0f64.to_bits().to_le_bytes());
    let fill = parse_fill(&f).unwrap();
    assert_eq!(fill.layer, 32);
    assert_eq!(f64::from_bits(fill.rotation), 45.0);
}

#[test]
fn footprint_with_track_and_pad() {
    let mut data = block(b"\x04NAME");
    data.push(4);
    data.extend(block(&track_payload(33, 0, 0, 100, 0, 10)));
    data.extend(pad_record("1", -417300, 374000, 0, None));
    let fp = parse_footprint("SOT23", &data, None).unwrap();
    assert_eq!(fp.name, "SOT23");
    assert_eq!(fp.prims.len(), 2);
    match &fp.prims[1] {
        Prim::Pad(p) => {
            assert_eq!(p.designator, "1");
            assert_eq!((p.x, p.y), (-417300, 374000));
            assert_eq!((p.top_width, p.top_height, p.bot_width, p.bot_height), (1000, 2000, 1100, 2100));
            assert_eq!(p.top_shape, 2);
            assert_eq!(p.bot_shape, 4);
            assert_eq!(f64::from_bits(p.rotation), 90.0);
            assert!(!p.is_through_hole());
            assert_eq!(p.shape_on(false), 4);
            assert_eq!(p.size_on(false), (1100, 2100));
            assert!(!p.has_slot());
        }
        _ => panic!("pad expected"),
    }
    assert_eq!(fp.prims[0].layer(), 33);
}

#[test]
fn pad_with_layer_overrides() {
    let mut sr6 = vec![0u8; 596];
    sr6[262] = 2;
    sr6[263..267].copy_from_slice(&le32(5000));
    sr6[532] = 9;
    sr6[564] = 1;
    let mut data = block(b"\x01X");
    data.extend(pad_record("A1", 0, 0, 300, Some(&sr6)));
    let fp = parse_footprint("P", &data, None).unwrap();
    match &fp.prims[0] {
        Prim::Pad(p) => {
            assert_eq!(p.hole_shape, 2);
            assert_eq!(p.slot_size, 5000);
            assert_eq!(p.top_shape, 4);
            assert_eq!(p.bot_shape, 1);
            assert!(p.is_through_hole());
            assert!(p.has_slot());
            assert_eq!(p.shape_on(false), 4);
        }
        _ => panic!("pad expected"),
    }
}

#[test]
fn unknown_record_ends_the_list_and_empty_footprint_is_none() {
    let mut data = block(b"\x01X");
    data.push(4);
    data.extend(block(&track_payload(1, 0, 0, 1, 1, 1)));
    data.push(77);
    data.extend(block(&track_payload(1, 0, 0, 1, 1, 1)));
    let fp = parse_footprint("F", &data, None).unwrap();
    assert_eq!(fp.prims.len(), 1);
    let only_unknown = {
        let mut d = block(b"\x01X");
        d.push(77);
        d.extend(block(&[1, 2, 3, 4, 5]));
        d
    };
    assert!(parse_footprint("F", &only_unknown, None).is_none());
    assert!(parse_footprint("F", &[0, 0, 0, 0], None).is_none());
}

#[test]
fn text_record_takes_wide_string() {
    let mut sr1 = vec![33u8];
    sr1.extend([0u8; 12]);
    for v in [5, 6, 70] {
        sr1.extend(le32(v));
    }
    sr1.extend([0u8; 2]);
    sr1.extend(0.0f64.to_bits().to_le_bytes());
    sr1.push(1);
    sr1.extend([0u8; 6]);
    sr1.extend([0u8; 77]);
    sr1.extend(3u32.to_le_bytes());
    let mut data = block(b"\x01X");
    data.push(5);
    data.extend(block(&sr1));
    data.extend(block(b"\x05ascii"));
    let wide_text = "|ENCODEDTEXT3=72,105|ENCODEDTEXT0=65";
    let wide = block(wide_text.as_bytes());
    let fp = parse_footprint("T", &data, Some(&wide)).unwrap();
    match &fp.prims[0] {
        Prim::Text(t) => {
            assert_eq!(t.content, "Hi");
            assert!(t.mirrored);
            assert_eq!((t.x, t.y, t.height), (5, 6, 70));
        }
        _ => panic!("text expected"),
    }
    let fp2 = parse_footprint("T", &data, None).unwrap();
    match &fp2.prims[0] {
        Prim::Text(t) => assert_eq!(t.content, "ascii"),
        _ => panic!("text expected"),
    }
}

#[test]
fn wide_strings_entries() {
    let w = parse_wide_strings(&block(b"|ENCODEDTEXT2=72,105,55296,x|BAD|ENCODEDTEXT2=66"));
    assert_eq!(w, vec![(2usize, "Hi?".to_string()), (2usize, "B".to_string())]);
    assert!(parse_wide_strings(&[1, 0]).is_empty());
}

#[test]
fn region_simple_outline() {
    let mut c = vec![1u8];
    c.extend([0u8; 17]);
    let props = b"|KIND=0|";
    c.extend((props.len() as u32).to_le_bytes());
    c.extend(props);
    c.extend(2u32.to_le_bytes());
    for v in [1.0f64, 2.0, 3.0, 4.0] {
        c.extend(v.to_bits().to_le_bytes());
    }
    let r = parse_region(&c, false).unwrap();
    assert_eq!(r.layer, 1);
    assert!(!r.is_body);
    assert_eq!(r.outline.len(), 2);
    match r.outline[1] {
        RegionVertex::Plain { x_bits, y_bits } => {
            assert_eq!((f64::from_bits(x_bits), f64::from_bits(y_bits)), (3.0, 4.0));
        }
        _ => panic!("plain vertex expected"),
    }
    assert!(parse_region(&c[..20], false).is_none());
}

#[test]
fn region_shape_based_outline() {
    let mut c = vec![74u8];
    c.extend([0u8; 17]);
    let props = b"|ISSHAPEBASED=TRUE|";
    c.extend((props.len() as u32).to_le_bytes());
    c.extend(props);
    c.push(0);
    c.extend(1u32.to_le_bytes());
    for i in 0..2 {
        c.push(i as u8);
        for v in [10 * i, 20, 0, 0, 0] {
            c.extend(le32(v));
        }
        c.extend([0u8; 16]);
    }
    let r = parse_region(&c, false).unwrap();
    assert_eq!(r.outline.len(), 2);
    match r.outline[1] {
        RegionVertex::Extended { round, x, y, .. } => {
            assert!(round);
            assert_eq!((x, y), (10, 20));
        }
        _ => panic!("extended vertex expected"),
    }
}

#[test]
fn courtyard_layers_from_layer_table() {
    let text = b"|LAYER71NAME=Courtyard Top|LAYER72MECHKIND=CourtyardBottom|LAYER13NAME=Mech|LAYER71MECHKIND=x|LAYER300NAME=Courtyard";
    assert_eq!(parse_courtyard_layers(text), vec![71, 72]);
    let renamed = b"|LAYER71NAME=Courtyard|LAYER71NAME=Other";
    assert!(parse_courtyard_layers(renamed).is_empty());
}

#[test]
fn text_level_tables() {
    assert_eq!(
        altiumdb::altium::pcblib::wide_entries_of_text("|ENCODEDTEXT0=65,66|JUNK"),
        vec![(0usize, "AB".to_string())]
    );
    assert_eq!(
        altiumdb::altium::pcblib::courtyard_layers_of_text("|LAYER60MECHKIND=COURTYARD|LAYER61NAME=Top"),
        vec![60]
    );
}
