use altiumdb::altium::records::{
    cp1252_byte, decode_text, parse_int, parse_stream_records, Reader, StreamRecord,
};

fn text_record(body: &str) -> Vec<u8> {
    let mut payload = body.as_bytes().to_vec();
    payload.push(0);
    let mut out = (payload.len() as u32).to_le_bytes().to_vec();
    out.extend(payload);
    out
}

fn binary_record(payload: &[u8]) -> Vec<u8> {
    let mut out = ((payload.len() as u32) | 0x0100_0000).to_le_bytes().to_vec();
    out.extend_from_slice(payload);
    out
}

#[test]
fn reader_reads_little_endian_values() {
    let data = [0x01u8, 0x34, 0x12, 0xFE, 0xFF, 0x78, 0x56, 0x34, 0x12, 0x00, 0x00, 0x00, 0x00, 0x00, 0x00, 0xF0, 0x3F];
    let mut r = Reader::new(&data);
    assert_eq!(r.u8(), Some(1));
    assert_eq!(r.u16(), Some(0x1234));
    assert_eq!(r.i16(), Some(-2));
    assert_eq!(r.peek_u32(), Some(0x1234_5678));
    assert_eq!(r.u32(), Some(0x1234_5678));
    assert_eq!(r.pos(), 9);
    assert_eq!(r.f64_bits().map(f64::from_bits), Some(1.0));
    assert_eq!(r.remaining(), 0);
    assert_eq!(r.u8(), None);
    assert_eq!(r.pos(), 17);
}

#[test]
fn reader_short_reads_do_not_move() {
    let data = [1u8, 2, 3];
    let mut r = Reader::new(&data);
    assert_eq!(r.i32(), None);
    assert_eq!(r.pos(), 0);
    assert_eq!(r.bytes(4), None);
    assert_eq!(r.bytes(2), Some(&data[0..2]));
    r.seek(100);
    assert_eq!(r.pos(), 3);
}

#[test]
fn pascal_strings() {
    let data = [3u8, b'a', b'b', b'c', 5, b'x'];
    let mut r = Reader::new(&data);
    assert_eq!(r.pascal_string(), Some("abc".to_string()));
    assert_eq!(r.pascal_string(), None);
    assert_eq!(r.pos(), 5);
}

#[test]
fn text_decoding_uses_windows_1252_for_invalid_utf8() {
    assert_eq!(decode_text("Ω ok".as_bytes()), "Ω ok");
    assert_eq!(decode_text(&[0x80, b'A', 0xB5]), "\u{20AC}Aµ");
    assert_eq!(cp1252_byte(0x41), 'A');
    assert_eq!(cp1252_byte(0x99), '\u{2122}');
    assert_eq!(cp1252_byte(0xE9), 'é');
}

#[test]
fn integers_in_properties() {
    assert_eq!(parse_int(" 42 "), Some(42));
    assert_eq!(parse_int("-7"), Some(-7));
    assert_eq!(parse_int("$FF"), Some(255));
    assert_eq!(parse_int("1.5"), None);
    assert_eq!(parse_int(""), None);
}

#[test]
fn stream_records_text_and_binary() {
    let mut data = text_record("|RECORD=1|LibReference=R|partcount=2");
    data.extend(binary_record(&[2, 9, 9]));
    data.extend(text_record("|RECORD=4|TEXT=a=b"));
    data.extend([0, 0, 0, 0]);
    data.extend(text_record("|RECORD=99"));
    let recs = parse_stream_records(&data);
    assert_eq!(recs.len(), 3);
    assert_eq!(recs[0].prop("LIBREFERENCE"), Some("R"));
    assert_eq!(recs[0].prop_i64("PartCount"), Some(2));
    assert_eq!(recs[1].binary_data(), Some(&[2u8, 9, 9][..]));
    assert_eq!(recs[1].prop("RECORD"), None);
    assert_eq!(recs[2].prop("TEXT"), Some("a=b"));
    match &recs[2] {
        StreamRecord::Text(pairs) => assert_eq!(pairs.len(), 2),
        StreamRecord::Binary(_) => panic!("text record expected"),
    }
}

#[test]
fn split_reads_match_one_read() {
    let data = [9u8, 8, 7, 6, 5, 4, 3];
    let mut r1 = Reader::new(&data);
    let mut r2 = Reader::new(&data);
    r1.seek(1);
    r2.seek(1);
    let x = r1.bytes(2).unwrap();
    let y = r1.bytes(3).unwrap();
    let z = r2.bytes(5).unwrap();
    assert_eq!([x, y].concat(), z.to_vec());
    assert_eq!(r1.pos(), r2.pos());
    assert_eq!(r1.pos(), 6);
}

#[test]
fn cut_stream_gives_leading_records() {
    let mut data = text_record("|RECORD=1|A=x");
    data.extend(binary_record(&[7, 7]));
    data.extend(text_record("|RECORD=2"));
    let all = parse_stream_records(&data);
    assert_eq!(all.len(), 3);
    assert!(all.len() <= data.len() / 5);
    for k in 0..=data.len() {
        let part = parse_stream_records(&data[..k]);
        assert!(part.len() <= all.len());
        for (i, rec) in part.iter().enumerate() {
            match (rec, &all[i]) {
                (StreamRecord::Text(a), StreamRecord::Text(b)) => assert_eq!(a, b),
                (StreamRecord::Binary(a), StreamRecord::Binary(b)) => assert_eq!(a, b),
                _ => panic!("record kinds differ"),
            }
        }
    }
    let first_len = text_record("|RECORD=1|A=x").len();
    assert_eq!(parse_stream_records(&data[..first_len]).len(), 1);
    assert_eq!(parse_stream_records(&data[..first_len - 1]).len(), 0);
}
