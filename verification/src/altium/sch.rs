//! Altium `.SchLib` parsing.
//!
//! The library stores each symbol in its own OLE storage `<Name>/Data` as a
//! stream of length-prefixed records. Text records are `KEY=VALUE` property
//! lists (`RECORD=n` selects the kind); pins are stored as binary blobs.
//!
//! Schematic coordinates are in 10-mil units with an optional fractional part
//! (1/100000 of a unit); a [`Point`] holds them exactly as fixed-point
//! integers. Other real-valued properties (radii, angles, sizes) are kept as
//! their decimal text, which `f64`'s `FromStr` accepts.

use vstd::prelude::*;
use crate::altium::records::{
    decode_text, decode_text_spec, i16_bytes, le_i16, le_u32, lemma_i16_bytes_at,
    lemma_u32_bytes_at, parse_stream_records, record_prop, u32_bytes,
    record_prop_i64, records_view, stream_records, Reader, RecordSpec, StreamRecord,
};
use crate::text::{
    chars_eq, chars_of, dec, find_char, find_first, lower_chars, lower_seq, parse_u64,
    parse_u64_chars, push_dec, push_str, string_from_chars, trim_chars, trim_seq, upper_chars,
    upper_seq,
};

verus! {

broadcast use vstd::string::group_string_axioms;

/// Default ink color used when COLOR is absent (black).
pub const SCH_DEFAULT_INK: u32 = 0x000000;

/// Fractional steps per schematic unit.
pub const FRACTION: i128 = 100_000;

/// A location in schematic units (10 mil) times [`FRACTION`].
#[derive(Debug, Clone, Copy)]
pub struct Point {
    pub x: i128,
    pub y: i128,
}

#[derive(Debug, Clone)]
pub enum SchPrimKind {
    Polyline { points: Vec<Point>, width: u8, color: u32 },
    Polygon { points: Vec<Point>, color: u32, area_color: u32, solid: bool },
    Ellipse {
        center: Point,
        radius_x: String,
        radius_y: String,
        color: u32,
        area_color: u32,
        solid: bool,
    },
    Pie {
        center: Point,
        radius_x: String,
        radius_y: String,
        start_angle: String,
        end_angle: String,
        color: u32,
        area_color: u32,
        solid: bool,
    },
    /// `corner_x` / `corner_y` are the corner radii.
    RoundRect {
        p1: Point,
        p2: Point,
        corner_x: String,
        corner_y: String,
        color: u32,
        area_color: u32,
        solid: bool,
    },
    EllipticalArc {
        center: Point,
        radius_x: String,
        radius_y: String,
        start_angle: String,
        end_angle: String,
        width: u8,
        color: u32,
    },
    Arc {
        center: Point,
        radius: String,
        start_angle: String,
        end_angle: String,
        width: u8,
        color: u32,
    },
    /// RECORD=3: IEEE symbol marker drawn at a location.
    IeeeMarker { pos: Point, color: u32 },
    /// RECORD=30: embedded image; only its frame is kept.
    Image { p1: Point, width: String, height: String },
    Bezier { points: Vec<Point>, width: u8, color: u32 },
    Label { pos: Point, text: String, color: u32, font_id: i64, orientation: i64 },
}

#[derive(Debug, Clone)]
pub struct SchPrim {
    pub owner_part: i64,
    pub kind: SchPrimKind,
}

/// A pin; `length`, `x` and `y` are in schematic units (10 mil).
#[derive(Debug, Clone)]
pub struct Pin {
    pub owner_part_id: i16,
    pub description: String,
    pub electrical: u8,
    pub orientation: u8,
    pub hidden: bool,
    pub show_name: bool,
    pub show_designator: bool,
    pub length: i16,
    pub x: i16,
    pub y: i16,
    pub color: u32,
    pub name: String,
    pub designator: String,
}

#[derive(Debug, Clone)]
pub struct Symbol {
    pub name: String,
    pub lib_reference: String,
    pub part_count: i64,
    pub prims: Vec<SchPrim>,
    pub pins: Vec<Pin>,
}

/// A parsed library: its symbols and the font sizes of its header, as
/// (font index, point size text) entries; a later entry for the same index
/// wins and absent indices have size 10.
pub struct SchLib {
    pub symbols: Vec<Symbol>,
    pub font_sizes: Vec<(usize, String)>,
}

// ---------------------------------------------------------------------------
// Views
// ---------------------------------------------------------------------------

pub enum KindSpec {
    Polyline { points: Seq<Point>, width: u8, color: u32 },
    Polygon { points: Seq<Point>, color: u32, area_color: u32, solid: bool },
    Ellipse {
        center: Point,
        radius_x: Seq<char>,
        radius_y: Seq<char>,
        color: u32,
        area_color: u32,
        solid: bool,
    },
    Pie {
        center: Point,
        radius_x: Seq<char>,
        radius_y: Seq<char>,
        start_angle: Seq<char>,
        end_angle: Seq<char>,
        color: u32,
        area_color: u32,
        solid: bool,
    },
    RoundRect {
        p1: Point,
        p2: Point,
        corner_x: Seq<char>,
        corner_y: Seq<char>,
        color: u32,
        area_color: u32,
        solid: bool,
    },
    EllipticalArc {
        center: Point,
        radius_x: Seq<char>,
        radius_y: Seq<char>,
        start_angle: Seq<char>,
        end_angle: Seq<char>,
        width: u8,
        color: u32,
    },
    Arc {
        center: Point,
        radius: Seq<char>,
        start_angle: Seq<char>,
        end_angle: Seq<char>,
        width: u8,
        color: u32,
    },
    IeeeMarker { pos: Point, color: u32 },
    Image { p1: Point, width: Seq<char>, height: Seq<char> },
    Bezier { points: Seq<Point>, width: u8, color: u32 },
    Label { pos: Point, text: Seq<char>, color: u32, font_id: i64, orientation: i64 },
}

impl View for SchPrimKind {
    type V = KindSpec;

    open spec fn view(&self) -> KindSpec {
        match self {
            SchPrimKind::Polyline { points, width, color } => KindSpec::Polyline {
                points: points@,
                width: *width,
                color: *color,
            },
            SchPrimKind::Polygon { points, color, area_color, solid } => KindSpec::Polygon {
                points: points@,
                color: *color,
                area_color: *area_color,
                solid: *solid,
            },
            SchPrimKind::Ellipse { center, radius_x, radius_y, color, area_color, solid } => {
                KindSpec::Ellipse {
                    center: *center,
                    radius_x: radius_x@,
                    radius_y: radius_y@,
                    color: *color,
                    area_color: *area_color,
                    solid: *solid,
                }
            },
            SchPrimKind::Pie {
                center,
                radius_x,
                radius_y,
                start_angle,
                end_angle,
                color,
                area_color,
                solid,
            } => KindSpec::Pie {
                center: *center,
                radius_x: radius_x@,
                radius_y: radius_y@,
                start_angle: start_angle@,
                end_angle: end_angle@,
                color: *color,
                area_color: *area_color,
                solid: *solid,
            },
            SchPrimKind::RoundRect { p1, p2, corner_x, corner_y, color, area_color, solid } => {
                KindSpec::RoundRect {
                    p1: *p1,
                    p2: *p2,
                    corner_x: corner_x@,
                    corner_y: corner_y@,
                    color: *color,
                    area_color: *area_color,
                    solid: *solid,
                }
            },
            SchPrimKind::EllipticalArc {
                center,
                radius_x,
                radius_y,
                start_angle,
                end_angle,
                width,
                color,
            } => KindSpec::EllipticalArc {
                center: *center,
                radius_x: radius_x@,
                radius_y: radius_y@,
                start_angle: start_angle@,
                end_angle: end_angle@,
                width: *width,
                color: *color,
            },
            SchPrimKind::Arc { center, radius, start_angle, end_angle, width, color } => {
                KindSpec::Arc {
                    center: *center,
                    radius: radius@,
                    start_angle: start_angle@,
                    end_angle: end_angle@,
                    width: *width,
                    color: *color,
                }
            },
            SchPrimKind::IeeeMarker { pos, color } => KindSpec::IeeeMarker {
                pos: *pos,
                color: *color,
            },
            SchPrimKind::Image { p1, width, height } => KindSpec::Image {
                p1: *p1,
                width: width@,
                height: height@,
            },
            SchPrimKind::Bezier { points, width, color } => KindSpec::Bezier {
                points: points@,
                width: *width,
                color: *color,
            },
            SchPrimKind::Label { pos, text, color, font_id, orientation } => KindSpec::Label {
                pos: *pos,
                text: text@,
                color: *color,
                font_id: *font_id,
                orientation: *orientation,
            },
        }
    }
}

pub struct SchPrimSpec {
    pub owner_part: i64,
    pub kind: KindSpec,
}

impl View for SchPrim {
    type V = SchPrimSpec;

    open spec fn view(&self) -> SchPrimSpec {
        SchPrimSpec { owner_part: self.owner_part, kind: self.kind@ }
    }
}

pub struct PinSpec {
    pub owner_part_id: i16,
    pub description: Seq<char>,
    pub electrical: u8,
    pub orientation: u8,
    pub hidden: bool,
    pub show_name: bool,
    pub show_designator: bool,
    pub length: i16,
    pub x: i16,
    pub y: i16,
    pub color: u32,
    pub name: Seq<char>,
    pub designator: Seq<char>,
}

impl View for Pin {
    type V = PinSpec;

    open spec fn view(&self) -> PinSpec {
        PinSpec {
            owner_part_id: self.owner_part_id,
            description: self.description@,
            electrical: self.electrical,
            orientation: self.orientation,
            hidden: self.hidden,
            show_name: self.show_name,
            show_designator: self.show_designator,
            length: self.length,
            x: self.x,
            y: self.y,
            color: self.color,
            name: self.name@,
            designator: self.designator@,
        }
    }
}

pub struct SymbolSpec {
    pub name: Seq<char>,
    pub lib_reference: Seq<char>,
    pub part_count: i64,
    pub prims: Seq<SchPrimSpec>,
    pub pins: Seq<PinSpec>,
}

impl View for Symbol {
    type V = SymbolSpec;

    open spec fn view(&self) -> SymbolSpec {
        SymbolSpec {
            name: self.name@,
            lib_reference: self.lib_reference@,
            part_count: self.part_count,
            prims: self.prims@.map_values(|p: SchPrim| p@),
            pins: self.pins@.map_values(|p: Pin| p@),
        }
    }
}

// ---------------------------------------------------------------------------
// Numbers
// ---------------------------------------------------------------------------

pub open spec fn is_ascii_digit(c: char) -> bool {
    '0' <= c && c <= '9'
}

pub open spec fn all_digits(s: Seq<char>) -> bool {
    forall|i: int| 0 <= i < s.len() ==> is_ascii_digit(#[trigger] s[i])
}

/// Digits with at most one `.`, and at least one digit.
pub open spec fn is_mantissa(s: Seq<char>) -> bool {
    match find_first(s, |c: char| c == '.') {
        None => s.len() > 0 && all_digits(s),
        Some(d) => all_digits(s.take(d)) && all_digits(s.skip(d + 1)) && s.len() >= 2,
    }
}

/// An optionally signed, non-empty digit string.
pub open spec fn is_exponent(s: Seq<char>) -> bool {
    let b = if s.len() > 0 && (s[0] == '+' || s[0] == '-') {
        s.drop_first()
    } else {
        s
    };
    b.len() > 0 && all_digits(b)
}

pub open spec fn is_decimal(s: Seq<char>) -> bool {
    match find_first(s, |c: char| c == 'e' || c == 'E') {
        None => is_mantissa(s),
        Some(k) => is_mantissa(s.take(k)) && is_exponent(s.skip(k + 1)),
    }
}

/// The text `f64::from_str` accepts: an optional sign, then `inf`,
/// `infinity` or `nan` in any case, or a decimal number with an optional
/// exponent.
pub open spec fn is_float_text(s: Seq<char>) -> bool {
    let b = if s.len() > 0 && (s[0] == '+' || s[0] == '-') {
        s.drop_first()
    } else {
        s
    };
    let l = lower_seq(b);
    l == "inf"@ || l == "infinity"@ || l == "nan"@ || is_decimal(b)
}

fn all_digits_exec(v: &[char]) -> (r: bool)
    ensures
        r == all_digits(v@),
{
    let mut i: usize = 0;
    while i < v.len()
        invariant
            i <= v@.len(),
            forall|j: int| 0 <= j < i ==> is_ascii_digit(#[trigger] v@[j]),
        decreases v@.len() - i,
    {
        if !('0' <= v[i] && v[i] <= '9') {
            assert(!is_ascii_digit(v@[i as int]));
            return false;
        }
        i += 1;
    }
    true
}

fn is_mantissa_exec(v: &[char]) -> (r: bool)
    ensures
        r == is_mantissa(v@),
{
    match find_char(v, '.') {
        None => v.len() > 0 && all_digits_exec(v),
        Some(d) => {
            let a = vstd::slice::slice_subrange(v, 0, d);
            let b = vstd::slice::slice_subrange(v, d + 1, v.len());
            assert(a@ =~= v@.take(d as int));
            assert(b@ =~= v@.skip(d + 1));
            all_digits_exec(a) && all_digits_exec(b) && v.len() >= 2
        },
    }
}

fn is_exponent_exec(v: &[char]) -> (r: bool)
    ensures
        r == is_exponent(v@),
{
    let b = if v.len() > 0 && (v[0] == '+' || v[0] == '-') {
        vstd::slice::slice_subrange(v, 1, v.len())
    } else {
        v
    };
    assert(v@.len() > 0 && (v@[0] == '+' || v@[0] == '-') ==> b@ =~= v@.drop_first());
    b.len() > 0 && all_digits_exec(b)
}

fn is_decimal_exec(v: &[char]) -> (r: bool)
    ensures
        r == is_decimal(v@),
{
    let mut k: usize = 0;
    while k < v.len() && v[k] != 'e' && v[k] != 'E'
        invariant
            k <= v@.len(),
            forall|j: int| 0 <= j < k ==> !(#[trigger] v@[j] == 'e' || v@[j] == 'E'),
        decreases v@.len() - k,
    {
        k += 1;
    }
    if k == v.len() {
        proof {
            crate::text::lemma_find_first_none(v@, |c: char| c == 'e' || c == 'E');
        }
        is_mantissa_exec(v)
    } else {
        proof {
            crate::text::lemma_find_first_at(v@, |c: char| c == 'e' || c == 'E', k as int);
        }
        let a = vstd::slice::slice_subrange(v, 0, k);
        let b = vstd::slice::slice_subrange(v, k + 1, v.len());
        assert(a@ =~= v@.take(k as int));
        assert(b@ =~= v@.skip(k + 1));
        is_mantissa_exec(a) && is_exponent_exec(b)
    }
}

/// Whether `v` is number text that `f64::from_str` accepts.
pub fn is_float_text_exec(v: &[char]) -> (r: bool)
    ensures
        r == is_float_text(v@),
{
    let b = if v.len() > 0 && (v[0] == '+' || v[0] == '-') {
        vstd::slice::slice_subrange(v, 1, v.len())
    } else {
        v
    };
    assert(v@.len() > 0 && (v@[0] == '+' || v@[0] == '-') ==> b@ =~= v@.drop_first());
    let l = lower_chars(b);
    chars_eq(&l, &chars_of("inf")) || chars_eq(&l, &chars_of("infinity")) || chars_eq(
        &l,
        &chars_of("nan"),
    ) || is_decimal_exec(b)
}

// ---------------------------------------------------------------------------
// Properties
// ---------------------------------------------------------------------------

pub open spec fn prop_i64_or(r: RecordSpec, key: Seq<char>, d: i64) -> i64 {
    match record_prop_i64(r, key) {
        Some(v) => v,
        None => d,
    }
}

/// A real-valued property: its trimmed text, when `f64` parses it.
pub open spec fn prop_num(r: RecordSpec, key: Seq<char>) -> Option<Seq<char>> {
    match record_prop(r, key) {
        Some(v) => if is_float_text(trim_seq(v)) {
            Some(trim_seq(v))
        } else {
            None
        },
        None => None,
    }
}

pub open spec fn prop_num_or(r: RecordSpec, key: Seq<char>, d: Seq<char>) -> Seq<char> {
    match prop_num(r, key) {
        Some(v) => v,
        None => d,
    }
}

/// A color property: the low 24 bits of its value (a Win32 COLORREF).
pub open spec fn color_of(r: RecordSpec, key: Seq<char>) -> Option<u32> {
    match record_prop_i64(r, key) {
        Some(v) => Some((v as u32) & 0xFFFFFF),
        None => None,
    }
}

/// A boolean property: `T` or `TRUE` in any ASCII case.
pub open spec fn prop_bool(r: RecordSpec, key: Seq<char>) -> bool {
    match record_prop(r, key) {
        Some(v) => upper_seq(v) == "T"@ || upper_seq(v) == "TRUE"@,
        None => false,
    }
}

pub open spec fn point_from_parts(xi: i64, xf: i64, yi: i64, yf: i64) -> Point {
    Point { x: (xi * FRACTION + xf) as i128, y: (yi * FRACTION + yf) as i128 }
}

/// Point `idx` of a record (`Xn`, `Xn_Frac`, `Yn`, `Yn_Frac`; missing
/// components are zero).
pub open spec fn rec_point(r: RecordSpec, idx: nat) -> Point {
    point_from_parts(
        prop_i64_or(r, "X"@ + dec(idx), 0),
        prop_i64_or(r, "X"@ + dec(idx) + "_Frac"@, 0),
        prop_i64_or(r, "Y"@ + dec(idx), 0),
        prop_i64_or(r, "Y"@ + dec(idx) + "_Frac"@, 0),
    )
}

/// The point `key` of a record (`key.X`, `key.X_Frac`, ...; missing
/// components are zero).
pub open spec fn rec_xy_zero(r: RecordSpec, key: Seq<char>) -> Point {
    point_from_parts(
        prop_i64_or(r, key + ".X"@, 0),
        prop_i64_or(r, key + ".X_Frac"@, 0),
        prop_i64_or(r, key + ".Y"@, 0),
        prop_i64_or(r, key + ".Y_Frac"@, 0),
    )
}

/// The point `key`, present when its X or Y component is.
pub open spec fn rec_xy(r: RecordSpec, key: Seq<char>) -> Option<Point> {
    if record_prop(r, key + ".X"@) is None && record_prop(r, key + ".Y"@) is None {
        None
    } else {
        Some(rec_xy_zero(r, key))
    }
}

/// The highest `n` in `1..=m` with an `Xn` or `Yn` property, or 0.
pub open spec fn max_point_index(r: RecordSpec, m: nat) -> nat
    decreases m,
{
    if m == 0 {
        0
    } else if record_prop(r, "X"@ + dec(m)) is Some || record_prop(r, "Y"@ + dec(m)) is Some {
        m
    } else {
        max_point_index(r, (m - 1) as nat)
    }
}

/// Number of location points: `LOCATIONCOUNT` (negative counts as 0), or
/// the highest `Xn`/`Yn` index up to 100 present (older files omit it).
pub open spec fn rec_point_count(r: RecordSpec) -> int {
    match record_prop_i64(r, "LOCATIONCOUNT"@) {
        Some(n) => if n < 0 {
            0
        } else {
            n as int
        },
        None => max_point_index(r, 100) as int,
    }
}

/// Points `1..=n` of a record.
pub open spec fn rec_points(r: RecordSpec, n: int) -> Seq<Point> {
    Seq::new(n as nat, |i: int| rec_point(r, (i + 1) as nat))
}

fn key2(a: &str, b: &str) -> (k: String)
    ensures
        k@ == a@ + b@,
{
    let mut k = String::new();
    push_str(&mut k, a);
    push_str(&mut k, b);
    assert(k@ =~= a@ + b@);
    k
}

fn key_idx(a: &str, idx: u64, b: &str) -> (k: String)
    ensures
        k@ == a@ + dec(idx as nat) + b@,
{
    let mut k = String::new();
    push_str(&mut k, a);
    push_dec(&mut k, idx);
    push_str(&mut k, b);
    assert(k@ =~= a@ + dec(idx as nat) + b@);
    k
}

fn prop_i64_or_exec(rec: &StreamRecord, key: &str, d: i64) -> (v: i64)
    ensures
        v == prop_i64_or(rec@, key@, d),
{
    match rec.prop_i64(key) {
        Some(v) => v,
        None => d,
    }
}

fn prop_num_exec(rec: &StreamRecord, key: &str) -> (r: Option<String>)
    ensures
        match r {
            Some(s) => prop_num(rec@, key@) == Some(s@),
            None => prop_num(rec@, key@) is None,
        },
{
    let v = rec.prop(key)?;
    let t = trim_chars(&chars_of(v));
    if is_float_text_exec(&t) {
        Some(string_from_chars(&t))
    } else {
        None
    }
}

fn prop_num_or_exec(rec: &StreamRecord, key: &str, d: &str) -> (s: String)
    ensures
        s@ == prop_num_or(rec@, key@, d@),
{
    match prop_num_exec(rec, key) {
        Some(s) => s,
        None => d.to_owned(),
    }
}

fn color_of_exec(rec: &StreamRecord, key: &str) -> (c: Option<u32>)
    ensures
        c == color_of(rec@, key@),
{
    match rec.prop_i64(key) {
        Some(v) => Some((v as u32) & 0xFFFFFF),
        None => None,
    }
}

fn prop_bool_exec(rec: &StreamRecord, key: &str) -> (b: bool)
    ensures
        b == prop_bool(rec@, key@),
{
    match rec.prop(key) {
        Some(v) => {
            let u = upper_chars(&chars_of(v));
            chars_eq(&u, &chars_of("T")) || chars_eq(&u, &chars_of("TRUE"))
        },
        None => false,
    }
}

fn from_parts(xi: i64, xf: i64, yi: i64, yf: i64) -> (p: Point)
    ensures
        p == point_from_parts(xi, xf, yi, yf),
{
    Point {
        x: (xi as i128) * FRACTION + (xf as i128),
        y: (yi as i128) * FRACTION + (yf as i128),
    }
}

fn rec_point_exec(rec: &StreamRecord, idx: u64) -> (p: Point)
    ensures
        p == rec_point(rec@, idx as nat),
{
    let xi = prop_i64_or_exec(rec, key_idx("X", idx, "").as_str(), 0);
    let xf = prop_i64_or_exec(rec, key_idx("X", idx, "_Frac").as_str(), 0);
    let yi = prop_i64_or_exec(rec, key_idx("Y", idx, "").as_str(), 0);
    let yf = prop_i64_or_exec(rec, key_idx("Y", idx, "_Frac").as_str(), 0);
    assert("X"@ + dec(idx as nat) + ""@ =~= "X"@ + dec(idx as nat)) by {
        reveal_strlit("");
    }
    assert("Y"@ + dec(idx as nat) + ""@ =~= "Y"@ + dec(idx as nat)) by {
        reveal_strlit("");
    }
    from_parts(xi, xf, yi, yf)
}

fn rec_xy_zero_exec(rec: &StreamRecord, key: &str) -> (p: Point)
    ensures
        p == rec_xy_zero(rec@, key@),
{
    let xi = prop_i64_or_exec(rec, key2(key, ".X").as_str(), 0);
    let xf = prop_i64_or_exec(rec, key2(key, ".X_Frac").as_str(), 0);
    let yi = prop_i64_or_exec(rec, key2(key, ".Y").as_str(), 0);
    let yf = prop_i64_or_exec(rec, key2(key, ".Y_Frac").as_str(), 0);
    from_parts(xi, xf, yi, yf)
}

fn rec_xy_exec(rec: &StreamRecord, key: &str) -> (p: Option<Point>)
    ensures
        p == rec_xy(rec@, key@),
{
    if rec.prop(key2(key, ".X").as_str()).is_none() && rec.prop(key2(key, ".Y").as_str()).is_none() {
        return None;
    }
    Some(rec_xy_zero_exec(rec, key))
}

fn rec_point_count_exec(rec: &StreamRecord) -> (n: u64)
    ensures
        n == rec_point_count(rec@),
{
    if let Some(n) = rec.prop_i64("LOCATIONCOUNT") {
        return if n < 0 {
            0
        } else {
            n as u64
        };
    }
    let mut max: u64 = 0;
    let mut m: u64 = 1;
    while m <= 100
        invariant
            1 <= m <= 101,
            max == max_point_index(rec@, (m - 1) as nat),
        decreases 101 - m,
    {
        let kx = key_idx("X", m, "");
        let ky = key_idx("Y", m, "");
        assert("X"@ + dec(m as nat) + ""@ =~= "X"@ + dec(m as nat)) by {
            reveal_strlit("");
        }
        assert("Y"@ + dec(m as nat) + ""@ =~= "Y"@ + dec(m as nat)) by {
            reveal_strlit("");
        }
        if rec.prop(kx.as_str()).is_some() || rec.prop(ky.as_str()).is_some() {
            max = m;
        }
        m += 1;
    }
    max
}

fn rec_points_exec(rec: &StreamRecord, n: u64) -> (v: Vec<Point>)
    ensures
        v@ == rec_points(rec@, n as int),
{
    let mut v: Vec<Point> = Vec::new();
    let mut i: u64 = 0;
    while i < n
        invariant
            i <= n,
            v@ == rec_points(rec@, i as int),
        decreases n - i,
    {
        let p = rec_point_exec(rec, i + 1);
        v.push(p);
        assert(v@ =~= rec_points(rec@, i + 1));
        i += 1;
    }
    v
}

/// Filter helper: does a record owned by `owner` belong to the requested
/// part? An owner of -1 applies to every part; no part means all parts.
pub fn belongs_to_part(owner: i64, part: Option<i64>) -> (r: bool)
    ensures
        r == match part {
            None => true,
            Some(requested) => owner == -1 || owner == requested,
        },
{
    match part {
        None => true,
        Some(requested) => owner == -1 || owner == requested,
    }
}


// ---------------------------------------------------------------------------
// Graphics
// ---------------------------------------------------------------------------

/// Ink color: COLOR, black when absent.
pub open spec fn ink(r: RecordSpec) -> u32 {
    match color_of(r, "COLOR"@) {
        Some(c) => c,
        None => SCH_DEFAULT_INK,
    }
}

/// Fill color: AREACOLOR, else COLOR, else black.
pub open spec fn area_ink(r: RecordSpec) -> u32 {
    match color_of(r, "AREACOLOR"@) {
        Some(c) => c,
        None => ink(r),
    }
}

/// Line width: LINEWIDTH (low byte), 1 when absent.
pub open spec fn line_width_of(r: RecordSpec) -> u8 {
    prop_i64_or(r, "LINEWIDTH"@, 1) as u8
}

/// The graphic primitive of a text record of type `rt`: 6 polyline,
/// 7 polygon, 8 ellipse, 9 pie, 10 rounded rectangle, 11 elliptical arc,
/// 12 arc, 3 IEEE marker, 30 image frame, 13 line, 14 rectangle, 5 Bezier.
/// `None` when a required property is missing (or not a number) or a point
/// list is empty.
pub open spec fn graphic_spec(r: RecordSpec, rt: i64) -> Option<KindSpec> {
    let n = rec_point_count(r);
    if rt == 6 {
        if n == 0 {
            None
        } else {
            Some(KindSpec::Polyline { points: rec_points(r, n), width: line_width_of(r), color: ink(r) })
        }
    } else if rt == 7 {
        if n == 0 {
            None
        } else {
            Some(
                KindSpec::Polygon {
                    points: rec_points(r, n),
                    color: ink(r),
                    area_color: area_ink(r),
                    solid: prop_bool(r, "ISSOLID"@),
                },
            )
        }
    } else if rt == 8 {
        match (rec_xy(r, "LOCATION"@), prop_num(r, "RADIUS"@), prop_num(r, "SECONDARYRADIUS"@)) {
            (Some(center), Some(rx), Some(ry)) => Some(
                KindSpec::Ellipse {
                    center,
                    radius_x: rx,
                    radius_y: ry,
                    color: ink(r),
                    area_color: area_ink(r),
                    solid: prop_bool(r, "ISSOLID"@),
                },
            ),
            _ => None,
        }
    } else if rt == 9 {
        match (
            rec_xy(r, "LOCATION"@),
            prop_num(r, "RADIUS"@),
            prop_num(r, "STARTANGLE"@),
            prop_num(r, "ENDANGLE"@),
        ) {
            (Some(center), Some(rx), Some(sa), Some(ea)) => Some(
                KindSpec::Pie {
                    center,
                    radius_x: rx,
                    radius_y: prop_num_or(r, "SECONDARYRADIUS"@, "0"@),
                    start_angle: sa,
                    end_angle: ea,
                    color: ink(r),
                    area_color: area_ink(r),
                    solid: prop_bool(r, "ISSOLID"@),
                },
            ),
            _ => None,
        }
    } else if rt == 10 {
        match (prop_num(r, "CORNERXRADIUS"@), prop_num(r, "CORNERYRADIUS"@)) {
            (Some(cx), Some(cy)) => Some(
                KindSpec::RoundRect {
                    p1: rec_point(r, 1),
                    p2: rec_point(r, 2),
                    corner_x: cx,
                    corner_y: cy,
                    color: ink(r),
                    area_color: area_ink(r),
                    solid: prop_bool(r, "ISSOLID"@),
                },
            ),
            _ => None,
        }
    } else if rt == 11 {
        match (rec_xy(r, "LOCATION"@), prop_num(r, "RADIUS"@), prop_num(r, "SECONDARYRADIUS"@)) {
            (Some(center), Some(rx), Some(ry)) => Some(
                KindSpec::EllipticalArc {
                    center,
                    radius_x: rx,
                    radius_y: ry,
                    start_angle: prop_num_or(r, "STARTANGLE"@, "0"@),
                    end_angle: prop_num_or(r, "ENDANGLE"@, "360"@),
                    width: line_width_of(r),
                    color: ink(r),
                },
            ),
            _ => None,
        }
    } else if rt == 12 {
        let radius = match prop_num(r, "RADIUS"@) {
            Some(v) => Some(v),
            None => prop_num(r, "SECONDARYRADIUS"@),
        };
        match (rec_xy(r, "LOCATION"@), radius, prop_num(r, "ENDANGLE"@)) {
            (Some(center), Some(rad), Some(ea)) => Some(
                KindSpec::Arc {
                    center,
                    radius: rad,
                    start_angle: prop_num_or(r, "STARTANGLE"@, "0"@),
                    end_angle: ea,
                    width: line_width_of(r),
                    color: ink(r),
                },
            ),
            _ => None,
        }
    } else if rt == 3 {
        match rec_xy(r, "LOCATION"@) {
            Some(pos) => Some(KindSpec::IeeeMarker { pos, color: ink(r) }),
            None => None,
        }
    } else if rt == 30 {
        match (rec_xy(r, "LOCATION"@), prop_num(r, "WIDTH"@), prop_num(r, "HEIGHT"@)) {
            (Some(p1), Some(w), Some(h)) => Some(KindSpec::Image { p1, width: w, height: h }),
            _ => None,
        }
    } else if rt == 13 {
        Some(
            KindSpec::Polyline {
                points: seq![rec_xy_zero(r, "LOCATION"@), rec_xy_zero(r, "CORNER"@)],
                width: line_width_of(r),
                color: ink(r),
            },
        )
    } else if rt == 14 {
        Some(
            KindSpec::RoundRect {
                p1: rec_xy_zero(r, "LOCATION"@),
                p2: rec_xy_zero(r, "CORNER"@),
                corner_x: "0"@,
                corner_y: "0"@,
                color: ink(r),
                area_color: area_ink(r),
                solid: prop_bool(r, "ISSOLID"@),
            },
        )
    } else if rt == 5 {
        if n == 0 {
            None
        } else {
            Some(KindSpec::Bezier { points: rec_points(r, n), width: line_width_of(r), color: ink(r) })
        }
    } else {
        None
    }
}

/// Each drawn size and angle comes from the record property that names it:
/// a pie, an ellipse and an elliptical arc are centred on LOCATION with
/// radii RADIUS and SECONDARYRADIUS; a pie runs from STARTANGLE to
/// ENDANGLE (both required), an elliptical arc from STARTANGLE (0 when
/// absent) to ENDANGLE (360 when absent), an arc from STARTANGLE (0 when
/// absent) to ENDANGLE (required); a rounded rectangle's corner radii are
/// CORNERXRADIUS and CORNERYRADIUS; a line and a rectangle run from
/// LOCATION to CORNER.
pub proof fn graphic_sizes_follow_properties(r: RecordSpec)
    ensures
        (graphic_spec(r, 9) is Some) == (rec_xy(r, "LOCATION"@) is Some && prop_num(r, "RADIUS"@) is Some
            && prop_num(r, "STARTANGLE"@) is Some && prop_num(r, "ENDANGLE"@) is Some),
        graphic_spec(r, 9) matches Some(KindSpec::Pie { center, radius_x, radius_y, start_angle, end_angle, .. })
            ==> Some(center) == rec_xy(r, "LOCATION"@) && Some(radius_x) == prop_num(r, "RADIUS"@)
            && radius_y == prop_num_or(r, "SECONDARYRADIUS"@, "0"@) && Some(start_angle) == prop_num(
            r,
            "STARTANGLE"@,
        ) && Some(end_angle) == prop_num(r, "ENDANGLE"@),
        graphic_spec(r, 8) matches Some(KindSpec::Ellipse { center, radius_x, radius_y, .. }) ==> Some(center)
            == rec_xy(r, "LOCATION"@) && Some(radius_x) == prop_num(r, "RADIUS"@) && Some(radius_y)
            == prop_num(r, "SECONDARYRADIUS"@),
        graphic_spec(r, 11) matches Some(
            KindSpec::EllipticalArc { center, radius_x, radius_y, start_angle, end_angle, .. },
        ) ==> Some(center) == rec_xy(r, "LOCATION"@) && Some(radius_x) == prop_num(r, "RADIUS"@) && Some(
            radius_y,
        ) == prop_num(r, "SECONDARYRADIUS"@) && start_angle == prop_num_or(r, "STARTANGLE"@, "0"@)
            && end_angle == prop_num_or(r, "ENDANGLE"@, "360"@),
        graphic_spec(r, 12) matches Some(KindSpec::Arc { center, start_angle, end_angle, .. }) ==> Some(center)
            == rec_xy(r, "LOCATION"@) && start_angle == prop_num_or(r, "STARTANGLE"@, "0"@) && Some(end_angle)
            == prop_num(r, "ENDANGLE"@),
        graphic_spec(r, 10) matches Some(KindSpec::RoundRect { p1, p2, corner_x, corner_y, .. }) ==> p1
            == rec_point(r, 1) && p2 == rec_point(r, 2) && Some(corner_x) == prop_num(r, "CORNERXRADIUS"@)
            && Some(corner_y) == prop_num(r, "CORNERYRADIUS"@),
        graphic_spec(r, 13) matches Some(KindSpec::Polyline { points, .. }) ==> points == seq![
            rec_xy_zero(r, "LOCATION"@),
            rec_xy_zero(r, "CORNER"@),
        ],
        graphic_spec(r, 14) matches Some(KindSpec::RoundRect { p1, p2, .. }) ==> p1 == rec_xy_zero(
            r,
            "LOCATION"@,
        ) && p2 == rec_xy_zero(r, "CORNER"@),
{
}

fn ink_exec(rec: &StreamRecord) -> (c: u32)
    ensures
        c == ink(rec@),
{
    match color_of_exec(rec, "COLOR") {
        Some(c) => c,
        None => SCH_DEFAULT_INK,
    }
}

fn area_ink_exec(rec: &StreamRecord) -> (c: u32)
    ensures
        c == area_ink(rec@),
{
    match color_of_exec(rec, "AREACOLOR") {
        Some(c) => c,
        None => ink_exec(rec),
    }
}

fn line_width_exec(rec: &StreamRecord) -> (w: u8)
    ensures
        w == line_width_of(rec@),
{
    prop_i64_or_exec(rec, "LINEWIDTH", 1) as u8
}

/// Point-list primitives (polyline, polygon, Bezier).
fn parse_point_graphic(rec: &StreamRecord, rt: i64) -> (k: Option<SchPrimKind>)
    requires
        rt == 6 || rt == 7 || rt == 5,
    ensures
        match k {
            Some(x) => graphic_spec(rec@, rt) == Some(x@),
            None => graphic_spec(rec@, rt) is None,
        },
{
    let n = rec_point_count_exec(rec);
    if n == 0 {
        return None;
    }
    let points = rec_points_exec(rec, n);
    if rt == 6 {
        Some(SchPrimKind::Polyline { points, width: line_width_exec(rec), color: ink_exec(rec) })
    } else if rt == 7 {
        Some(
            SchPrimKind::Polygon {
                points,
                color: ink_exec(rec),
                area_color: area_ink_exec(rec),
                solid: prop_bool_exec(rec, "ISSOLID"),
            },
        )
    } else {
        Some(SchPrimKind::Bezier { points, width: line_width_exec(rec), color: ink_exec(rec) })
    }
}

/// Centered primitives (ellipse, pie, elliptical arc, arc).
fn parse_round_graphic(rec: &StreamRecord, rt: i64) -> (k: Option<SchPrimKind>)
    requires
        rt == 8 || rt == 9 || rt == 11 || rt == 12,
    ensures
        match k {
            Some(x) => graphic_spec(rec@, rt) == Some(x@),
            None => graphic_spec(rec@, rt) is None,
        },
{
    let center = rec_xy_exec(rec, "LOCATION");
    if rt == 8 {
        let rx = prop_num_exec(rec, "RADIUS");
        let ry = prop_num_exec(rec, "SECONDARYRADIUS");
        match (center, rx, ry) {
            (Some(center), Some(rx), Some(ry)) => Some(
                SchPrimKind::Ellipse {
                    center,
                    radius_x: rx,
                    radius_y: ry,
                    color: ink_exec(rec),
                    area_color: area_ink_exec(rec),
                    solid: prop_bool_exec(rec, "ISSOLID"),
                },
            ),
            _ => None,
        }
    } else if rt == 9 {
        let rx = prop_num_exec(rec, "RADIUS");
        let sa = prop_num_exec(rec, "STARTANGLE");
        let ea = prop_num_exec(rec, "ENDANGLE");
        match (center, rx, sa, ea) {
            (Some(center), Some(rx), Some(sa), Some(ea)) => Some(
                SchPrimKind::Pie {
                    center,
                    radius_x: rx,
                    radius_y: prop_num_or_exec(rec, "SECONDARYRADIUS", "0"),
                    start_angle: sa,
                    end_angle: ea,
                    color: ink_exec(rec),
                    area_color: area_ink_exec(rec),
                    solid: prop_bool_exec(rec, "ISSOLID"),
                },
            ),
            _ => None,
        }
    } else if rt == 11 {
        let rx = prop_num_exec(rec, "RADIUS");
        let ry = prop_num_exec(rec, "SECONDARYRADIUS");
        match (center, rx, ry) {
            (Some(center), Some(rx), Some(ry)) => Some(
                SchPrimKind::EllipticalArc {
                    center,
                    radius_x: rx,
                    radius_y: ry,
                    start_angle: prop_num_or_exec(rec, "STARTANGLE", "0"),
                    end_angle: prop_num_or_exec(rec, "ENDANGLE", "360"),
                    width: line_width_exec(rec),
                    color: ink_exec(rec),
                },
            ),
            _ => None,
        }
    } else {
        let radius = match prop_num_exec(rec, "RADIUS") {
            Some(v) => Some(v),
            None => prop_num_exec(rec, "SECONDARYRADIUS"),
        };
        let ea = prop_num_exec(rec, "ENDANGLE");
        match (center, radius, ea) {
            (Some(center), Some(rad), Some(ea)) => Some(
                SchPrimKind::Arc {
                    center,
                    radius: rad,
                    start_angle: prop_num_or_exec(rec, "STARTANGLE", "0"),
                    end_angle: ea,
                    width: line_width_exec(rec),
                    color: ink_exec(rec),
                },
            ),
            _ => None,
        }
    }
}

/// Rectangles, lines, markers and image frames.
fn parse_frame_graphic(rec: &StreamRecord, rt: i64) -> (k: Option<SchPrimKind>)
    requires
        rt == 10 || rt == 3 || rt == 30 || rt == 13 || rt == 14,
    ensures
        match k {
            Some(x) => graphic_spec(rec@, rt) == Some(x@),
            None => graphic_spec(rec@, rt) is None,
        },
{
    if rt == 10 {
        let cx = prop_num_exec(rec, "CORNERXRADIUS");
        let cy = prop_num_exec(rec, "CORNERYRADIUS");
        match (cx, cy) {
            (Some(cx), Some(cy)) => Some(
                SchPrimKind::RoundRect {
                    p1: rec_point_exec(rec, 1),
                    p2: rec_point_exec(rec, 2),
                    corner_x: cx,
                    corner_y: cy,
                    color: ink_exec(rec),
                    area_color: area_ink_exec(rec),
                    solid: prop_bool_exec(rec, "ISSOLID"),
                },
            ),
            _ => None,
        }
    } else if rt == 3 {
        let pos = rec_xy_exec(rec, "LOCATION")?;
        Some(SchPrimKind::IeeeMarker { pos, color: ink_exec(rec) })
    } else if rt == 30 {
        let p1 = rec_xy_exec(rec, "LOCATION");
        let w = prop_num_exec(rec, "WIDTH");
        let h = prop_num_exec(rec, "HEIGHT");
        match (p1, w, h) {
            (Some(p1), Some(w), Some(h)) => Some(SchPrimKind::Image { p1, width: w, height: h }),
            _ => None,
        }
    } else if rt == 13 {
        let mut points: Vec<Point> = Vec::new();
        points.push(rec_xy_zero_exec(rec, "LOCATION"));
        points.push(rec_xy_zero_exec(rec, "CORNER"));
        assert(points@ =~= seq![rec_xy_zero(rec@, "LOCATION"@), rec_xy_zero(rec@, "CORNER"@)]);
        Some(SchPrimKind::Polyline { points, width: line_width_exec(rec), color: ink_exec(rec) })
    } else {
        Some(
            SchPrimKind::RoundRect {
                p1: rec_xy_zero_exec(rec, "LOCATION"),
                p2: rec_xy_zero_exec(rec, "CORNER"),
                corner_x: "0".to_owned(),
                corner_y: "0".to_owned(),
                color: ink_exec(rec),
                area_color: area_ink_exec(rec),
                solid: prop_bool_exec(rec, "ISSOLID"),
            },
        )
    }
}

/// The graphic primitive of a text record of type `rt`.
pub fn parse_graphic(rec: &StreamRecord, rt: i64) -> (k: Option<SchPrimKind>)
    ensures
        match k {
            Some(x) => graphic_spec(rec@, rt) == Some(x@),
            None => graphic_spec(rec@, rt) is None,
        },
{
    if rt == 6 || rt == 7 || rt == 5 {
        parse_point_graphic(rec, rt)
    } else if rt == 8 || rt == 9 || rt == 11 || rt == 12 {
        parse_round_graphic(rec, rt)
    } else if rt == 10 || rt == 3 || rt == 30 || rt == 13 || rt == 14 {
        parse_frame_graphic(rec, rt)
    } else {
        None
    }
}

/// A text label (RECORD=4): needs a location; the text defaults to empty,
/// the font to 1 and the orientation to 0.
pub open spec fn label_spec(r: RecordSpec) -> Option<KindSpec> {
    match rec_xy(r, "LOCATION"@) {
        Some(pos) => Some(
            KindSpec::Label {
                pos,
                text: match record_prop(r, "TEXT"@) {
                    Some(t) => t,
                    None => Seq::empty(),
                },
                color: ink(r),
                font_id: prop_i64_or(r, "FONTID"@, 1),
                orientation: prop_i64_or(r, "ORIENTATION"@, 0),
            },
        ),
        None => None,
    }
}

/// A label sits at LOCATION and shows the TEXT property (empty when
/// absent) in font FONTID (1 when absent) turned by ORIENTATION (0 when
/// absent); it needs a location.
pub proof fn label_follows_properties(r: RecordSpec)
    ensures
        (label_spec(r) is Some) == (rec_xy(r, "LOCATION"@) is Some),
        label_spec(r) matches Some(KindSpec::Label { pos, text, font_id, orientation, .. }) ==> Some(pos)
            == rec_xy(r, "LOCATION"@) && (record_prop(r, "TEXT"@) matches Some(t) ==> text == t) && (
        record_prop(r, "TEXT"@) is None ==> text.len() == 0) && (record_prop_i64(r, "FONTID"@) matches Some(
            f,
        ) ==> font_id == f) && (record_prop_i64(r, "FONTID"@) is None ==> font_id == 1) && (record_prop_i64(
            r,
            "ORIENTATION"@,
        ) matches Some(o) ==> orientation == o) && (record_prop_i64(r, "ORIENTATION"@) is None
            ==> orientation == 0),
{
}

pub fn parse_label(rec: &StreamRecord) -> (k: Option<SchPrimKind>)
    ensures
        match k {
            Some(x) => label_spec(rec@) == Some(x@),
            None => label_spec(rec@) is None,
        },
{
    let pos = rec_xy_exec(rec, "LOCATION")?;
    let text = match rec.prop("TEXT") {
        Some(t) => t.to_owned(),
        None => String::new(),
    };
    Some(
        SchPrimKind::Label {
            pos,
            text,
            color: ink_exec(rec),
            font_id: prop_i64_or_exec(rec, "FONTID", 1),
            orientation: prop_i64_or_exec(rec, "ORIENTATION", 0),
        },
    )
}


// ---------------------------------------------------------------------------
// Pins
// ---------------------------------------------------------------------------

/// A pascal string at `p` as the pin reader takes it: the text and the
/// offset after it; when the length byte is there but the text does not
/// fit, the text is empty and only the length byte is consumed.
pub open spec fn pascal_at(s: Seq<u8>, p: int) -> (Seq<char>, int) {
    if p >= s.len() {
        (Seq::empty(), p)
    } else if s.len() - (p + 1) < s[p] {
        (Seq::empty(), p + 1)
    } else {
        (decode_text_spec(s.subrange(p + 1, p + 1 + s[p])), p + 1 + s[p])
    }
}

/// A binary pin blob (first byte 0x02) of at least 30 bytes: owner part
/// at 5, description at 12, then formal type, electrical type (low nibble),
/// flags (orientation bits 0-1, hidden 2, show name 3, show designator 4),
/// length, x, y, color, name and designator.
pub open spec fn pin_spec(b: Seq<u8>) -> Option<PinSpec> {
    if b.len() < 30 {
        None
    } else {
        let (description, p) = pascal_at(b, 12);
        if b.len() - p < 13 {
            None
        } else {
            let cong = b[p + 2];
            let (name, p2) = pascal_at(b, p + 13);
            let (designator, _) = pascal_at(b, p2);
            Some(
                PinSpec {
                    owner_part_id: le_i16(b, 5) as i16,
                    description,
                    electrical: b[p + 1] & 0x0F,
                    orientation: cong & 0x03,
                    hidden: cong & 0x04 != 0,
                    show_name: cong & 0x08 != 0,
                    show_designator: cong & 0x10 != 0,
                    length: le_i16(b, p + 3) as i16,
                    x: le_i16(b, p + 5) as i16,
                    y: le_i16(b, p + 7) as i16,
                    color: le_u32(b, p + 9) as u32,
                    name,
                    designator,
                },
            )
        }
    }
}

/// A pascal string: its length byte, then its bytes.
pub open spec fn pascal_bytes(t: Seq<u8>) -> Seq<u8> {
    seq![t.len() as u8] + t
}

/// The bytes of a pin blob as the format lays it out: the record byte and
/// four more, the owner part as i16, five more bytes, the description, the
/// formal type, the electrical type, the flags byte, the length, x and y as
/// i16, the colour as u32, then the name and the designator.
pub open spec fn pin_blob(
    lead: Seq<u8>,
    owner: i16,
    gap: Seq<u8>,
    description: Seq<u8>,
    kinds: (u8, u8, u8),
    length: i16,
    x: i16,
    y: i16,
    color: u32,
    name: Seq<u8>,
    designator: Seq<u8>,
) -> Seq<u8> {
    lead + i16_bytes(owner) + gap + pascal_bytes(description) + seq![kinds.0, kinds.1, kinds.2]
        + i16_bytes(length) + i16_bytes(x) + i16_bytes(y) + u32_bytes(color as int) + pascal_bytes(
        name,
    ) + pascal_bytes(designator)
}

/// A pascal string at `p.len()` in `p + pascal_bytes(t) + q` reads as `t`.
proof fn lemma_pascal_at(p: Seq<u8>, t: Seq<u8>, q: Seq<u8>)
    requires
        t.len() < 256,
    ensures
        pascal_at(p + pascal_bytes(t) + q, p.len() as int) == (decode_text_spec(t), (p.len() + 1 + t.len()) as int),
{
    let s = p + pascal_bytes(t) + q;
    let n = p.len() as int;
    assert(s[n] == t.len());
    assert(s.subrange(n + 1, n + 1 + t.len()) =~= t);
}

/// A pin written in the blob layout reads back as that pin: owner part,
/// length, x, y and colour from their own places, the electrical type from
/// the low nibble of its byte, orientation from the flag bits 0-1, hidden,
/// show-name and show-designator from flag bits 2, 3 and 4, and the three
/// texts in the order description, name, designator.
#[verifier::rlimit(60)]
#[verifier::spinoff_prover]
pub proof fn pin_blob_reads_back(
    lead: Seq<u8>,
    owner: i16,
    gap: Seq<u8>,
    description: Seq<u8>,
    kinds: (u8, u8, u8),
    length: i16,
    x: i16,
    y: i16,
    color: u32,
    name: Seq<u8>,
    designator: Seq<u8>,
)
    requires
        lead.len() == 5,
        gap.len() == 5,
        description.len() < 256,
        name.len() < 256,
        designator.len() < 256,
        description.len() + name.len() + designator.len() >= 2,
    ensures
        pin_spec(pin_blob(lead, owner, gap, description, kinds, length, x, y, color, name, designator))
            == Some(
            PinSpec {
                owner_part_id: owner,
                description: decode_text_spec(description),
                electrical: kinds.1 & 0x0F,
                orientation: kinds.2 & 0x03,
                hidden: kinds.2 & 0x04 != 0,
                show_name: kinds.2 & 0x08 != 0,
                show_designator: kinds.2 & 0x10 != 0,
                length,
                x,
                y,
                color,
                name: decode_text_spec(name),
                designator: decode_text_spec(designator),
            },
        ),
{
    let b = pin_blob(lead, owner, gap, description, kinds, length, x, y, color, name, designator);
    let o = i16_bytes(owner);
    let k = seq![kinds.0, kinds.1, kinds.2];
    let (l, xb, yb, c) = (i16_bytes(length), i16_bytes(x), i16_bytes(y), u32_bytes(color as int));
    let (pd, pn, pg) = (pascal_bytes(description), pascal_bytes(name), pascal_bytes(designator));
    let p0 = lead + o + gap;
    let p1 = p0 + pd;
    let p2 = p1 + k;
    let p3 = p2 + l;
    let p4 = p3 + xb;
    let p5 = p4 + yb;
    let p6 = p5 + c;
    let p7 = p6 + pn;
    assert(b =~= p7 + pg);
    let p: int = 13 + description.len() as int;
    assert(p1.len() == p);
    assert(b.len() == 28 + description.len() + name.len() + designator.len());
    assert(le_i16(b, 5) == owner) by {
        assert(b =~= lead + o + (gap + pd + k + l + xb + yb + c + pn + pg));
        lemma_i16_bytes_at(lead, owner, gap + pd + k + l + xb + yb + c + pn + pg);
    }
    assert(pascal_at(b, 12) == (decode_text_spec(description), p)) by {
        assert(b =~= p0 + pd + (k + l + xb + yb + c + pn + pg));
        lemma_pascal_at(p0, description, k + l + xb + yb + c + pn + pg);
    }
    assert(b[p + 1] == kinds.1 && b[p + 2] == kinds.2) by {
        assert(b =~= p1 + k + (l + xb + yb + c + pn + pg));
    }
    assert(le_i16(b, p + 3) == length) by {
        assert(b =~= p2 + l + (xb + yb + c + pn + pg));
        lemma_i16_bytes_at(p2, length, xb + yb + c + pn + pg);
    }
    assert(le_i16(b, p + 5) == x) by {
        assert(b =~= p3 + xb + (yb + c + pn + pg));
        lemma_i16_bytes_at(p3, x, yb + c + pn + pg);
    }
    assert(le_i16(b, p + 7) == y) by {
        assert(b =~= p4 + yb + (c + pn + pg));
        lemma_i16_bytes_at(p4, y, c + pn + pg);
    }
    assert(le_u32(b, p + 9) == color) by {
        assert(b =~= p5 + c + (pn + pg));
        lemma_u32_bytes_at(p5, color, pn + pg);
    }
    assert(pascal_at(b, p + 13) == (decode_text_spec(name), p + 14 + name.len())) by {
        assert(b =~= p6 + pn + pg);
        lemma_pascal_at(p6, name, pg);
    }
    assert(pascal_at(b, p + 14 + name.len()) == (decode_text_spec(designator), p + 15 + name.len()
        + designator.len())) by {
        assert(b =~= p7 + pg + Seq::<u8>::empty());
        lemma_pascal_at(p7, designator, Seq::empty());
    }
}

fn pascal_or_empty(r: &mut Reader) -> (t: String)
    ensures
        final(r).input() == old(r).input(),
        t@ == pascal_at(old(r).input(), old(r).at()).0,
        final(r).at() == pascal_at(old(r).input(), old(r).at()).1,
{
    match r.pascal_string() {
        Some(t) => t,
        None => String::new(),
    }
}

/// Parses a binary pin blob.
pub fn parse_pin_blob(blob: &[u8]) -> (pin: Option<Pin>)
    ensures
        match pin {
            Some(p) => pin_spec(blob@) == Some(p@),
            None => pin_spec(blob@) is None,
        },
{
    if blob.len() < 30 {
        return None;
    }
    let mut r = Reader::new(blob);
    r.u8()?;
    r.u32()?;
    let owner_part_id = r.i16()?;
    r.u8()?;
    r.bytes(4)?;
    let description = pascal_or_empty(&mut r);
    let _formal_type = r.u8()?;
    let electrical = r.u8()? & 0x0F;
    let conglomerate = r.u8()?;
    let length = r.i16()?;
    let x = r.i16()?;
    let y = r.i16()?;
    let color = r.u32()?;
    let name = pascal_or_empty(&mut r);
    let designator = pascal_or_empty(&mut r);
    Some(
        Pin {
            owner_part_id,
            description,
            electrical,
            orientation: conglomerate & 0x03,
            hidden: conglomerate & 0x04 != 0,
            show_name: conglomerate & 0x08 != 0,
            show_designator: conglomerate & 0x10 != 0,
            length,
            x,
            y,
            color,
            name,
            designator,
        },
    )
}

// ---------------------------------------------------------------------------
// Symbols
// ---------------------------------------------------------------------------

/// Record types drawn as graphics.
pub open spec fn is_graphic_type(rt: i64) -> bool {
    rt == 3 || rt == 5 || rt == 6 || rt == 7 || rt == 8 || rt == 9 || rt == 10 || rt == 11 || rt
        == 12 || rt == 13 || rt == 14 || rt == 30
}

/// What one record adds to a symbol: pins from binary blobs starting with
/// 0x02; from text records, the component header (RECORD=1: library
/// reference and part count), graphics and labels, each owned by
/// OWNERPARTID (-1 when absent). Other records change nothing.
pub open spec fn symbol_step(sym: SymbolSpec, rec: RecordSpec) -> SymbolSpec {
    match rec {
        RecordSpec::Binary(b) => if b.len() > 0 && b[0] == 2 {
            match pin_spec(b) {
                Some(p) => SymbolSpec { pins: sym.pins.push(p), ..sym },
                None => sym,
            }
        } else {
            sym
        },
        RecordSpec::Text(_) => {
            let rt = prop_i64_or(rec, "RECORD"@, 0);
            let owner = prop_i64_or(rec, "OWNERPARTID"@, -1i64);
            if rt == 1 {
                SymbolSpec {
                    lib_reference: match record_prop(rec, "LibReference"@) {
                        Some(v) => v,
                        None => sym.lib_reference,
                    },
                    part_count: match record_prop_i64(rec, "PartCount"@) {
                        Some(v) => v,
                        None => sym.part_count,
                    },
                    ..sym
                }
            } else if is_graphic_type(rt) {
                match graphic_spec(rec, rt) {
                    Some(k) => SymbolSpec {
                        prims: sym.prims.push(SchPrimSpec { owner_part: owner, kind: k }),
                        ..sym
                    },
                    None => sym,
                }
            } else if rt == 4 {
                match label_spec(rec) {
                    Some(k) => SymbolSpec {
                        prims: sym.prims.push(SchPrimSpec { owner_part: owner, kind: k }),
                        ..sym
                    },
                    None => sym,
                }
            } else {
                sym
            }
        },
    }
}

pub open spec fn symbol_run(sym: SymbolSpec, recs: Seq<RecordSpec>) -> SymbolSpec
    decreases recs.len(),
{
    if recs.len() == 0 {
        sym
    } else {
        symbol_step(symbol_run(sym, recs.drop_last()), recs.last())
    }
}

/// The symbol `name` from its `Data` stream: `None` when the stream holds
/// no record. The library reference defaults to the name and the part
/// count to 1.
pub open spec fn symbol_spec(name: Seq<char>, data: Seq<u8>) -> Option<SymbolSpec> {
    let recs = stream_records(data);
    if recs.len() == 0 {
        None
    } else {
        Some(
            symbol_run(
                SymbolSpec {
                    name,
                    lib_reference: name,
                    part_count: 1,
                    prims: Seq::empty(),
                    pins: Seq::empty(),
                },
                recs,
            ),
        )
    }
}

fn symbol_step_exec(sym: &mut Symbol, rec: &StreamRecord)
    ensures
        final(sym)@ == symbol_step(old(sym)@, rec@),
{
    let ghost s0 = sym@;
    match rec {
        StreamRecord::Binary(blob) => {
            if blob.len() > 0 && blob[0] == 2 {
                match parse_pin_blob(blob.as_slice()) {
                    Some(pin) => {
                        let ghost pv = pin@;
                        sym.pins.push(pin);
                        assert(sym@.pins =~= s0.pins.push(pv));
                        assert(sym@ == SymbolSpec { pins: s0.pins.push(pv), ..s0 });
                    },
                    None => {},
                }
            }
        },
        StreamRecord::Text(_) => {
            let rt = prop_i64_or_exec(rec, "RECORD", 0);
            let owner = prop_i64_or_exec(rec, "OWNERPARTID", -1);
            if rt == 1 {
                if let Some(v) = rec.prop("LibReference") {
                    sym.lib_reference = v.to_owned();
                }
                if let Some(v) = rec.prop_i64("PartCount") {
                    sym.part_count = v;
                }
            } else if rt == 3 || rt == 5 || rt == 6 || rt == 7 || rt == 8 || rt == 9 || rt == 10
                || rt == 11 || rt == 12 || rt == 13 || rt == 14 || rt == 30 {
                match parse_graphic(rec, rt) {
                    Some(kind) => {
                        let prim = SchPrim { owner_part: owner, kind };
                        let ghost pv = prim@;
                        sym.prims.push(prim);
                        assert(sym@.prims =~= s0.prims.push(pv));
                    },
                    None => {},
                }
            } else if rt == 4 {
                match parse_label(rec) {
                    Some(kind) => {
                        let prim = SchPrim { owner_part: owner, kind };
                        let ghost pv = prim@;
                        sym.prims.push(prim);
                        assert(sym@.prims =~= s0.prims.push(pv));
                    },
                    None => {},
                }
            }
        },
    }
}

/// Parses the symbol `name` from its `Data` stream.
pub fn parse_symbol(name: &str, data: &[u8]) -> (sym: Option<Symbol>)
    ensures
        match sym {
            Some(s) => symbol_spec(name@, data@) == Some(s@),
            None => symbol_spec(name@, data@) is None,
        },
{
    let records = parse_stream_records(data);
    if records.len() == 0 {
        return None;
    }
    let ghost recs = records_view(records@);
    let mut sym = Symbol {
        name: name.to_owned(),
        lib_reference: name.to_owned(),
        part_count: 1,
        prims: Vec::new(),
        pins: Vec::new(),
    };
    let ghost start = sym@;
    assert(start.prims =~= Seq::<SchPrimSpec>::empty());
    assert(start.pins =~= Seq::<PinSpec>::empty());
    let mut i: usize = 0;
    while i < records.len()
        invariant
            i <= records@.len(),
            recs == records_view(records@),
            sym@ == symbol_run(start, recs.take(i as int)),
        decreases records@.len() - i,
    {
        proof {
            assert(recs.take(i + 1).drop_last() =~= recs.take(i as int));
            assert(recs.take(i + 1).last() == records@[i as int]@);
        }
        symbol_step_exec(&mut sym, &records[i]);
        i += 1;
    }
    assert(recs.take(records@.len() as int) =~= recs);
    Some(sym)
}

// ---------------------------------------------------------------------------
// Font table
// ---------------------------------------------------------------------------

/// A `Size<n>=<points>` pair of the header record.
pub open spec fn font_size_entry(k: Seq<char>, v: Seq<char>) -> Option<(usize, Seq<char>)> {
    if k.len() >= 4 && k.take(4) == "Size"@ {
        match parse_u64(k.skip(4)) {
            Some(i) => if i <= usize::MAX && is_float_text(trim_seq(v)) {
                Some((i as usize, trim_seq(v)))
            } else {
                None
            },
            None => None,
        }
    } else {
        None
    }
}

pub open spec fn font_size_entries(ps: Seq<(Seq<char>, Seq<char>)>) -> Seq<(usize, Seq<char>)>
    decreases ps.len(),
{
    if ps.len() == 0 {
        Seq::empty()
    } else {
        font_size_entries(ps.drop_last()) + match font_size_entry(ps.last().0, ps.last().1) {
            Some(e) => seq![e],
            None => Seq::<(usize, Seq<char>)>::empty(),
        }
    }
}

/// The font sizes of a `FileHeader` stream: only its first record carries
/// the font table.
pub open spec fn font_sizes_spec(data: Seq<u8>) -> Seq<(usize, Seq<char>)> {
    let recs = stream_records(data);
    if recs.len() > 0 {
        match recs[0] {
            RecordSpec::Text(ps) => font_size_entries(ps),
            RecordSpec::Binary(_) => Seq::empty(),
        }
    } else {
        Seq::empty()
    }
}

pub open spec fn font_sizes_view(v: Seq<(usize, String)>) -> Seq<(usize, Seq<char>)> {
    v.map_values(|e: (usize, String)| (e.0, e.1@))
}

/// Extracts the `SizeN` point sizes of the `FileHeader` stream.
pub fn parse_font_sizes(data: &[u8]) -> (out: Vec<(usize, String)>)
    ensures
        font_sizes_view(out@) == font_sizes_spec(data@),
{
    let mut out: Vec<(usize, String)> = Vec::new();
    let records = parse_stream_records(data);
    if records.len() == 0 {
        return out;
    }
    let ghost recs = records_view(records@);
    assert(recs[0] == records@[0]@);
    match &records[0] {
        StreamRecord::Binary(_) => {},
        StreamRecord::Text(pairs) => {
            let ghost ps = crate::altium::records::pairs_view(pairs@);
            let mut i: usize = 0;
            while i < pairs.len()
                invariant
                    i <= pairs@.len(),
                    ps == crate::altium::records::pairs_view(pairs@),
                    out@.map_values(|e: (usize, String)| (e.0, e.1@)) == font_size_entries(
                        ps.take(i as int),
                    ),
                decreases pairs@.len() - i,
            {
                proof {
                    assert(ps.take(i + 1).drop_last() =~= ps.take(i as int));
                    assert(ps.take(i + 1).last() == ps[i as int]);
                }
                let k = chars_of(pairs[i].0.as_str());
                let v = chars_of(pairs[i].1.as_str());
                let ghost before = out@;
                let is_size = k.len() >= 4 && {
                    let head = vstd::slice::slice_subrange(&k, 0, 4);
                    assert(head@ =~= k@.take(4));
                    chars_eq(head, &chars_of("Size"))
                };
                if is_size {
                    let rest = vstd::slice::slice_subrange(&k, 4, k.len());
                    assert(rest@ =~= k@.skip(4));
                    if let Some(idx) = parse_u64_chars(rest) {
                        let t = trim_chars(&v);
                        if idx <= usize::MAX as u64 && is_float_text_exec(&t) {
                            let e = (idx as usize, string_from_chars(&t));
                            let ghost ev = (e.0, e.1@);
                            out.push(e);
                            assert(out@.map_values(|e: (usize, String)| (e.0, e.1@)) =~= before.map_values(
                                |e: (usize, String)| (e.0, e.1@),
                            ).push(ev));
                        }
                    }
                } else {
                    proof {
                        reveal_strlit("Size");
                    }
                }
                i += 1;
            }
            assert(ps.take(pairs@.len() as int) =~= ps);
        },
    }
    out
}

} // verus!
