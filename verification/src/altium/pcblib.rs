//! Altium `.PcbLib` parsing (binary PCB records).
//!
//! Stream layout per footprint (`<Name>/Data`):
//! `[u32 pascal_len][u8 name_len][name bytes]` followed by records of the form
//! `[u8 type][u32 len][payload]`. Angles and other IEEE-754 doubles are kept
//! as their 64-bit patterns (`f64::from_bits` gives the value).

use vstd::prelude::*;
use crate::altium::records::{
    decode_text, decode_text_spec, i32_bytes, le_i32, le_u32, le_u64, lemma_i32_bytes_at,
    lemma_u32_bytes_at, lemma_u64_bytes_at, u32_bytes, u64_bytes, Reader,
};
use vstd::utf8::{decode_utf8, valid_utf8};
use crate::altium_dbl::{parse_u8, parse_u8_chars};
use crate::text::{
    lower_chars, lower_seq,
    chars_of, char_from_u32, contains_chars, contains_seq, find_char, find_first, has_prefix,
    is_scalar, parse_u64, parse_u64_chars, push_char, split_ranges, split_seq, starts_with_at,
    trim_chars, trim_seq,
};

verus! {

broadcast use vstd::string::group_string_axioms;

pub const TYPE_ARC: u8 = 1;
pub const TYPE_PAD: u8 = 2;
pub const TYPE_VIA: u8 = 3;
pub const TYPE_TRACK: u8 = 4;
pub const TYPE_TEXT: u8 = 5;
pub const TYPE_FILL: u8 = 6;
pub const TYPE_REGION: u8 = 11;
pub const TYPE_COMPONENT_BODY: u8 = 12;

/// Internal PCB units per mil.
pub const UNITS_PER_MIL: i32 = 10_000;

// Pad shape codes (APAD6).
pub const PAD_SHAPE_CIRCLE: u8 = 1;
pub const PAD_SHAPE_RECTANGLE: u8 = 2;
pub const PAD_SHAPE_OCTAGONAL: u8 = 3;
pub const PAD_SHAPE_ROUNDED_RECTANGLE: u8 = 4;

// PCB layer ids used for rendering.
pub const LAYER_TOP: u8 = 1;
pub const LAYER_BOTTOM: u8 = 32;
pub const LAYER_TOP_OVERLAY: u8 = 33;
pub const LAYER_BOTTOM_OVERLAY: u8 = 34;
pub const LAYER_TOP_COURTYARD: u8 = 55;
pub const LAYER_BOTTOM_COURTYARD: u8 = 56;
pub const LAYER_MULTI: u8 = 74;

// ---------------------------------------------------------------------------
// Primitives
// ---------------------------------------------------------------------------

#[derive(Debug, Clone, Copy)]
pub struct Track {
    pub layer: u8,
    pub x1: i32,
    pub y1: i32,
    pub x2: i32,
    pub y2: i32,
    pub width: i32,
}

/// A circular arc; the angles are degrees, as f64 bit patterns.
#[derive(Debug, Clone, Copy)]
pub struct Arc {
    pub layer: u8,
    pub cx: i32,
    pub cy: i32,
    pub radius: i32,
    pub start_angle: u64,
    pub end_angle: u64,
    pub width: i32,
}

#[derive(Debug, Clone, Copy)]
pub struct Via {
    pub x: i32,
    pub y: i32,
    pub diameter: i32,
    pub hole_size: i32,
}

/// A rectangular fill; `rotation` is degrees as an f64 bit pattern.
#[derive(Debug, Clone, Copy)]
pub struct Fill {
    pub layer: u8,
    pub x1: i32,
    pub y1: i32,
    pub x2: i32,
    pub y2: i32,
    pub rotation: u64,
}

/// A pad; `rotation` and `slot_rotation` are degrees as f64 bit patterns.
#[derive(Debug, Clone)]
pub struct Pad {
    pub designator: String,
    pub layer: u8,
    pub x: i32,
    pub y: i32,
    pub top_width: i32,
    pub top_height: i32,
    pub bot_width: i32,
    pub bot_height: i32,
    pub hole_size: u32,
    pub top_shape: u8,
    pub bot_shape: u8,
    pub rotation: u64,
    pub hole_shape: u8,
    pub slot_size: i32,
    pub slot_rotation: u64,
}

/// A text primitive; `rotation` is degrees as an f64 bit pattern.
#[derive(Debug, Clone)]
pub struct Text {
    pub layer: u8,
    pub x: i32,
    pub y: i32,
    pub height: i32,
    pub rotation: u64,
    pub mirrored: bool,
    pub content: String,
}

/// One outline vertex of a region, as stored.
#[derive(Debug, Clone, Copy)]
pub enum RegionVertex {
    /// Simple layout: the coordinates as f64 bit patterns.
    Plain { x_bits: u64, y_bits: u64 },
    /// Extended layout: integer coordinates; when `round` is set the segment
    /// arriving at this vertex is an arc with the stored center, radius and
    /// angles (f64 bit patterns).
    Extended {
        round: bool,
        x: i32,
        y: i32,
        cx: i32,
        cy: i32,
        radius: i32,
        start_angle: u64,
        end_angle: u64,
    },
}

#[derive(Debug, Clone)]
pub struct Region {
    pub layer: u8,
    pub is_body: bool,
    pub outline: Vec<RegionVertex>,
}

#[derive(Debug, Clone)]
pub enum Prim {
    Track(Track),
    Arc(Arc),
    Pad(Pad),
    Via(Via),
    Text(Text),
    Fill(Fill),
    Region(Region),
}

#[derive(Debug, Clone)]
pub struct Footprint {
    pub name: String,
    pub prims: Vec<Prim>,
}

/// A parsed library: its footprints and the layer ids its layer table flags
/// as courtyard (these vary between libraries).
pub struct PcbLib {
    pub footprints: Vec<Footprint>,
    pub courtyard_layers: Vec<u8>,
}

// ---------------------------------------------------------------------------
// Views
// ---------------------------------------------------------------------------

pub struct PadSpec {
    pub designator: Seq<char>,
    pub layer: u8,
    pub x: i32,
    pub y: i32,
    pub top_width: i32,
    pub top_height: i32,
    pub bot_width: i32,
    pub bot_height: i32,
    pub hole_size: u32,
    pub top_shape: u8,
    pub bot_shape: u8,
    pub rotation: u64,
    pub hole_shape: u8,
    pub slot_size: i32,
    pub slot_rotation: u64,
}

pub struct TextSpec {
    pub layer: u8,
    pub x: i32,
    pub y: i32,
    pub height: i32,
    pub rotation: u64,
    pub mirrored: bool,
    pub content: Seq<char>,
}

pub struct RegionSpec {
    pub layer: u8,
    pub is_body: bool,
    pub outline: Seq<RegionVertex>,
}

pub enum PrimSpec {
    Track(Track),
    Arc(Arc),
    Pad(PadSpec),
    Via(Via),
    Text(TextSpec),
    Fill(Fill),
    Region(RegionSpec),
}

impl View for Pad {
    type V = PadSpec;

    open spec fn view(&self) -> PadSpec {
        PadSpec {
            designator: self.designator@,
            layer: self.layer,
            x: self.x,
            y: self.y,
            top_width: self.top_width,
            top_height: self.top_height,
            bot_width: self.bot_width,
            bot_height: self.bot_height,
            hole_size: self.hole_size,
            top_shape: self.top_shape,
            bot_shape: self.bot_shape,
            rotation: self.rotation,
            hole_shape: self.hole_shape,
            slot_size: self.slot_size,
            slot_rotation: self.slot_rotation,
        }
    }
}

impl View for Text {
    type V = TextSpec;

    open spec fn view(&self) -> TextSpec {
        TextSpec {
            layer: self.layer,
            x: self.x,
            y: self.y,
            height: self.height,
            rotation: self.rotation,
            mirrored: self.mirrored,
            content: self.content@,
        }
    }
}

impl View for Region {
    type V = RegionSpec;

    open spec fn view(&self) -> RegionSpec {
        RegionSpec { layer: self.layer, is_body: self.is_body, outline: self.outline@ }
    }
}

impl View for Prim {
    type V = PrimSpec;

    open spec fn view(&self) -> PrimSpec {
        match self {
            Prim::Track(t) => PrimSpec::Track(*t),
            Prim::Arc(a) => PrimSpec::Arc(*a),
            Prim::Pad(p) => PrimSpec::Pad(p@),
            Prim::Via(v) => PrimSpec::Via(*v),
            Prim::Text(t) => PrimSpec::Text(t@),
            Prim::Fill(f) => PrimSpec::Fill(*f),
            Prim::Region(r) => PrimSpec::Region(r@),
        }
    }
}

pub open spec fn prims_view(v: Seq<Prim>) -> Seq<PrimSpec> {
    v.map_values(|p: Prim| p@)
}

// ---------------------------------------------------------------------------
// Primitive queries
// ---------------------------------------------------------------------------

pub open spec fn prim_layer(p: PrimSpec) -> u8 {
    match p {
        PrimSpec::Track(t) => t.layer,
        PrimSpec::Arc(a) => a.layer,
        PrimSpec::Pad(p) => p.layer,
        PrimSpec::Via(_) => LAYER_MULTI,
        PrimSpec::Text(t) => t.layer,
        PrimSpec::Fill(f) => f.layer,
        PrimSpec::Region(r) => r.layer,
    }
}

impl Prim {
    /// The layer the primitive is drawn on; vias span all layers.
    pub fn layer(&self) -> (l: u8)
        ensures
            l == prim_layer(self@),
    {
        match self {
            Prim::Track(p) => p.layer,
            Prim::Arc(p) => p.layer,
            Prim::Pad(p) => p.layer,
            Prim::Via(_) => LAYER_MULTI,
            Prim::Text(p) => p.layer,
            Prim::Fill(p) => p.layer,
            Prim::Region(p) => p.layer,
        }
    }
}

impl Pad {
    pub fn is_through_hole(&self) -> (r: bool)
        ensures
            r == (self.hole_size > 0),
    {
        self.hole_size > 0
    }

    /// Shape effective on the given copper side: through-hole pads use the
    /// top shape on both sides.
    pub fn shape_on(&self, top: bool) -> (s: u8)
        ensures
            s == if self.hole_size > 0 || top { self.top_shape } else { self.bot_shape },
    {
        if self.is_through_hole() || top {
            self.top_shape
        } else {
            self.bot_shape
        }
    }

    /// Size effective on the given copper side.
    pub fn size_on(&self, top: bool) -> (s: (i32, i32))
        ensures
            s == if self.hole_size > 0 || top {
                (self.top_width, self.top_height)
            } else {
                (self.bot_width, self.bot_height)
            },
    {
        if self.is_through_hole() || top {
            (self.top_width, self.top_height)
        } else {
            (self.bot_width, self.bot_height)
        }
    }

    /// True when the hole is a slot rather than a round drill.
    pub fn has_slot(&self) -> (r: bool)
        ensures
            r == (self.hole_shape == 2 && self.slot_size > 0),
    {
        self.hole_shape == 2 && self.slot_size > 0
    }
}

// ---------------------------------------------------------------------------
// Fixed-layout payloads
// ---------------------------------------------------------------------------

/// A track payload: layer, 12 skipped bytes, then five i32 values.
pub open spec fn track_spec(c: Seq<u8>) -> Option<Track> {
    if c.len() >= 33 {
        Some(
            Track {
                layer: c[0],
                x1: le_i32(c, 13) as i32,
                y1: le_i32(c, 17) as i32,
                x2: le_i32(c, 21) as i32,
                y2: le_i32(c, 25) as i32,
                width: le_i32(c, 29) as i32,
            },
        )
    } else {
        None
    }
}

/// An arc payload: layer, 12 skipped bytes, center, radius, two f64
/// angles and the width.
pub open spec fn arc_spec(c: Seq<u8>) -> Option<Arc> {
    if c.len() >= 45 {
        Some(
            Arc {
                layer: c[0],
                cx: le_i32(c, 13) as i32,
                cy: le_i32(c, 17) as i32,
                radius: le_i32(c, 21) as i32,
                start_angle: le_u64(c, 25) as u64,
                end_angle: le_u64(c, 33) as u64,
                width: le_i32(c, 41) as i32,
            },
        )
    } else {
        None
    }
}

/// A via payload: 13 skipped bytes, then four i32 values.
pub open spec fn via_spec(c: Seq<u8>) -> Option<Via> {
    if c.len() >= 29 {
        Some(
            Via {
                x: le_i32(c, 13) as i32,
                y: le_i32(c, 17) as i32,
                diameter: le_i32(c, 21) as i32,
                hole_size: le_i32(c, 25) as i32,
            },
        )
    } else {
        None
    }
}

/// A fill payload: layer, 12 skipped bytes, two corners and an f64
/// rotation.
pub open spec fn fill_spec(c: Seq<u8>) -> Option<Fill> {
    if c.len() >= 37 {
        Some(
            Fill {
                layer: c[0],
                x1: le_i32(c, 13) as i32,
                y1: le_i32(c, 17) as i32,
                x2: le_i32(c, 21) as i32,
                y2: le_i32(c, 25) as i32,
                rotation: le_u64(c, 29) as u64,
            },
        )
    } else {
        None
    }
}

pub fn parse_track(c: &[u8]) -> (r: Option<Track>)
    ensures
        r == track_spec(c@),
{
    let mut r = Reader::new(c);
    let layer = r.u8()?;
    r.bytes(12)?;
    let x1 = r.i32()?;
    let y1 = r.i32()?;
    let x2 = r.i32()?;
    let y2 = r.i32()?;
    let width = r.i32()?;
    Some(Track { layer, x1, y1, x2, y2, width })
}

pub fn parse_arc(c: &[u8]) -> (r: Option<Arc>)
    ensures
        r == arc_spec(c@),
{
    let mut r = Reader::new(c);
    let layer = r.u8()?;
    r.bytes(12)?;
    let cx = r.i32()?;
    let cy = r.i32()?;
    let radius = r.i32()?;
    let start_angle = r.f64_bits()?;
    let end_angle = r.f64_bits()?;
    let width = r.i32()?;
    Some(Arc { layer, cx, cy, radius, start_angle, end_angle, width })
}

pub fn parse_via(c: &[u8]) -> (r: Option<Via>)
    ensures
        r == via_spec(c@),
{
    let mut r = Reader::new(c);
    r.bytes(13)?;
    let x = r.i32()?;
    let y = r.i32()?;
    let diameter = r.i32()?;
    let hole_size = r.i32()?;
    Some(Via { x, y, diameter, hole_size })
}

pub fn parse_fill(c: &[u8]) -> (r: Option<Fill>)
    ensures
        r == fill_spec(c@),
{
    let mut r = Reader::new(c);
    let layer = r.u8()?;
    r.bytes(12)?;
    let x1 = r.i32()?;
    let y1 = r.i32()?;
    let x2 = r.i32()?;
    let y2 = r.i32()?;
    let rotation = r.f64_bits()?;
    Some(Fill { layer, x1, y1, x2, y2, rotation })
}

// ---------------------------------------------------------------------------
// Payloads read back
// ---------------------------------------------------------------------------

/// The bytes of a track as the format lays it out: the layer, twelve bytes
/// the reader skips, then x1, y1, x2, y2 and the width as little-endian i32.
pub open spec fn track_payload(t: Track, skipped: Seq<u8>) -> Seq<u8> {
    seq![t.layer] + skipped + i32_bytes(t.x1) + i32_bytes(t.y1) + i32_bytes(t.x2) + i32_bytes(t.y2)
        + i32_bytes(t.width)
}

/// The bytes of an arc: the layer, twelve skipped bytes, the center x and
/// y and the radius as i32, the start and end angles' f64 bits, the width.
pub open spec fn arc_payload(a: Arc, skipped: Seq<u8>) -> Seq<u8> {
    seq![a.layer] + skipped + i32_bytes(a.cx) + i32_bytes(a.cy) + i32_bytes(a.radius) + u64_bytes(
        a.start_angle,
    ) + u64_bytes(a.end_angle) + i32_bytes(a.width)
}

/// The bytes of a via: thirteen skipped bytes, then x, y, the diameter and
/// the hole size as i32.
pub open spec fn via_payload(v: Via, skipped: Seq<u8>) -> Seq<u8> {
    skipped + i32_bytes(v.x) + i32_bytes(v.y) + i32_bytes(v.diameter) + i32_bytes(v.hole_size)
}

/// The bytes of a fill: the layer, twelve skipped bytes, the corners x1,
/// y1, x2, y2 as i32, then the rotation's f64 bits.
pub open spec fn fill_payload(f: Fill, skipped: Seq<u8>) -> Seq<u8> {
    seq![f.layer] + skipped + i32_bytes(f.x1) + i32_bytes(f.y1) + i32_bytes(f.x2) + i32_bytes(f.y2)
        + u64_bytes(f.rotation)
}

/// A track written in the format's layout reads back as that track: each
/// corner coordinate and the width come from their own place.
pub proof fn track_payload_reads_back(t: Track, skipped: Seq<u8>)
    requires
        skipped.len() == 12,
    ensures
        track_spec(track_payload(t, skipped)) == Some(t),
{
    let h = seq![t.layer] + skipped;
    let a = i32_bytes(t.x1);
    let b = i32_bytes(t.y1);
    let c = i32_bytes(t.x2);
    let d = i32_bytes(t.y2);
    let w = i32_bytes(t.width);
    let p = track_payload(t, skipped);
    assert(le_i32(p, 13) == t.x1) by {
        assert(p =~= h + a + (b + c + d + w));
        lemma_i32_bytes_at(h, t.x1, b + c + d + w);
    }
    assert(le_i32(p, 17) == t.y1) by {
        assert(p =~= (h + a) + b + (c + d + w));
        lemma_i32_bytes_at(h + a, t.y1, c + d + w);
    }
    assert(le_i32(p, 21) == t.x2) by {
        assert(p =~= (h + a + b) + c + (d + w));
        lemma_i32_bytes_at(h + a + b, t.x2, d + w);
    }
    assert(le_i32(p, 25) == t.y2) by {
        assert(p =~= (h + a + b + c) + d + w);
        lemma_i32_bytes_at(h + a + b + c, t.y2, w);
    }
    assert(le_i32(p, 29) == t.width && p.len() == 33) by {
        assert(p =~= (h + a + b + c + d) + w + Seq::<u8>::empty());
        lemma_i32_bytes_at(h + a + b + c + d, t.width, Seq::empty());
    }
    assert(p[0] == t.layer);
}

/// An arc written in the format's layout reads back as that arc.
#[verifier::rlimit(60)]
#[verifier::spinoff_prover]
pub proof fn arc_payload_reads_back(x: Arc, skipped: Seq<u8>)
    requires
        skipped.len() == 12,
    ensures
        arc_spec(arc_payload(x, skipped)) == Some(x),
{
    let h = seq![x.layer] + skipped;
    let a = i32_bytes(x.cx);
    let b = i32_bytes(x.cy);
    let c = i32_bytes(x.radius);
    let d = u64_bytes(x.start_angle);
    let e = u64_bytes(x.end_angle);
    let w = i32_bytes(x.width);
    let p = arc_payload(x, skipped);
    assert(le_i32(p, 13) == x.cx) by {
        assert(p =~= h + a + (b + c + d + e + w));
        lemma_i32_bytes_at(h, x.cx, b + c + d + e + w);
    }
    assert(le_i32(p, 17) == x.cy) by {
        assert(p =~= (h + a) + b + (c + d + e + w));
        lemma_i32_bytes_at(h + a, x.cy, c + d + e + w);
    }
    assert(le_i32(p, 21) == x.radius) by {
        assert(p =~= (h + a + b) + c + (d + e + w));
        lemma_i32_bytes_at(h + a + b, x.radius, d + e + w);
    }
    assert(le_u64(p, 25) == x.start_angle) by {
        assert(p =~= (h + a + b + c) + d + (e + w));
        lemma_u64_bytes_at(h + a + b + c, x.start_angle, e + w);
    }
    assert(le_u64(p, 33) == x.end_angle) by {
        assert(p =~= (h + a + b + c + d) + e + w);
        lemma_u64_bytes_at(h + a + b + c + d, x.end_angle, w);
    }
    assert(le_i32(p, 41) == x.width && p.len() == 45) by {
        assert(p =~= (h + a + b + c + d + e) + w + Seq::<u8>::empty());
        lemma_i32_bytes_at(h + a + b + c + d + e, x.width, Seq::empty());
    }
    assert(p[0] == x.layer);
}

/// A via written in the format's layout reads back as that via.
pub proof fn via_payload_reads_back(v: Via, skipped: Seq<u8>)
    requires
        skipped.len() == 13,
    ensures
        via_spec(via_payload(v, skipped)) == Some(v),
{
    let h = skipped;
    let (a, b, c, d) = (i32_bytes(v.x), i32_bytes(v.y), i32_bytes(v.diameter), i32_bytes(v.hole_size));
    let p = via_payload(v, skipped);
    assert(p =~= h + a + (b + c + d));
    lemma_i32_bytes_at(h, v.x, b + c + d);
    assert(p =~= (h + a) + b + (c + d));
    lemma_i32_bytes_at(h + a, v.y, c + d);
    assert(p =~= (h + a + b) + c + d);
    lemma_i32_bytes_at(h + a + b, v.diameter, d);
    assert(p =~= (h + a + b + c) + d + Seq::<u8>::empty());
    lemma_i32_bytes_at(h + a + b + c, v.hole_size, Seq::empty());
}

/// A fill written in the format's layout reads back as that fill: the
/// first corner is (x1, y1), the second (x2, y2), as written.
pub proof fn fill_payload_reads_back(f: Fill, skipped: Seq<u8>)
    requires
        skipped.len() == 12,
    ensures
        fill_spec(fill_payload(f, skipped)) == Some(f),
{
    let h = seq![f.layer] + skipped;
    let a = i32_bytes(f.x1);
    let b = i32_bytes(f.y1);
    let c = i32_bytes(f.x2);
    let d = i32_bytes(f.y2);
    let e = u64_bytes(f.rotation);
    let p = fill_payload(f, skipped);
    assert(le_i32(p, 13) == f.x1) by {
        assert(p =~= h + a + (b + c + d + e));
        lemma_i32_bytes_at(h, f.x1, b + c + d + e);
    }
    assert(le_i32(p, 17) == f.y1) by {
        assert(p =~= (h + a) + b + (c + d + e));
        lemma_i32_bytes_at(h + a, f.y1, c + d + e);
    }
    assert(le_i32(p, 21) == f.x2) by {
        assert(p =~= (h + a + b) + c + (d + e));
        lemma_i32_bytes_at(h + a + b, f.x2, d + e);
    }
    assert(le_i32(p, 25) == f.y2) by {
        assert(p =~= (h + a + b + c) + d + e);
        lemma_i32_bytes_at(h + a + b + c, f.y2, e);
    }
    assert(le_u64(p, 29) == f.rotation && p.len() == 37) by {
        assert(p =~= (h + a + b + c + d) + e + Seq::<u8>::empty());
        lemma_u64_bytes_at(h + a + b + c + d, f.rotation, Seq::empty());
    }
    assert(p[0] == f.layer);
}


// ---------------------------------------------------------------------------
// Length-prefixed blocks and pads
// ---------------------------------------------------------------------------

/// The length-prefixed block at `p` (`[u32 len][len bytes]`, `len > 0`):
/// its bytes and the offset just past it.
pub open spec fn subrecord_spec(s: Seq<u8>, p: int) -> Option<(Seq<u8>, int)> {
    if 0 <= p && p <= s.len() && s.len() - p >= 4 && le_u32(s, p) != 0 && le_u32(s, p) <= s.len()
        - p - 4 {
        Some((s.subrange(p + 4, p + 4 + le_u32(s, p)), p + 4 + le_u32(s, p)))
    } else {
        None
    }
}

/// Reads a length-prefixed block.
pub fn subrecord<'a>(r: &mut Reader<'a>) -> (res: Option<&'a [u8]>)
    ensures
        final(r).input() == old(r).input(),
        final(r).at() <= final(r).input().len(),
        match subrecord_spec(old(r).input(), old(r).at()) {
            Some((b, q)) => res matches Some(v) && v@ == b && final(r).at() == q,
            None => res is None,
        },
{
    proof {
        r.lemma_at_nonneg();
    }
    let len = r.u32()? as usize;
    if len == 0 || len > r.remaining() {
        return None;
    }
    r.bytes(len)
}

/// A pascal string at the start of a block, empty when it does not fit.
pub open spec fn pascal_or_empty(c: Seq<u8>) -> Seq<char> {
    if c.len() >= 1 && c[0] <= c.len() - 1 {
        decode_text_spec(c.subrange(1, 1 + c[0]))
    } else {
        Seq::empty()
    }
}

/// Alternative pad shape code 9 means a rounded rectangle.
pub open spec fn fix_shape(s: u8) -> u8 {
    if s == 9 {
        PAD_SHAPE_ROUNDED_RECTANGLE
    } else {
        s
    }
}

/// The optional per-layer block that follows a pad's size-and-shape block:
/// a zero length is a placeholder that is consumed; a block of one of the
/// known lengths (596, 628, 651) is read; anything else is left alone.
/// Gives the block read, if any, and the offset after it.
pub open spec fn pad_tail(s: Seq<u8>, p: int) -> (Option<Seq<u8>>, int) {
    if s.len() - p >= 4 {
        let l = le_u32(s, p);
        if l == 0 {
            (None, p + 4)
        } else if (l == 596 || l == 628 || l == 651) && 4 + l <= s.len() - p {
            (Some(s.subrange(p + 4, p + 4 + l)), p + 4 + l)
        } else {
            (None, p)
        }
    } else {
        (None, p)
    }
}

/// The pad record at `p`: a designator block, three opaque blocks, the
/// size-and-shape block (at least 60 bytes) and the optional per-layer
/// block. Gives the pad and the offset after it.
pub open spec fn pad_spec(s: Seq<u8>, p: int) -> Option<(PadSpec, int)> {
    match subrecord_spec(s, p) {
        None => None,
        Some((c1, p1)) => match subrecord_spec(s, p1) {
            None => None,
            Some((_, p2)) => match subrecord_spec(s, p2) {
                None => None,
                Some((_, p3)) => match subrecord_spec(s, p3) {
                    None => None,
                    Some((_, p4)) => match subrecord_spec(s, p4) {
                        None => None,
                        Some((c, p5)) => if c.len() < 60 {
                            None
                        } else {
                            let (sr6, q) = pad_tail(s, p5);
                            Some(
                                (
                                    PadSpec {
                                        designator: pascal_or_empty(c1),
                                        layer: c[0],
                                        x: le_i32(c, 13) as i32,
                                        y: le_i32(c, 17) as i32,
                                        top_width: le_i32(c, 21) as i32,
                                        top_height: le_i32(c, 25) as i32,
                                        bot_width: le_i32(c, 37) as i32,
                                        bot_height: le_i32(c, 41) as i32,
                                        hole_size: le_u32(c, 45) as u32,
                                        top_shape: fix_shape(
                                            match sr6 {
                                                Some(b) => b[532],
                                                None => c[49],
                                            },
                                        ),
                                        bot_shape: fix_shape(
                                            match sr6 {
                                                Some(b) => b[564],
                                                None => c[51],
                                            },
                                        ),
                                        rotation: le_u64(c, 52) as u64,
                                        hole_shape: match sr6 {
                                            Some(b) => b[262],
                                            None => 0,
                                        },
                                        slot_size: match sr6 {
                                            Some(b) => le_i32(b, 263) as i32,
                                            None => 0,
                                        },
                                        slot_rotation: match sr6 {
                                            Some(b) => le_u64(b, 267) as u64,
                                            None => 0,
                                        },
                                    },
                                    q,
                                ),
                            )
                        },
                    },
                },
            },
        },
    }
}

/// A length-prefixed block: its length as a little-endian u32, then its
/// bytes.
#[verifier::opaque]
pub open spec fn block_bytes(x: Seq<u8>) -> Seq<u8> {
    u32_bytes(x.len() as int) + x
}

/// A block written at `pre.len()` reads back as its bytes, ending just
/// past them.
proof fn lemma_block_at(pre: Seq<u8>, x: Seq<u8>, post: Seq<u8>)
    requires
        0 < x.len() < 0x1_0000_0000,
    ensures
        subrecord_spec(pre + block_bytes(x) + post, pre.len() as int) == Some(
            (x, (pre.len() + 4 + x.len()) as int),
        ),
        block_bytes(x).len() == 4 + x.len(),
{
    reveal(block_bytes);
    crate::altium::records::lemma_u32_bytes(x.len() as int);
    let s = pre + block_bytes(x) + post;
    let n = pre.len() as int;
    assert(s =~= pre + u32_bytes(x.len() as int) + (x + post));
    lemma_u32_bytes_at(pre, x.len() as u32, x + post);
    assert(s.subrange(n + 4, n + 4 + x.len()) =~= x);
}

/// The size-and-shape block of a pad as the format lays it out: the layer,
/// twelve skipped bytes, x, y, the top width and height as i32, eight
/// bytes of middle-layer size, the bottom width and height as i32, the
/// hole size as u32, the top, middle and bottom shape bytes, and the
/// rotation's f64 bits.
pub open spec fn pad_geometry_bytes(pad: PadSpec, skipped: Seq<u8>, middle: Seq<u8>, middle_shape: u8) -> Seq<u8> {
    seq![pad.layer] + skipped + i32_bytes(pad.x) + i32_bytes(pad.y) + i32_bytes(pad.top_width) + i32_bytes(
        pad.top_height,
    ) + middle + i32_bytes(pad.bot_width) + i32_bytes(pad.bot_height) + u32_bytes(pad.hole_size as int)
        + seq![pad.top_shape, middle_shape, pad.bot_shape] + u64_bytes(pad.rotation)
}

/// A pad record: the designator block (a pascal string), three blocks the
/// reader passes over, the size-and-shape block, and an empty per-layer
/// placeholder.
pub open spec fn pad_record_bytes(
    pad: PadSpec,
    name: Seq<u8>,
    opaque: (Seq<u8>, Seq<u8>, Seq<u8>),
    skipped: Seq<u8>,
    middle: Seq<u8>,
    middle_shape: u8,
) -> Seq<u8> {
    block_bytes(seq![name.len() as u8] + name) + block_bytes(opaque.0) + block_bytes(opaque.1) + block_bytes(
        opaque.2,
    ) + block_bytes(pad_geometry_bytes(pad, skipped, middle, middle_shape)) + u32_bytes(0)
}

/// The size-and-shape block reads back field by field from its own places.
#[verifier::rlimit(80)]
#[verifier::spinoff_prover]
proof fn lemma_pad_geometry(pad: PadSpec, skipped: Seq<u8>, middle: Seq<u8>, middle_shape: u8)
    requires
        skipped.len() == 12,
        middle.len() == 8,
    ensures
        ({
            let c = pad_geometry_bytes(pad, skipped, middle, middle_shape);
            &&& c.len() == 60
            &&& c[0] == pad.layer
            &&& le_i32(c, 13) == pad.x
            &&& le_i32(c, 17) == pad.y
            &&& le_i32(c, 21) == pad.top_width
            &&& le_i32(c, 25) == pad.top_height
            &&& le_i32(c, 37) == pad.bot_width
            &&& le_i32(c, 41) == pad.bot_height
            &&& le_u32(c, 45) == pad.hole_size
            &&& c[49] == pad.top_shape
            &&& c[51] == pad.bot_shape
            &&& le_u64(c, 52) == pad.rotation
        }),
{
    let c = pad_geometry_bytes(pad, skipped, middle, middle_shape);
    let h = seq![pad.layer] + skipped;
    let a = i32_bytes(pad.x);
    let b = i32_bytes(pad.y);
    let tw = i32_bytes(pad.top_width);
    let th = i32_bytes(pad.top_height);
    let bw = i32_bytes(pad.bot_width);
    let bh = i32_bytes(pad.bot_height);
    let hs = u32_bytes(pad.hole_size as int);
    let sh = seq![pad.top_shape, middle_shape, pad.bot_shape];
    let r = u64_bytes(pad.rotation);
    assert(le_i32(c, 13) == pad.x) by {
        assert(c =~= h + a + (b + tw + th + middle + bw + bh + hs + sh + r));
        lemma_i32_bytes_at(h, pad.x, b + tw + th + middle + bw + bh + hs + sh + r);
    }
    assert(le_i32(c, 17) == pad.y) by {
        assert(c =~= (h + a) + b + (tw + th + middle + bw + bh + hs + sh + r));
        lemma_i32_bytes_at(h + a, pad.y, tw + th + middle + bw + bh + hs + sh + r);
    }
    assert(le_i32(c, 21) == pad.top_width) by {
        assert(c =~= (h + a + b) + tw + (th + middle + bw + bh + hs + sh + r));
        lemma_i32_bytes_at(h + a + b, pad.top_width, th + middle + bw + bh + hs + sh + r);
    }
    assert(le_i32(c, 25) == pad.top_height) by {
        assert(c =~= (h + a + b + tw) + th + (middle + bw + bh + hs + sh + r));
        lemma_i32_bytes_at(h + a + b + tw, pad.top_height, middle + bw + bh + hs + sh + r);
    }
    let m = h + a + b + tw + th + middle;
    assert(m.len() == 37);
    assert(le_i32(c, 37) == pad.bot_width) by {
        assert(c =~= m + bw + (bh + hs + sh + r));
        lemma_i32_bytes_at(m, pad.bot_width, bh + hs + sh + r);
    }
    assert(le_i32(c, 41) == pad.bot_height) by {
        assert(c =~= (m + bw) + bh + (hs + sh + r));
        lemma_i32_bytes_at(m + bw, pad.bot_height, hs + sh + r);
    }
    assert(le_u32(c, 45) == pad.hole_size) by {
        assert(c =~= (m + bw + bh) + hs + (sh + r));
        lemma_u32_bytes_at(m + bw + bh, pad.hole_size, sh + r);
    }
    assert(c[49] == pad.top_shape && c[51] == pad.bot_shape) by {
        assert(c =~= (m + bw + bh + hs) + sh + r);
    }
    assert(le_u64(c, 52) == pad.rotation && c.len() == 60) by {
        assert(c =~= (m + bw + bh + hs + sh) + r + Seq::<u8>::empty());
        lemma_u64_bytes_at(m + bw + bh + hs + sh, pad.rotation, Seq::empty());
    }
    assert(c[0] == pad.layer);
}

/// The blocks of a pad record read back in order.
#[verifier::rlimit(80)]
#[verifier::spinoff_prover]
proof fn lemma_pad_record_blocks(d: Seq<u8>, o0: Seq<u8>, o1: Seq<u8>, o2: Seq<u8>, g: Seq<u8>)
    requires
        0 < d.len() < 0x1_0000_0000,
        0 < o0.len() < 0x1_0000_0000,
        0 < o1.len() < 0x1_0000_0000,
        0 < o2.len() < 0x1_0000_0000,
        0 < g.len() < 0x1_0000_0000,
    ensures
        ({
            let s = block_bytes(d) + block_bytes(o0) + block_bytes(o1) + block_bytes(o2) + block_bytes(g)
                + u32_bytes(0);
            let p1 = 4 + d.len();
            let p2 = p1 + 4 + o0.len();
            let p3 = p2 + 4 + o1.len();
            let p4 = p3 + 4 + o2.len();
            let p5 = p4 + 4 + g.len();
            &&& s.len() == p5 + 4
            &&& subrecord_spec(s, 0) == Some((d, p1 as int))
            &&& subrecord_spec(s, p1 as int) == Some((o0, p2 as int))
            &&& subrecord_spec(s, p2 as int) == Some((o1, p3 as int))
            &&& subrecord_spec(s, p3 as int) == Some((o2, p4 as int))
            &&& subrecord_spec(s, p4 as int) == Some((g, p5 as int))
            &&& pad_tail(s, p5 as int) == (None::<Seq<u8>>, s.len() as int)
        }),
{
    let (b0, b1, b2, b3, b4) = (block_bytes(d), block_bytes(o0), block_bytes(o1), block_bytes(o2), block_bytes(g));
    let z = u32_bytes(0);
    let s = b0 + b1 + b2 + b3 + b4 + z;
    lemma_block_at(Seq::empty(), d, Seq::empty());
    lemma_block_at(Seq::empty(), o0, Seq::empty());
    lemma_block_at(Seq::empty(), o1, Seq::empty());
    lemma_block_at(Seq::empty(), o2, Seq::empty());
    lemma_block_at(Seq::empty(), g, Seq::empty());
    crate::altium::records::lemma_u32_bytes(0);
    assert(subrecord_spec(s, 0) == Some((d, (4 + d.len()) as int))) by {
        assert(s =~= Seq::<u8>::empty() + b0 + (b1 + b2 + b3 + b4 + z));
        lemma_block_at(Seq::empty(), d, b1 + b2 + b3 + b4 + z);
    }
    assert(subrecord_spec(s, b0.len() as int) == Some((o0, (b0.len() + b1.len()) as int))) by {
        assert(s =~= b0 + b1 + (b2 + b3 + b4 + z));
        lemma_block_at(b0, o0, b2 + b3 + b4 + z);
    }
    assert(subrecord_spec(s, (b0 + b1).len() as int) == Some((o1, (b0 + b1 + b2).len() as int))) by {
        assert(s =~= (b0 + b1) + b2 + (b3 + b4 + z));
        lemma_block_at(b0 + b1, o1, b3 + b4 + z);
    }
    assert(subrecord_spec(s, (b0 + b1 + b2).len() as int) == Some((o2, (b0 + b1 + b2 + b3).len() as int))) by {
        assert(s =~= (b0 + b1 + b2) + b3 + (b4 + z));
        lemma_block_at(b0 + b1 + b2, o2, b4 + z);
    }
    assert(subrecord_spec(s, (b0 + b1 + b2 + b3).len() as int) == Some((g, (b0 + b1 + b2 + b3 + b4).len() as int))) by {
        assert(s =~= (b0 + b1 + b2 + b3) + b4 + z);
        lemma_block_at(b0 + b1 + b2 + b3, g, z);
    }
    assert(pad_tail(s, (b0 + b1 + b2 + b3 + b4).len() as int) == (None::<Seq<u8>>, s.len() as int)) by {
        assert(s =~= (b0 + b1 + b2 + b3 + b4) + z + Seq::<u8>::empty());
        lemma_u32_bytes_at(b0 + b1 + b2 + b3 + b4, 0, Seq::empty());
    }
}

/// A pad written in the record layout reads back as that pad, ending at
/// the end of the record: its designator from the first block, and its
/// layer, position, top and bottom sizes, hole size, top and bottom shapes
/// and rotation from their own places in the size-and-shape block. (Shape
/// code 9 is read as a rounded rectangle, so it is left out here.)
pub proof fn pad_record_reads_back(
    pad: PadSpec,
    name: Seq<u8>,
    opaque: (Seq<u8>, Seq<u8>, Seq<u8>),
    skipped: Seq<u8>,
    middle: Seq<u8>,
    middle_shape: u8,
)
    requires
        pad.designator == decode_text_spec(name),
        name.len() < 256,
        0 < opaque.0.len() < 0x1_0000_0000,
        0 < opaque.1.len() < 0x1_0000_0000,
        0 < opaque.2.len() < 0x1_0000_0000,
        skipped.len() == 12,
        middle.len() == 8,
        pad.top_shape != 9,
        pad.bot_shape != 9,
        pad.hole_shape == 0,
        pad.slot_size == 0,
        pad.slot_rotation == 0,
    ensures
        pad_spec(pad_record_bytes(pad, name, opaque, skipped, middle, middle_shape), 0) == Some(
            (pad, pad_record_bytes(pad, name, opaque, skipped, middle, middle_shape).len() as int),
        ),
{
    let s = pad_record_bytes(pad, name, opaque, skipped, middle, middle_shape);
    let d = seq![name.len() as u8] + name;
    let g = pad_geometry_bytes(pad, skipped, middle, middle_shape);
    lemma_pad_geometry(pad, skipped, middle, middle_shape);
    lemma_pad_record_blocks(d, opaque.0, opaque.1, opaque.2, g);
    assert(pascal_or_empty(d) == decode_text_spec(name)) by {
        assert(d.subrange(1, 1 + d[0]) =~= name);
    }
}

/// Per-layer overrides of a pad: hole shape, slot size and rotation, and
/// the alternative top and bottom shapes.
fn parse_pad_layers(b: &[u8]) -> (r: Option<(u8, i32, u64, u8, u8)>)
    requires
        b@.len() >= 596,
    ensures
        r == Some((b@[262], le_i32(b@, 263) as i32, le_u64(b@, 267) as u64, b@[532], b@[564])),
{
    let mut s6 = Reader::new(b);
    s6.bytes(232)?;
    s6.bytes(29)?;
    s6.bytes(1)?;
    let hole_shape = s6.u8()?;
    let slot_size = s6.i32()?;
    let slot_rotation = s6.f64_bits()?;
    s6.bytes(256)?;
    s6.bytes(1)?;
    let alt_top = s6.u8()?;
    s6.bytes(31)?;
    let alt_bot = s6.u8()?;
    Some((hole_shape, slot_size, slot_rotation, alt_top, alt_bot))
}

fn fix_shape_exec(s: u8) -> (r: u8)
    ensures
        r == fix_shape(s),
{
    if s == 9 {
        PAD_SHAPE_ROUNDED_RECTANGLE
    } else {
        s
    }
}

/// Reads a pad record.
pub fn parse_pad(r: &mut Reader) -> (res: Option<Pad>)
    ensures
        final(r).input() == old(r).input(),
        final(r).at() <= final(r).input().len(),
        match pad_spec(old(r).input(), old(r).at()) {
            Some((p, q)) => res matches Some(x) && x@ == p && final(r).at() == q,
            None => res is None,
        },
{
    let ghost s = r.input();
    let c1 = subrecord(r)?;
    let designator = {
        let mut cr = Reader::new(c1);
        match cr.pascal_string() {
            Some(d) => d,
            None => String::new(),
        }
    };
    assert(designator@ == pascal_or_empty(c1@));
    subrecord(r)?;
    subrecord(r)?;
    subrecord(r)?;
    let c5 = subrecord(r)?;
    let ghost p5 = r.at();
    if c5.len() < 60 {
        return None;
    }
    let mut c = Reader::new(c5);
    let layer = c.u8()?;
    c.bytes(12)?;
    let x = c.i32()?;
    let y = c.i32()?;
    let top_width = c.i32()?;
    let top_height = c.i32()?;
    c.bytes(8)?;
    let bot_width = c.i32()?;
    let bot_height = c.i32()?;
    let hole_size = c.u32()?;
    let top_shape_raw = c.u8()?;
    let _mid_shape = c.u8()?;
    let bot_shape_raw = c.u8()?;
    let rotation = c.f64_bits()?;
    let mut hole_shape: u8 = 0;
    let mut slot_size: i32 = 0;
    let mut slot_rotation: u64 = 0;
    let mut top_shape = top_shape_raw;
    let mut bot_shape = bot_shape_raw;
    if let Some(l) = r.peek_u32() {
        let l = l as usize;
        if l == 0 {
            r.bytes(4)?;
        } else if (l == 596 || l == 628 || l == 651) && l <= r.remaining() && 4 <= r.remaining() - l {
            let sr6 = subrecord(r)?;
            let (hs, ss, sr, at, ab) = parse_pad_layers(sr6)?;
            hole_shape = hs;
            slot_size = ss;
            slot_rotation = sr;
            top_shape = at;
            bot_shape = ab;
        }
    }
    Some(
        Pad {
            designator,
            layer,
            x,
            y,
            top_width,
            top_height,
            bot_width,
            bot_height,
            hole_size,
            top_shape: fix_shape_exec(top_shape),
            bot_shape: fix_shape_exec(bot_shape),
            rotation,
            hole_shape,
            slot_size,
            slot_rotation,
        },
    )
}


// ---------------------------------------------------------------------------
// Wide strings
// ---------------------------------------------------------------------------

/// What `String::from_utf8_lossy` makes of `b`.
pub uninterp spec fn utf8_lossy(b: Seq<u8>) -> Seq<char>;

/// Calls `String::from_utf8_lossy`. Claimed: the text depends on the bytes
/// alone, and is their UTF-8 decoding when they are valid UTF-8 (invalid
/// sequences become U+FFFD, which is left unsaid here).
#[verifier::external_body]
fn lossy_text(b: &[u8]) -> (s: String)
    ensures
        s@ == utf8_lossy(b@),
        valid_utf8(b@) ==> s@ == decode_utf8(b@),
{
    String::from_utf8_lossy(b).into_owned()
}

/// A character given by its decimal code: the code must parse as a `u32`
/// (after trimming); codes that are no character give `?`.
pub open spec fn code_char(piece: Seq<char>) -> Option<char> {
    match parse_u64(trim_seq(piece)) {
        Some(v) => if v <= u32::MAX {
            Some(
                if is_scalar(v as u32) {
                    (v as u32) as char
                } else {
                    '?'
                },
            )
        } else {
            None
        },
        None => None,
    }
}

/// The characters of comma-separated decimal codes; pieces that are no
/// number are skipped.
pub open spec fn code_chars(pieces: Seq<Seq<char>>) -> Seq<char>
    decreases pieces.len(),
{
    if pieces.len() == 0 {
        Seq::empty()
    } else {
        code_chars(pieces.drop_last()) + match code_char(pieces.last()) {
            Some(c) => seq![c],
            None => Seq::<char>::empty(),
        }
    }
}

/// An `ENCODEDTEXT<index>=<codes>` entry.
pub open spec fn wide_entry(piece: Seq<char>) -> Option<(usize, Seq<char>)> {
    if has_prefix(piece, "ENCODEDTEXT"@) {
        let rest = piece.skip(11);
        match find_first(rest, |x: char| x == '=') {
            Some(k) => match parse_u64(rest.take(k)) {
                Some(i) => if i <= usize::MAX {
                    Some((i as usize, code_chars(split_seq(rest.skip(k + 1), ','))))
                } else {
                    None
                },
                None => None,
            },
            None => None,
        }
    } else {
        None
    }
}

pub open spec fn wide_entries(pieces: Seq<Seq<char>>) -> Seq<(usize, Seq<char>)>
    decreases pieces.len(),
{
    if pieces.len() == 0 {
        Seq::empty()
    } else {
        wide_entries(pieces.drop_last()) + match wide_entry(pieces.last()) {
            Some(e) => seq![e],
            None => Seq::<(usize, Seq<char>)>::empty(),
        }
    }
}

/// The entries of a footprint's `WideStrings` stream
/// (`[u32 len]["|ENCODEDTEXT{n}=b,b,b|..."]`), in stream order.
pub open spec fn wide_strings_spec(data: Seq<u8>) -> Seq<(usize, Seq<char>)> {
    if data.len() >= 4 && le_u32(data, 0) != 0 && 4 + le_u32(data, 0) <= data.len() {
        wide_entries(split_seq(utf8_lossy(data.subrange(4, 4 + le_u32(data, 0))), '|'))
    } else {
        Seq::empty()
    }
}

pub open spec fn wide_view(v: Seq<(usize, String)>) -> Seq<(usize, Seq<char>)> {
    v.map_values(|e: (usize, String)| (e.0, e.1@))
}

/// The text stored under index `i`: the last entry for it wins.
pub open spec fn wide_lookup(w: Seq<(usize, Seq<char>)>, i: int) -> Option<Seq<char>>
    decreases w.len(),
{
    if w.len() == 0 {
        None
    } else if w.last().0 == i {
        Some(w.last().1)
    } else {
        wide_lookup(w.drop_last(), i)
    }
}

fn code_chars_exec(v: &[char]) -> (s: String)
    ensures
        s@ == code_chars(split_seq(v@, ',')),
{
    let ranges = split_ranges(v, ',');
    let ghost pieces = split_seq(v@, ',');
    let mut s = String::new();
    let mut k: usize = 0;
    while k < ranges.len()
        invariant
            k <= ranges@.len() == pieces.len(),
            pieces == split_seq(v@, ','),
            forall|j: int|
                0 <= j < ranges@.len() ==> (#[trigger] ranges@[j]).0 <= ranges@[j].1 <= v@.len()
                    && v@.subrange(ranges@[j].0 as int, ranges@[j].1 as int) == pieces[j],
            s@ == code_chars(pieces.take(k as int)),
        decreases ranges@.len() - k,
    {
        let (a, b) = ranges[k];
        let piece = vstd::slice::slice_subrange(v, a, b);
        let t = trim_chars(piece);
        proof {
            assert(pieces.take(k + 1).drop_last() =~= pieces.take(k as int));
            assert(pieces.take(k + 1).last() == pieces[k as int]);
        }
        assert(piece@ == pieces[k as int]);
        match parse_u64_chars(&t) {
            Some(n) => {
                if n <= 0xFFFF_FFFF {
                    let oc = char_from_u32(n as u32);
                    let c = match oc {
                        Some(c) => c,
                        None => '?',
                    };
                    assert(code_char(pieces[k as int]) == Some(c));
                    push_char(&mut s, c);
                } else {
                    assert(code_char(pieces[k as int]) is None);
                }
            },
            None => {
                assert(code_char(pieces[k as int]) is None);
            },
        }
        k += 1;
    }
    assert(pieces.take(ranges@.len() as int) =~= pieces);
    s
}

fn wide_entry_exec(p: &[char]) -> (r: Option<(usize, String)>)
    ensures
        match r {
            Some(e) => wide_entry(p@) == Some((e.0, e.1@)),
            None => wide_entry(p@) is None,
        },
{
    let lit = chars_of("ENCODEDTEXT");
    proof {
        reveal_strlit("ENCODEDTEXT");
        assert(p@.skip(0) =~= p@);
    }
    if !starts_with_at(p, 0, &lit) {
        return None;
    }
    let rest = vstd::slice::slice_subrange(p, 11, p.len());
    let k = find_char(rest, '=')?;
    let idx_s = vstd::slice::slice_subrange(rest, 0, k);
    let val_s = vstd::slice::slice_subrange(rest, k + 1, rest.len());
    proof {
        assert(idx_s@ =~= rest@.take(k as int));
        assert(val_s@ =~= rest@.skip(k + 1));
    }
    let i = parse_u64_chars(idx_s)?;
    if i > usize::MAX as u64 {
        return None;
    }
    Some((i as usize, code_chars_exec(val_s)))
}

/// Parses a footprint's `WideStrings` stream into its entries.
pub fn parse_wide_strings(data: &[u8]) -> (out: Vec<(usize, String)>)
    ensures
        wide_view(out@) == wide_strings_spec(data@),
{
    let mut out: Vec<(usize, String)> = Vec::new();
    let mut r = Reader::new(data);
    let len = match r.u32() {
        Some(l) => l as usize,
        None => return out,
    };
    if len == 0 || len > data.len() - 4 {
        return out;
    }
    let body = match r.bytes(len) {
        Some(b) => b,
        None => return out,
    };
    let text = lossy_text(body);
    wide_entries_of_text(&text)
}

/// The entries of a `WideStrings` stream's text.
pub fn wide_entries_of_text(text: &str) -> (out: Vec<(usize, String)>)
    ensures
        wide_view(out@) == wide_entries(split_seq(text@, '|')),
{
    let mut out: Vec<(usize, String)> = Vec::new();
    let chars = chars_of(text);
    let ranges = split_ranges(&chars, '|');
    let ghost pieces = split_seq(chars@, '|');
    let mut k: usize = 0;
    while k < ranges.len()
        invariant
            k <= ranges@.len() == pieces.len(),
            pieces == split_seq(chars@, '|'),
            forall|j: int|
                0 <= j < ranges@.len() ==> (#[trigger] ranges@[j]).0 <= ranges@[j].1 <= chars@.len()
                    && chars@.subrange(ranges@[j].0 as int, ranges@[j].1 as int) == pieces[j],
            wide_view(out@) == wide_entries(pieces.take(k as int)),
        decreases ranges@.len() - k,
    {
        let (a, b) = ranges[k];
        let piece = vstd::slice::slice_subrange(&chars, a, b);
        proof {
            assert(pieces.take(k + 1).drop_last() =~= pieces.take(k as int));
            assert(pieces.take(k + 1).last() == pieces[k as int]);
        }
        let ghost prev = out@;
        match wide_entry_exec(piece) {
            Some(e) => {
                let ghost ev = (e.0, e.1@);
                out.push(e);
                assert(wide_view(out@) =~= wide_view(prev).push(ev));
            },
            None => {},
        }
        k += 1;
    }
    assert(pieces.take(ranges@.len() as int) =~= pieces);
    out
}


// ---------------------------------------------------------------------------
// Text records
// ---------------------------------------------------------------------------

/// `t` without its trailing NUL characters.
pub open spec fn trim_nul_end(t: Seq<char>) -> Seq<char>
    decreases t.len(),
{
    if t.len() > 0 && t.last() == '\0' {
        trim_nul_end(t.drop_last())
    } else {
        t
    }
}

/// The plain-text block that follows a text record's first block, when one
/// fits: its text replaces `content` only if `content` is empty. A leading
/// length byte equal to the block length minus one is skipped; trailing
/// NULs are dropped and the rest trimmed. A block that does not fit is not
/// consumed. Gives the content and the offset after the block.
pub open spec fn text_tail(s: Seq<u8>, p: int, content: Seq<char>) -> (Seq<char>, int) {
    if s.len() - p >= 4 && le_u32(s, p) <= s.len() - p - 4 {
        let n = le_u32(s, p);
        let bytes = s.subrange(p + 4, p + 4 + n);
        let body = if bytes.len() > 0 && bytes[0] == n - 1 {
            bytes.drop_first()
        } else {
            bytes
        };
        let t = trim_nul_end(decode_text_spec(body));
        (
            if content.len() == 0 && n > 0 && t.len() > 0 {
                trim_seq(t)
            } else {
                content
            },
            p + 4 + n,
        )
    } else {
        (content, p)
    }
}

/// The content a text record takes from the footprint's wide strings: the
/// non-empty entry stored under the index at offset 119 of the first block,
/// when the block is that long.
pub open spec fn text_wide_content(c: Seq<u8>, w: Seq<(usize, Seq<char>)>) -> Seq<char> {
    if c.len() >= 123 {
        match wide_lookup(w, le_u32(c, 119)) {
            Some(t) => t,
            None => Seq::empty(),
        }
    } else {
        Seq::empty()
    }
}

/// The text record at `p`: a first block of at least 42 bytes (and, when
/// it reaches offset 119, at least 123), then the optional plain-text block.
pub open spec fn text_spec(s: Seq<u8>, p: int, w: Seq<(usize, Seq<char>)>) -> Option<(TextSpec, int)> {
    match subrecord_spec(s, p) {
        None => None,
        Some((c, p1)) => if c.len() < 42 || (119 <= c.len() && c.len() < 123) {
            None
        } else {
            let (content, q) = text_tail(s, p1, text_wide_content(c, w));
            Some(
                (
                    TextSpec {
                        layer: c[0],
                        x: le_i32(c, 13) as i32,
                        y: le_i32(c, 17) as i32,
                        height: le_i32(c, 21) as i32,
                        rotation: le_u64(c, 27) as u64,
                        mirrored: c[35] != 0,
                        content,
                    },
                    q,
                ),
            )
        },
    }
}

/// The first block of a text record as the format lays it out: the layer,
/// twelve skipped bytes, x, y and the height as i32, two skipped bytes, the
/// rotation's f64 bits, the mirror flag byte, then the rest of the block.
pub open spec fn text_block_bytes(
    layer: u8,
    skipped: Seq<u8>,
    x: i32,
    y: i32,
    height: i32,
    gap: Seq<u8>,
    rotation: u64,
    mirror: u8,
    rest: Seq<u8>,
) -> Seq<u8> {
    seq![layer] + skipped + i32_bytes(x) + i32_bytes(y) + i32_bytes(height) + gap + u64_bytes(rotation)
        + seq![mirror] + rest
}

/// A text record whose first block is written in the format's layout (and
/// is too short to name a wide string) and which has no plain-text block
/// reads back with that layer, position, height and rotation, mirrored
/// when the flag byte is non-zero, and no content.
#[verifier::rlimit(80)]
#[verifier::spinoff_prover]
pub proof fn text_record_reads_back(
    layer: u8,
    skipped: Seq<u8>,
    x: i32,
    y: i32,
    height: i32,
    gap: Seq<u8>,
    rotation: u64,
    mirror: u8,
    rest: Seq<u8>,
    w: Seq<(usize, Seq<char>)>,
)
    requires
        skipped.len() == 12,
        gap.len() == 2,
        6 <= rest.len() < 83,
    ensures
        text_spec(
            block_bytes(text_block_bytes(layer, skipped, x, y, height, gap, rotation, mirror, rest)),
            0,
            w,
        ) == Some(
            (
                TextSpec { layer, x, y, height, rotation, mirrored: mirror != 0, content: Seq::empty() },
                (40 + rest.len()) as int,
            ),
        ),
{
    let c = text_block_bytes(layer, skipped, x, y, height, gap, rotation, mirror, rest);
    let h = seq![layer] + skipped;
    let (a, b, e) = (i32_bytes(x), i32_bytes(y), i32_bytes(height));
    let r = u64_bytes(rotation);
    let m = seq![mirror] + rest;
    assert(le_i32(c, 13) == x) by {
        assert(c =~= h + a + (b + e + gap + r + m));
        lemma_i32_bytes_at(h, x, b + e + gap + r + m);
    }
    assert(le_i32(c, 17) == y) by {
        assert(c =~= (h + a) + b + (e + gap + r + m));
        lemma_i32_bytes_at(h + a, y, e + gap + r + m);
    }
    assert(le_i32(c, 21) == height) by {
        assert(c =~= (h + a + b) + e + (gap + r + m));
        lemma_i32_bytes_at(h + a + b, height, gap + r + m);
    }
    assert(le_u64(c, 27) == rotation && c.len() == 36 + rest.len() && c[35] == mirror) by {
        assert(c =~= (h + a + b + e + gap) + r + m);
        lemma_u64_bytes_at(h + a + b + e + gap, rotation, m);
    }
    assert(c[0] == layer);
    let s = block_bytes(c);
    assert(s =~= Seq::<u8>::empty() + block_bytes(c) + Seq::<u8>::empty());
    lemma_block_at(Seq::empty(), c, Seq::empty());
    assert(text_wide_content(c, w) == Seq::<char>::empty());
}

/// Index of the entry `wide_lookup` picks.
fn wide_find(w: &[(usize, String)], i: usize) -> (r: Option<usize>)
    ensures
        match r {
            Some(k) => k < w@.len() && wide_lookup(wide_view(w@), i as int) == Some(w@[k as int].1@),
            None => wide_lookup(wide_view(w@), i as int) is None,
        },
{
    let mut k: usize = w.len();
    assert(w@.take(k as int) =~= w@);
    while k > 0
        invariant
            k <= w@.len(),
            wide_lookup(wide_view(w@), i as int) == wide_lookup(wide_view(w@.take(k as int)), i as int),
        decreases k,
    {
        proof {
            assert(wide_view(w@.take(k as int)).drop_last() =~= wide_view(w@.take(k - 1)));
        }
        if w[k - 1].0 == i {
            return Some(k - 1);
        }
        k -= 1;
    }
    None
}

/// `t` without trailing NULs.
fn trim_nul_end_exec(t: &[char]) -> (r: &[char])
    ensures
        r@ == trim_nul_end(t@),
{
    let mut e: usize = t.len();
    assert(t@.take(e as int) =~= t@);
    while e > 0 && t[e - 1] == '\0'
        invariant
            e <= t@.len(),
            trim_nul_end(t@) == trim_nul_end(t@.take(e as int)),
        decreases e,
    {
        proof {
            assert(t@.take(e as int).drop_last() =~= t@.take(e - 1));
        }
        e -= 1;
    }
    proof {
        assert(trim_nul_end(t@.take(e as int)) == t@.take(e as int));
    }
    vstd::slice::slice_subrange(t, 0, e)
}

/// Reads a text record.
pub fn parse_text_record(r: &mut Reader, strings: &[(usize, String)]) -> (res: Option<Text>)
    ensures
        final(r).input() == old(r).input(),
        final(r).at() <= final(r).input().len(),
        match text_spec(old(r).input(), old(r).at(), wide_view(strings@)) {
            Some((t, q)) => res matches Some(x) && x@ == t && final(r).at() == q,
            None => res is None,
        },
{
    let sr1 = subrecord(r)?;
    if sr1.len() < 42 || (119 <= sr1.len() && sr1.len() < 123) {
        return None;
    }
    let mut c = Reader::new(sr1);
    let layer = c.u8()?;
    c.bytes(12)?;
    let x = c.i32()?;
    let y = c.i32()?;
    let height = c.i32()?;
    c.bytes(2)?;
    let rotation = c.f64_bits()?;
    let mirrored = c.u8()? != 0;
    c.bytes(4)?;
    c.bytes(2)?;
    let mut content = String::new();
    if sr1.len() >= 119 {
        c.bytes(77)?;
        let wide_index = c.u32()? as usize;
        match wide_find(strings, wide_index) {
            Some(k) => {
                content = strings[k].1.clone();
            },
            None => {},
        }
    }
    let ghost c0 = content@;
    assert(c0 == text_wide_content(sr1@, wide_view(strings@)));
    if r.remaining() >= 4 {
        let save = r.pos();
        let len_raw = r.u32().unwrap() as usize;
        if len_raw <= r.remaining() {
            let bytes = r.bytes(len_raw).unwrap();
            if content.as_str().is_empty() && len_raw > 0 {
                let body = if bytes[0] as usize == len_raw - 1 {
                    vstd::slice::slice_subrange(bytes, 1, bytes.len())
                } else {
                    bytes
                };
                proof {
                    if bytes@[0] == len_raw - 1 {
                        assert(body@ =~= bytes@.drop_first());
                    }
                }
                let t = decode_text(body);
                let tc = chars_of(&t);
                let trimmed = trim_nul_end_exec(&tc);
                if trimmed.len() > 0 {
                    let tt = trim_chars(trimmed);
                    content = crate::text::string_from_chars(&tt);
                }
            }
        } else {
            r.seek(save);
        }
    }
    Some(Text { layer, x, y, height, rotation, mirrored, content })
}


// ---------------------------------------------------------------------------
// Regions and component bodies
// ---------------------------------------------------------------------------

/// Bytes per stored vertex: 37 in the extended (arc-aware) layout, 16 for
/// a plain pair of f64 coordinates.
pub open spec fn vertex_size(ext: bool) -> int {
    if ext {
        37
    } else {
        16
    }
}

/// The vertex stored at offset `q`.
pub open spec fn vertex_at(c: Seq<u8>, q: int, ext: bool) -> RegionVertex {
    if ext {
        RegionVertex::Extended {
            round: c[q] != 0,
            x: le_i32(c, q + 1) as i32,
            y: le_i32(c, q + 5) as i32,
            cx: le_i32(c, q + 9) as i32,
            cy: le_i32(c, q + 13) as i32,
            radius: le_i32(c, q + 17) as i32,
            start_angle: le_u64(c, q + 21) as u64,
            end_angle: le_u64(c, q + 29) as u64,
        }
    } else {
        RegionVertex::Plain { x_bits: le_u64(c, q) as u64, y_bits: le_u64(c, q + 8) as u64 }
    }
}

/// Number of stored vertices: the declared count, plus a closing vertex
/// in layouts that repeat the first one.
pub open spec fn layout_count(raw: int, closing: bool) -> int {
    raw + if closing {
        1int
    } else {
        0int
    }
}

/// Whether the vertices of a layout fit after the count at `cp`.
pub open spec fn layout_fits(c: Seq<u8>, cp: int, raw: int, ext: bool, closing: bool) -> bool {
    layout_count(raw, closing) * vertex_size(ext) <= c.len() - cp - 4
}

/// The `n` vertices stored after the count at `cp`.
pub open spec fn outline_spec(c: Seq<u8>, cp: int, n: int, ext: bool) -> Seq<RegionVertex> {
    Seq::new(n as nat, |i: int| vertex_at(c, cp + 4 + i * vertex_size(ext), ext))
}

/// Bytes left after skipping the hole outlines from `q` on: each hole is a
/// `u32` count and that many 16-byte points, taken while it fits.
pub open spec fn holes_left(c: Seq<u8>, q: int) -> int
    decreases c.len() - q,
{
    if q < 0 || q > c.len() || c.len() - q < 4 {
        c.len() - q
    } else {
        let hn = le_u32(c, q);
        if c.len() - q < 4 + hn * 16 {
            c.len() - q
        } else {
            holes_left(c, q + 4 + hn * 16)
        }
    }
}

/// Bytes a layout leaves unread after its vertices and holes.
pub open spec fn layout_leftover(c: Seq<u8>, cp: int, raw: int, ext: bool, closing: bool) -> int {
    holes_left(c, cp + 4 + layout_count(raw, closing) * vertex_size(ext))
}

/// The layouts (extended?, closing vertex?) to try, in order.
pub open spec fn region_candidates(is_body: bool, shapebased: bool) -> Seq<(bool, bool)> {
    if is_body {
        if shapebased {
            seq![(true, true), (true, false), (false, false)]
        } else {
            seq![(false, false), (true, false), (true, true)]
        }
    } else if shapebased {
        seq![(true, true)]
    } else {
        seq![(false, false)]
    }
}

/// Best-fit layout: among the candidates from `i` on whose vertices fit,
/// the first that leaves the fewest bytes unread; the search stops at the
/// first one leaving at most 3. `best` is the best so far with its
/// leftover.
pub open spec fn pick_layout(
    c: Seq<u8>,
    cp: int,
    raw: int,
    cands: Seq<(bool, bool)>,
    i: int,
    best: Option<(bool, bool, int)>,
) -> Option<(bool, bool)>
    decreases cands.len() - i,
{
    if i < 0 || i >= cands.len() {
        match best {
            Some(b) => Some((b.0, b.1)),
            None => None,
        }
    } else {
        let ext = cands[i].0;
        let closing = cands[i].1;
        if !layout_fits(c, cp, raw, ext, closing) {
            pick_layout(c, cp, raw, cands, i + 1, best)
        } else {
            let lo = layout_leftover(c, cp, raw, ext, closing);
            let nb = match best {
                Some(b) => if lo < b.2 {
                    Some((ext, closing, lo))
                } else {
                    best
                },
                None => Some((ext, closing, lo)),
            };
            if lo <= 3 {
                match nb {
                    Some(b) => Some((b.0, b.1)),
                    None => None,
                }
            } else {
                pick_layout(c, cp, raw, cands, i + 1, nb)
            }
        }
    }
}

/// Offset of the vertex count: after the 18-byte header, the properties
/// block and, for bodies and shape-based regions, one NUL pad byte.
pub open spec fn region_count_pos(c: Seq<u8>, is_body: bool) -> int {
    let take = if le_u32(c, 18) < c.len() - 22 {
        le_u32(c, 18)
    } else {
        c.len() - 22
    };
    let pos = 22 + take;
    if (is_body || region_shapebased(c)) && c.len() - pos >= 1 && c[pos] == 0 {
        pos + 1
    } else {
        pos
    }
}

/// Whether the properties block of a region says `ISSHAPEBASED=TRUE`.
pub open spec fn region_shapebased(c: Seq<u8>) -> bool {
    let take = if le_u32(c, 18) < c.len() - 22 {
        le_u32(c, 18)
    } else {
        c.len() - 22
    };
    contains_seq(decode_text_spec(c.subrange(22, 22 + take)), "ISSHAPEBASED=TRUE"@)
}

/// A REGION or COMPONENT_BODY payload: layer, 17 header bytes, a
/// `[u32 len][text]` properties block (a length beyond the payload is
/// refused, one beyond what is left is cut short), the vertex count, and the
/// outline in the best-fitting layout.
pub open spec fn region_spec(c: Seq<u8>, is_body: bool) -> Option<RegionSpec> {
    if c.len() < 22 || le_u32(c, 18) > c.len() {
        None
    } else {
        let cp = region_count_pos(c, is_body);
        if c.len() - cp < 4 {
            None
        } else {
            let raw = le_u32(c, cp);
            match pick_layout(
                c,
                cp,
                raw,
                region_candidates(is_body, region_shapebased(c)),
                0,
                None,
            ) {
                Some(l) => Some(
                    RegionSpec {
                        layer: c[0],
                        is_body,
                        outline: outline_spec(c, cp, layout_count(raw, l.1), l.0),
                    },
                ),
                None => None,
            }
        }
    }
}

/// Unread bytes after a layout's vertices and holes, or `None` when the
/// vertices do not fit.
fn region_leftover(c: &[u8], cp: usize, raw: u32, ext: bool, closing: bool) -> (r: Option<usize>)
    requires
        cp + 4 <= c@.len(),
    ensures
        match r {
            Some(lo) => layout_fits(c@, cp as int, raw as int, ext, closing) && lo == layout_leftover(
                c@,
                cp as int,
                raw as int,
                ext,
                closing,
            ),
            None => !layout_fits(c@, cp as int, raw as int, ext, closing),
        },
{
    let n: u64 = if closing {
        raw as u64 + 1
    } else {
        raw as u64
    };
    let size: u64 = if ext {
        37
    } else {
        16
    };
    assert(n * size <= 0x1_0000_0001 * 37) by (nonlinear_arith)
        requires
            n <= 0x1_0000_0001,
            size <= 37,
    ;
    let avail: u64 = (c.len() - cp - 4) as u64;
    if n * size > avail {
        return None;
    }
    let mut q: usize = cp + 4 + (n * size) as usize;
    let mut r = Reader::new(c);
    let mut done = false;
    while !done
        invariant
            q <= c@.len(),
            r.input() == c@,
            holes_left(c@, (cp + 4 + layout_count(raw as int, closing) * vertex_size(ext))) == holes_left(
                c@,
                q as int,
            ),
            done ==> holes_left(c@, q as int) == c@.len() - q,
        decreases c@.len() - q + if done {
            0int
        } else {
            1int
        },
    {
        r.seek(q);
        match r.peek_u32() {
            None => {
                done = true;
            },
            Some(hn) => {
                let need: u64 = 4 + (hn as u64) * 16;
                if ((c.len() - q) as u64) < need {
                    done = true;
                } else {
                    q = q + need as usize;
                }
            },
        }
    }
    Some(c.len() - q)
}

/// The vertex at the reader's position.
fn read_vertex(r: &mut Reader, ext: bool) -> (v: Option<RegionVertex>)
    ensures
        final(r).input() == old(r).input(),
        old(r).input().len() - old(r).at() >= vertex_size(ext) ==> v == Some(
            vertex_at(old(r).input(), old(r).at(), ext),
        ) && final(r).at() == old(r).at() + vertex_size(ext),
{
    if ext {
        let round = r.u8()? != 0;
        let x = r.i32()?;
        let y = r.i32()?;
        let cx = r.i32()?;
        let cy = r.i32()?;
        let radius = r.i32()?;
        let start_angle = r.f64_bits()?;
        let end_angle = r.f64_bits()?;
        Some(RegionVertex::Extended { round, x, y, cx, cy, radius, start_angle, end_angle })
    } else {
        let x_bits = r.f64_bits()?;
        let y_bits = r.f64_bits()?;
        Some(RegionVertex::Plain { x_bits, y_bits })
    }
}

/// The vertices of a layout, or `None` when they do not fit.
fn read_vertices(c: &[u8], cp: usize, raw: u32, ext: bool, closing: bool) -> (r: Option<
    Vec<RegionVertex>,
>)
    requires
        cp + 4 <= c@.len(),
    ensures
        match r {
            Some(v) => layout_fits(c@, cp as int, raw as int, ext, closing) && v@ == outline_spec(
                c@,
                cp as int,
                layout_count(raw as int, closing),
                ext,
            ),
            None => !layout_fits(c@, cp as int, raw as int, ext, closing),
        },
{
    let n: u64 = if closing {
        raw as u64 + 1
    } else {
        raw as u64
    };
    let size: u64 = if ext {
        37
    } else {
        16
    };
    assert(n * size <= 0x1_0000_0001 * 37) by (nonlinear_arith)
        requires
            n <= 0x1_0000_0001,
            size <= 37,
    ;
    let avail: u64 = (c.len() - cp - 4) as u64;
    if n * size > avail {
        return None;
    }
    let ghost target = outline_spec(c@, cp as int, n as int, ext);
    let mut verts: Vec<RegionVertex> = Vec::new();
    let mut r = Reader::new(c);
    r.seek(cp + 4);
    let mut i: u64 = 0;
    while i < n
        invariant
            i <= n,
            n * size <= avail,
            avail == c@.len() - cp - 4,
            size == vertex_size(ext),
            r.input() == c@,
            r.at() == cp + 4 + i * size,
            verts@ == target.take(i as int),
            target == outline_spec(c@, cp as int, n as int, ext),
        decreases n - i,
    {
        assert((i + 1) * size <= n * size) by (nonlinear_arith)
            requires
                i + 1 <= n,
                size >= 0,
        ;
        assert(i * size + size == (i + 1) * size) by (nonlinear_arith);
        let v = read_vertex(&mut r, ext);
        match v {
            Some(v) => {
                verts.push(v);
            },
            None => {
                return None;
            },
        }
        proof {
            assert(verts@ =~= target.take(i + 1));
        }
        i += 1;
    }
    assert(target.take(n as int) =~= target);
    Some(verts)
}

fn region_candidates_exec(is_body: bool, shapebased: bool) -> (v: Vec<(bool, bool)>)
    ensures
        v@ == region_candidates(is_body, shapebased),
{
    let mut v: Vec<(bool, bool)> = Vec::new();
    if is_body {
        if shapebased {
            v.push((true, true));
            v.push((true, false));
            v.push((false, false));
        } else {
            v.push((false, false));
            v.push((true, false));
            v.push((true, true));
        }
    } else if shapebased {
        v.push((true, true));
    } else {
        v.push((false, false));
    }
    assert(v@ =~= region_candidates(is_body, shapebased));
    v
}

/// A picked layout always fits.
proof fn lemma_pick_fits(
    c: Seq<u8>,
    cp: int,
    raw: int,
    cands: Seq<(bool, bool)>,
    i: int,
    best: Option<(bool, bool, int)>,
)
    requires
        best matches Some(b) ==> layout_fits(c, cp, raw, b.0, b.1),
    ensures
        pick_layout(c, cp, raw, cands, i, best) matches Some(l) ==> layout_fits(c, cp, raw, l.0, l.1),
    decreases cands.len() - i,
{
    if 0 <= i < cands.len() {
        let ext = cands[i].0;
        let closing = cands[i].1;
        if !layout_fits(c, cp, raw, ext, closing) {
            lemma_pick_fits(c, cp, raw, cands, i + 1, best);
        } else {
            let lo = layout_leftover(c, cp, raw, ext, closing);
            let nb = match best {
                Some(b) => if lo < b.2 {
                    Some((ext, closing, lo))
                } else {
                    best
                },
                None => Some((ext, closing, lo)),
            };
            lemma_pick_fits(c, cp, raw, cands, i + 1, nb);
        }
    }
}

/// Tries the candidate layouts in order and keeps the best fit.
fn choose_layout(c: &[u8], count_pos: usize, raw_count: u32, cands: &Vec<(bool, bool)>) -> (r: Option<
    (bool, bool),
>)
    requires
        count_pos + 4 <= c@.len(),
    ensures
        r == pick_layout(c@, count_pos as int, raw_count as int, cands@, 0, None),
{
    let ghost cs = cands@;
    let mut best: Option<(bool, bool, usize)> = None;
    let mut i: usize = 0;
    let mut done = false;
    while i < cands.len() && !done
        invariant
            i <= cands@.len(),
            cands@ == cs,
            count_pos + 4 <= c@.len(),
            ({
                let bv = match best {
                    Some(b) => Some((b.0, b.1, b.2 as int)),
                    None => None,
                };
                let picked = match bv {
                    Some(b) => Some((b.0, b.1)),
                    None => None,
                };
                if done {
                    pick_layout(c@, count_pos as int, raw_count as int, cs, 0, None) == picked
                } else {
                    pick_layout(c@, count_pos as int, raw_count as int, cs, 0, None) == pick_layout(
                        c@,
                        count_pos as int,
                        raw_count as int,
                        cs,
                        i as int,
                        bv,
                    )
                }
            }),
        decreases cands@.len() - i,
    {
        let (ext, closing) = cands[i];
        match region_leftover(c, count_pos, raw_count, ext, closing) {
            None => {},
            Some(lo) => {
                let better = match best {
                    Some(b) => lo < b.2,
                    None => true,
                };
                if better {
                    best = Some((ext, closing, lo));
                }
                if lo <= 3 {
                    done = true;
                }
            },
        }
        i += 1;
    }
    match best {
        Some(b) => Some((b.0, b.1)),
        None => None,
    }
}

/// Parses a REGION (`is_body == false`) or COMPONENT_BODY payload.
pub fn parse_region(c: &[u8], is_body: bool) -> (res: Option<Region>)
    ensures
        match region_spec(c@, is_body) {
            Some(g) => res matches Some(x) && x@ == g,
            None => res is None,
        },
{
    let mut r = Reader::new(c);
    let layer = r.u8()?;
    r.bytes(8)?;
    r.bytes(5)?;
    r.bytes(2)?;
    r.bytes(2)?;
    let props_len = r.u32()? as usize;
    if props_len > c.len() {
        return None;
    }
    let take = if props_len < r.remaining() {
        props_len
    } else {
        r.remaining()
    };
    let props_bytes = r.bytes(take)?;
    let props = decode_text(props_bytes);
    let pc = chars_of(&props);
    let needle = chars_of("ISSHAPEBASED=TRUE");
    let shapebased = contains_chars(&pc, &needle);
    assert(shapebased == region_shapebased(c@));
    if (is_body || shapebased) && r.remaining() >= 1 {
        match r.peek_u8() {
            Some(b) => {
                if b == 0 {
                    r.bytes(1)?;
                }
            },
            None => {},
        }
    }
    let count_pos = r.pos();
    assert(count_pos == region_count_pos(c@, is_body));
    let raw_count = r.u32()?;
    let cands = region_candidates_exec(is_body, shapebased);
    let (ext, closing) = choose_layout(c, count_pos, raw_count, &cands)?;
    proof {
        lemma_pick_fits(c@, count_pos as int, raw_count as int, cands@, 0, None);
    }
    let outline = read_vertices(c, count_pos, raw_count, ext, closing)?;
    Some(Region { layer, is_body, outline })
}


// ---------------------------------------------------------------------------
// Footprints
// ---------------------------------------------------------------------------

/// A block-framed payload at `q` read with `f`, and the offset after it.
pub open spec fn framed<T>(s: Seq<u8>, q: int, f: spec_fn(Seq<u8>) -> Option<T>) -> Option<(T, int)> {
    match subrecord_spec(s, q) {
        Some((c, q2)) => match f(c) {
            Some(x) => Some((x, q2)),
            None => None,
        },
        None => None,
    }
}

/// The record at `p`: a type byte and its payload. Unknown types cannot be
/// skipped (their extent is unknown), so they end the record list.
#[verifier::opaque]
pub open spec fn record_at(s: Seq<u8>, p: int, w: Seq<(usize, Seq<char>)>) -> Option<(PrimSpec, int)> {
    if p < 0 || p >= s.len() {
        None
    } else {
        let t = s[p];
        let q = p + 1;
        if t == TYPE_TRACK {
            match framed(s, q, |c: Seq<u8>| track_spec(c)) {
                Some((x, q2)) => Some((PrimSpec::Track(x), q2)),
                None => None,
            }
        } else if t == TYPE_ARC {
            match framed(s, q, |c: Seq<u8>| arc_spec(c)) {
                Some((x, q2)) => Some((PrimSpec::Arc(x), q2)),
                None => None,
            }
        } else if t == TYPE_PAD {
            match pad_spec(s, q) {
                Some((x, q2)) => Some((PrimSpec::Pad(x), q2)),
                None => None,
            }
        } else if t == TYPE_VIA {
            match framed(s, q, |c: Seq<u8>| via_spec(c)) {
                Some((x, q2)) => Some((PrimSpec::Via(x), q2)),
                None => None,
            }
        } else if t == TYPE_TEXT {
            match text_spec(s, q, w) {
                Some((x, q2)) => Some((PrimSpec::Text(x), q2)),
                None => None,
            }
        } else if t == TYPE_FILL {
            match framed(s, q, |c: Seq<u8>| fill_spec(c)) {
                Some((x, q2)) => Some((PrimSpec::Fill(x), q2)),
                None => None,
            }
        } else if t == TYPE_REGION {
            match framed(s, q, |c: Seq<u8>| region_spec(c, false)) {
                Some((x, q2)) => Some((PrimSpec::Region(x), q2)),
                None => None,
            }
        } else if t == TYPE_COMPONENT_BODY {
            match framed(s, q, |c: Seq<u8>| region_spec(c, true)) {
                Some((x, q2)) => Some((PrimSpec::Region(x), q2)),
                None => None,
            }
        } else {
            None
        }
    }
}

/// The primitives of the records from `p` on, up to the first record that
/// cannot be read or until fewer than 5 bytes remain.
pub open spec fn prims_from(s: Seq<u8>, p: int, w: Seq<(usize, Seq<char>)>) -> Seq<PrimSpec>
    decreases s.len() - p,
{
    if p < 0 || s.len() - p < 5 {
        Seq::empty()
    } else {
        match record_at(s, p, w) {
            Some((x, q)) => if p < q <= s.len() {
                seq![x] + prims_from(s, q, w)
            } else {
                Seq::empty()
            },
            None => Seq::empty(),
        }
    }
}

/// The primitives of a footprint's `Data` stream, after its header
/// (`[u32 len][len bytes]`, `len > 0`): `None` when the header does not fit
/// or no primitive could be read.
pub open spec fn footprint_spec(data: Seq<u8>, w: Seq<(usize, Seq<char>)>) -> Option<Seq<PrimSpec>> {
    match subrecord_spec(data, 0) {
        Some((_, start)) => {
            let ps = prims_from(data, start, w);
            if ps.len() > 0 {
                Some(ps)
            } else {
                None
            }
        },
        None => None,
    }
}

pub open spec fn wide_of(wide_strings: Option<&[u8]>) -> Seq<(usize, Seq<char>)> {
    match wide_strings {
        Some(b) => wide_strings_spec(b@),
        None => Seq::empty(),
    }
}

/// Reads one record.
pub fn parse_record(r: &mut Reader, strings: &[(usize, String)]) -> (res: Option<Prim>)
    ensures
        final(r).input() == old(r).input(),
        final(r).at() <= final(r).input().len(),
        match record_at(old(r).input(), old(r).at(), wide_view(strings@)) {
            Some((x, q)) => res matches Some(y) && y@ == x && final(r).at() == q,
            None => res is None,
        },
{
    proof {
        r.lemma_at_nonneg();
        reveal(record_at);
    }
    let t = r.u8()?;
    if t == TYPE_TRACK {
        Some(Prim::Track(parse_track(subrecord(r)?)?))
    } else if t == TYPE_ARC {
        Some(Prim::Arc(parse_arc(subrecord(r)?)?))
    } else if t == TYPE_PAD {
        Some(Prim::Pad(parse_pad(r)?))
    } else if t == TYPE_VIA {
        Some(Prim::Via(parse_via(subrecord(r)?)?))
    } else if t == TYPE_TEXT {
        Some(Prim::Text(parse_text_record(r, strings)?))
    } else if t == TYPE_FILL {
        Some(Prim::Fill(parse_fill(subrecord(r)?)?))
    } else if t == TYPE_REGION {
        Some(Prim::Region(parse_region(subrecord(r)?, false)?))
    } else if t == TYPE_COMPONENT_BODY {
        Some(Prim::Region(parse_region(subrecord(r)?, true)?))
    } else {
        None
    }
}

/// Parses the footprint `name` from its `Data` stream and, when present,
/// its `WideStrings` stream.
pub fn parse_footprint(name: &str, data: &[u8], wide_strings: Option<&[u8]>) -> (res: Option<
    Footprint,
>)
    ensures
        match footprint_spec(data@, wide_of(wide_strings)) {
            Some(ps) => res matches Some(f) && f.name@ == name@ && prims_view(f.prims@) == ps,
            None => res is None,
        },
{
    let strings = match wide_strings {
        Some(b) => parse_wide_strings(b),
        None => Vec::new(),
    };
    let ghost w = wide_of(wide_strings);
    assert(wide_view(strings@) == w);
    let mut r = Reader::new(data);
    let _header = subrecord(&mut r)?;
    let ghost start = r.at();
    let mut prims: Vec<Prim> = Vec::new();
    let mut done = false;
    while !done && r.remaining() >= 5
        invariant
            r.input() == data@,
            0 <= start,
            r.at() <= data@.len(),
            !done ==> start <= r.at(),
            wide_view(strings@) == w,
            prims_view(prims@) + (if done {
                Seq::<PrimSpec>::empty()
            } else {
                prims_from(data@, r.at(), w)
            }) == prims_from(data@, start, w),
        decreases if done {
            0int
        } else {
            data@.len() - r.at() + 1
        },
    {
        let ghost p = r.at();
        let ghost before = prims@;
        match parse_record(&mut r, &strings) {
            Some(prim) => {
                proof {
                    lemma_prims_step(data@, p, w);
                    lemma_record_advances(data@, p, w);
                }
                prims.push(prim);
                proof {
                    assert(prims_view(prims@) =~= prims_view(before).push(prim@));
                    assert(prims_view(prims@) + prims_from(data@, r.at(), w) =~= prims_view(before) + (
                    seq![prim@] + prims_from(data@, r.at(), w)));
                }
            },
            None => {
                proof {
                    lemma_prims_step(data@, p, w);
                }
                done = true;
                assert(prims_view(prims@) + Seq::<PrimSpec>::empty() =~= prims_view(prims@));
            },
        }
    }
    if !done {
        assert(prims_view(prims@) + prims_from(data@, r.at(), w) =~= prims_view(prims@));
    }
    if prims.len() == 0 {
        return None;
    }
    Some(Footprint { name: name.to_owned(), prims })
}

/// A record that is read always moves forward and stays in the stream.
proof fn lemma_record_advances(s: Seq<u8>, p: int, w: Seq<(usize, Seq<char>)>)
    ensures
        record_at(s, p, w) matches Some((_, q)) ==> p < q <= s.len(),
{
    reveal(record_at);
}

/// One step of `prims_from`.
proof fn lemma_prims_step(s: Seq<u8>, p: int, w: Seq<(usize, Seq<char>)>)
    requires
        0 <= p,
        s.len() - p >= 5,
    ensures
        match record_at(s, p, w) {
            Some((x, q)) => prims_from(s, p, w) == seq![x] + prims_from(s, q, w),
            None => prims_from(s, p, w) == Seq::<PrimSpec>::empty(),
        },
{
    lemma_record_advances(s, p, w);
}


// ---------------------------------------------------------------------------
// Courtyard layers
// ---------------------------------------------------------------------------

/// Whether `s` ends with `suffix`.
pub open spec fn ends_with(s: Seq<char>, suffix: Seq<char>) -> bool {
    suffix.len() <= s.len() && s.skip(s.len() - suffix.len()) == suffix
}

pub open spec fn is_ascii_digit(c: char) -> bool {
    '0' <= c && c <= '9'
}

/// A `LAYER<id><key>=<value>` token of the library's layer table: the
/// layer id (a `u8`), the key through its `=`, and the value.
pub open spec fn layer_token(tok: Seq<char>) -> Option<(u8, Seq<char>, Seq<char>)> {
    if has_prefix(tok, "LAYER"@) {
        let rest = tok.skip(5);
        let d = match find_first(rest, |c: char| !is_ascii_digit(c)) {
            Some(k) => k,
            None => rest.len() as int,
        };
        match parse_u8(rest.take(d)) {
            Some(id) => {
                let suffix = rest.skip(d);
                match find_first(suffix, |c: char| c == '=') {
                    Some(e) => Some((id, suffix.take(e + 1), suffix.skip(e + 1))),
                    None => None,
                }
            },
            None => None,
        }
    } else {
        None
    }
}

/// Per layer id, in order of first mention: the last `...NAME=` value and
/// the last `...MECHKIND=` value.
pub type LayerEntry = (u8, Seq<char>, Seq<char>);

pub open spec fn layer_step(es: Seq<LayerEntry>, tok: Seq<char>) -> Seq<LayerEntry> {
    match layer_token(tok) {
        None => es,
        Some((id, key, val)) => {
            let (es2, i) = match find_first(es, |e: LayerEntry| e.0 == id) {
                Some(i) => (es, i),
                None => (es.push((id, Seq::empty(), Seq::empty())), es.len() as int),
            };
            if ends_with(key, "NAME="@) {
                es2.update(i, (id, val, es2[i].2))
            } else if ends_with(key, "MECHKIND="@) {
                es2.update(i, (id, es2[i].1, val))
            } else {
                es2
            }
        },
    }
}

pub open spec fn layer_entries(toks: Seq<Seq<char>>) -> Seq<LayerEntry>
    decreases toks.len(),
{
    if toks.len() == 0 {
        Seq::empty()
    } else {
        layer_step(layer_entries(toks.drop_last()), toks.last())
    }
}

/// A layer is a courtyard when its name or its mechanical kind mentions
/// "courtyard", in any letter case.
pub open spec fn is_courtyard(e: LayerEntry) -> bool {
    contains_seq(lower_seq(e.1), "courtyard"@) || contains_seq(lower_seq(e.2), "courtyard"@)
}

pub open spec fn courtyard_list(es: Seq<LayerEntry>) -> Seq<u8>
    decreases es.len(),
{
    if es.len() == 0 {
        Seq::empty()
    } else {
        courtyard_list(es.drop_last()) + if is_courtyard(es.last()) {
            seq![es.last().0]
        } else {
            Seq::<u8>::empty()
        }
    }
}

/// The courtyard layer ids of a library's `Library/Data` stream, in order of
/// first mention.
pub open spec fn courtyard_layers_spec(data: Seq<u8>) -> Seq<u8> {
    courtyard_list(layer_entries(split_seq(utf8_lossy(data), '|')))
}

pub open spec fn entries_view(v: Seq<(u8, Vec<char>, Vec<char>)>) -> Seq<LayerEntry> {
    v.map_values(|e: (u8, Vec<char>, Vec<char>)| (e.0, e.1@, e.2@))
}

fn ends_with_chars(s: &[char], suffix: &str) -> (r: bool)
    ensures
        r == ends_with(s@, suffix@),
{
    let sv = chars_of(suffix);
    if sv.len() > s.len() {
        return false;
    }
    let tail = vstd::slice::slice_subrange(s, s.len() - sv.len(), s.len());
    assert(tail@ =~= s@.skip(s@.len() - sv@.len()));
    crate::text::chars_eq(tail, &sv)
}

fn layer_token_exec(tok: &[char]) -> (r: Option<(u8, Vec<char>, Vec<char>)>)
    ensures
        match r {
            Some(t) => layer_token(tok@) == Some((t.0, t.1@, t.2@)),
            None => layer_token(tok@) is None,
        },
{
    let lit = chars_of("LAYER");
    proof {
        reveal_strlit("LAYER");
        assert(tok@.skip(0) =~= tok@);
    }
    if !starts_with_at(tok, 0, &lit) {
        return None;
    }
    let rest = vstd::slice::slice_subrange(tok, 5, tok.len());
    let mut d: usize = 0;
    while d < rest.len() && '0' <= rest[d] && rest[d] <= '9'
        invariant
            d <= rest@.len(),
            forall|j: int| 0 <= j < d ==> is_ascii_digit(#[trigger] rest@[j]),
        decreases rest@.len() - d,
    {
        d += 1;
    }
    proof {
        if d < rest@.len() {
            crate::text::lemma_find_first_at(rest@, |c: char| !is_ascii_digit(c), d as int);
        } else {
            crate::text::lemma_find_first_none(rest@, |c: char| !is_ascii_digit(c));
        }
    }
    let digits = vstd::slice::slice_subrange(rest, 0, d);
    assert(digits@ =~= rest@.take(d as int));
    let id = parse_u8_chars(digits)?;
    let suffix = vstd::slice::slice_subrange(rest, d, rest.len());
    assert(suffix@ =~= rest@.skip(d as int));
    let e = find_char(suffix, '=')?;
    let key = vstd::slice::slice_subrange(suffix, 0, e + 1);
    let val = vstd::slice::slice_subrange(suffix, e + 1, suffix.len());
    assert(key@ =~= suffix@.take(e + 1));
    assert(val@ =~= suffix@.skip(e + 1));
    Some((id, vstd::slice::slice_to_vec(key), vstd::slice::slice_to_vec(val)))
}

fn find_layer(es: &Vec<(u8, Vec<char>, Vec<char>)>, id: u8) -> (r: Option<usize>)
    ensures
        match r {
            Some(i) => i < es@.len() && find_first(entries_view(es@), |e: LayerEntry| e.0 == id) == Some(
                i as int,
            ),
            None => find_first(entries_view(es@), |e: LayerEntry| e.0 == id) is None,
        },
{
    let ghost ev = entries_view(es@);
    let mut i: usize = 0;
    while i < es.len()
        invariant
            i <= es@.len(),
            ev == entries_view(es@),
            forall|j: int| 0 <= j < i ==> (#[trigger] ev[j]).0 != id,
        decreases es@.len() - i,
    {
        if es[i].0 == id {
            proof {
                crate::text::lemma_find_first_at(ev, |e: LayerEntry| e.0 == id, i as int);
            }
            return Some(i);
        }
        i += 1;
    }
    proof {
        crate::text::lemma_find_first_none(ev, |e: LayerEntry| e.0 == id);
    }
    None
}

fn layer_step_exec(es: &mut Vec<(u8, Vec<char>, Vec<char>)>, tok: &[char])
    ensures
        entries_view(final(es)@) == layer_step(entries_view(old(es)@), tok@),
{
    let ghost ev0 = entries_view(es@);
    let (id, key, val) = match layer_token_exec(tok) {
        Some(t) => t,
        None => return ,
    };
    let i = match find_layer(es, id) {
        Some(i) => i,
        None => {
            es.push((id, Vec::new(), Vec::new()));
            assert(entries_view(es@) =~= ev0.push((id, Seq::<char>::empty(), Seq::<char>::empty())));
            es.len() - 1
        },
    };
    let ghost ev1 = entries_view(es@);
    let is_name = ends_with_chars(&key, "NAME=");
    if is_name {
        let kind = vstd::slice::slice_to_vec(es[i].2.as_slice());
        es.set(i, (id, val, kind));
        assert(entries_view(es@) =~= ev1.update(i as int, (id, val@, ev1[i as int].2)));
    } else if ends_with_chars(&key, "MECHKIND=") {
        let name = vstd::slice::slice_to_vec(es[i].1.as_slice());
        es.set(i, (id, name, val));
        assert(entries_view(es@) =~= ev1.update(i as int, (id, ev1[i as int].1, val@)));
    }
}

/// Discovers which layer ids the library's `Library/Data` table flags as
/// courtyard (by name or mechanical kind), e.g. `LAYER71MECHKIND=CourtyardTop`.
pub fn parse_courtyard_layers(data: &[u8]) -> (out: Vec<u8>)
    ensures
        out@ == courtyard_layers_spec(data@),
{
    let text = lossy_text(data);
    courtyard_layers_of_text(&text)
}

/// The courtyard layer ids of a layer table's text, in order of first
/// mention.
pub fn courtyard_layers_of_text(text: &str) -> (out: Vec<u8>)
    ensures
        out@ == courtyard_list(layer_entries(split_seq(text@, '|'))),
{
    let chars = chars_of(text);
    let ranges = split_ranges(&chars, '|');
    let ghost pieces = split_seq(chars@, '|');
    let mut es: Vec<(u8, Vec<char>, Vec<char>)> = Vec::new();
    let mut k: usize = 0;
    while k < ranges.len()
        invariant
            k <= ranges@.len() == pieces.len(),
            pieces == split_seq(chars@, '|'),
            forall|j: int|
                0 <= j < ranges@.len() ==> (#[trigger] ranges@[j]).0 <= ranges@[j].1 <= chars@.len()
                    && chars@.subrange(ranges@[j].0 as int, ranges@[j].1 as int) == pieces[j],
            entries_view(es@) == layer_entries(pieces.take(k as int)),
        decreases ranges@.len() - k,
    {
        let (a, b) = ranges[k];
        let tok = vstd::slice::slice_subrange(&chars, a, b);
        proof {
            assert(pieces.take(k + 1).drop_last() =~= pieces.take(k as int));
            assert(pieces.take(k + 1).last() == pieces[k as int]);
        }
        layer_step_exec(&mut es, tok);
        k += 1;
    }
    assert(pieces.take(ranges@.len() as int) =~= pieces);
    let ghost ev = entries_view(es@);
    let needle = chars_of("courtyard");
    let mut out: Vec<u8> = Vec::new();
    let mut i: usize = 0;
    while i < es.len()
        invariant
            i <= es@.len(),
            ev == entries_view(es@),
            needle@ == "courtyard"@,
            out@ == courtyard_list(ev.take(i as int)),
        decreases es@.len() - i,
    {
        proof {
            assert(ev.take(i + 1).drop_last() =~= ev.take(i as int));
            assert(ev.take(i + 1).last() == ev[i as int]);
        }
        let n = lower_chars(es[i].1.as_slice());
        let m = lower_chars(es[i].2.as_slice());
        if contains_chars(&n, &needle) || contains_chars(&m, &needle) {
            out.push(es[i].0);
        }
        proof {
            assert(out@ =~= courtyard_list(ev.take(i + 1)));
        }
        i += 1;
    }
    assert(ev.take(es@.len() as int) =~= ev);
    out
}

} // verus!
