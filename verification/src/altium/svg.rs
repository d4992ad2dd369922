//! Styling rules for SVG previews of parsed libraries: color notation,
//! text escaping, which PCB layers are drawn and in which color, and how
//! schematic ink adapts to a dark background.

use vstd::prelude::*;
use crate::altium::pcblib::{
    LAYER_BOTTOM, LAYER_BOTTOM_COURTYARD, LAYER_BOTTOM_OVERLAY, LAYER_MULTI, LAYER_TOP,
    LAYER_TOP_COURTYARD, LAYER_TOP_OVERLAY,
};
use crate::text::{push_char, push_str, str_eq};

verus! {

broadcast use vstd::string::group_string_axioms;

pub const PCB_TOP: &'static str = "#C40000";
pub const PCB_BOTTOM: &'static str = "#1464C8";
pub const PCB_OVERLAY: &'static str = "#FFCC00";
pub const PCB_COURTYARD: &'static str = "#FF66CC";
pub const PCB_MECH: &'static str = "#8A8A8A";
pub const PCB_BODY_FILL: &'static str = "#3BB143";
pub const PCB_BODY_STROKE: &'static str = "#2E8B57";

/// Background of the light theme; on any other background black schematic
/// ink is drawn in [`DARK_INK`].
pub const LIGHT_BG: &'static str = "#FFFFFF";
pub const BLACK_INK: &'static str = "#000000";
pub const DARK_INK: &'static str = "#E8E8E8";

/// Upper-case hexadecimal digit of `d < 16`.
pub open spec fn hex_digit(d: u8) -> char {
    if d < 10 {
        ((d + 48) as u8) as char
    } else {
        ((d + 55) as u8) as char
    }
}

pub open spec fn hex2(v: u32) -> Seq<char> {
    seq![hex_digit((v / 16) as u8), hex_digit((v % 16) as u8)]
}

/// `#RRGGBB` of a Win32 COLORREF (0x00BBGGRR).
pub open spec fn rgb_spec(c: u32) -> Seq<char> {
    seq!['#'] + hex2(c & 0xFF) + hex2((c >> 8) & 0xFF) + hex2((c >> 16) & 0xFF)
}

fn hex_digit_exec(d: u8) -> (c: char)
    requires
        d < 16,
    ensures
        c == hex_digit(d),
{
    if d < 10 {
        (d + 48) as char
    } else {
        (d + 55) as char
    }
}

fn push_hex2(s: &mut String, v: u32)
    requires
        v < 256,
    ensures
        final(s)@ == old(s)@ + hex2(v),
{
    push_char(s, hex_digit_exec((v / 16) as u8));
    push_char(s, hex_digit_exec((v % 16) as u8));
    assert(final(s)@ =~= old(s)@ + hex2(v));
}

/// Win32 COLORREF (0x00BBGGRR) to CSS color.
pub fn rgb(c: u32) -> (s: String)
    ensures
        s@ == rgb_spec(c),
{
    let mut s = String::new();
    push_char(&mut s, '#');
    let r = c & 0xFF;
    let g = (c >> 8) & 0xFF;
    let b = (c >> 16) & 0xFF;
    assert(r < 256 && g < 256 && b < 256) by (bit_vector)
        requires
            r == c & 0xFF,
            g == (c >> 8) & 0xFF,
            b == (c >> 16) & 0xFF,
    ;
    push_hex2(&mut s, r);
    push_hex2(&mut s, g);
    push_hex2(&mut s, b);
    assert(s@ =~= rgb_spec(c));
    s
}

/// XML escaping of one character of text content.
pub open spec fn escape_char(c: char) -> Seq<char> {
    if c == '&' {
        "&amp;"@
    } else if c == '<' {
        "&lt;"@
    } else if c == '>' {
        "&gt;"@
    } else {
        seq![c]
    }
}

pub open spec fn escape_spec(s: Seq<char>) -> Seq<char>
    decreases s.len(),
{
    if s.len() == 0 {
        Seq::empty()
    } else {
        escape_spec(s.drop_last()) + escape_char(s.last())
    }
}

/// Escapes `&`, `<` and `>` for SVG text content.
pub fn escape_text(s: &str) -> (r: String)
    ensures
        r@ == escape_spec(s@),
{
    let v = crate::text::chars_of(s);
    let mut r = String::new();
    let mut i: usize = 0;
    while i < v.len()
        invariant
            i <= v@.len(),
            v@ == s@,
            r@ == escape_spec(v@.take(i as int)),
        decreases v@.len() - i,
    {
        proof {
            assert(v@.take(i + 1).drop_last() =~= v@.take(i as int));
            assert(v@.take(i + 1).last() == v@[i as int]);
        }
        let c = v[i];
        if c == '&' {
            push_str(&mut r, "&amp;");
        } else if c == '<' {
            push_str(&mut r, "&lt;");
        } else if c == '>' {
            push_str(&mut r, "&gt;");
        } else {
            push_char(&mut r, c);
            assert(r@ =~= escape_spec(v@.take(i as int)) + seq![c]);
        }
        i += 1;
    }
    assert(v@.take(v@.len() as int) =~= v@);
    r
}

fn contains_layer(v: &[u8], layer: u8) -> (r: bool)
    ensures
        r == v@.contains(layer),
{
    let mut i: usize = 0;
    while i < v.len()
        invariant
            i <= v@.len(),
            forall|j: int| 0 <= j < i ==> v@[j] != layer,
        decreases v@.len() - i,
    {
        if v[i] == layer {
            return true;
        }
        i += 1;
    }
    false
}

/// Layers meaningful for reviewing a footprint: copper (top to bottom),
/// overlay (silkscreen) and courtyard; `courtyard` holds the per-library
/// courtyard layer ids.
pub open spec fn render_layer(layer: u8, courtyard: Seq<u8>) -> bool {
    (LAYER_TOP <= layer && layer <= LAYER_BOTTOM) || layer == LAYER_TOP_OVERLAY || layer
        == LAYER_BOTTOM_OVERLAY || layer == LAYER_TOP_COURTYARD || layer == LAYER_BOTTOM_COURTYARD
        || courtyard.contains(layer)
}

pub fn pcb_render_layer(layer: u8, courtyard: &[u8]) -> (r: bool)
    ensures
        r == render_layer(layer, courtyard@),
{
    (LAYER_TOP <= layer && layer <= LAYER_BOTTOM) || layer == LAYER_TOP_OVERLAY || layer
        == LAYER_BOTTOM_OVERLAY || layer == LAYER_TOP_COURTYARD || layer == LAYER_BOTTOM_COURTYARD
        || contains_layer(courtyard, layer)
}

/// Drawing color of a layer.
pub open spec fn layer_color(layer: u8, courtyard: Seq<u8>) -> Seq<char> {
    if layer == LAYER_TOP || layer == LAYER_MULTI {
        PCB_TOP@
    } else if layer == LAYER_BOTTOM {
        PCB_BOTTOM@
    } else if layer == LAYER_TOP_OVERLAY || layer == LAYER_BOTTOM_OVERLAY {
        PCB_OVERLAY@
    } else if layer == LAYER_TOP_COURTYARD || layer == LAYER_BOTTOM_COURTYARD || courtyard.contains(
        layer,
    ) {
        PCB_COURTYARD@
    } else {
        PCB_MECH@
    }
}

pub fn pcb_layer_color(layer: u8, courtyard: &[u8]) -> (c: &'static str)
    ensures
        c@ == layer_color(layer, courtyard@),
{
    if layer == LAYER_TOP || layer == LAYER_MULTI {
        PCB_TOP
    } else if layer == LAYER_BOTTOM {
        PCB_BOTTOM
    } else if layer == LAYER_TOP_OVERLAY || layer == LAYER_BOTTOM_OVERLAY {
        PCB_OVERLAY
    } else if layer == LAYER_TOP_COURTYARD || layer == LAYER_BOTTOM_COURTYARD || contains_layer(
        courtyard,
        layer,
    ) {
        PCB_COURTYARD
    } else {
        PCB_MECH
    }
}

/// The color schematic ink `color` is drawn in on background `bg`: on any
/// background but white, black ink becomes light so it stays legible.
pub open spec fn ink_on_spec(color: Seq<char>, bg: Seq<char>) -> Seq<char> {
    if bg != LIGHT_BG@ && color == BLACK_INK@ {
        DARK_INK@
    } else {
        color
    }
}

pub fn ink_on(color: &str, bg: &str) -> (r: String)
    ensures
        r@ == ink_on_spec(color@, bg@),
{
    if !str_eq(bg, LIGHT_BG) && str_eq(color, BLACK_INK) {
        DARK_INK.to_owned()
    } else {
        color.to_owned()
    }
}


/// The SVG document of a preview `w` by `h` (already formatted numbers)
/// on background `bg`, holding `body`.
pub open spec fn wrap_svg_spec(w: Seq<char>, h: Seq<char>, body: Seq<char>, bg: Seq<char>) -> Seq<char> {
    "<?xml version=\"1.0\" encoding=\"UTF-8\"?>\n<svg version=\"1.1\" xmlns=\"http://www.w3.org/2000/svg\" stroke-linecap=\"round\" stroke-linejoin=\"round\" width=\""@
        + w + "\" height=\""@ + h + "\" viewBox=\"0 0 "@ + w + " "@ + h
        + "\"><rect x=\"0\" y=\"0\" width=\""@ + w + "\" height=\""@ + h + "\" fill=\""@ + bg
        + "\"/>"@ + body + "</svg>\n"@
}

pub fn wrap_svg(w: &str, h: &str, body: &str, bg: &str) -> (r: String)
    ensures
        r@ == wrap_svg_spec(w@, h@, body@, bg@),
{
    let mut r = String::new();
    push_str(
        &mut r,
        "<?xml version=\"1.0\" encoding=\"UTF-8\"?>\n<svg version=\"1.1\" xmlns=\"http://www.w3.org/2000/svg\" stroke-linecap=\"round\" stroke-linejoin=\"round\" width=\"",
    );
    push_str(&mut r, w);
    push_str(&mut r, "\" height=\"");
    push_str(&mut r, h);
    push_str(&mut r, "\" viewBox=\"0 0 ");
    push_str(&mut r, w);
    push_str(&mut r, " ");
    push_str(&mut r, h);
    push_str(&mut r, "\"><rect x=\"0\" y=\"0\" width=\"");
    push_str(&mut r, w);
    push_str(&mut r, "\" height=\"");
    push_str(&mut r, h);
    push_str(&mut r, "\" fill=\"");
    push_str(&mut r, bg);
    push_str(&mut r, "\"/>");
    push_str(&mut r, body);
    push_str(&mut r, "</svg>\n");
    assert(r@ =~= wrap_svg_spec(w@, h@, body@, bg@));
    r
}

} // verus!
