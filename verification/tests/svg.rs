use altiumdb::altium::svg::{
    escape_text, ink_on, pcb_layer_color, pcb_render_layer, rgb, wrap_svg,
};

// The symbol and footprint drawing itself is floating-point work outside
// the library; the two theme tests check what the library decides for a
// theme: the background rectangle that `wrap_svg` frames a drawing with,
// and the ink colour `ink_on` gives a stroke on that background.

#[test]
fn dark_theme_uses_dark_background_and_light_ink() {
    let svg = wrap_svg("10", "10", "", "#1E1E1E");
    assert!(svg.contains("fill=\"#1E1E1E\""), "dark background expected");
    let ink = ink_on("#000000", "#1E1E1E");
    assert!(ink.contains("#E8E8E8"), "black ink should become light on dark bg");
    assert!(!ink.contains("#000000"), "no black ink should remain on dark bg");
}

#[test]
fn light_theme_uses_white_background() {
    let svg = wrap_svg("10", "10", "", "#FFFFFF");
    assert!(svg.contains("fill=\"#FFFFFF\""), "white background expected");
    assert_eq!(ink_on("#000000", "#FFFFFF"), "#000000");
}

#[test]
fn colored_ink_is_kept_on_dark_background() {
    assert_eq!(ink_on("#FF0000", "#1E1E1E"), "#FF0000");
}

#[test]
fn colorref_to_css() {
    assert_eq!(rgb(0x0000FF), "#FF0000");
    assert_eq!(rgb(0x00FF00), "#00FF00");
    assert_eq!(rgb(0xFF0000), "#0000FF");
    assert_eq!(rgb(0x123456), "#563412");
    assert_eq!(rgb(0xFF0A0B0C), "#0C0B0A");
}

#[test]
fn escapes_markup() {
    assert_eq!(escape_text("a<b & c>d"), "a&lt;b &amp; c&gt;d");
    assert_eq!(escape_text("&amp;"), "&amp;amp;");
}

#[test]
fn layer_selection_and_colors() {
    assert!(pcb_render_layer(1, &[]));
    assert!(pcb_render_layer(32, &[]));
    assert!(pcb_render_layer(33, &[]));
    assert!(!pcb_render_layer(71, &[]));
    assert!(pcb_render_layer(71, &[71, 72]));
    assert_eq!(pcb_layer_color(1, &[]), "#C40000");
    assert_eq!(pcb_layer_color(74, &[]), "#C40000");
    assert_eq!(pcb_layer_color(32, &[]), "#1464C8");
    assert_eq!(pcb_layer_color(34, &[]), "#FFCC00");
    assert_eq!(pcb_layer_color(56, &[]), "#FF66CC");
    assert_eq!(pcb_layer_color(71, &[71]), "#FF66CC");
    assert_eq!(pcb_layer_color(13, &[]), "#8A8A8A");
}
