use omspbase::pipeline::generator::fonts::bitmap_font::{BitmapFont, GlyphSet};
use omspbase::pipeline::generator::fonts::text_burner::{Anchor, TextBurner};

#[test]
fn glyph_set_index_lookup() {
    assert_eq!(GlyphSet::<13>::index_of('0'), Some(0));
    assert_eq!(GlyphSet::<13>::index_of('9'), Some(9));
    assert_eq!(GlyphSet::<13>::index_of(':'), Some(10));
    assert_eq!(GlyphSet::<13>::index_of('.'), Some(11));
    assert_eq!(GlyphSet::<13>::index_of('-'), Some(12));
    assert_eq!(GlyphSet::<13>::index_of('A'), None);
}

#[test]
fn scaled_draw_glyph_output_is_correct_size() {
    let font = BitmapFont::with_scale(2, 3);
    assert_eq!(font.glyph_width_px(), 12);
    assert_eq!(font.glyph_height_px(), 30);
}

#[test]
fn draw_text_returns_new_cursor() {
    let font = BitmapFont::new();
    let mut y = vec![0u8; 200 * 200];
    let cursor = font.draw_text(&mut y, 200, "123", 0, 0, 200, 200);
    assert_eq!(cursor, 18);
}

#[test]
fn top_left_anchor_positions_at_margin() {
    let font = BitmapFont::new();
    let burner = TextBurner::new(font, false, Anchor::TopLeft);
    let (x, y) = burner.resolve_anchor(100, 60);
    assert_eq!(x, 4);
    assert_eq!(y, 4);
}

#[test]
fn bottom_left_anchor_positions_near_bottom() {
    let font = BitmapFont::new();
    let burner = TextBurner::new(font, false, Anchor::BottomLeft);
    let (_, y) = burner.resolve_anchor(100, 60);
    assert_eq!(y, 46);
}

#[test]
fn position_anchor_respects_bounds() {
    let font = BitmapFont::new();
    let burner = TextBurner::new(font, false, Anchor::Position { x: 999, y: 999 });
    let (x, y) = burner.resolve_anchor(100, 60);
    assert_eq!(x, 99);
    assert_eq!(y, 59);
}

#[test]
fn bg_fill_paints_dark_gray() {
    let font = BitmapFont::new();
    let burner = TextBurner::new(font, true, Anchor::TopLeft);
    let mut y = vec![0u8; 20 * 20];
    burner.burn(&mut y, 20, "12", 20, 20);
    assert_eq!(y[4 * 20 + 4], 80);
    let white_count = y.iter().filter(|&&v| v == 240).count();
    assert!(white_count > 0, "expected white glyph pixels");
}

#[test]
fn glyph_one_pixels_match_bitmap() {
    // '1' row 0 is 0x0C: columns 2 and 3 lit; row 8 is 0x3F: all six lit.
    let font = BitmapFont::new();
    let mut y = vec![0u8; 6 * 10];
    font.draw_glyph(&mut y, 6, '1', 0, 0, 6, 10);
    assert_eq!(&y[0..6], &[0, 0, 240, 240, 0, 0]);
    assert_eq!(&y[48..54], &[240, 240, 240, 240, 240, 240]);
    assert_eq!(&y[54..60], &[0, 0, 0, 0, 0, 0]);
}

#[test]
fn scaled_glyph_repeats_pixels_and_clips() {
    // '-' is row 4 fully lit; at scale 2×2 it covers rows 8..10, columns 0..12,
    // clipped to a 7-pixel-wide frame.
    let font = BitmapFont::with_scale(2, 2);
    let mut y = vec![0u8; 7 * 20];
    font.draw_glyph(&mut y, 7, '-', 0, 0, 7, 20);
    for row in 0..20 {
        for col in 0..7 {
            let expected = if row == 8 || row == 9 { 240 } else { 0 };
            assert_eq!(y[row * 7 + col], expected, "row {} col {}", row, col);
        }
    }
}

#[test]
fn unknown_character_draws_nothing_but_advances() {
    let font = BitmapFont::new();
    let mut y = vec![0u8; 40 * 12];
    let cursor = font.draw_text(&mut y, 40, "A1", 2, 1, 40, 12);
    assert_eq!(cursor, 14);
    // Only the '1' (second cell, from x = 8) is drawn.
    assert!(y.iter().enumerate().all(|(i, &v)| v == 0 || (i % 40 >= 8 && i % 40 < 14)));
    assert!(y.iter().any(|&v| v == 240));
}

#[test]
fn draw_text_stops_at_right_edge() {
    let font = BitmapFont::new();
    let mut y = vec![0u8; 10 * 10];
    let cursor = font.draw_text(&mut y, 10, "1111", 0, 0, 10, 10);
    // first glyph ends at 6, second at 12 >= 10: drawing stops there.
    assert_eq!(cursor, 12);
}

#[test]
fn font_scale_getters() {
    let font = BitmapFont::with_scale(3, 4);
    assert_eq!(font.scale_x(), 3);
    assert_eq!(font.scale_y(), 4);
    let set = GlyphSet::<2>::new([
        omspbase::pipeline::generator::fonts::bitmap_font::Glyph([1; 10]),
        omspbase::pipeline::generator::fonts::bitmap_font::Glyph([2; 10]),
    ]);
    assert_eq!(set.get(1).unwrap().0[0], 2);
    assert!(set.get(2).is_none());
}

#[test]
fn burner_accessors_and_bottom_left_clamp() {
    let burner = TextBurner::new(BitmapFont::with_scale(1, 2), false, Anchor::BottomLeft);
    assert!(matches!(burner.anchor(), Anchor::BottomLeft));
    assert_eq!(burner.font().scale_y(), 2);
    // glyph height 20 + margin 4 exceeds the 10-pixel frame: clamps to row 0.
    assert_eq!(burner.resolve_anchor(50, 10), (4, 0));
}
