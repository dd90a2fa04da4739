//! Text burned into a luma plane at an anchor, optionally over a dark box.

use vstd::prelude::*;
use super::bitmap_font::{luma_fits, text_pixel, text_steps, BitmapFont, INK};
use crate::pipeline::generator::canvas::{box_fits, fill_box, in_box, mark};

verus! {

/// Distance of the corner anchors from the frame's edges.
pub const MARGIN: u32 = 4;

/// The luma value of the box behind the text.
pub const BACKDROP: u8 = 80;

/// Where to anchor the text within the frame.
#[derive(Debug, Clone, Copy)]
pub enum Anchor {
    /// Top-left corner with a small margin (4, 4).
    TopLeft,
    /// Bottom-left corner with a small margin.
    BottomLeft,
    /// Explicit pixel position.
    Position { x: u32, y: u32 },
}

/// `a - b`, or 0 where that is negative.
pub open spec fn sat_sub(a: int, b: int) -> int {
    if a > b {
        a - b
    } else {
        0
    }
}

/// The smaller of `a` and `b`.
pub open spec fn min_int(a: int, b: int) -> int {
    if a < b {
        a
    } else {
        b
    }
}

/// The top-left corner of text under `anchor`, for glyphs `glyph_h` pixels
/// high in a `w × h` frame: the margin corner for `TopLeft`, the margin
/// above the bottom edge for `BottomLeft`, and an explicit position moved
/// onto the last column and row where it lies outside.
pub open spec fn anchor_origin(anchor: Anchor, glyph_h: int, w: int, h: int) -> (int, int) {
    match anchor {
        Anchor::TopLeft => (MARGIN as int, MARGIN as int),
        Anchor::BottomLeft => (MARGIN as int, sat_sub(h, glyph_h + MARGIN)),
        Anchor::Position { x, y } => (min_int(x as int, sat_sub(w, 1)), min_int(y as int, sat_sub(h, 1))),
    }
}

/// Renders text into a luma plane with optional background fill.
pub struct TextBurner {
    font: BitmapFont,
    bg_fill: bool,
    anchor: Anchor,
}

impl TextBurner {
    /// The font.
    pub closed spec fn font_spec(&self) -> BitmapFont {
        self.font
    }

    /// Whether the text is drawn over a dark box.
    pub closed spec fn fills_background(&self) -> bool {
        self.bg_fill
    }

    /// The anchor.
    pub closed spec fn anchor_spec(&self) -> Anchor {
        self.anchor
    }

    /// The top-left corner of the text in a `w × h` frame.
    pub open spec fn origin(&self, w: int, h: int) -> (int, int) {
        anchor_origin(self.anchor_spec(), 10 * self.font_spec().sy(), w, h)
    }

    /// Whether the corner of the text can be computed without overflow.
    pub open spec fn origin_computable(&self) -> bool {
        self.anchor_spec() is BottomLeft ==> 10 * self.font_spec().sy() + MARGIN <= u32::MAX
    }

    /// Create a new TextBurner with the given font, background fill mode, and anchor.
    pub fn new(font: BitmapFont, bg_fill: bool, anchor: Anchor) -> (t: Self)
        ensures
            t.font_spec() == font,
            t.fills_background() == bg_fill,
            t.anchor_spec() == anchor,
    {
        TextBurner { font, bg_fill, anchor }
    }

    /// Get the anchor position.
    pub fn anchor(&self) -> (a: Anchor)
        ensures
            a == self.anchor_spec(),
    {
        self.anchor
    }

    /// Get a reference to the underlying font.
    pub fn font(&self) -> (f: &BitmapFont)
        ensures
            *f == self.font_spec(),
    {
        &self.font
    }

    /// The top-left corner of the text in a `width × height` frame.
    pub fn resolve_anchor(&self, width: u32, height: u32) -> (r: (u32, u32))
        requires
            self.origin_computable(),
        ensures
            (r.0 as int, r.1 as int) == self.origin(width as int, height as int),
    {
        match self.anchor {
            Anchor::TopLeft => (MARGIN, MARGIN),
            Anchor::BottomLeft => {
                let y = height.saturating_sub(self.font.glyph_height_px() + MARGIN);
                (MARGIN, y)
            },
            Anchor::Position { x, y } => {
                let max_x = width.saturating_sub(1);
                let max_y = height.saturating_sub(1);
                (if x < max_x { x } else { max_x }, if y < max_y { y } else { max_y })
            },
        }
    }

    /// Render `text` into the luma plane `y` (row pitch `stride_y`) at the
    /// anchor. With background fill and a non-empty text, the box of one
    /// glyph cell per byte of `text` and one glyph height is first filled
    /// with Y = 80 (dark gray), clipped to the frame.
    pub fn burn(&self, y: &mut Vec<u8>, stride_y: usize, text: &str, width: u32, height: u32)
        requires
            luma_fits(old(y)@.len(), stride_y as int, width as int, height as int),
            self.origin_computable(),
            6 * self.font_spec().sx() <= u32::MAX,
            self.fills_background() && text@.len() > 0 ==> {
                &&& 10 * self.font_spec().sy() <= u32::MAX
                &&& (text.len() as u32) * (6 * self.font_spec().sx()) <= u32::MAX
                &&& self.origin(width as int, height as int).0 + (text.len() as u32)
                    * (6 * self.font_spec().sx()) <= u32::MAX
                &&& self.origin(width as int, height as int).1 + 10 * self.font_spec().sy()
                    <= u32::MAX
            },
            self.origin(width as int, height as int).0 + text_steps(
                text@.len(),
                self.origin(width as int, height as int).0,
                6 * self.font_spec().sx(),
                width as int,
            ) * (6 * self.font_spec().sx()) <= u32::MAX,
        ensures
            final(y)@ == mark(
                burn_backdrop(
                    old(y)@,
                    stride_y as int,
                    self.fills_background() && text@.len() > 0,
                    self.origin(width as int, height as int).0,
                    self.origin(width as int, height as int).1,
                    (text.len() as u32) * (6 * self.font_spec().sx()),
                    10 * self.font_spec().sy(),
                    width as int,
                    height as int,
                ),
                stride_y as int,
                |a: int, b: int|
                    text_pixel(
                        text@,
                        text_steps(
                            text@.len(),
                            self.origin(width as int, height as int).0,
                            6 * self.font_spec().sx(),
                            width as int,
                        ),
                        self.origin(width as int, height as int).0,
                        self.origin(width as int, height as int).1,
                        6 * self.font_spec().sx(),
                        self.font_spec().sx() as int,
                        self.font_spec().sy() as int,
                        width as int,
                        height as int,
                        a,
                        b,
                    ),
                INK,
            ),
    {
        let (ox, oy) = self.resolve_anchor(width, height);
        if self.bg_fill && !text.is_empty() {
            let tw = (text.len() as u32) * self.font.glyph_width_px();
            let th = self.font.glyph_height_px();
            let end_x = if ox + tw < width { ox + tw } else { width };
            let end_y = if oy + th < height { oy + th } else { height };
            proof {
                if ox < end_x && oy < end_y {
                    assert((end_y - 1) * stride_y + end_x <= (height - 1) * stride_y + width) by (nonlinear_arith)
                        requires
                            end_y <= height,
                            end_x <= width,
                            oy < end_y,
                            stride_y >= 0,
                    ;
                }
            }
            fill_box(y, stride_y, ox as usize, oy as usize, end_x as usize, end_y as usize, BACKDROP);
        }
        let _ = self.font.draw_text(y, stride_y, text, ox, oy, width, height);
    }
}

/// The plane under the text: with `fill`, the box of `tw × th` at
/// `(ox, oy)`, clipped to the `w × h` frame, set to the backdrop value.
pub open spec fn burn_backdrop(
    s: Seq<u8>,
    stride: int,
    fill: bool,
    ox: int,
    oy: int,
    tw: int,
    th: int,
    w: int,
    h: int,
) -> Seq<u8> {
    if fill {
        mark(s, stride, in_box(ox, oy, min_int(ox + tw, w), min_int(oy + th, h)), BACKDROP)
    } else {
        s
    }
}

} // verus!
