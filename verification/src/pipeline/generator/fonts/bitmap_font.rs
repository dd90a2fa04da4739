//! A 6×10 bitmap font of the characters `0`–`9`, `:`, `.` and `-`, drawn
//! white (Y = 240) into a luma plane, each glyph pixel scaled to a block of
//! `scale_x × scale_y` plane pixels and clipped at the frame's edge.

use vstd::prelude::*;
use vstd::std_specs::iter::IteratorSpec;
use crate::pipeline::generator::canvas::{lit_before, mark, lemma_mark_ext, lemma_mark_none, lemma_mark_store, lemma_mark_twice};

verus! {

/// Character-cell width in pixels.
pub struct GlyphWidth(pub u32);

/// Character-cell height in pixels.
pub struct GlyphHeight(pub u32);

impl GlyphWidth {
    /// Default glyph width: 6 pixels.
    pub const DEFAULT: u32 = 6;
}

impl GlyphHeight {
    /// Default glyph height: 10 pixels.
    pub const DEFAULT: u32 = 10;
}

/// The luma value of a lit glyph pixel.
pub const INK: u8 = 240;

/// Stored bitmap for a single glyph: 10 rows of 6 usable bits each.
/// Bits 5–0 map to columns left to right (bit 5 is the leftmost pixel);
/// bits 7–6 are unused.
#[derive(Clone, Copy)]
pub struct Glyph(pub [u8; 10]);

/// A set of `N` glyphs with a character-to-index lookup.
pub struct GlyphSet<const N: usize> {
    glyphs: [Glyph; N],
}

/// The rows of the standard glyph at `index`: digits `0`–`9` at their
/// value, then `:`, `.` and `-`.
pub open spec fn standard_rows(index: int) -> Seq<u8> {
    if index == 0 {
        seq![0x1Eu8, 0x33, 0x33, 0x33, 0x33, 0x33, 0x33, 0x33, 0x1E, 0x00]
    } else if index == 1 {
        seq![0x0Cu8, 0x1C, 0x0C, 0x0C, 0x0C, 0x0C, 0x0C, 0x0C, 0x3F, 0x00]
    } else if index == 2 {
        seq![0x1Eu8, 0x33, 0x01, 0x03, 0x06, 0x0C, 0x18, 0x30, 0x3F, 0x00]
    } else if index == 3 {
        seq![0x1Eu8, 0x33, 0x01, 0x03, 0x0E, 0x03, 0x01, 0x33, 0x1E, 0x00]
    } else if index == 4 {
        seq![0x03u8, 0x07, 0x0F, 0x1B, 0x33, 0x3F, 0x03, 0x03, 0x03, 0x00]
    } else if index == 5 {
        seq![0x3Fu8, 0x30, 0x30, 0x3E, 0x03, 0x03, 0x03, 0x33, 0x1E, 0x00]
    } else if index == 6 {
        seq![0x0Eu8, 0x18, 0x30, 0x3E, 0x33, 0x33, 0x33, 0x33, 0x1E, 0x00]
    } else if index == 7 {
        seq![0x3Fu8, 0x03, 0x03, 0x06, 0x0C, 0x0C, 0x0C, 0x0C, 0x0C, 0x00]
    } else if index == 8 {
        seq![0x1Eu8, 0x33, 0x33, 0x33, 0x1E, 0x33, 0x33, 0x33, 0x1E, 0x00]
    } else if index == 9 {
        seq![0x1Eu8, 0x33, 0x33, 0x33, 0x1F, 0x03, 0x06, 0x0C, 0x18, 0x00]
    } else if index == 10 {
        seq![0x00u8, 0x0C, 0x0C, 0x00, 0x00, 0x0C, 0x0C, 0x00, 0x00, 0x00]
    } else if index == 11 {
        seq![0x00u8, 0x00, 0x00, 0x00, 0x00, 0x00, 0x00, 0x0C, 0x0C, 0x00]
    } else {
        seq![0x00u8, 0x00, 0x00, 0x00, 0x3F, 0x00, 0x00, 0x00, 0x00, 0x00]
    }
}

/// The glyph index of a character: its value for a digit, 10 for `:`,
/// 11 for `.`, 12 for `-`, none for anything else.
pub open spec fn glyph_index_of(ch: char) -> Option<usize> {
    if '0' <= ch && ch <= '9' {
        Some((ch as int - '0' as int) as usize)
    } else if ch == ':' {
        Some(10)
    } else if ch == '.' {
        Some(11)
    } else if ch == '-' {
        Some(12)
    } else {
        None
    }
}

/// The rows of the standard glyph of `ch`, if it has one.
pub open spec fn char_rows(ch: char) -> Option<Seq<u8>> {
    match glyph_index_of(ch) {
        Some(i) => Some(standard_rows(i as int)),
        None => None,
    }
}

/// Whether column `col` (0 = leftmost of six) of a glyph row is lit.
pub open spec fn row_bit(byte: u8, col: int) -> bool {
    (byte >> ((5 - col) as u8)) & 1u8 == 1u8
}

/// Whether plane pixel `(py, px)` is lit by the glyph `rows` placed at
/// `(ox, oy)` with scale `sx × sy`, clipped to a `w × h` frame.
pub open spec fn glyph_pixel(
    rows: Seq<u8>,
    ox: int,
    oy: int,
    sx: int,
    sy: int,
    w: int,
    h: int,
    py: int,
    px: int,
) -> bool {
    &&& sx > 0 && sy > 0
    &&& oy <= py < h && ox <= px < w
    &&& (py - oy) / sy < 10
    &&& (px - ox) / sx < 6
    &&& row_bit(rows[(py - oy) / sy], (px - ox) / sx)
}

/// Whether pixel `(py, px)` is lit by the glyph of `ch` (none if `ch` has no glyph).
pub open spec fn char_pixel(
    ch: char,
    ox: int,
    oy: int,
    sx: int,
    sy: int,
    w: int,
    h: int,
    py: int,
    px: int,
) -> bool {
    match char_rows(ch) {
        Some(rows) => glyph_pixel(rows, ox, oy, sx, sy, w, h, py, px),
        None => false,
    }
}

/// How many characters of a text of `n` characters are drawn when the
/// cursor starts at `cursor`, advances by `step` after each character and
/// drawing stops once it reaches `w`.
pub open spec fn text_steps(n: nat, cursor: int, step: int, w: int) -> nat
    decreases n,
{
    if n == 0 {
        0
    } else if cursor + step >= w {
        1
    } else {
        1 + text_steps((n - 1) as nat, cursor + step, step, w)
    }
}

/// Whether pixel `(py, px)` is lit by one of the first `k` characters of
/// `text`, the `j`-th drawn at `(ox + j * step, oy)`.
pub open spec fn text_pixel(
    text: Seq<char>,
    k: nat,
    ox: int,
    oy: int,
    step: int,
    sx: int,
    sy: int,
    w: int,
    h: int,
    py: int,
    px: int,
) -> bool
    decreases k,
{
    if k == 0 {
        false
    } else {
        text_pixel(text, (k - 1) as nat, ox, oy, step, sx, sy, w, h, py, px) || char_pixel(
            text[k - 1],
            ox + (k - 1) * step,
            oy,
            sx,
            sy,
            w,
            h,
            py,
            px,
        )
    }
}

/// The luma plane `y` of row pitch `stride` holds a `w × h` frame.
pub open spec fn luma_fits(len: nat, stride: int, w: int, h: int) -> bool {
    &&& w <= stride
    &&& (w > 0 && h > 0 ==> (h - 1) * stride + w <= len)
}

impl<const N: usize> GlyphSet<N> {
    /// The rows of glyph `i`.
    pub closed spec fn rows(&self, i: int) -> Seq<u8> {
        self.glyphs[i].0@
    }

    /// Create a new glyph set from glyph data.
    pub fn new(glyphs: [Glyph; N]) -> (s: Self)
        ensures
            forall|i: int| 0 <= i < N ==> #[trigger] s.rows(i) == glyphs[i].0@,
    {
        GlyphSet { glyphs }
    }

    /// Look up the glyph index for a character: `'0'..='9'`, `':'`, `'.'`, `'-'`.
    pub fn index_of(ch: char) -> (r: Option<usize>)
        ensures
            r == glyph_index_of(ch),
    {
        if '0' <= ch && ch <= '9' {
            Some((ch as usize) - ('0' as usize))
        } else if ch == ':' {
            Some(10)
        } else if ch == '.' {
            Some(11)
        } else if ch == '-' {
            Some(12)
        } else {
            None
        }
    }

    /// The glyph at the given index, if the set has one there.
    pub fn get(&self, index: usize) -> (r: Option<&Glyph>)
        ensures
            index < N ==> r.is_some() && r.unwrap().0@ == self.rows(index as int),
            index >= N ==> r.is_none(),
    {
        if index < N {
            Some(&self.glyphs[index])
        } else {
            None
        }
    }
}

/// The standard 13-glyph table.
fn standard_glyphs() -> (g: [Glyph; 13])
    ensures
        forall|i: int| 0 <= i < 13 ==> #[trigger] g[i].0@ == standard_rows(i),
{
    let g = [
        Glyph([0x1E, 0x33, 0x33, 0x33, 0x33, 0x33, 0x33, 0x33, 0x1E, 0x00]),
        Glyph([0x0C, 0x1C, 0x0C, 0x0C, 0x0C, 0x0C, 0x0C, 0x0C, 0x3F, 0x00]),
        Glyph([0x1E, 0x33, 0x01, 0x03, 0x06, 0x0C, 0x18, 0x30, 0x3F, 0x00]),
        Glyph([0x1E, 0x33, 0x01, 0x03, 0x0E, 0x03, 0x01, 0x33, 0x1E, 0x00]),
        Glyph([0x03, 0x07, 0x0F, 0x1B, 0x33, 0x3F, 0x03, 0x03, 0x03, 0x00]),
        Glyph([0x3F, 0x30, 0x30, 0x3E, 0x03, 0x03, 0x03, 0x33, 0x1E, 0x00]),
        Glyph([0x0E, 0x18, 0x30, 0x3E, 0x33, 0x33, 0x33, 0x33, 0x1E, 0x00]),
        Glyph([0x3F, 0x03, 0x03, 0x06, 0x0C, 0x0C, 0x0C, 0x0C, 0x0C, 0x00]),
        Glyph([0x1E, 0x33, 0x33, 0x33, 0x1E, 0x33, 0x33, 0x33, 0x1E, 0x00]),
        Glyph([0x1E, 0x33, 0x33, 0x33, 0x1F, 0x03, 0x06, 0x0C, 0x18, 0x00]),
        Glyph([0x00, 0x0C, 0x0C, 0x00, 0x00, 0x0C, 0x0C, 0x00, 0x00, 0x00]),
        Glyph([0x00, 0x00, 0x00, 0x00, 0x00, 0x00, 0x00, 0x0C, 0x0C, 0x00]),
        Glyph([0x00, 0x00, 0x00, 0x00, 0x3F, 0x00, 0x00, 0x00, 0x00, 0x00]),
    ];
    assert(g[0].0@ =~= standard_rows(0));
    assert(g[1].0@ =~= standard_rows(1));
    assert(g[2].0@ =~= standard_rows(2));
    assert(g[3].0@ =~= standard_rows(3));
    assert(g[4].0@ =~= standard_rows(4));
    assert(g[5].0@ =~= standard_rows(5));
    assert(g[6].0@ =~= standard_rows(6));
    assert(g[7].0@ =~= standard_rows(7));
    assert(g[8].0@ =~= standard_rows(8));
    assert(g[9].0@ =~= standard_rows(9));
    assert(g[10].0@ =~= standard_rows(10));
    assert(g[11].0@ =~= standard_rows(11));
    assert(g[12].0@ =~= standard_rows(12));
    g
}


/// For `x ≥ 0` and `d > 0`: `x / d < k` exactly when `x < k · d`.
pub proof fn lemma_div_lt_iff(x: int, d: int, k: int)
    requires
        x >= 0,
        d > 0,
        k >= 0,
    ensures
        (x / d < k) <==> (x < k * d),
{
    vstd::arithmetic::div_mod::lemma_fundamental_div_mod(x, d);
    let q = x / d;
    let r = x % d;
    vstd::arithmetic::div_mod::lemma_mod_pos_bound(x, d);
    assert(x == d * q + r);
    if q < k {
        assert(d * q + d <= d * k) by (nonlinear_arith)
            requires
                q + 1 <= k,
                d > 0,
        ;
        assert(x < k * d) by (nonlinear_arith)
            requires
                x == d * q + r,
                r < d,
                d * q + d <= d * k,
        ;
    } else {
        assert(d * q >= d * k) by (nonlinear_arith)
            requires
                q >= k,
                d > 0,
        ;
        assert(x >= k * d) by (nonlinear_arith)
            requires
                x == d * q + r,
                r >= 0,
                d * q >= d * k,
        ;
    }
}

/// Renders glyphs of the standard set into a luma plane, scaled by
/// `scale_x × scale_y`.
pub struct BitmapFont {
    glyphs: GlyphSet<13>,
    scale_x: u32,
    scale_y: u32,
}

impl BitmapFont {
    #[verifier::type_invariant]
    spec fn holds_standard_glyphs(&self) -> bool {
        forall|i: int| 0 <= i < 13 ==> #[trigger] self.glyphs.rows(i) == standard_rows(i)
    }

    /// The horizontal scale factor.
    pub closed spec fn sx(&self) -> u32 {
        self.scale_x
    }

    /// The vertical scale factor.
    pub closed spec fn sy(&self) -> u32 {
        self.scale_y
    }

    /// Create a font with the standard 13-glyph set, unscaled.
    pub fn new() -> (f: Self)
        ensures
            f.sx() == 1,
            f.sy() == 1,
    {
        Self::with_scale(1, 1)
    }

    /// Create a font with the standard 13-glyph set and the given scale factors.
    pub fn with_scale(scale_x: u32, scale_y: u32) -> (f: Self)
        ensures
            f.sx() == scale_x,
            f.sy() == scale_y,
    {
        BitmapFont { glyphs: GlyphSet::new(standard_glyphs()), scale_x, scale_y }
    }

    /// The current scale factor for X (horizontal).
    pub fn scale_x(&self) -> (r: u32)
        ensures
            r == self.sx(),
    {
        self.scale_x
    }

    /// The current scale factor for Y (vertical).
    pub fn scale_y(&self) -> (r: u32)
        ensures
            r == self.sy(),
    {
        self.scale_y
    }

    /// Scaled glyph width in pixels.
    pub fn glyph_width_px(&self) -> (r: u32)
        requires
            6 * self.sx() <= u32::MAX,
        ensures
            r == 6 * self.sx(),
    {
        GlyphWidth::DEFAULT * self.scale_x
    }

    /// Scaled glyph height in pixels.
    pub fn glyph_height_px(&self) -> (r: u32)
        requires
            10 * self.sy() <= u32::MAX,
        ensures
            r == 10 * self.sy(),
    {
        GlyphHeight::DEFAULT * self.scale_y
    }

    /// Render one scaled glyph into the luma plane `y` (row pitch
    /// `stride_y`) with its top-left corner at `(ox, oy)`. Pixels outside
    /// the `width × height` frame are clipped; a character without a glyph
    /// draws nothing.
    #[verifier::rlimit(50)]
    pub fn draw_glyph(
        &self,
        y: &mut Vec<u8>,
        stride_y: usize,
        ch: char,
        ox: u32,
        oy: u32,
        width: u32,
        height: u32,
    )
        requires
            luma_fits(old(y)@.len(), stride_y as int, width as int, height as int),
        ensures
            final(y)@ == mark(
                old(y)@,
                stride_y as int,
                |a: int, b: int|
                    char_pixel(
                        ch,
                        ox as int,
                        oy as int,
                        self.sx() as int,
                        self.sy() as int,
                        width as int,
                        height as int,
                        a,
                        b,
                    ),
                INK,
            ),
    {
        proof {
            use_type_invariant(self);
        }
        let ghost s0 = y@;
        let ylen = y.len();
        let ghost lit = |a: int, b: int|
            char_pixel(
                ch,
                ox as int,
                oy as int,
                self.sx() as int,
                self.sy() as int,
                width as int,
                height as int,
                a,
                b,
            );
        let index = match GlyphSet::<13>::index_of(ch) {
            Some(i) => i,
            None => {
                proof {
                    lemma_mark_none(s0, stride_y as int, lit, INK);
                }
                return ;
            },
        };
        let glyph = match self.glyphs.get(index) {
            Some(g) => g,
            None => {
                return ;
            },
        };
        let ghost rows = standard_rows(index as int);
        assert(glyph.0@ == rows);
        let sx = self.scale_x as u64;
        let sy = self.scale_y as u64;
        let x0 = ox as u64;
        let y0 = oy as u64;
        let y_lim = y0 + 10 * sy;
        let x_lim = x0 + 6 * sx;
        let y_end = if y_lim < height as u64 { y_lim } else { height as u64 };
        let x_end = if x_lim < width as u64 { x_lim } else { width as u64 };
        // Every lit pixel lies in the scan window.
        assert forall|a: int, b: int| #[trigger] lit(a, b) implies y0 <= a < y_end && x0 <= b < x_end by {
            lemma_div_lt_iff(a - y0, sy as int, 10);
            lemma_div_lt_iff(b - x0, sx as int, 6);
        }
        proof {
            lemma_mark_ext(s0, stride_y as int, lit_before(lit, y0 as int, x0 as int), |a: int, b: int| false, INK);
            lemma_mark_none(s0, stride_y as int, |a: int, b: int| false, INK);
        }
        let mut py = y0;
        while py < y_end
            invariant
                y0 <= py <= y_end || (y_end <= y0 && py == y0),
                y_end <= height,
                y_end <= y0 + 10 * sy,
                x_end <= width,
                x_end <= x0 + 6 * sx,
                y0 == oy,
                x0 == ox,
                sx == self.sx(),
                sy == self.sy(),
                rows == standard_rows(index as int),
                ylen == s0.len(),
                glyph.0@ == rows,
                char_rows(ch) == Some(rows),
                luma_fits(s0.len(), stride_y as int, width as int, height as int),
                forall|a: int, b: int| #[trigger] lit(a, b) ==> y0 <= a < y_end && x0 <= b < x_end,
                forall|a: int, b: int|
                    #[trigger] lit(a, b) == glyph_pixel(
                        rows,
                        ox as int,
                        oy as int,
                        sx as int,
                        sy as int,
                        width as int,
                        height as int,
                        a,
                        b,
                    ),
                y@ == mark(s0, stride_y as int, lit_before(lit, py as int, x0 as int), INK),
            decreases y_end - py,
        {
            let gr = ((py - y0) / sy) as usize;
            proof {
                lemma_div_lt_iff((py - y0) as int, sy as int, 10);
            }
            let byte = glyph.0[gr];
            let mut px = x0;
            while px < x_end
                invariant
                    y0 <= py < y_end,
                    x0 <= px <= x_end || (x_end <= x0 && px == x0),
                    y_end <= height,
                    y_end <= y0 + 10 * sy,
                    x_end <= width,
                    x_end <= x0 + 6 * sx,
                    y0 == oy,
                    x0 == ox,
                    sy > 0,
                    gr == (py - y0) / (sy as int),
                    gr < 10,
                    rows.len() == 10,
                    ylen == s0.len(),
                    byte == rows[gr as int],
                    luma_fits(s0.len(), stride_y as int, width as int, height as int),
                    forall|a: int, b: int| #[trigger] lit(a, b) ==> y0 <= a < y_end && x0 <= b < x_end,
                    forall|a: int, b: int|
                        #[trigger] lit(a, b) == glyph_pixel(
                            rows,
                            ox as int,
                            oy as int,
                            sx as int,
                            sy as int,
                            width as int,
                            height as int,
                            a,
                            b,
                        ),
                    y@ == mark(s0, stride_y as int, lit_before(lit, py as int, px as int), INK),
                decreases x_end - px,
            {
                let gc = (px - x0) / sx;
                proof {
                    lemma_div_lt_iff((px - x0) as int, sx as int, 6);
                }
                let shift: u8 = (5 - gc) as u8;
                let bit = (byte >> shift) & 1;
                proof {
                    assert(stride_y > 0);
                    assert(py * stride_y + px < s0.len()) by (nonlinear_arith)
                        requires
                            py < height,
                            px < width,
                            width <= stride_y,
                            (height - 1) * stride_y + width <= s0.len(),
                    ;
                }
                if bit == 1 {
                    let at = py as usize * stride_y + px as usize;
                    proof {
                        assert(lit(py as int, px as int));
                        lemma_mark_store(
                            s0,
                            stride_y as int,
                            lit_before(lit, py as int, px as int),
                            lit_before(lit, py as int, px + 1),
                            INK,
                            py as int,
                            px as int,
                        );
                    }
                    y.set(at, INK);
                } else {
                    proof {
                        assert(!lit(py as int, px as int));
                        lemma_mark_ext(
                            s0,
                            stride_y as int,
                            lit_before(lit, py as int, px as int),
                            lit_before(lit, py as int, px + 1),
                            INK,
                        );
                    }
                }
                px = px + 1;
            }
            proof {
                lemma_mark_ext(
                    s0,
                    stride_y as int,
                    lit_before(lit, py as int, px as int),
                    lit_before(lit, py + 1, x0 as int),
                    INK,
                );
            }
            py = py + 1;
        }
        proof {
            lemma_mark_ext(s0, stride_y as int, lit_before(lit, py as int, x0 as int), lit, INK);
        }
    }

    /// Render `text` into the luma plane starting at `(ox, oy)`, one glyph
    /// cell of `glyph_width_px()` per character. Drawing stops once the
    /// cursor reaches `width`. Returns the cursor after the last character
    /// drawn, for chaining.
    pub fn draw_text(
        &self,
        y: &mut Vec<u8>,
        stride_y: usize,
        text: &str,
        ox: u32,
        oy: u32,
        width: u32,
        height: u32,
    ) -> (r: u32)
        requires
            luma_fits(old(y)@.len(), stride_y as int, width as int, height as int),
            6 * self.sx() <= u32::MAX,
            ox + text_steps(text@.len(), ox as int, 6 * self.sx(), width as int) * (6 * self.sx())
                <= u32::MAX,
        ensures
            r == ox + text_steps(text@.len(), ox as int, 6 * self.sx(), width as int) * (6
                * self.sx()),
            final(y)@ == mark(
                old(y)@,
                stride_y as int,
                |a: int, b: int|
                    text_pixel(
                        text@,
                        text_steps(text@.len(), ox as int, 6 * self.sx(), width as int),
                        ox as int,
                        oy as int,
                        6 * self.sx(),
                        self.sx() as int,
                        self.sy() as int,
                        width as int,
                        height as int,
                        a,
                        b,
                    ),
                INK,
            ),
    {
        broadcast use vstd::string::axiom_spec_iter;
        broadcast use vstd::string::next_postcondition;

        let ghost s0 = y@;
        let ghost n = text@.len();
        let step = self.glyph_width_px();
        let ghost m = text_steps(n, ox as int, step as int, width as int);
        let ghost lit_upto = |k: nat|
            (|a: int, b: int|
                text_pixel(
                    text@,
                    k,
                    ox as int,
                    oy as int,
                    step as int,
                    self.sx() as int,
                    self.sy() as int,
                    width as int,
                    height as int,
                    a,
                    b,
                ));
        let mut cursor_x = ox;
        let mut chars = text.chars();
        let ghost mut k: nat = 0;
        proof {
            lemma_mark_none(s0, stride_y as int, lit_upto(0), INK);
        }
        loop
            invariant_except_break
                k <= n,
                chars.remaining() == text@.skip(k as int),
                cursor_x == ox + k * step,
                m == k + text_steps((n - k) as nat, cursor_x as int, step as int, width as int),
                y@ == mark(s0, stride_y as int, lit_upto(k), INK),
            invariant
                s0 == old(y)@,
                n == text@.len(),
                step == 6 * self.sx(),
                m == text_steps(n, ox as int, step as int, width as int),
                ox + m * step <= u32::MAX,
                luma_fits(s0.len(), stride_y as int, width as int, height as int),
                y@.len() == s0.len(),
                forall|j: nat| #[trigger] lit_upto(j) == (|a: int, b: int|
                    text_pixel(
                        text@,
                        j,
                        ox as int,
                        oy as int,
                        step as int,
                        self.sx() as int,
                        self.sy() as int,
                        width as int,
                        height as int,
                        a,
                        b,
                    )),
            ensures
                cursor_x == ox + m * step,
                y@ == mark(s0, stride_y as int, lit_upto(m), INK),
            decreases n - k,
        {
            match chars.next() {
                None => {
                    proof {
                        assert(text@.skip(k as int).len() == 0);
                        assert(k == n);
                    }
                    break;
                },
                Some(ch) => {
                    proof {
                        assert(text@.skip(k as int).len() > 0);
                        assert(ch == text@[k as int]);
                        assert(m >= k + 1);
                        assert((k + 1) * step <= m * step) by (nonlinear_arith)
                            requires
                                k + 1 <= m,
                                step >= 0,
                        ;
                        assert(text@.skip(k as int).drop_first() =~= text@.skip((k + 1) as int));
                    }
                    let ghost before = y@;
                    self.draw_glyph(y, stride_y, ch, cursor_x, oy, width, height);
                    proof {
                        lemma_mark_twice(
                            s0,
                            stride_y as int,
                            lit_upto(k),
                            |a: int, b: int|
                                char_pixel(
                                    ch,
                                    cursor_x as int,
                                    oy as int,
                                    self.sx() as int,
                                    self.sy() as int,
                                    width as int,
                                    height as int,
                                    a,
                                    b,
                                ),
                            lit_upto(k + 1),
                            INK,
                        );
                        assert(ox + (k + 1) * step == cursor_x + step) by (nonlinear_arith)
                            requires
                                cursor_x == ox + k * step,
                        ;
                    }
                    cursor_x = cursor_x + step;
                    proof {
                        k = k + 1;
                    }
                    if cursor_x >= width {
                        break;
                    }
                },
            }
        }
        cursor_x
    }
}

/// Text never lights a pixel outside the frame, nor above or left of its
/// starting corner.
pub proof fn law_text_clipped_to_frame(
    text: Seq<char>,
    k: nat,
    ox: int,
    oy: int,
    step: int,
    sx: int,
    sy: int,
    w: int,
    h: int,
    a: int,
    b: int,
)
    requires
        step >= 0,
        text_pixel(text, k, ox, oy, step, sx, sy, w, h, a, b),
    ensures
        oy <= a < h,
        ox <= b < w,
    decreases k,
{
    if text_pixel(text, (k - 1) as nat, ox, oy, step, sx, sy, w, h, a, b) {
        law_text_clipped_to_frame(text, (k - 1) as nat, ox, oy, step, sx, sy, w, h, a, b);
    } else {
        assert((k - 1) * step >= 0) by (nonlinear_arith)
            requires
                k >= 1,
                step >= 0,
        ;
    }
}

} // verus!
