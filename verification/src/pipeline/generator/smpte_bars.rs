//! SMPTE 75% color bars over the top two thirds of the frame, a grayscale
//! ramp from Y = 16 to Y = 235 below them.

use vstd::prelude::*;
use super::FramePattern;
use super::canvas::{box_fits, fill_box, in_box, lemma_box_fits_sub, lemma_packed_box, mark};
use crate::base::buffer::{chroma_size, luma_size};
use super::fonts::bitmap_font::luma_fits;
use super::fonts::text_burner::{min_int, sat_sub};

verus! {

/// Standard SMPTE 75% color bars with a grayscale gradient below.
pub struct SmpteBarsPattern;

impl SmpteBarsPattern {
    /// Create a new SMPTE bars pattern (stateless).
    pub fn new() -> (p: Self) {
        SmpteBarsPattern
    }
}

impl Default for SmpteBarsPattern {
    fn default() -> (p: Self) {
        SmpteBarsPattern
    }
}

/// The luma of bar `i`: white, yellow, cyan, green, magenta, red, blue.
pub open spec fn bar_luma(i: int) -> u8 {
    if i == 0 { 235 } else if i == 1 { 210 } else if i == 2 { 170 } else if i == 3 { 145 }
    else if i == 4 { 106 } else if i == 5 { 81 } else { 41 }
}

/// The U value of bar `i`.
pub open spec fn bar_cb(i: int) -> u8 {
    if i == 0 { 128 } else if i == 1 { 16 } else if i == 2 { 166 } else if i == 3 { 54 }
    else if i == 4 { 202 } else if i == 5 { 90 } else { 240 }
}

/// The V value of bar `i`.
pub open spec fn bar_cr(i: int) -> u8 {
    if i == 0 { 128 } else if i == 1 { 146 } else if i == 2 { 16 } else if i == 3 { 34 }
    else if i == 4 { 222 } else if i == 5 { 240 } else { 110 }
}

/// Rows covered by the bars: two thirds of the frame.
pub open spec fn bar_rows(h: int) -> int {
    h * 2 / 3
}

/// Width of one bar: a seventh of the frame, at least 1.
pub open spec fn bar_width(w: int) -> int {
    if w >= 7 { w / 7 } else { 1 }
}

/// First column of bar `i`.
pub open spec fn bar_start(i: int, w: int) -> int {
    i * bar_width(w)
}

/// End column of bar `i`; the last bar runs to the right edge.
pub open spec fn bar_end(i: int, w: int) -> int {
    if i == 6 { w } else { min_int((i + 1) * bar_width(w), w) }
}

/// First chroma column of bar `i`.
pub open spec fn bar_chroma_start(i: int, w: int) -> int {
    min_int(bar_start(i, w) / 2, sat_sub(w / 2, 1))
}

/// End chroma column of bar `i`: at least one column past its start.
pub open spec fn bar_chroma_end(i: int, w: int) -> int {
    let e = min_int(bar_end(i, w) / 2, w / 2);
    if e > bar_chroma_start(i, w) + 1 { e } else { bar_chroma_start(i, w) + 1 }
}

/// Luma of row `row` of a gradient of `gh` rows: the linear ramp from 16 to
/// 235, rounded down.
pub open spec fn ramp_level(row: int, gh: int) -> u8 {
    if gh > 1 { (16 + 219 * row / (gh - 1)) as u8 } else { 16 }
}

/// The luma plane after the first `k` bars.
pub open spec fn bars_luma(s: Seq<u8>, stride: int, w: int, h: int, k: nat) -> Seq<u8>
    decreases k,
{
    if k == 0 {
        s
    } else {
        let i = k - 1;
        mark(bars_luma(s, stride, w, h, i as nat), stride, in_box(bar_start(i, w), 0, bar_end(i, w), bar_rows(h)), bar_luma(i))
    }
}

/// A chroma plane after the first `k` bars, `cr` choosing V over U.
pub open spec fn bars_chroma(s: Seq<u8>, stride: int, w: int, h: int, k: nat, cr: bool) -> Seq<u8>
    decreases k,
{
    if k == 0 {
        s
    } else {
        let i = k - 1;
        mark(
            bars_chroma(s, stride, w, h, i as nat, cr),
            stride,
            in_box(bar_chroma_start(i, w), 0, bar_chroma_end(i, w), bar_rows(h) / 2),
            if cr { bar_cr(i) } else { bar_cb(i) },
        )
    }
}

/// The luma plane after the first `k` rows of the gradient below the bars.
pub open spec fn ramp_luma(s: Seq<u8>, stride: int, w: int, h: int, k: nat) -> Seq<u8>
    decreases k,
{
    if k == 0 {
        s
    } else {
        let r = k - 1;
        let top = bar_rows(h) + r;
        mark(ramp_luma(s, stride, w, h, r as nat), stride, in_box(0, top, w, top + 1), ramp_level(r, h - bar_rows(h)))
    }
}

/// The luma plane after drawing the pattern on a `w × h` frame.
pub open spec fn smpte_luma(s: Seq<u8>, stride: int, w: int, h: int) -> Seq<u8> {
    ramp_luma(bars_luma(s, stride, w, h, 7), stride, w, h, (h - bar_rows(h)) as nat)
}

/// A chroma plane after drawing the pattern: the bars' colors, then the
/// chroma rows under the gradient set to 128.
pub open spec fn smpte_chroma(s: Seq<u8>, stride: int, w: int, h: int, cr: bool) -> Seq<u8> {
    let b = bars_chroma(s, stride, w, h, 7, cr);
    if h - bar_rows(h) > 0 {
        mark(b, stride, in_box(0, bar_rows(h) / 2, w / 2, h / 2), 128)
    } else {
        b
    }
}

/// The chroma columns any bar may touch: half the width, at least one.
pub open spec fn bar_chroma_cols(w: int) -> int {
    if w / 2 > 0 { w / 2 } else { 1 }
}

/// A chroma plane holds every pixel the pattern writes to it.
pub open spec fn smpte_chroma_fits(len: nat, stride: int, w: int, h: int) -> bool {
    &&& box_fits(len, stride, 0, 0, w / 2, h / 2)
    &&& box_fits(len, stride, 0, 0, bar_chroma_cols(w), bar_rows(h) / 2)
}

proof fn lemma_bar_bounds(i: int, w: int)
    requires
        0 <= i < 7,
        w >= 0,
    ensures
        0 <= bar_start(i, w),
        bar_end(i, w) <= w,
        i < 6 ==> (i + 1) * bar_width(w) <= 7 * bar_width(w),
        w >= 7 ==> 7 * bar_width(w) <= w,
        0 <= bar_chroma_start(i, w) < bar_chroma_end(i, w) <= bar_chroma_cols(w),
        bar_start(i, w) <= 6 * bar_width(w),
{
    assert(bar_width(w) >= 1) by {
        if w >= 7 {
            vstd::arithmetic::div_mod::lemma_div_pos_is_pos(w, 7);
        }
    }
    assert(0 <= i * bar_width(w) <= 6 * bar_width(w)) by (nonlinear_arith)
        requires
            0 <= i <= 6,
            bar_width(w) >= 1,
    ;
    if i < 6 {
        assert((i + 1) * bar_width(w) <= 7 * bar_width(w)) by (nonlinear_arith)
            requires
                0 <= i < 6,
                bar_width(w) >= 1,
        ;
    }
}

impl FramePattern for SmpteBarsPattern {
    open spec fn planes_fit(
        &self,
        len_y: nat,
        len_u: nat,
        len_v: nat,
        stride_y: int,
        stride_u: int,
        stride_v: int,
        width: int,
        height: int,
    ) -> bool {
        &&& 2 * height <= u32::MAX
        &&& luma_fits(len_y, stride_y, width, height)
        &&& smpte_chroma_fits(len_u, stride_u, width, height)
        &&& smpte_chroma_fits(len_v, stride_v, width, height)
    }

    fn fits_packed(&self, width: u32, height: u32) -> (b: bool) {
        let hw: u32 = width / 2;
        let hh: u32 = height / 2;
        let rows: u64 = (height as u64 * 2 / 3) / 2;
        proof {
            lemma_packed_box(height as int, width as int, width as int, height as int);
            assert(luma_size(width, height) == height as int * width as int);
            assert(chroma_size(width, height) == hh as int * hw as int);
            lemma_packed_box(hh as int, hw as int, hw as int, hh as int);
            lemma_packed_box(hh as int, hw as int, bar_chroma_cols(width as int), bar_rows(height as int) / 2);
            assert(bar_rows(height as int) / 2 == rows);
            assert(rows <= hh);
        }
        if height as u64 * 2 > 0xffff_ffff {
            return false;
        }
        hw > 0 || rows == 0
    }

    open spec fn drawn(
        &self,
        after: &Self,
        y0: Seq<u8>,
        u0: Seq<u8>,
        v0: Seq<u8>,
        y1: Seq<u8>,
        u1: Seq<u8>,
        v1: Seq<u8>,
        stride_y: int,
        stride_u: int,
        stride_v: int,
        width: int,
        height: int,
    ) -> bool {
        &&& y1 == smpte_luma(y0, stride_y, width, height)
        &&& u1 == smpte_chroma(u0, stride_u, width, height, false)
        &&& v1 == smpte_chroma(v0, stride_v, width, height, true)
    }

    #[verifier::rlimit(50)]
    fn draw(
        &mut self,
        y: &mut Vec<u8>,
        u: &mut Vec<u8>,
        v: &mut Vec<u8>,
        stride_y: usize,
        stride_u: usize,
        stride_v: usize,
        width: u32,
        height: u32,
    ) {
        let ghost y0 = y@;
        let ghost u0 = u@;
        let ghost v0 = v@;
        let bar_height = if height > 0 { (height * 2) / 3 } else { 0 };
        let bar_w = if width >= 7 { width / 7 } else { 1 };
        let gradient_top = bar_height;
        let gradient_h = height.saturating_sub(gradient_top);
        let half_w = width / 2;
        let half_h = height / 2;
        assert(bar_height == bar_rows(height as int));
        assert(bar_w == bar_width(width as int));
        assert(bar_height <= height);
        let mut i: u32 = 0;
        while i < 7
            invariant
                i <= 7,
                bar_height == bar_rows(height as int),
                bar_height <= height,
                bar_w == bar_width(width as int),
                half_w == width / 2,
                self.planes_fit(
                    y0.len(),
                    u0.len(),
                    v0.len(),
                    stride_y as int,
                    stride_u as int,
                    stride_v as int,
                    width as int,
                    height as int,
                ),
                y@ == bars_luma(y0, stride_y as int, width as int, height as int, i as nat),
                u@ == bars_chroma(u0, stride_u as int, width as int, height as int, i as nat, false),
                v@ == bars_chroma(v0, stride_v as int, width as int, height as int, i as nat, true),
                y@.len() == y0.len(),
                u@.len() == u0.len(),
                v@.len() == v0.len(),
            decreases 7 - i,
        {
            proof {
                lemma_bar_bounds(i as int, width as int);
            }
            let (bar_y, bar_u, bar_v): (u8, u8, u8) = if i == 0 {
                (235, 128, 128)
            } else if i == 1 {
                (210, 16, 146)
            } else if i == 2 {
                (170, 166, 16)
            } else if i == 3 {
                (145, 54, 34)
            } else if i == 4 {
                (106, 202, 222)
            } else if i == 5 {
                (81, 90, 240)
            } else {
                (41, 240, 110)
            };
            let start_x = i * bar_w;
            let end_x = if i == 6 {
                width
            } else {
                let e = (i + 1) * bar_w;
                if e < width { e } else { width }
            };
            let cap = half_w.saturating_sub(1);
            let half_start_x = if start_x / 2 < cap { start_x / 2 } else { cap };
            let half_end_cap = if end_x / 2 < half_w { end_x / 2 } else { half_w };
            let half_end_x = if half_end_cap > half_start_x + 1 { half_end_cap } else { half_start_x + 1 };
            let half_rows = bar_height / 2;
            proof {
                assert(start_x == bar_start(i as int, width as int));
                assert(end_x == bar_end(i as int, width as int));
                assert(half_start_x == bar_chroma_start(i as int, width as int));
                assert(half_end_x == bar_chroma_end(i as int, width as int));
                lemma_box_fits_sub(y0.len(), stride_y as int, width as int, height as int, start_x as int, 0, end_x as int, bar_height as int);
                lemma_box_fits_sub(u0.len(), stride_u as int, bar_chroma_cols(width as int), half_rows as int, half_start_x as int, 0, half_end_x as int, half_rows as int);
                lemma_box_fits_sub(v0.len(), stride_v as int, bar_chroma_cols(width as int), half_rows as int, half_start_x as int, 0, half_end_x as int, half_rows as int);
            }
            fill_box(y, stride_y, start_x as usize, 0, end_x as usize, bar_height as usize, bar_y);
            fill_box(u, stride_u, half_start_x as usize, 0, half_end_x as usize, half_rows as usize, bar_u);
            fill_box(v, stride_v, half_start_x as usize, 0, half_end_x as usize, half_rows as usize, bar_v);
            i = i + 1;
        }
        let ghost yb = y@;
        let mut row: u32 = 0;
        while row < gradient_h
            invariant
                row <= gradient_h,
                gradient_h == height - bar_height,
                gradient_top == bar_height,
                bar_height == bar_rows(height as int),
                bar_height <= height,
                luma_fits(y0.len(), stride_y as int, width as int, height as int),
                y@ == ramp_luma(yb, stride_y as int, width as int, height as int, row as nat),
                y@.len() == y0.len(),
            decreases gradient_h - row,
        {
            let gray: u8 = if gradient_h > 1 {
                (16 + 219 * (row as u64) / ((gradient_h - 1) as u64)) as u8
            } else {
                16
            };
            let py = gradient_top + row;
            proof {
                lemma_box_fits_sub(y0.len(), stride_y as int, width as int, height as int, 0, py as int, width as int, py + 1);
            }
            fill_box(y, stride_y, 0, py as usize, width as usize, (py + 1) as usize, gray);
            row = row + 1;
        }
        if gradient_h > 0 {
            proof {
                lemma_box_fits_sub(u0.len(), stride_u as int, (width / 2) as int, (height / 2) as int, 0, (bar_height / 2) as int, (width / 2) as int, (height / 2) as int);
                lemma_box_fits_sub(v0.len(), stride_v as int, (width / 2) as int, (height / 2) as int, 0, (bar_height / 2) as int, (width / 2) as int, (height / 2) as int);
            }
            fill_box(u, stride_u, 0, (gradient_top / 2) as usize, half_w as usize, half_h as usize, 128);
            fill_box(v, stride_v, 0, (gradient_top / 2) as usize, half_w as usize, half_h as usize, 128);
        }
    }
}

/// The bar that covers column `b`: its seventh of the frame, the last bar
/// taking the columns left over at the right edge.
pub open spec fn bar_of(b: int, w: int) -> int {
    min_int(b / bar_width(w), 6)
}

/// `q * d ≤ x < (q + 1) * d` exactly when `x / d == q`.
proof fn lemma_div_window(x: int, d: int, q: int)
    requires
        x >= 0,
        d > 0,
    ensures
        (q * d <= x < (q + 1) * d) <==> (x / d == q),
{
    vstd::arithmetic::div_mod::lemma_fundamental_div_mod(x, d);
    vstd::arithmetic::div_mod::lemma_mod_bound(x, d);
    let r = x % d;
    let p = x / d;
    assert(x == p * d + r) by (nonlinear_arith)
        requires
            x == d * p + r,
    ;
    if q * d <= x < (q + 1) * d {
        if p < q {
            assert(p * d + d <= q * d) by (nonlinear_arith)
                requires
                    p + 1 <= q,
                    d > 0,
            ;
        }
        if p > q {
            assert((q + 1) * d <= p * d) by (nonlinear_arith)
                requires
                    q + 1 <= p,
                    d > 0,
            ;
        }
    }
    if p == q {
        assert((q + 1) * d == q * d + d) by (nonlinear_arith);
    }
}

/// Column `b` of a `w`-wide frame lies in bar `j` exactly when `j` is the
/// bar that covers it.
proof fn lemma_bar_columns(b: int, w: int, j: int)
    requires
        0 <= b < w,
        0 <= j < 7,
    ensures
        (bar_start(j, w) <= b < bar_end(j, w)) <==> (j == bar_of(b, w)),
{
    let bw = bar_width(w);
    assert(bw >= 1) by {
        if w >= 7 {
            vstd::arithmetic::div_mod::lemma_div_pos_is_pos(w, 7);
        }
    }
    lemma_div_window(b, bw, j);
    lemma_div_window(b, bw, b / bw);
    if w >= 7 {
        assert(7 * bw <= w) by {
            vstd::arithmetic::div_mod::lemma_fundamental_div_mod(w, 7);
            vstd::arithmetic::div_mod::lemma_mod_bound(w, 7);
        }
        assert((j + 1) * bw <= 7 * bw) by (nonlinear_arith)
            requires
                j < 7,
                bw >= 1,
        ;
        if j == 6 {
            if b / bw < 6 {
                assert((b / bw + 1) * bw <= 6 * bw) by (nonlinear_arith)
                    requires
                        b / bw + 1 <= 6,
                        bw >= 1,
                ;
            } else {
                assert((b / bw) * bw >= 6 * bw) by (nonlinear_arith)
                    requires
                        b / bw >= 6,
                        bw >= 1,
                ;
            }
        } else {
            assert(bar_end(j, w) == (j + 1) * bw);
        }
    } else {
        assert(bw == 1);
        assert(b / 1 == b);
    }
}

/// What the first `k` bars leave at pixel `(a, b)` of the frame: the color
/// of the covering bar if it is among them and the row is a bar row.
proof fn lemma_bars_luma_at(s: Seq<u8>, stride: int, w: int, h: int, k: nat, a: int, b: int)
    requires
        k <= 7,
        0 <= a,
        0 <= b < w <= stride,
        a * stride + b < s.len(),
    ensures
        bars_luma(s, stride, w, h, k).len() == s.len(),
        bars_luma(s, stride, w, h, k)[a * stride + b] == if a < bar_rows(h) && bar_of(b, w) < k {
            bar_luma(bar_of(b, w))
        } else {
            s[a * stride + b]
        },
    decreases k,
{
    super::canvas::lemma_pixel_index(a, b, stride);
    if k > 0 {
        lemma_bars_luma_at(s, stride, w, h, (k - 1) as nat, a, b);
        lemma_bar_columns(b, w, k - 1);
    }
}

/// The luma plane of the pattern, pixel by pixel: in the top two thirds,
/// the color of the bar covering the column (bar `j` spans the columns
/// `j * w / 7 ..`, the last one to the edge); below, row `r` of the
/// gradient holds the ramp level of `r`. Pixels outside the frame keep
/// their value.
pub proof fn law_smpte_luma(s: Seq<u8>, stride: int, w: int, h: int, a: int, b: int)
    requires
        0 <= a < h,
        0 <= b < w <= stride,
        a * stride + b < s.len(),
    ensures
        smpte_luma(s, stride, w, h).len() == s.len(),
        smpte_luma(s, stride, w, h)[a * stride + b] == if a < bar_rows(h) {
            bar_luma(bar_of(b, w))
        } else {
            ramp_level(a - bar_rows(h), h - bar_rows(h))
        },
{
    lemma_bars_luma_at(s, stride, w, h, 7, a, b);
    assert(bar_of(b, w) < 7);
    lemma_ramp_luma_at(bars_luma(s, stride, w, h, 7), stride, w, h, (h - bar_rows(h)) as nat, a, b);
}

/// What the first `k` gradient rows leave at pixel `(a, b)`.
proof fn lemma_ramp_luma_at(s: Seq<u8>, stride: int, w: int, h: int, k: nat, a: int, b: int)
    requires
        0 <= a,
        0 <= b < w <= stride,
        a * stride + b < s.len(),
    ensures
        ramp_luma(s, stride, w, h, k).len() == s.len(),
        ramp_luma(s, stride, w, h, k)[a * stride + b] == if bar_rows(h) <= a < bar_rows(h) + k {
            ramp_level(a - bar_rows(h), h - bar_rows(h))
        } else {
            s[a * stride + b]
        },
    decreases k,
{
    super::canvas::lemma_pixel_index(a, b, stride);
    if k > 0 {
        lemma_ramp_luma_at(s, stride, w, h, (k - 1) as nat, a, b);
    }
}

/// The gradient runs from Y = 16 in its top row to Y = 235 in its bottom
/// row, never decreasing downwards.
pub proof fn law_ramp_range(gh: int, r1: int, r2: int)
    requires
        gh > 1,
        0 <= r1 <= r2 < gh,
    ensures
        ramp_level(0, gh) == 16,
        ramp_level(gh - 1, gh) == 235,
        ramp_level(r1, gh) <= ramp_level(r2, gh),
        16 <= ramp_level(r1, gh) <= 235,
{
    vstd::arithmetic::div_mod::lemma_div_is_ordered(219 * r1, 219 * r2, gh - 1);
    assert(219 * (gh - 1) / (gh - 1) == 219) by {
        vstd::arithmetic::div_mod::lemma_div_multiples_vanish(219, gh - 1);
        assert((gh - 1) * 219 == 219 * (gh - 1)) by (nonlinear_arith);
    }
    vstd::arithmetic::div_mod::lemma_div_is_ordered(219 * r2, 219 * (gh - 1), gh - 1);
    vstd::arithmetic::div_mod::lemma_div_pos_is_pos(219 * r1, gh - 1);
    assert(0int / (gh - 1) == 0);
}

} // verus!
