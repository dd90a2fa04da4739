//! The first squares pattern: squares of sizes 8 to 63 in random colors on a
//! dark background, with a five-digit frame counter in the top-left corner.

use vstd::prelude::*;
use vstd::string::StringExecFns;
use super::FramePattern;
use super::canvas::{box_fits, fill_box, lemma_box_fits_sub, lemma_packed_box, mark};
use crate::base::buffer::{chroma_size, luma_size};
use super::fonts::bitmap_font::{luma_fits, text_pixel, text_steps, BitmapFont, INK};
use super::squares::{
    edges_fit, fill_plane, half_at_least_one, placed, random_chroma, random_luma, rng_from_entropy,
    rng_range_u32, rng_range_u8, squares_chroma, squares_luma, Square,
};
use super::timestamp::{digit_char, digit_str};

verus! {

/// The counter text: the counter modulo 100 000, zero-padded to five digits.
pub open spec fn counter_text(counter: u64) -> Seq<char> {
    let n = (counter % 100_000) as int;
    seq![
        digit_char(n / 10_000 % 10),
        digit_char(n / 1_000 % 10),
        digit_char(n / 100 % 10),
        digit_char(n / 10 % 10),
        digit_char(n % 10),
    ]
}

/// The counter modulo 100 000, zero-padded to five digits.
fn format_counter(counter: u64) -> (s: String)
    ensures
        s@ == counter_text(counter),
{
    let n = (counter % 100_000) as u32;
    let mut s = String::from_str("");
    proof {
        reveal_strlit("");
    }
    s.append(digit_str(n / 10_000 % 10));
    s.append(digit_str(n / 1_000 % 10));
    s.append(digit_str(n / 100 % 10));
    s.append(digit_str(n / 10 % 10));
    s.append(digit_str(n % 10));
    assert(s@ =~= counter_text(counter));
    s
}

/// A plane of `len` bytes, all `v`.
pub open spec fn flat_plane(len: nat, v: u8) -> Seq<u8> {
    Seq::new(len, |i: int| v)
}

/// Generates a pattern of random colored squares plus a bitmap-font frame
/// counter in the top-left corner.
pub struct SquarePattern {
    squares: Vec<Square>,
    width: u32,
    height: u32,
    counter: u64,
}

impl SquarePattern {
    /// The squares, in drawing order.
    pub closed spec fn squares_spec(&self) -> Seq<Square> {
        self.squares@
    }

    /// Frames drawn so far.
    pub closed spec fn counter_spec(&self) -> u64 {
        self.counter
    }

    /// Every square's far edges are representable.
    pub closed spec fn wf(&self) -> bool {
        forall|i: int|
            0 <= i < self.squares@.len() ==> #[trigger] self.squares@[i].x + self.squares@[i].size
                <= u32::MAX && self.squares@[i].y + self.squares@[i].size <= u32::MAX
    }

    /// Create a new pattern with `num_squares` randomly placed squares, each
    /// of a random size in 8..=63 and a random YUV color.
    pub fn new(width: u32, height: u32, num_squares: u32) -> (p: Self)
        ensures
            p.wf(),
            p.counter_spec() == 0,
            p.squares_spec().len() == num_squares,
            forall|i: int|
                0 <= i < num_squares ==> {
                    let sq = #[trigger] p.squares_spec()[i];
                    &&& 8 <= sq.size < 64
                    &&& placed(sq.x, sq.size, width)
                    &&& placed(sq.y, sq.size, height)
                    &&& random_luma(sq.y_val) && random_chroma(sq.u_val) && random_chroma(sq.v_val)
                },
    {
        let mut rng = rng_from_entropy();
        let mut squares: Vec<Square> = Vec::new();
        let mut i: u32 = 0;
        while i < num_squares
            invariant
                i <= num_squares,
                squares@.len() == i,
                forall|j: int|
                    0 <= j < i ==> {
                        let sq = #[trigger] squares@[j];
                        &&& 8 <= sq.size < 64
                        &&& placed(sq.x, sq.size, width)
                        &&& placed(sq.y, sq.size, height)
                        &&& random_luma(sq.y_val) && random_chroma(sq.u_val) && random_chroma(sq.v_val)
                    },
            decreases num_squares - i,
        {
            let size = rng_range_u32(&mut rng, 8, 64);
            let max_x = width.saturating_sub(size);
            let max_y = height.saturating_sub(size);
            let x = if max_x > 0 { rng_range_u32(&mut rng, 0, max_x) } else { 0 };
            let y = if max_y > 0 { rng_range_u32(&mut rng, 0, max_y) } else { 0 };
            let y_val = rng_range_u8(&mut rng, 60, 200);
            let u_val = rng_range_u8(&mut rng, 80, 176);
            let v_val = rng_range_u8(&mut rng, 80, 176);
            squares.push(Square { x, y, size, y_val, u_val, v_val });
            i = i + 1;
        }
        SquarePattern { squares, width, height, counter: 0 }
    }
}

impl FramePattern for SquarePattern {
    open spec fn planes_fit(
        &self,
        len_y: nat,
        len_u: nat,
        len_v: nat,
        stride_y: int,
        stride_u: int,
        stride_v: int,
        width: int,
        height: int,
    ) -> bool {
        &&& self.wf()
        &&& self.counter_spec() < u64::MAX
        &&& luma_fits(len_y, stride_y, width, height)
        &&& self.squares_spec().len() > 0 ==> {
            &&& box_fits(len_u, stride_u, 0, 0, half_at_least_one(width), half_at_least_one(height))
            &&& box_fits(len_v, stride_v, 0, 0, half_at_least_one(width), half_at_least_one(height))
        }
    }

    fn fits_packed(&self, width: u32, height: u32) -> (b: bool) {
        let hw: u32 = width / 2;
        let hh: u32 = height / 2;
        proof {
            lemma_packed_box(height as int, width as int, width as int, height as int);
            assert(luma_size(width, height) == height as int * width as int);
            assert(chroma_size(width, height) == hh as int * hw as int);
            lemma_packed_box(hh as int, hw as int, half_at_least_one(width as int), half_at_least_one(height as int));
        }
        if !edges_fit(&self.squares) || self.counter == u64::MAX {
            return false;
        }
        !(self.squares.len() > 0 && (hw == 0 || hh == 0))
    }

    open spec fn drawn(
        &self,
        after: &Self,
        y0: Seq<u8>,
        u0: Seq<u8>,
        v0: Seq<u8>,
        y1: Seq<u8>,
        u1: Seq<u8>,
        v1: Seq<u8>,
        stride_y: int,
        stride_u: int,
        stride_v: int,
        width: int,
        height: int,
    ) -> bool {
        let n = self.squares_spec().len();
        let text = counter_text(after.counter_spec());
        &&& after.wf()
        &&& after.squares_spec() == self.squares_spec()
        &&& after.counter_spec() == self.counter_spec() + 1
        &&& u1 == squares_chroma(flat_plane(u0.len(), 128), stride_u, self.squares_spec(), width, height, n, false)
        &&& v1 == squares_chroma(flat_plane(v0.len(), 128), stride_v, self.squares_spec(), width, height, n, true)
        &&& y1 == mark(
            squares_luma(flat_plane(y0.len(), 16), stride_y, self.squares_spec(), width, height, n),
            stride_y,
            |a: int, b: int| text_pixel(text, text_steps(text.len(), 4, 6, width), 4, 4, 6, 1, 1, width, height, a, b),
            INK,
        )
    }

    fn draw(
        &mut self,
        y: &mut Vec<u8>,
        u: &mut Vec<u8>,
        v: &mut Vec<u8>,
        stride_y: usize,
        stride_u: usize,
        stride_v: usize,
        width: u32,
        height: u32,
    ) {
        let ghost y0 = y@;
        let ghost u0 = u@;
        let ghost v0 = v@;
        fill_plane(y, 16);
        fill_plane(u, 128);
        fill_plane(v, 128);
        let half_w = width / 2;
        let half_h = height / 2;
        let n = self.squares.len();
        let ghost sqs = self.squares@;
        let mut k: usize = 0;
        while k < n
            invariant
                n == sqs.len(),
                sqs == self.squares@,
                k <= n,
                half_w == width / 2,
                half_h == height / 2,
                self.wf(),
                luma_fits(y0.len(), stride_y as int, width as int, height as int),
                n > 0 ==> {
                    &&& box_fits(u0.len(), stride_u as int, 0, 0, half_at_least_one(width as int), half_at_least_one(height as int))
                    &&& box_fits(v0.len(), stride_v as int, 0, 0, half_at_least_one(width as int), half_at_least_one(height as int))
                },
                y@.len() == y0.len(),
                u@.len() == u0.len(),
                v@.len() == v0.len(),
                y@ == squares_luma(flat_plane(y0.len(), 16), stride_y as int, sqs, width as int, height as int, k as nat),
                u@ == squares_chroma(flat_plane(u0.len(), 128), stride_u as int, sqs, width as int, height as int, k as nat, false),
                v@ == squares_chroma(flat_plane(v0.len(), 128), stride_v as int, sqs, width as int, height as int, k as nat, true),
            decreases n - k,
        {
            let sq = self.squares[k];
            assert(sq.x + sq.size <= u32::MAX && sq.y + sq.size <= u32::MAX);
            let sx = sq.x;
            let sy = sq.y;
            let end_x = if sx + sq.size < width { sx + sq.size } else { width };
            let end_y = if sy + sq.size < height { sy + sq.size } else { height };
            proof {
                assert(box_fits(y0.len(), stride_y as int, 0, 0, width as int, height as int));
                lemma_box_fits_sub(y0.len(), stride_y as int, width as int, height as int, sx as int, sy as int, end_x as int, end_y as int);
            }
            fill_box(y, stride_y, sx as usize, sy as usize, end_x as usize, end_y as usize, sq.y_val);
            let cap_x = half_w.saturating_sub(1);
            let cap_y = half_h.saturating_sub(1);
            let ux = if sx / 2 < cap_x { sx / 2 } else { cap_x };
            let uy = if sy / 2 < cap_y { sy / 2 } else { cap_y };
            let ex = if end_x / 2 < half_w { end_x / 2 } else { half_w };
            let ey = if end_y / 2 < half_h { end_y / 2 } else { half_h };
            let u_end_x = if ex > ux + 1 { ex } else { ux + 1 };
            let u_end_y = if ey > uy + 1 { ey } else { uy + 1 };
            proof {
                lemma_box_fits_sub(u0.len(), stride_u as int, half_at_least_one(width as int), half_at_least_one(height as int), ux as int, uy as int, u_end_x as int, u_end_y as int);
                lemma_box_fits_sub(v0.len(), stride_v as int, half_at_least_one(width as int), half_at_least_one(height as int), ux as int, uy as int, u_end_x as int, u_end_y as int);
            }
            fill_box(u, stride_u, ux as usize, uy as usize, u_end_x as usize, u_end_y as usize, sq.u_val);
            fill_box(v, stride_v, ux as usize, uy as usize, u_end_x as usize, u_end_y as usize, sq.v_val);
            k = k + 1;
        }
        self.counter = self.counter + 1;
        let text = format_counter(self.counter);
        let font = BitmapFont::new();
        proof {
            assert(text_steps(5, 4, 6, width as int) <= 5) by {
                reveal_with_fuel(text_steps, 6);
            }
        }
        let _ = font.draw_text(y, stride_y, text.as_str(), 4, 4, width, height);
    }
}

} // verus!
