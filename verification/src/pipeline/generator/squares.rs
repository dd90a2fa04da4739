//! Randomly placed, randomly colored squares on a gray background, with
//! optional random motion and three ways of coloring.

use vstd::prelude::*;
use rand::Rng;
use rand::SeedableRng;
use super::FramePattern;
use super::canvas::{box_fits, fill_box, in_box, lemma_box_fits_sub, lemma_packed_box, mark};
use crate::base::buffer::{chroma_size, luma_size};
use super::fonts::bitmap_font::luma_fits;
use super::fonts::text_burner::{min_int, sat_sub};

verus! {

#[verifier::external_type_specification]
#[verifier::external_body]
pub struct ExStdRng(rand::rngs::StdRng);

/// `rand::rngs::StdRng::from_entropy`: a generator seeded from the
/// operating system's entropy source. Nothing is stated of its state.
#[verifier::external_body]
pub(crate) fn rng_from_entropy() -> rand::rngs::StdRng {
    rand::rngs::StdRng::from_entropy()
}

/// `Clone::clone` of `rand::rngs::StdRng`: a generator in the same state,
/// which Verus cannot see and so is not stated.
#[verifier::external_body]
fn rng_clone(rng: &rand::rngs::StdRng) -> rand::rngs::StdRng {
    rng.clone()
}

/// `Rng::gen_range` over `lo..=hi` of `u32`: a value in that range. It
/// panics on an empty range, which `requires` leaves out.
#[verifier::external_body]
fn rng_range_inclusive_u32(rng: &mut rand::rngs::StdRng, lo: u32, hi: u32) -> (r: u32)
    requires
        lo <= hi,
    ensures
        lo <= r <= hi,
{
    rng.gen_range(lo..=hi)
}

/// `Rng::gen_range` over `lo..hi` of `u32`: a value in that range. It
/// panics on an empty range, which `requires` leaves out.
#[verifier::external_body]
pub(crate) fn rng_range_u32(rng: &mut rand::rngs::StdRng, lo: u32, hi: u32) -> (r: u32)
    requires
        lo < hi,
    ensures
        lo <= r < hi,
{
    rng.gen_range(lo..hi)
}

/// `Rng::gen_range` over `lo..hi` of `u8`: a value in that range. It
/// panics on an empty range, which `requires` leaves out.
#[verifier::external_body]
pub(crate) fn rng_range_u8(rng: &mut rand::rngs::StdRng, lo: u8, hi: u8) -> (r: u8)
    requires
        lo < hi,
    ensures
        lo <= r < hi,
{
    rng.gen_range(lo..hi)
}

/// `Rng::gen_ratio(1, 2)`: a fair coin (the same Bernoulli draw as
/// `gen_bool(0.5)`). Either outcome may come.
#[verifier::external_body]
fn rng_coin(rng: &mut rand::rngs::StdRng) -> bool {
    rng.gen_ratio(1, 2)
}

/// A single placed, colored square.
#[derive(Clone, Copy, Debug)]
pub struct Square {
    pub x: u32,
    pub y: u32,
    pub size: u32,
    pub y_val: u8,
    pub u_val: u8,
    pub v_val: u8,
}

/// Strategy for assigning colors to squares.
#[derive(Clone, Debug)]
pub enum ColorStrategy {
    /// New random colors for all squares on every frame.
    RandomPerFrame,
    /// Each square keeps its initial random color.
    RandomPerSquare,
    /// Explicit list of (Y, U, V) tuples, cycled per square.
    Fixed(Vec<(u8, u8, u8)>),
}

impl Default for ColorStrategy {
    fn default() -> (c: Self)
        ensures
            c is RandomPerSquare,
    {
        ColorStrategy::RandomPerSquare
    }
}

/// Configuration for the squares pattern.
pub struct SquaresConfig {
    pub count: u32,
    pub min_size: u32,
    pub max_size: u32,
    /// 0 = static; n > 0 = max pixels moved per frame per square.
    pub motion_speed: u32,
    pub color_strategy: ColorStrategy,
}

impl Default for SquaresConfig {
    fn default() -> (c: Self)
        ensures
            c.count == 10,
            c.min_size == 8,
            c.max_size == 63,
            c.motion_speed == 0,
            c.color_strategy is RandomPerSquare,
    {
        SquaresConfig {
            count: 10,
            min_size: 8,
            max_size: 63,
            motion_speed: 0,
            color_strategy: ColorStrategy::default(),
        }
    }
}

/// The explicit colors of a strategy, empty unless it is `Fixed`.
pub open spec fn fixed_of(c: ColorStrategy) -> Seq<(u8, u8, u8)> {
    match c {
        ColorStrategy::Fixed(colors) => colors@,
        _ => Seq::empty(),
    }
}

/// Random luma of a square: in `60..200`.
pub open spec fn random_luma(v: u8) -> bool {
    60 <= v < 200
}

/// Random chroma of a square: in `80..176`.
pub open spec fn random_chroma(v: u8) -> bool {
    80 <= v < 176
}

/// A position drawn for a square of `size` in a frame dimension `n`: below
/// `n - size`, or 0 where the square does not fit.
pub open spec fn placed(pos: u32, size: u32, n: u32) -> bool {
    if sat_sub(n as int, size as int) > 0 {
        pos < sat_sub(n as int, size as int)
    } else {
        pos == 0
    }
}

/// Square `i` of a freshly generated set for `config` in a `w × h` frame.
pub open spec fn generated(sq: Square, i: int, config: SquaresConfig, w: u32, h: u32) -> bool {
    &&& config.min_size <= sq.size <= config.max_size
    &&& placed(sq.x, sq.size, w)
    &&& placed(sq.y, sq.size, h)
    &&& if fixed_of(config.color_strategy).len() > 0 {
        let c = fixed_of(config.color_strategy)[i % fixed_of(config.color_strategy).len() as int];
        sq.y_val == c.0 && sq.u_val == c.1 && sq.v_val == c.2
    } else {
        random_luma(sq.y_val) && random_chroma(sq.u_val) && random_chroma(sq.v_val)
    }
}

/// `v` clamped to `lo..=hi`.
pub open spec fn clamp_int(v: int, lo: int, hi: int) -> int {
    if v < lo {
        lo
    } else if v > hi {
        hi
    } else {
        v
    }
}

/// A coordinate moved by at most `speed` either way and clamped to
/// `0..=limit`: between the clamps of the two extreme moves.
pub open spec fn moved(old_pos: u32, new_pos: u32, speed: u32, limit: int) -> bool {
    clamp_int(old_pos - speed, 0, limit) <= new_pos <= clamp_int(old_pos + speed, 0, limit)
}

/// The luma box of a square: its area clipped to the `w × h` frame.
pub open spec fn square_box(sq: Square, w: int, h: int) -> spec_fn(int, int) -> bool {
    in_box(sq.x as int, sq.y as int, min_int(sq.x + sq.size, w), min_int(sq.y + sq.size, h))
}

/// The chroma box of a square: its area halved, clipped to the half-size
/// planes, and at least one chroma pixel.
pub open spec fn square_chroma_box(sq: Square, w: int, h: int) -> spec_fn(int, int) -> bool {
    let hw = w / 2;
    let hh = h / 2;
    let ux = min_int((sq.x / 2) as int, sat_sub(hw, 1));
    let uy = min_int((sq.y / 2) as int, sat_sub(hh, 1));
    let ex = min_int(min_int(sq.x + sq.size, w) / 2, hw);
    let ey = min_int(min_int(sq.y + sq.size, h) / 2, hh);
    in_box(ux, uy, if ex > ux + 1 { ex } else { ux + 1 }, if ey > uy + 1 { ey } else { uy + 1 })
}

/// The luma plane after painting the first `k` squares over `s`.
pub open spec fn squares_luma(s: Seq<u8>, stride: int, sqs: Seq<Square>, w: int, h: int, k: nat) -> Seq<u8>
    decreases k,
{
    if k == 0 {
        s
    } else {
        let sq = sqs[k - 1];
        mark(squares_luma(s, stride, sqs, w, h, (k - 1) as nat), stride, square_box(sq, w, h), sq.y_val)
    }
}

/// A chroma plane after painting the first `k` squares over `s`, `cr`
/// choosing V over U.
pub open spec fn squares_chroma(
    s: Seq<u8>,
    stride: int,
    sqs: Seq<Square>,
    w: int,
    h: int,
    k: nat,
    cr: bool,
) -> Seq<u8>
    decreases k,
{
    if k == 0 {
        s
    } else {
        let sq = sqs[k - 1];
        mark(
            squares_chroma(s, stride, sqs, w, h, (k - 1) as nat, cr),
            stride,
            square_chroma_box(sq, w, h),
            if cr { sq.v_val } else { sq.u_val },
        )
    }
}

/// A plane of `len` bytes, all 128.
pub open spec fn gray_plane(len: nat) -> Seq<u8> {
    Seq::new(len, |i: int| 128u8)
}

/// The chroma columns or rows a square may touch: half the dimension, at least one.
pub open spec fn half_at_least_one(n: int) -> int {
    if n / 2 > 0 { n / 2 } else { 1 }
}

/// A copy of a list of colors.
fn copy_colors(colors: &Vec<(u8, u8, u8)>) -> (out: Vec<(u8, u8, u8)>)
    ensures
        out@ == colors@,
{
    let mut out: Vec<(u8, u8, u8)> = Vec::new();
    let mut i: usize = 0;
    while i < colors.len()
        invariant
            i <= colors.len(),
            out@ == colors@.subrange(0, i as int),
        decreases colors.len() - i,
    {
        out.push(colors[i]);
        i = i + 1;
    }
    proof {
        assert(colors@.subrange(0, colors@.len() as int) =~= colors@);
    }
    out
}

/// Generates a pattern of colored squares drawn on a gray background.
pub struct SquaresPattern {
    squares: Vec<Square>,
    config: SquaresConfig,
    rng: rand::rngs::StdRng,
    fixed_colors: Vec<(u8, u8, u8)>,
    fixed_index: usize,
}

impl SquaresPattern {
    /// The squares, in drawing order.
    pub closed spec fn squares_spec(&self) -> Seq<Square> {
        self.squares@
    }

    /// The configuration.
    pub closed spec fn config_spec(&self) -> SquaresConfig {
        self.config
    }

    /// How many frames the fixed colors have cycled.
    pub closed spec fn fixed_index_spec(&self) -> usize {
        self.fixed_index
    }

    /// The fixed colors cycled over the squares (empty unless `Fixed`).
    pub closed spec fn fixed_colors_spec(&self) -> Seq<(u8, u8, u8)> {
        self.fixed_colors@
    }

    /// Every square's far edges are representable, and the cycled colors
    /// are those of the configuration.
    pub closed spec fn wf(&self) -> bool {
        &&& forall|i: int|
            0 <= i < self.squares@.len() ==> #[trigger] self.squares@[i].x + self.squares@[i].size
                <= u32::MAX && self.squares@[i].y + self.squares@[i].size <= u32::MAX
        &&& self.fixed_colors@ == fixed_of(self.config.color_strategy)
    }

    /// Create a new pattern with the given configuration for a
    /// `width × height` frame.
    pub fn with_config(width: u32, height: u32, config: SquaresConfig) -> (p: Self)
        requires
            config.count > 0 ==> config.min_size <= config.max_size,
        ensures
            p.wf(),
            p.config_spec() == config,
            p.fixed_index_spec() == 0,
            p.squares_spec().len() == config.count,
            forall|i: int|
                0 <= i < config.count ==> generated(#[trigger] p.squares_spec()[i], i, config, width, height),
    {
        let mut rng = rng_from_entropy();
        let squares = Self::generate_squares(&mut rng, &config, width, height);
        let fixed_colors = match &config.color_strategy {
            ColorStrategy::Fixed(colors) => copy_colors(colors),
            _ => Vec::new(),
        };
        proof {
            assert(fixed_colors@ == fixed_of(config.color_strategy));
        }
        SquaresPattern { squares, config, rng, fixed_colors, fixed_index: 0 }
    }

    /// Convenience constructor: random-per-square colors, no motion.
    pub fn new(width: u32, height: u32, num_squares: u32) -> (p: Self)
        ensures
            p.wf(),
            p.fixed_index_spec() == 0,
            p.config_spec().count == num_squares,
            p.config_spec().min_size == 8,
            p.config_spec().max_size == 63,
            p.config_spec().motion_speed == 0,
            p.config_spec().color_strategy is RandomPerSquare,
            p.squares_spec().len() == num_squares,
            forall|i: int|
                0 <= i < num_squares ==> generated(#[trigger] p.squares_spec()[i], i, p.config_spec(), width, height),
    {
        let d = SquaresConfig::default();
        let config = SquaresConfig {
            count: num_squares,
            min_size: d.min_size,
            max_size: d.max_size,
            motion_speed: d.motion_speed,
            color_strategy: d.color_strategy,
        };
        Self::with_config(width, height, config)
    }

    /// The squares, in drawing order.
    pub fn squares(&self) -> (s: &Vec<Square>)
        ensures
            s@ == self.squares_spec(),
    {
        &self.squares
    }

    fn generate_squares(
        rng: &mut rand::rngs::StdRng,
        config: &SquaresConfig,
        width: u32,
        height: u32,
    ) -> (squares: Vec<Square>)
        requires
            config.count > 0 ==> config.min_size <= config.max_size,
        ensures
            squares@.len() == config.count,
            forall|i: int|
                0 <= i < config.count ==> generated(#[trigger] squares@[i], i, *config, width, height),
    {
        let mut rng_clone = rng_clone(rng);
        let mut squares: Vec<Square> = Vec::new();
        let count = config.count as usize;
        let mut i: usize = 0;
        while i < count
            invariant
                count == config.count,
                config.count > 0 ==> config.min_size <= config.max_size,
                i <= count,
                squares@.len() == i,
                forall|j: int| 0 <= j < i ==> generated(#[trigger] squares@[j], j, *config, width, height),
            decreases count - i,
        {
            let size = rng_range_inclusive_u32(&mut rng_clone, config.min_size, config.max_size);
            let max_x = width.saturating_sub(size);
            let max_y = height.saturating_sub(size);
            let x = if max_x > 0 { rng_range_u32(&mut rng_clone, 0, max_x) } else { 0 };
            let y = if max_y > 0 { rng_range_u32(&mut rng_clone, 0, max_y) } else { 0 };
            let (y_val, u_val, v_val) = match &config.color_strategy {
                ColorStrategy::Fixed(colors) if colors.len() > 0 => {
                    let c = colors[i % colors.len()];
                    (c.0, c.1, c.2)
                },
                _ => {
                    let a = rng_range_u8(&mut rng_clone, 60, 200);
                    let b = rng_range_u8(&mut rng_clone, 80, 176);
                    let c = rng_range_u8(&mut rng_clone, 80, 176);
                    (a, b, c)
                },
            };
            let sq = Square { x, y, size, y_val, u_val, v_val };
            proof {
                assert(generated(sq, i as int, *config, width, height));
            }
            squares.push(sq);
            i = i + 1;
        }
        squares
    }
}

/// Where one frame's motion may leave a square: same size; with motion,
/// each coordinate moved by at most `speed` and clamped so the square
/// stays inside the `w × h` frame (at 0 where it does not fit); without,
/// where it was.
pub open spec fn next_position(old_sq: Square, new_sq: Square, speed: u32, w: u32, h: u32) -> bool {
    &&& new_sq.size == old_sq.size
    &&& if speed > 0 {
        &&& moved(old_sq.x, new_sq.x, speed, sat_sub(w as int, old_sq.size as int))
        &&& moved(old_sq.y, new_sq.y, speed, sat_sub(h as int, old_sq.size as int))
    } else {
        new_sq.x == old_sq.x && new_sq.y == old_sq.y
    }
}

/// The colors of square `i` after one frame: the fixed colors cycled by
/// `fi` frames, fresh random colors every frame, or the square's own.
pub open spec fn next_color(
    old_sq: Square,
    new_sq: Square,
    i: int,
    strategy: ColorStrategy,
    fixed: Seq<(u8, u8, u8)>,
    fi: usize,
) -> bool {
    if fixed.len() > 0 {
        let c = fixed[(fi + i) % fixed.len() as int];
        new_sq.y_val == c.0 && new_sq.u_val == c.1 && new_sq.v_val == c.2
    } else if strategy is RandomPerFrame {
        random_luma(new_sq.y_val) && random_chroma(new_sq.u_val) && random_chroma(new_sq.v_val)
    } else {
        new_sq.y_val == old_sq.y_val && new_sq.u_val == old_sq.u_val && new_sq.v_val == old_sq.v_val
    }
}

/// Moving the squares cannot overflow the `i32` arithmetic of the motion.
pub open spec fn motion_safe(sqs: Seq<Square>, speed: u32, w: int, h: int) -> bool {
    &&& w <= i32::MAX
    &&& h <= i32::MAX
    &&& speed <= i32::MAX
    &&& forall|i: int|
        0 <= i < sqs.len() ==> #[trigger] sqs[i].x + speed <= i32::MAX && sqs[i].y + speed <= i32::MAX
}

/// Whether every square's far edges are representable in 32 bits.
pub(crate) fn edges_fit(sqs: &Vec<Square>) -> (b: bool)
    ensures
        b == (forall|i: int|
            0 <= i < sqs@.len() ==> #[trigger] sqs@[i].x + sqs@[i].size <= u32::MAX && sqs@[i].y
                + sqs@[i].size <= u32::MAX),
{
    let mut i: usize = 0;
    while i < sqs.len()
        invariant
            i <= sqs@.len(),
            forall|j: int|
                0 <= j < i ==> #[trigger] sqs@[j].x + sqs@[j].size <= u32::MAX && sqs@[j].y + sqs@[j].size
                    <= u32::MAX,
        decreases sqs@.len() - i,
    {
        let sq = &sqs[i];
        if sq.x as u64 + sq.size as u64 > 0xffff_ffff || sq.y as u64 + sq.size as u64 > 0xffff_ffff {
            return false;
        }
        i = i + 1;
    }
    true
}

/// Whether motion by up to `speed` stays within the `i32` range for these
/// squares on a `w × h` frame.
fn motion_fits(sqs: &Vec<Square>, speed: u32, w: u32, h: u32) -> (b: bool)
    ensures
        b == motion_safe(sqs@, speed, w as int, h as int),
{
    if w > 0x7fff_ffff || h > 0x7fff_ffff || speed > 0x7fff_ffff {
        return false;
    }
    let mut i: usize = 0;
    while i < sqs.len()
        invariant
            i <= sqs@.len(),
            forall|j: int|
                0 <= j < i ==> #[trigger] sqs@[j].x + speed <= i32::MAX && sqs@[j].y + speed <= i32::MAX,
        decreases sqs@.len() - i,
    {
        let sq = &sqs[i];
        if sq.x as u64 + speed as u64 > 0x7fff_ffff || sq.y as u64 + speed as u64 > 0x7fff_ffff {
            assert(!(sqs@[i as int].x + speed <= i32::MAX && sqs@[i as int].y + speed <= i32::MAX));
            return false;
        }
        i = i + 1;
    }
    true
}

/// Whether two lists of colors are the same.
fn same_colors(a: &Vec<(u8, u8, u8)>, b: &Vec<(u8, u8, u8)>) -> (r: bool)
    ensures
        r == (a@ == b@),
{
    if a.len() != b.len() {
        return false;
    }
    let mut i: usize = 0;
    while i < a.len()
        invariant
            i <= a@.len(),
            a@.len() == b@.len(),
            forall|j: int| 0 <= j < i ==> a@[j] == b@[j],
        decreases a@.len() - i,
    {
        let x = a[i];
        let y = b[i];
        if x.0 != y.0 || x.1 != y.1 || x.2 != y.2 {
            assert(a@[i as int] != b@[i as int]);
            return false;
        }
        i = i + 1;
    }
    assert(a@ =~= b@);
    true
}

/// A plane with every byte set to `v`.
pub(crate) fn fill_plane(dst: &mut Vec<u8>, v: u8)
    ensures
        final(dst)@ == Seq::new(old(dst)@.len(), |i: int| v),
{
    let n = dst.len();
    let mut i: usize = 0;
    while i < n
        invariant
            n == dst@.len(),
            n == old(dst)@.len(),
            i <= n,
            forall|j: int| 0 <= j < i ==> dst@[j] == v,
        decreases n - i,
    {
        dst.set(i, v);
        i = i + 1;
    }
    proof {
        assert(dst@ =~= Seq::new(old(dst)@.len(), |i: int| v));
    }
}

/// `v` clamped to `lo..=hi`.
fn clamp_i32(v: i32, lo: i32, hi: i32) -> (r: i32)
    requires
        lo <= hi,
    ensures
        r == clamp_int(v as int, lo as int, hi as int),
{
    if v < lo {
        lo
    } else if v > hi {
        hi
    } else {
        v
    }
}

impl SquaresPattern {
    /// Moves every square by a random step of at most `motion_speed` in
    /// each direction, clamped to the frame.
    fn apply_motion(&mut self, width: u32, height: u32)
        requires
            old(self).wf(),
            old(self).config_spec().motion_speed > 0,
            motion_safe(old(self).squares_spec(), old(self).config_spec().motion_speed, width as int, height as int),
        ensures
            final(self).wf(),
            final(self).config_spec() == old(self).config_spec(),
            final(self).fixed_colors_spec() == old(self).fixed_colors_spec(),
            final(self).fixed_index_spec() == old(self).fixed_index_spec(),
            final(self).squares_spec().len() == old(self).squares_spec().len(),
            forall|i: int|
                0 <= i < old(self).squares_spec().len() ==> {
                    let o = old(self).squares_spec()[i];
                    let n = #[trigger] final(self).squares_spec()[i];
                    &&& next_position(o, n, old(self).config_spec().motion_speed, width, height)
                    &&& n.y_val == o.y_val && n.u_val == o.u_val && n.v_val == o.v_val
                },
    {
        let speed = self.config.motion_speed;
        let n = self.squares.len();
        let mut i: usize = 0;
        while i < n
            invariant
                n == self.squares@.len(),
                n == old(self).squares@.len(),
                i <= n,
                speed == self.config.motion_speed,
                speed > 0,
                self.config == old(self).config,
                self.fixed_colors == old(self).fixed_colors,
                self.fixed_index == old(self).fixed_index,
                old(self).wf(),
                motion_safe(old(self).squares@, speed, width as int, height as int),
                forall|j: int| i <= j < n ==> #[trigger] self.squares@[j] == old(self).squares@[j],
                forall|j: int|
                    0 <= j < i ==> {
                        let o = old(self).squares@[j];
                        let m = #[trigger] self.squares@[j];
                        &&& next_position(o, m, speed, width, height)
                        &&& m.y_val == o.y_val && m.u_val == o.u_val && m.v_val == o.v_val
                        &&& m.x + m.size <= u32::MAX && m.y + m.size <= u32::MAX
                    },
            decreases n - i,
        {
            let sq = self.squares[i];
            assert(sq == old(self).squares@[i as int]);
            assert(sq.x + speed <= i32::MAX && sq.y + speed <= i32::MAX);
            assert(speed <= i32::MAX);
            let rx = rng_range_inclusive_u32(&mut self.rng, 0, speed);
            assert(rx as i32 == rx);
            let dx: i32 = if rng_coin(&mut self.rng) { rx as i32 } else { -(rx as i32) };
            let ry = rng_range_inclusive_u32(&mut self.rng, 0, speed);
            assert(ry as i32 == ry);
            let dy: i32 = if rng_coin(&mut self.rng) { ry as i32 } else { -(ry as i32) };
            let hi_x = width.saturating_sub(sq.size) as i32;
            let hi_y = height.saturating_sub(sq.size) as i32;
            let new_x = clamp_i32(sq.x as i32 + dx, 0, hi_x) as u32;
            let new_y = clamp_i32(sq.y as i32 + dy, 0, hi_y) as u32;
            let moved_sq = Square { x: new_x, y: new_y, ..sq };
            self.squares.set(i, moved_sq);
            i = i + 1;
        }
    }

    /// Gives every square its color for this frame.
    fn apply_colors(&mut self)
        requires
            old(self).wf(),
            old(self).fixed_colors_spec().len() > 0 ==> old(self).fixed_index_spec()
                + old(self).squares_spec().len() <= usize::MAX,
        ensures
            final(self).wf(),
            final(self).config_spec() == old(self).config_spec(),
            final(self).fixed_colors_spec() == old(self).fixed_colors_spec(),
            final(self).fixed_index_spec() == if old(self).fixed_colors_spec().len() > 0 {
                vstd::wrapping::usize_specs::wrapping_add(old(self).fixed_index_spec(), 1)
            } else {
                old(self).fixed_index_spec()
            },
            final(self).squares_spec().len() == old(self).squares_spec().len(),
            forall|i: int|
                0 <= i < old(self).squares_spec().len() ==> {
                    let o = old(self).squares_spec()[i];
                    let m = #[trigger] final(self).squares_spec()[i];
                    &&& m.x == o.x && m.y == o.y && m.size == o.size
                    &&& next_color(
                        o,
                        m,
                        i,
                        old(self).config_spec().color_strategy,
                        old(self).fixed_colors_spec(),
                        old(self).fixed_index_spec(),
                    )
                },
    {
        let n = self.squares.len();
        let per_frame = matches!(self.config.color_strategy, ColorStrategy::RandomPerFrame);
        let nf = self.fixed_colors.len();
        let fi = self.fixed_index;
        let mut i: usize = 0;
        while i < n
            invariant
                n == self.squares@.len(),
                n == old(self).squares@.len(),
                i <= n,
                nf == self.fixed_colors@.len(),
                fi == self.fixed_index,
                per_frame == (self.config.color_strategy is RandomPerFrame),
                self.config == old(self).config,
                self.fixed_colors == old(self).fixed_colors,
                self.fixed_index == old(self).fixed_index,
                old(self).wf(),
                nf > 0 ==> fi + n <= usize::MAX,
                forall|j: int| i <= j < n ==> #[trigger] self.squares@[j] == old(self).squares@[j],
                forall|j: int|
                    0 <= j < i ==> {
                        let o = old(self).squares@[j];
                        let m = #[trigger] self.squares@[j];
                        &&& m.x == o.x && m.y == o.y && m.size == o.size
                        &&& next_color(o, m, j, self.config.color_strategy, self.fixed_colors@, fi)
                    },
            decreases n - i,
        {
            let sq = self.squares[i];
            if nf > 0 {
                let c = self.fixed_colors[(fi + i) % nf];
                self.squares.set(i, Square { y_val: c.0, u_val: c.1, v_val: c.2, ..sq });
            } else if per_frame {
                let yv = rng_range_u8(&mut self.rng, 60, 200);
                let uv = rng_range_u8(&mut self.rng, 80, 176);
                let vv = rng_range_u8(&mut self.rng, 80, 176);
                self.squares.set(i, Square { y_val: yv, u_val: uv, v_val: vv, ..sq });
            }
            i = i + 1;
        }
        if nf > 0 {
            self.fixed_index = fi.wrapping_add(1);
        }
    }
}

impl FramePattern for SquaresPattern {
    open spec fn planes_fit(
        &self,
        len_y: nat,
        len_u: nat,
        len_v: nat,
        stride_y: int,
        stride_u: int,
        stride_v: int,
        width: int,
        height: int,
    ) -> bool {
        &&& self.wf()
        &&& luma_fits(len_y, stride_y, width, height)
        &&& self.squares_spec().len() > 0 ==> {
            &&& box_fits(len_u, stride_u, 0, 0, half_at_least_one(width), half_at_least_one(height))
            &&& box_fits(len_v, stride_v, 0, 0, half_at_least_one(width), half_at_least_one(height))
        }
        &&& self.config_spec().motion_speed > 0 ==> motion_safe(
            self.squares_spec(),
            self.config_spec().motion_speed,
            width,
            height,
        )
        &&& self.fixed_colors_spec().len() > 0 ==> self.fixed_index_spec() + self.squares_spec().len()
            <= usize::MAX
    }

    fn fits_packed(&self, width: u32, height: u32) -> (b: bool) {
        let hw: u32 = width / 2;
        let hh: u32 = height / 2;
        proof {
            lemma_packed_box(height as int, width as int, width as int, height as int);
            assert(luma_size(width, height) == height as int * width as int);
            assert(chroma_size(width, height) == hh as int * hw as int);
            lemma_packed_box(hh as int, hw as int, half_at_least_one(width as int), half_at_least_one(height as int));
        }
        let wf_colors = match &self.config.color_strategy {
            ColorStrategy::Fixed(colors) => same_colors(&self.fixed_colors, colors),
            _ => {
                assert(fixed_of(self.config.color_strategy) =~= Seq::<(u8, u8, u8)>::empty());
                self.fixed_colors.len() == 0
            },
        };
        assert(wf_colors == (self.fixed_colors@ =~= fixed_of(self.config.color_strategy)));
        if !wf_colors || !edges_fit(&self.squares) {
            return false;
        }
        assert(self.wf());
        if self.squares.len() > 0 && (hw == 0 || hh == 0) {
            return false;
        }
        if self.config.motion_speed > 0 && !motion_fits(&self.squares, self.config.motion_speed, width, height) {
            return false;
        }
        if self.fixed_colors.len() > 0 && self.fixed_index as u128 + self.squares.len() as u128 > usize::MAX as u128 {
            return false;
        }
        true
    }

    open spec fn drawn(
        &self,
        after: &Self,
        y0: Seq<u8>,
        u0: Seq<u8>,
        v0: Seq<u8>,
        y1: Seq<u8>,
        u1: Seq<u8>,
        v1: Seq<u8>,
        stride_y: int,
        stride_u: int,
        stride_v: int,
        width: int,
        height: int,
    ) -> bool {
        let n = self.squares_spec().len();
        &&& after.wf()
        &&& after.config_spec() == self.config_spec()
        &&& after.fixed_colors_spec() == self.fixed_colors_spec()
        &&& after.fixed_index_spec() == if self.fixed_colors_spec().len() > 0 {
            vstd::wrapping::usize_specs::wrapping_add(self.fixed_index_spec(), 1)
        } else {
            self.fixed_index_spec()
        }
        &&& after.squares_spec().len() == n
        &&& forall|i: int|
            0 <= i < n ==> {
                let o = self.squares_spec()[i];
                let m = #[trigger] after.squares_spec()[i];
                &&& next_position(o, m, self.config_spec().motion_speed, width as u32, height as u32)
                &&& next_color(
                    o,
                    m,
                    i,
                    self.config_spec().color_strategy,
                    self.fixed_colors_spec(),
                    self.fixed_index_spec(),
                )
            }
        &&& y1 == squares_luma(gray_plane(y0.len()), stride_y, after.squares_spec(), width, height, n)
        &&& u1 == squares_chroma(gray_plane(u0.len()), stride_u, after.squares_spec(), width, height, n, false)
        &&& v1 == squares_chroma(gray_plane(v0.len()), stride_v, after.squares_spec(), width, height, n, true)
    }

    fn draw(
        &mut self,
        y: &mut Vec<u8>,
        u: &mut Vec<u8>,
        v: &mut Vec<u8>,
        stride_y: usize,
        stride_u: usize,
        stride_v: usize,
        width: u32,
        height: u32,
    ) {
        let ghost y0 = y@;
        let ghost u0 = u@;
        let ghost v0 = v@;
        let ghost start = *self;
        fill_plane(y, 128);
        fill_plane(u, 128);
        fill_plane(v, 128);
        if self.config.motion_speed > 0 {
            self.apply_motion(width, height);
        }
        let ghost mid = *self;
        self.apply_colors();
        proof {
            assert forall|i: int| 0 <= i < start.squares@.len() implies {
                let o = start.squares@[i];
                let m = #[trigger] self.squares@[i];
                &&& next_position(o, m, start.config.motion_speed, width, height)
                &&& next_color(o, m, i, start.config.color_strategy, start.fixed_colors@, start.fixed_index)
            } by {
                assert(mid.squares@[i] == mid.squares@[i]);
            }
        }
        let half_w = width / 2;
        let half_h = height / 2;
        let n = self.squares.len();
        let ghost sqs = self.squares@;
        let mut k: usize = 0;
        while k < n
            invariant
                n == sqs.len(),
                sqs == self.squares@,
                k <= n,
                half_w == width / 2,
                half_h == height / 2,
                self.wf(),
                luma_fits(y0.len(), stride_y as int, width as int, height as int),
                n > 0 ==> {
                    &&& box_fits(u0.len(), stride_u as int, 0, 0, half_at_least_one(width as int), half_at_least_one(height as int))
                    &&& box_fits(v0.len(), stride_v as int, 0, 0, half_at_least_one(width as int), half_at_least_one(height as int))
                },
                y@.len() == y0.len(),
                u@.len() == u0.len(),
                v@.len() == v0.len(),
                y@ == squares_luma(gray_plane(y0.len()), stride_y as int, sqs, width as int, height as int, k as nat),
                u@ == squares_chroma(gray_plane(u0.len()), stride_u as int, sqs, width as int, height as int, k as nat, false),
                v@ == squares_chroma(gray_plane(v0.len()), stride_v as int, sqs, width as int, height as int, k as nat, true),
            decreases n - k,
        {
            let sq = self.squares[k];
            assert(sq.x + sq.size <= u32::MAX && sq.y + sq.size <= u32::MAX);
            let sx = sq.x;
            let sy = sq.y;
            let end_x = if sx + sq.size < width { sx + sq.size } else { width };
            let end_y = if sy + sq.size < height { sy + sq.size } else { height };
            proof {
                assert(box_fits(y0.len(), stride_y as int, 0, 0, width as int, height as int));
                lemma_box_fits_sub(y0.len(), stride_y as int, width as int, height as int, sx as int, sy as int, end_x as int, end_y as int);
            }
            fill_box(y, stride_y, sx as usize, sy as usize, end_x as usize, end_y as usize, sq.y_val);
            let cap_x = half_w.saturating_sub(1);
            let cap_y = half_h.saturating_sub(1);
            let ux = if sx / 2 < cap_x { sx / 2 } else { cap_x };
            let uy = if sy / 2 < cap_y { sy / 2 } else { cap_y };
            let ex = if end_x / 2 < half_w { end_x / 2 } else { half_w };
            let ey = if end_y / 2 < half_h { end_y / 2 } else { half_h };
            let u_end_x = if ex > ux + 1 { ex } else { ux + 1 };
            let u_end_y = if ey > uy + 1 { ey } else { uy + 1 };
            proof {
                lemma_box_fits_sub(u0.len(), stride_u as int, half_at_least_one(width as int), half_at_least_one(height as int), ux as int, uy as int, u_end_x as int, u_end_y as int);
                lemma_box_fits_sub(v0.len(), stride_v as int, half_at_least_one(width as int), half_at_least_one(height as int), ux as int, uy as int, u_end_x as int, u_end_y as int);
            }
            fill_box(u, stride_u, ux as usize, uy as usize, u_end_x as usize, u_end_y as usize, sq.u_val);
            fill_box(v, stride_v, ux as usize, uy as usize, u_end_x as usize, u_end_y as usize, sq.v_val);
            k = k + 1;
        }
    }
}

/// A freshly generated square that fits in the frame lies wholly inside it.
pub proof fn law_generated_squares_inside(sq: Square, i: int, config: SquaresConfig, w: u32, h: u32)
    requires
        generated(sq, i, config, w, h),
        sq.size <= w,
        sq.size <= h,
    ensures
        sq.x + sq.size <= w,
        sq.y + sq.size <= h,
{
}

/// With motion on, every square that fits in the frame is inside it after
/// a frame is drawn, wherever it was before.
pub proof fn law_motion_keeps_squares_inside(
    before: &SquaresPattern,
    after: &SquaresPattern,
    y0: Seq<u8>,
    u0: Seq<u8>,
    v0: Seq<u8>,
    y1: Seq<u8>,
    u1: Seq<u8>,
    v1: Seq<u8>,
    stride_y: int,
    stride_u: int,
    stride_v: int,
    w: u32,
    h: u32,
    i: int,
)
    requires
        before.drawn(after, y0, u0, v0, y1, u1, v1, stride_y, stride_u, stride_v, w as int, h as int),
        before.config_spec().motion_speed > 0,
        0 <= i < before.squares_spec().len(),
        before.squares_spec()[i].size <= w,
        before.squares_spec()[i].size <= h,
    ensures
        after.squares_spec()[i].size == before.squares_spec()[i].size,
        after.squares_spec()[i].x + after.squares_spec()[i].size <= w,
        after.squares_spec()[i].y + after.squares_spec()[i].size <= h,
{
    assert(next_position(
        before.squares_spec()[i],
        after.squares_spec()[i],
        before.config_spec().motion_speed,
        w,
        h,
    ));
}

/// What a draw of a `w × h` frame does to the squares' places: the
/// configuration and the number of squares stay, and each square moves as
/// `next_position` allows.
pub open spec fn moved_by_draw(before: SquaresPattern, after: SquaresPattern, w: u32, h: u32) -> bool {
    &&& after.config_spec() == before.config_spec()
    &&& after.squares_spec().len() == before.squares_spec().len()
    &&& forall|i: int|
        0 <= i < before.squares_spec().len() ==> next_position(
            before.squares_spec()[i],
            #[trigger] after.squares_spec()[i],
            before.config_spec().motion_speed,
            w,
            h,
        )
}

/// A draw moves the squares as `moved_by_draw` says.
pub proof fn lemma_drawn_moves(
    before: &SquaresPattern,
    after: &SquaresPattern,
    y0: Seq<u8>,
    u0: Seq<u8>,
    v0: Seq<u8>,
    y1: Seq<u8>,
    u1: Seq<u8>,
    v1: Seq<u8>,
    stride_y: int,
    stride_u: int,
    stride_v: int,
    w: u32,
    h: u32,
)
    requires
        before.drawn(after, y0, u0, v0, y1, u1, v1, stride_y, stride_u, stride_v, w as int, h as int),
    ensures
        moved_by_draw(*before, *after, w, h),
{
}

/// A square inside the frame is inside it after one move.
proof fn lemma_step_inside(o: Square, m: Square, speed: u32, w: u32, h: u32)
    requires
        next_position(o, m, speed, w, h),
        o.x + o.size <= w,
        o.y + o.size <= h,
    ensures
        m.size == o.size,
        m.x + m.size <= w,
        m.y + m.size <= h,
{
}

/// Square `i` of pattern `p` has the size `size` and lies inside the frame.
pub open spec fn square_inside(p: SquaresPattern, i: int, size: u32, w: u32, h: u32) -> bool {
    &&& 0 <= i < p.squares_spec().len()
    &&& p.squares_spec()[i].size == size
    &&& p.squares_spec()[i].x + p.squares_spec()[i].size <= w
    &&& p.squares_spec()[i].y + p.squares_spec()[i].size <= h
}

/// Over any number of draws of the same `w × h` frame, a square generated
/// for that frame that fits in it stays wholly inside it. `with_config`
/// gives the first pattern's `generated` squares, and each `draw` gives the
/// next pattern through `lemma_drawn_moves`.
#[verifier::rlimit(30)]
pub proof fn law_squares_stay_inside_over_draws(ps: Seq<SquaresPattern>, w: u32, h: u32, i: int)
    requires
        ps.len() > 0,
        forall|k: int| 0 <= k < ps.len() - 1 ==> moved_by_draw(#[trigger] ps[k], ps[k + 1], w, h),
        0 <= i < ps[0].squares_spec().len(),
        generated(ps[0].squares_spec()[i], i, ps[0].config_spec(), w, h),
        ps[0].squares_spec()[i].size <= w,
        ps[0].squares_spec()[i].size <= h,
    ensures
        forall|k: int|
            0 <= k < ps.len() ==> #[trigger] square_inside(ps[k], i, ps[0].squares_spec()[i].size, w, h),
    decreases ps.len(),
{
    let size = ps[0].squares_spec()[i].size;
    if ps.len() == 1 {
        law_generated_squares_inside(ps[0].squares_spec()[i], i, ps[0].config_spec(), w, h);
        assert(square_inside(ps[0], i, size, w, h));
    } else {
        let pre = ps.drop_last();
        assert forall|k: int| 0 <= k < pre.len() - 1 implies moved_by_draw(#[trigger] pre[k], pre[k + 1], w, h) by {
            assert(moved_by_draw(ps[k], ps[k + 1], w, h));
        }
        assert(pre[0] == ps[0]);
        law_squares_stay_inside_over_draws(pre, w, h, i);
        let n = ps.len() - 1;
        assert(square_inside(pre[n - 1], i, size, w, h));
        assert(moved_by_draw(ps[n - 1], ps[n], w, h));
        let b = ps[n - 1];
        let a = ps[n];
        assert(next_position(b.squares_spec()[i], a.squares_spec()[i], b.config_spec().motion_speed, w, h));
        lemma_step_inside(b.squares_spec()[i], a.squares_spec()[i], b.config_spec().motion_speed, w, h);
        assert(square_inside(ps[n], i, size, w, h));
        assert forall|k: int| 0 <= k < ps.len() implies #[trigger] square_inside(ps[k], i, size, w, h) by {
            if k < n {
                assert(square_inside(pre[k], i, size, w, h));
            }
        }
    }
}

/// The last of the first `k` squares whose luma box covers pixel `(a, b)`.
pub open spec fn topmost_square(sqs: Seq<Square>, k: nat, w: int, h: int, a: int, b: int) -> Option<int>
    decreases k,
{
    if k == 0 {
        None
    } else if square_box(sqs[k - 1], w, h)(a, b) {
        Some(k - 1)
    } else {
        topmost_square(sqs, (k - 1) as nat, w, h, a, b)
    }
}

/// Squares are painted in order, so each luma pixel shows the square drawn
/// last over it, or the background where none covers it.
pub proof fn law_squares_topmost_wins(
    s: Seq<u8>,
    stride: int,
    sqs: Seq<Square>,
    w: int,
    h: int,
    k: nat,
    a: int,
    b: int,
)
    requires
        0 <= a,
        0 <= b < stride,
        a * stride + b < s.len(),
    ensures
        squares_luma(s, stride, sqs, w, h, k).len() == s.len(),
        squares_luma(s, stride, sqs, w, h, k)[a * stride + b] == match topmost_square(sqs, k, w, h, a, b) {
            Some(j) => sqs[j].y_val,
            None => s[a * stride + b],
        },
    decreases k,
{
    super::canvas::lemma_pixel_index(a, b, stride);
    if k > 0 {
        law_squares_topmost_wins(s, stride, sqs, w, h, (k - 1) as nat, a, b);
    }
}

} // verus!
