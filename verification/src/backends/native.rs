use vstd::prelude::*;

use crate::base::buffer::{I420Buffer, I420BufferRef};
use crate::base::rotation::VideoRotation;
use crate::error::MediaError;
use crate::paint::{
    copy_rect, copy_val, in_bounds, lemma_paint_empty, nn_val, paint, paint_row, rect_at, scale_plane,
};
use crate::pixel_format::PixelFormat;
use crate::plane_ops::{
    copy_rect_flipped, deinterleave_rect, flipped_val, interleave_rect, interleave_val,
    interleaved_val,
};
use crate::transform::{argb_row_reads, dst_fits, same_layout, swaps_axes, VideoTransform};

verus! {

/// Pure-Rust native video transform backend.
///
/// Implements nearest-neighbor scale, vertical-flip mirror, sub-rectangle crop,
/// pixel-reordering rotate, and BT.601 color-space conversion — all
/// with integer arithmetic and no external dependencies.
pub struct NativeTransform;

// ── Rotation ─────────────────────────────────────────────

/// Destination index of source pixel `(sy, sx)` of a `w × h` plane rotated by
/// `rot`, in a destination plane of row pitch `ds`.
pub open spec fn rot_at(rot: VideoRotation, ds: int, w: int, h: int) -> spec_fn(int, int) -> int {
    match rot {
        VideoRotation::Rotation0 => |sy: int, sx: int| sy * ds + sx,
        VideoRotation::Rotation270 => |sy: int, sx: int| (w - 1 - sx) * ds + sy,
        VideoRotation::Rotation180 => |sy: int, sx: int| (h - 1 - sy) * ds + (w - 1 - sx),
        VideoRotation::Rotation90 => |sy: int, sx: int| sx * ds + (h - 1 - sy),
    }
}

/// A destination rectangle of the rotated size bounds every rotated store.
pub proof fn lemma_rot_in_bounds(rot: VideoRotation, ds: int, w: nat, h: nat, len: nat)
    requires
        swaps_axes(rot) ==> in_bounds(w, h, rect_at(0, ds), len),
        !swaps_axes(rot) ==> in_bounds(h, w, rect_at(0, ds), len),
    ensures
        in_bounds(h, w, rot_at(rot, ds, w as int, h as int), len),
{
    assert forall|sy: int, sx: int| 0 <= sy < h && 0 <= sx < w implies 0 <= #[trigger] rot_at(
        rot,
        ds,
        w as int,
        h as int,
    )(sy, sx) < len by {
        match rot {
            VideoRotation::Rotation0 => {
                assert(rect_at(0, ds)(sy, sx) == sy * ds + sx);
            },
            VideoRotation::Rotation270 => {
                assert(rect_at(0, ds)(w - 1 - sx, sy) == (w - 1 - sx) * ds + sy);
            },
            VideoRotation::Rotation180 => {
                assert(rect_at(0, ds)(h - 1 - sy, w - 1 - sx) == (h - 1 - sy) * ds + (w - 1 - sx));
            },
            VideoRotation::Rotation90 => {
                assert(rect_at(0, ds)(sx, h - 1 - sy) == sx * ds + (h - 1 - sy));
            },
        }
    }
}

/// Stores every pixel of the `w × h` source plane (row pitch `ss`) at its
/// rotated position, visiting source rows top to bottom.
#[verifier::rlimit(50)]
fn rotate_plane(
    dst: &mut Vec<u8>,
    ds: usize,
    src: &[u8],
    ss: usize,
    w: usize,
    h: usize,
    rot: VideoRotation,
)
    requires
        in_bounds(h as nat, w as nat, rot_at(rot, ds as int, w as int, h as int), old(dst)@.len()),
        in_bounds(h as nat, w as nat, rect_at(0, ss as int), src@.len()),
    ensures
        final(dst)@ == paint(
            old(dst)@,
            h as nat,
            w as nat,
            rot_at(rot, ds as int, w as int, h as int),
            copy_val(src@, 0, ss as int),
        ),
{
    let ghost at = rot_at(rot, ds as int, w as int, h as int);
    let ghost sat = rect_at(0, ss as int);
    let ghost val = copy_val(src@, 0, ss as int);
    let ghost s0 = dst@;
    let slen = src.len();
    let mut sy: usize = 0;
    while sy < h
        invariant
            sy <= h,
            slen == src@.len(),
            s0 == old(dst)@,
            at == rot_at(rot, ds as int, w as int, h as int),
            sat == rect_at(0, ss as int),
            val == copy_val(src@, 0, ss as int),
            in_bounds(h as nat, w as nat, at, s0.len()),
            in_bounds(h as nat, w as nat, sat, src@.len()),
            dst@ == paint(s0, sy as nat, w as nat, at, val),
            dst.len() == s0.len(),
        decreases h - sy,
    {
        if w == 0 {
            sy = sy + 1;
            continue;
        }
        assert(0 <= sat(sy as int, 0) < src@.len());
        let srow = sy * ss;
        let mut sx: usize = 0;
        while sx < w
            invariant
                sy < h,
                sx <= w,
                slen == src@.len(),
                srow == sy * ss,
                s0 == old(dst)@,
                at == rot_at(rot, ds as int, w as int, h as int),
                sat == rect_at(0, ss as int),
                val == copy_val(src@, 0, ss as int),
                in_bounds(h as nat, w as nat, at, s0.len()),
                in_bounds(h as nat, w as nat, sat, src@.len()),
                dst@ == paint_row(paint(s0, sy as nat, w as nat, at, val), sy as int, sx as nat, at, val),
                dst.len() == s0.len(),
            decreases w - sx,
        {
            assert(0 <= at(sy as int, sx as int) < s0.len());
            assert(0 <= sat(sy as int, sx as int) < src@.len());
            let b = src[srow + sx];
            let idx = match rot {
                VideoRotation::Rotation0 => {
                    assert(at(sy as int, 0) == sy * ds);
                    sy * ds + sx
                },
                VideoRotation::Rotation270 => {
                    assert(at(sy as int, sx as int) == (w - 1 - sx) * ds + sy);
                    (w - 1 - sx) * ds + sy
                },
                VideoRotation::Rotation180 => {
                    assert(at(sy as int, sx as int) == (h - 1 - sy) * ds + (w - 1 - sx));
                    (h - 1 - sy) * ds + (w - 1 - sx)
                },
                VideoRotation::Rotation90 => {
                    assert(at(sy as int, sx as int) == sx * ds + (h - 1 - sy));
                    sx * ds + (h - 1 - sy)
                },
            };
            assert(idx == at(sy as int, sx as int));
            dst.set(idx, b);
            sx = sx + 1;
        }
        sy = sy + 1;
    }
}


// ── BT.601 colour conversion ─────────────────────────────

/// `x` limited to `lo ..= hi`.
pub open spec fn clamp(x: int, lo: int, hi: int) -> int {
    if x < lo {
        lo
    } else if x > hi {
        hi
    } else {
        x
    }
}

/// Luma of an RGB pixel: `⌊(66r + 129g + 25b + 128) / 256⌋ + 16`, limited to `16 ..= 235`.
pub open spec fn bt601_y(r: int, g: int, b: int) -> int {
    clamp((66 * r + 129 * g + 25 * b + 128) / 256 + 16, 16, 235)
}

/// Blue-difference chroma: `⌊(-38r - 74g + 112b + 128) / 256⌋ + 128`, limited to `16 ..= 240`.
pub open spec fn bt601_u(r: int, g: int, b: int) -> int {
    clamp((-38 * r - 74 * g + 112 * b + 128) / 256 + 128, 16, 240)
}

/// Red-difference chroma: `⌊(112r - 94g - 18b + 128) / 256⌋ + 128`, limited to `16 ..= 240`.
pub open spec fn bt601_v(r: int, g: int, b: int) -> int {
    clamp((112 * r - 94 * g - 18 * b + 128) / 256 + 128, 16, 240)
}

/// Red of a YUV pixel: `⌊(298(y-16) + 409(v-128) + 128) / 256⌋`, limited to `0 ..= 255`.
pub open spec fn yuv_r(y: int, u: int, v: int) -> int {
    clamp((298 * (y - 16) + 409 * (v - 128) + 128) / 256, 0, 255)
}

/// Green of a YUV pixel: `⌊(298(y-16) - 100(u-128) - 208(v-128) + 128) / 256⌋`, limited to `0 ..= 255`.
pub open spec fn yuv_g(y: int, u: int, v: int) -> int {
    clamp((298 * (y - 16) - 100 * (u - 128) - 208 * (v - 128) + 128) / 256, 0, 255)
}

/// Blue of a YUV pixel: `⌊(298(y-16) + 516(u-128) + 128) / 256⌋`, limited to `0 ..= 255`.
pub open spec fn yuv_b(y: int, u: int, v: int) -> int {
    clamp((298 * (y - 16) + 516 * (u - 128) + 128) / 256, 0, 255)
}

/// Byte `k` (0..4) of a packed pixel with colour `(r, g, b)` and opaque alpha in layout `fmt`.
pub open spec fn packed_byte(fmt: PixelFormat, k: int, r: int, g: int, b: int) -> u8 {
    let v = match fmt {
        PixelFormat::ARGB => if k == 0 { 255 } else if k == 1 { r } else if k == 2 { g } else { b },
        PixelFormat::BGRA => if k == 0 { b } else if k == 1 { g } else if k == 2 { r } else { 255 },
        PixelFormat::ABGR => if k == 0 { 255 } else if k == 1 { b } else if k == 2 { g } else { r },
        _ => if k == 0 { r } else if k == 1 { g } else if k == 2 { b } else { 255 },
    };
    v as u8
}

/// Blue, green and red of pixel `(py, px)` of a B,G,R,A image of row pitch `4w`.
pub open spec fn argb_b(argb: Seq<u8>, w: int, py: int, px: int) -> int {
    argb[py * (4 * w) + px * 4] as int
}

pub open spec fn argb_g(argb: Seq<u8>, w: int, py: int, px: int) -> int {
    argb[py * (4 * w) + px * 4 + 1] as int
}

pub open spec fn argb_r(argb: Seq<u8>, w: int, py: int, px: int) -> int {
    argb[py * (4 * w) + px * 4 + 2] as int
}

/// Row and column, within a 2×2 block row, of the `k`-th luma store of
/// `argb_to_i420`: blocks left to right, each top-left, top-right,
/// bottom-left, bottom-right.
pub open spec fn block_dy(k: int) -> int {
    (k % 4) / 2
}

pub open spec fn block_px(k: int) -> int {
    2 * (k / 4) + k % 2
}

/// Luma store `k` of block row `by`: its index in a plane of pitch `ds`.
pub open spec fn argb_y_at(ds: int) -> spec_fn(int, int) -> int {
    |by: int, k: int| (2 * by + block_dy(k)) * ds + block_px(k)
}

/// Luma store `k` of block row `by`: its value.
pub open spec fn argb_y_val(argb: Seq<u8>, w: int) -> spec_fn(int, int) -> u8 {
    |by: int, k: int|
        {
            let py = 2 * by + block_dy(k);
            let px = block_px(k);
            bt601_y(argb_r(argb, w, py, px), argb_g(argb, w, py, px), argb_b(argb, w, py, px)) as u8
        }
}

/// Sum over the 2×2 block at `(2bx, 2by)` of the limited U values.
pub open spec fn block_u_sum(argb: Seq<u8>, w: int, by: int, bx: int) -> int {
    bt601_u(argb_r(argb, w, 2 * by, 2 * bx), argb_g(argb, w, 2 * by, 2 * bx), argb_b(argb, w, 2 * by, 2 * bx))
        + bt601_u(argb_r(argb, w, 2 * by, 2 * bx + 1), argb_g(argb, w, 2 * by, 2 * bx + 1), argb_b(argb, w, 2 * by, 2 * bx + 1))
        + bt601_u(argb_r(argb, w, 2 * by + 1, 2 * bx), argb_g(argb, w, 2 * by + 1, 2 * bx), argb_b(argb, w, 2 * by + 1, 2 * bx))
        + bt601_u(argb_r(argb, w, 2 * by + 1, 2 * bx + 1), argb_g(argb, w, 2 * by + 1, 2 * bx + 1), argb_b(argb, w, 2 * by + 1, 2 * bx + 1))
}

/// Sum over the 2×2 block at `(2bx, 2by)` of the limited V values.
pub open spec fn block_v_sum(argb: Seq<u8>, w: int, by: int, bx: int) -> int {
    bt601_v(argb_r(argb, w, 2 * by, 2 * bx), argb_g(argb, w, 2 * by, 2 * bx), argb_b(argb, w, 2 * by, 2 * bx))
        + bt601_v(argb_r(argb, w, 2 * by, 2 * bx + 1), argb_g(argb, w, 2 * by, 2 * bx + 1), argb_b(argb, w, 2 * by, 2 * bx + 1))
        + bt601_v(argb_r(argb, w, 2 * by + 1, 2 * bx), argb_g(argb, w, 2 * by + 1, 2 * bx), argb_b(argb, w, 2 * by + 1, 2 * bx))
        + bt601_v(argb_r(argb, w, 2 * by + 1, 2 * bx + 1), argb_g(argb, w, 2 * by + 1, 2 * bx + 1), argb_b(argb, w, 2 * by + 1, 2 * bx + 1))
}

/// Chroma sample of block `(bx, by)`: the rounded mean of the four limited values.
pub open spec fn argb_u_val(argb: Seq<u8>, w: int) -> spec_fn(int, int) -> u8 {
    |by: int, bx: int| ((block_u_sum(argb, w, by, bx) + 2) / 4) as u8
}

pub open spec fn argb_v_val(argb: Seq<u8>, w: int) -> spec_fn(int, int) -> u8 {
    |by: int, bx: int| ((block_v_sum(argb, w, by, bx) + 2) / 4) as u8
}

/// Byte `j` of output row `y` of `i420_to_argb`: byte `j % 4` of pixel `j / 4`.
pub open spec fn yuv_packed_val(
    sy: Seq<u8>,
    su: Seq<u8>,
    sv: Seq<u8>,
    stride_y: int,
    stride_u: int,
    stride_v: int,
    fmt: PixelFormat,
) -> spec_fn(int, int) -> u8 {
    |y: int, j: int|
        {
            let x = j / 4;
            let yy = sy[y * stride_y + x] as int;
            let u = su[(y / 2) * stride_u + x / 2] as int;
            let v = sv[(y / 2) * stride_v + x / 2] as int;
            packed_byte(fmt, j % 4, yuv_r(yy, u, v), yuv_g(yy, u, v), yuv_b(yy, u, v))
        }
}

proof fn lemma_div256_shift(x: int, k: int)
    ensures
        (x + 256 * k) / 256 == x / 256 + k,
{
    vstd::arithmetic::div_mod::lemma_fundamental_div_mod(x, 256);
    vstd::arithmetic::div_mod::lemma_fundamental_div_mod(x + 256 * k, 256);
    vstd::arithmetic::div_mod::lemma_mod_bound(x, 256);
    vstd::arithmetic::div_mod::lemma_mod_bound(x + 256 * k, 256);
}

fn luma_of(r: u8, g: u8, b: u8) -> (y: u8)
    ensures
        y == bt601_y(r as int, g as int, b as int),
{
    let e: u32 = 66 * (r as u32) + 129 * (g as u32) + 25 * (b as u32) + 128;
    let q = e / 256 + 16;
    if q < 16 {
        16
    } else if q > 235 {
        235
    } else {
        q as u8
    }
}

fn chroma_u_of(r: u8, g: u8, b: u8) -> (u: u32)
    ensures
        u == bt601_u(r as int, g as int, b as int),
{
    let e: u32 = 112 * (b as u32) + 28800 - (38 * (r as u32) + 74 * (g as u32));
    proof {
        lemma_div256_shift(-38 * r - 74 * g + 112 * b + 128, 112);
    }
    let q = e / 256 + 16;
    if q < 16 {
        16
    } else if q > 240 {
        240
    } else {
        q
    }
}

fn chroma_v_of(r: u8, g: u8, b: u8) -> (v: u32)
    ensures
        v == bt601_v(r as int, g as int, b as int),
{
    let e: u32 = 112 * (r as u32) + 28800 - (94 * (g as u32) + 18 * (b as u32));
    proof {
        lemma_div256_shift(112 * r - 94 * g - 18 * b + 128, 112);
    }
    let q = e / 256 + 16;
    if q < 16 {
        16
    } else if q > 240 {
        240
    } else {
        q
    }
}

fn clamp_byte(q: u32, k: u32) -> (r: u8)
    ensures
        r == clamp(q - k, 0, 255),
{
    if q < k {
        0
    } else if q - k > 255 {
        255
    } else {
        (q - k) as u8
    }
}

fn red_of(y: u8, u: u8, v: u8) -> (r: u8)
    ensures
        r == yuv_r(y as int, u as int, v as int),
{
    let e: u32 = 298 * (y as u32) + 409 * (v as u32) + 96;
    proof {
        lemma_div256_shift(298 * (y - 16) + 409 * (v - 128) + 128, 223);
    }
    clamp_byte(e / 256, 223)
}

fn green_of(y: u8, u: u8, v: u8) -> (g: u8)
    ensures
        g == yuv_g(y as int, u as int, v as int),
{
    let e: u32 = 298 * (y as u32) + 78560 - (100 * (u as u32) + 208 * (v as u32));
    proof {
        lemma_div256_shift(298 * (y - 16) - 100 * (u - 128) - 208 * (v - 128) + 128, 171);
    }
    clamp_byte(e / 256, 171)
}

fn blue_of(y: u8, u: u8, v: u8) -> (b: u8)
    ensures
        b == yuv_b(y as int, u as int, v as int),
{
    let e: u32 = 298 * (y as u32) + 516 * (u as u32) + 224;
    proof {
        lemma_div256_shift(298 * (y - 16) + 516 * (u - 128) + 128, 277);
    }
    clamp_byte(e / 256, 277)
}



proof fn lemma_argb_y_in_bounds(ds: int, hh: nat, hw: nat, len: nat)
    requires
        in_bounds(2 * hh, 2 * hw, rect_at(0, ds), len),
    ensures
        in_bounds(hh, 4 * hw, argb_y_at(ds), len),
{
    assert forall|by: int, k: int| 0 <= by < hh && 0 <= k < 4 * hw implies 0 <= #[trigger] argb_y_at(ds)(by, k) < len by {
        assert(block_px(k) < 2 * hw);
        assert(rect_at(0, ds)(2 * by + block_dy(k), block_px(k)) == argb_y_at(ds)(by, k));
    }
}

/// Reads pixel `(py, px)` of the B,G,R,A image and returns its `(r, g, b)`.
fn argb_pixel(argb: &[u8], stride_argb: usize, py: usize, px: usize, w: Ghost<int>, rows: Ghost<nat>, hw: Ghost<nat>) -> (rgb: (u8, u8, u8))
    requires
        stride_argb == 4 * w@,
        py < rows@,
        px < 2 * hw@,
        in_bounds(rows@, argb_row_reads(hw@ as int) as nat, rect_at(0, stride_argb as int), argb@.len()),
    ensures
        rgb.0 == argb_r(argb@, w@, py as int, px as int),
        rgb.1 == argb_g(argb@, w@, py as int, px as int),
        rgb.2 == argb_b(argb@, w@, py as int, px as int),
{
    assert(0 <= rect_at(0, stride_argb as int)(py as int, (px * 4 + 2) as int) < argb@.len());
    let _ = argb.len();
    let idx = py * stride_argb + px * 4;
    (argb[idx + 2], argb[idx + 1], argb[idx])
}

/// Luma pass of `argb_to_i420`: block rows top to bottom, in each the blocks
/// left to right, in each block its four pixels in reading order.
#[verifier::rlimit(50)]
fn argb_luma_pass(dst: &mut Vec<u8>, ds: usize, argb: &[u8], w: usize, hh: usize, hw: usize)
    requires
        4 * w <= usize::MAX,
        2 * hh <= usize::MAX,
        2 * hw <= w,
        in_bounds(hh as nat, (4 * hw) as nat, argb_y_at(ds as int), old(dst)@.len()),
        in_bounds((2 * hh) as nat, argb_row_reads(hw as int) as nat, rect_at(0, 4 * w), argb@.len()),
    ensures
        final(dst)@ == paint(old(dst)@, hh as nat, (4 * hw) as nat, argb_y_at(ds as int), argb_y_val(argb@, w as int)),
{
    let ghost at = argb_y_at(ds as int);
    let ghost val = argb_y_val(argb@, w as int);
    let ghost s0 = dst@;
    let stride_argb = w * 4;
    let cols = 4 * hw;
    let mut by: usize = 0;
    while by < hh
        invariant
            by <= hh,
            2 * hh <= usize::MAX,
            stride_argb == 4 * w,
            cols == 4 * hw,
            2 * hw <= w,
            s0 == old(dst)@,
            at == argb_y_at(ds as int),
            val == argb_y_val(argb@, w as int),
            in_bounds(hh as nat, cols as nat, at, s0.len()),
            in_bounds((2 * hh) as nat, argb_row_reads(hw as int) as nat, rect_at(0, 4 * w), argb@.len()),
            dst@ == paint(s0, by as nat, cols as nat, at, val),
            dst.len() == s0.len(),
        decreases hh - by,
    {
        let mut k: usize = 0;
        while k < cols
            invariant
                by < hh,
                2 * hh <= usize::MAX,
                k <= cols,
                stride_argb == 4 * w,
                cols == 4 * hw,
                2 * hw <= w,
                s0 == old(dst)@,
                at == argb_y_at(ds as int),
                val == argb_y_val(argb@, w as int),
                in_bounds(hh as nat, cols as nat, at, s0.len()),
                in_bounds((2 * hh) as nat, argb_row_reads(hw as int) as nat, rect_at(0, 4 * w), argb@.len()),
                dst@ == paint_row(paint(s0, by as nat, cols as nat, at, val), by as int, k as nat, at, val),
                dst.len() == s0.len(),
            decreases cols - k,
        {
            assert(0 <= at(by as int, k as int) < s0.len());
            let bx = k / 4;
            let dy = (k % 4) / 2;
            let dx = k % 2;
            let py = 2 * by + dy;
            let px = 2 * bx + dx;
            assert(py == 2 * by + block_dy(k as int) && px == block_px(k as int));
            let (r, g, b) = argb_pixel(argb, stride_argb, py, px, Ghost(w as int), Ghost((2 * hh) as nat), Ghost(hw as nat));
            let yv = luma_of(r, g, b);
            let idx = py * ds + px;
            assert(idx == at(by as int, k as int));
            assert(yv == val(by as int, k as int));
            dst.set(idx, yv);
            k = k + 1;
        }
        by = by + 1;
    }
}

/// Sum of the limited U (or V, per `want_v`) values of block `(bx, by)`.
fn block_chroma_sum(argb: &[u8], stride_argb: usize, by: usize, bx: usize, want_v: bool, w: Ghost<int>, hh: Ghost<nat>, hw: Ghost<nat>) -> (sum: u32)
    requires
        stride_argb == 4 * w@,
        by < hh@,
        bx < hw@,
        2 * hh@ <= usize::MAX,
        2 * hw@ <= usize::MAX,
        in_bounds((2 * hh@) as nat, argb_row_reads(hw@ as int) as nat, rect_at(0, stride_argb as int), argb@.len()),
    ensures
        sum == if want_v { block_v_sum(argb@, w@, by as int, bx as int) } else { block_u_sum(argb@, w@, by as int, bx as int) },
        sum <= 960,
{
    let rows = Ghost((2 * hh@) as nat);
    let (r0, g0, b0) = argb_pixel(argb, stride_argb, 2 * by, 2 * bx, w, rows, hw);
    let (r1, g1, b1) = argb_pixel(argb, stride_argb, 2 * by, 2 * bx + 1, w, rows, hw);
    let (r2, g2, b2) = argb_pixel(argb, stride_argb, 2 * by + 1, 2 * bx, w, rows, hw);
    let (r3, g3, b3) = argb_pixel(argb, stride_argb, 2 * by + 1, 2 * bx + 1, w, rows, hw);
    if want_v {
        chroma_v_of(r0, g0, b0) + chroma_v_of(r1, g1, b1) + chroma_v_of(r2, g2, b2) + chroma_v_of(r3, g3, b3)
    } else {
        chroma_u_of(r0, g0, b0) + chroma_u_of(r1, g1, b1) + chroma_u_of(r2, g2, b2) + chroma_u_of(r3, g3, b3)
    }
}

/// Chroma pass of `argb_to_i420`: the rounded mean of the limited U (or V,
/// per `want_v`) values of each 2×2 block, blocks row by row.
#[verifier::rlimit(50)]
fn argb_chroma_pass(dst: &mut Vec<u8>, ds: usize, argb: &[u8], w: usize, hh: usize, hw: usize, want_v: bool)
    requires
        4 * w <= usize::MAX,
        2 * hh <= usize::MAX,
        2 * hw <= w,
        in_bounds(hh as nat, hw as nat, rect_at(0, ds as int), old(dst)@.len()),
        in_bounds((2 * hh) as nat, argb_row_reads(hw as int) as nat, rect_at(0, 4 * w), argb@.len()),
    ensures
        final(dst)@ == paint(
            old(dst)@,
            hh as nat,
            hw as nat,
            rect_at(0, ds as int),
            if want_v { argb_v_val(argb@, w as int) } else { argb_u_val(argb@, w as int) },
        ),
{
    let ghost at = rect_at(0, ds as int);
    let ghost val = if want_v { argb_v_val(argb@, w as int) } else { argb_u_val(argb@, w as int) };
    let ghost s0 = dst@;
    let stride_argb = w * 4;
    let mut by: usize = 0;
    while by < hh
        invariant
            by <= hh,
            2 * hh <= usize::MAX,
            stride_argb == 4 * w,
            2 * hw <= w,
            s0 == old(dst)@,
            at == rect_at(0, ds as int),
            val == if want_v { argb_v_val(argb@, w as int) } else { argb_u_val(argb@, w as int) },
            in_bounds(hh as nat, hw as nat, at, s0.len()),
            in_bounds((2 * hh) as nat, argb_row_reads(hw as int) as nat, rect_at(0, 4 * w), argb@.len()),
            dst@ == paint(s0, by as nat, hw as nat, at, val),
            dst.len() == s0.len(),
        decreases hh - by,
    {
        let mut bx: usize = 0;
        while bx < hw
            invariant
                by < hh,
                2 * hh <= usize::MAX,
                bx <= hw,
                stride_argb == 4 * w,
                2 * hw <= w,
                s0 == old(dst)@,
                at == rect_at(0, ds as int),
                val == if want_v { argb_v_val(argb@, w as int) } else { argb_u_val(argb@, w as int) },
                in_bounds(hh as nat, hw as nat, at, s0.len()),
                in_bounds((2 * hh) as nat, argb_row_reads(hw as int) as nat, rect_at(0, 4 * w), argb@.len()),
                dst@ == paint_row(paint(s0, by as nat, hw as nat, at, val), by as int, bx as nat, at, val),
                dst.len() == s0.len(),
            decreases hw - bx,
        {
            assert(0 <= at(by as int, bx as int) < s0.len());
            let sum = block_chroma_sum(argb, stride_argb, by, bx, want_v, Ghost(w as int), Ghost(hh as nat), Ghost(hw as nat));
            let c = ((sum + 2) / 4) as u8;
            assert(c == val(by as int, bx as int));
            dst.set(by * ds + bx, c);
            bx = bx + 1;
        }
        by = by + 1;
    }
}

/// The four output bytes of pixel `(x, y)` of `i420_to_argb`.
fn packed_pixel(src: I420BufferRef, y: usize, x: usize, w: usize, h: usize, fmt: PixelFormat) -> (c: (u8, u8, u8, u8))
    requires
        y < h,
        x < w,
        in_bounds(h as nat, w as nat, rect_at(0, src.stride_y as int), src.y@.len()),
        in_bounds(((h + 1) / 2) as nat, ((w + 1) / 2) as nat, rect_at(0, src.stride_u as int), src.u@.len()),
        in_bounds(((h + 1) / 2) as nat, ((w + 1) / 2) as nat, rect_at(0, src.stride_v as int), src.v@.len()),
    ensures
        ({
            let val = yuv_packed_val(src.y@, src.u@, src.v@, src.stride_y as int, src.stride_u as int, src.stride_v as int, fmt);
            &&& c.0 == val(y as int, (4 * x) as int)
            &&& c.1 == val(y as int, (4 * x + 1) as int)
            &&& c.2 == val(y as int, (4 * x + 2) as int)
            &&& c.3 == val(y as int, (4 * x + 3) as int)
        }),
{
    let _ = src.y.len();
    let _ = src.u.len();
    let _ = src.v.len();
    assert(0 <= rect_at(0, src.stride_y as int)(y as int, x as int) < src.y@.len());
    assert(0 <= rect_at(0, src.stride_u as int)((y / 2) as int, (x / 2) as int) < src.u@.len());
    assert(0 <= rect_at(0, src.stride_v as int)((y / 2) as int, (x / 2) as int) < src.v@.len());
    let yy = src.y[y * src.stride_y + x];
    let u = src.u[(y / 2) * src.stride_u + x / 2];
    let v = src.v[(y / 2) * src.stride_v + x / 2];
    let r = red_of(yy, u, v);
    let g = green_of(yy, u, v);
    let b = blue_of(yy, u, v);
    assert((4 * x) / 4 == x && (4 * x + 1) / 4 == x && (4 * x + 2) / 4 == x && (4 * x + 3) / 4 == x);
    assert((4 * x) % 4 == 0 && (4 * x + 1) % 4 == 1 && (4 * x + 2) % 4 == 2 && (4 * x + 3) % 4 == 3);
    match fmt {
        PixelFormat::ARGB => (255u8, r, g, b),
        PixelFormat::BGRA => (b, g, r, 255u8),
        PixelFormat::ABGR => (255u8, b, g, r),
        _ => (r, g, b, 255u8),
    }
}

/// Packing pass of `i420_to_argb`: pixels row by row, four bytes each.
#[verifier::rlimit(60)]
#[verifier::spinoff_prover]
fn packed_pass(dst: &mut Vec<u8>, src: I420BufferRef, w: usize, h: usize, fmt: PixelFormat)
    requires
        4 * w <= usize::MAX,
        in_bounds(h as nat, w as nat, rect_at(0, src.stride_y as int), src.y@.len()),
        in_bounds(((h + 1) / 2) as nat, ((w + 1) / 2) as nat, rect_at(0, src.stride_u as int), src.u@.len()),
        in_bounds(((h + 1) / 2) as nat, ((w + 1) / 2) as nat, rect_at(0, src.stride_v as int), src.v@.len()),
        in_bounds(h as nat, (4 * w) as nat, rect_at(0, 4 * w), old(dst)@.len()),
    ensures
        final(dst)@ == paint(
            old(dst)@,
            h as nat,
            (4 * w) as nat,
            rect_at(0, 4 * w),
            yuv_packed_val(src.y@, src.u@, src.v@, src.stride_y as int, src.stride_u as int, src.stride_v as int, fmt),
        ),
{
    let ghost at = rect_at(0, 4 * w);
    let ghost val = yuv_packed_val(src.y@, src.u@, src.v@, src.stride_y as int, src.stride_u as int, src.stride_v as int, fmt);
    let ghost s0 = dst@;
    let ylen = src.y.len();
    let ulen = src.u.len();
    let vlen = src.v.len();
    let row_bytes = 4 * w;
    let mut y: usize = 0;
    while y < h
        invariant
            y <= h,
            ylen == src.y@.len() && ulen == src.u@.len() && vlen == src.v@.len(),
            row_bytes == 4 * w,
            s0 == old(dst)@,
            at == rect_at(0, 4 * w),
            val == yuv_packed_val(src.y@, src.u@, src.v@, src.stride_y as int, src.stride_u as int, src.stride_v as int, fmt),
            in_bounds(h as nat, w as nat, rect_at(0, src.stride_y as int), src.y@.len()),
            in_bounds(((h + 1) / 2) as nat, ((w + 1) / 2) as nat, rect_at(0, src.stride_u as int), src.u@.len()),
            in_bounds(((h + 1) / 2) as nat, ((w + 1) / 2) as nat, rect_at(0, src.stride_v as int), src.v@.len()),
            in_bounds(h as nat, (4 * w) as nat, at, s0.len()),
            dst@ == paint(s0, y as nat, (4 * w) as nat, at, val),
            dst.len() == s0.len(),
        decreases h - y,
    {
        let mut x: usize = 0;
        while x < w
            invariant
                y < h,
                x <= w,
                ylen == src.y@.len() && ulen == src.u@.len() && vlen == src.v@.len(),
                row_bytes == 4 * w,
                s0 == old(dst)@,
                at == rect_at(0, 4 * w),
                val == yuv_packed_val(src.y@, src.u@, src.v@, src.stride_y as int, src.stride_u as int, src.stride_v as int, fmt),
                in_bounds(h as nat, w as nat, rect_at(0, src.stride_y as int), src.y@.len()),
                in_bounds(((h + 1) / 2) as nat, ((w + 1) / 2) as nat, rect_at(0, src.stride_u as int), src.u@.len()),
                in_bounds(((h + 1) / 2) as nat, ((w + 1) / 2) as nat, rect_at(0, src.stride_v as int), src.v@.len()),
                in_bounds(h as nat, (4 * w) as nat, at, s0.len()),
                dst@ == paint_row(paint(s0, y as nat, (4 * w) as nat, at, val), y as int, (4 * x) as nat, at, val),
                dst.len() == s0.len(),
            decreases w - x,
        {
            assert(0 <= at(y as int, (4 * x + 3) as int) < s0.len());
            let (c0, c1, c2, c3) = packed_pixel(src, y, x, w, h, fmt);
            let ghost base = paint(s0, y as nat, (4 * w) as nat, at, val);
            let off = y * row_bytes + 4 * x;
            assert(off == at(y as int, (4 * x) as int));
            assert(c0 == val(y as int, (4 * x) as int));
            dst.set(off, c0);
            assert(dst@ == paint_row(base, y as int, (4 * x + 1) as nat, at, val));
            assert(c1 == val(y as int, (4 * x + 1) as int));
            dst.set(off + 1, c1);
            assert(dst@ == paint_row(base, y as int, (4 * x + 2) as nat, at, val));
            assert(c2 == val(y as int, (4 * x + 2) as int));
            dst.set(off + 2, c2);
            assert(dst@ == paint_row(base, y as int, (4 * x + 3) as nat, at, val));
            assert(c3 == val(y as int, (4 * x + 3) as int));
            dst.set(off + 3, c3);
            assert(dst@ == paint_row(base, y as int, (4 * x + 4) as nat, at, val));
            x = x + 1;
        }
        y = y + 1;
    }
}

impl VideoTransform for NativeTransform {
    /// Nearest-neighbour scale of each plane (chroma at half size).
    fn scale(
        src: I420BufferRef,
        src_w: u32,
        src_h: u32,
        dst: &mut I420Buffer,
        dst_w: u32,
        dst_h: u32,
    ) -> (r: Result<(), MediaError>)
        ensures
            r is Ok,
            same_layout(*final(dst), *old(dst)),
            final(dst).data_y@ == paint(
                old(dst).data_y@,
                dst_h as nat,
                dst_w as nat,
                rect_at(0, old(dst).stride_y as int),
                nn_val(src.y@, src.stride_y as int, src_w as int, src_h as int, dst_w as int, dst_h as int),
            ),
            final(dst).data_u@ == paint(
                old(dst).data_u@,
                (dst_h / 2) as nat,
                (dst_w / 2) as nat,
                rect_at(0, old(dst).stride_u as int),
                nn_val(
                    src.u@,
                    src.stride_u as int,
                    (src_w / 2) as int,
                    (src_h / 2) as int,
                    (dst_w / 2) as int,
                    (dst_h / 2) as int,
                ),
            ),
            final(dst).data_v@ == paint(
                old(dst).data_v@,
                (dst_h / 2) as nat,
                (dst_w / 2) as nat,
                rect_at(0, old(dst).stride_v as int),
                nn_val(
                    src.v@,
                    src.stride_v as int,
                    (src_w / 2) as int,
                    (src_h / 2) as int,
                    (dst_w / 2) as int,
                    (dst_h / 2) as int,
                ),
            ),
    {
        let dsy = dst.stride_y as usize;
        let dsu = dst.stride_u as usize;
        let dsv = dst.stride_v as usize;
        scale_plane(&mut dst.data_y, dsy, dst_w, dst_h, src.y, src.stride_y, src_w, src_h);
        scale_plane(&mut dst.data_u, dsu, dst_w / 2, dst_h / 2, src.u, src.stride_u, src_w / 2, src_h / 2);
        scale_plane(&mut dst.data_v, dsv, dst_w / 2, dst_h / 2, src.v, src.stride_v, src_w / 2, src_h / 2);
        Ok(())
    }

    /// Vertical flip: output row `y` is input row `h - 1 - y` (chroma rows
    /// likewise at half size).
    fn mirror(src: I420BufferRef, w: u32, h: u32, dst: &mut I420Buffer) -> (r: Result<(), MediaError>)
        ensures
            r is Ok,
            same_layout(*final(dst), *old(dst)),
            final(dst).data_y@ == paint(
                old(dst).data_y@,
                h as nat,
                w as nat,
                rect_at(0, old(dst).stride_y as int),
                flipped_val(src.y@, 0, src.stride_y as int, h as int),
            ),
            final(dst).data_u@ == paint(
                old(dst).data_u@,
                (h / 2) as nat,
                (w / 2) as nat,
                rect_at(0, old(dst).stride_u as int),
                flipped_val(src.u@, 0, src.stride_u as int, (h / 2) as int),
            ),
            final(dst).data_v@ == paint(
                old(dst).data_v@,
                (h / 2) as nat,
                (w / 2) as nat,
                rect_at(0, old(dst).stride_v as int),
                flipped_val(src.v@, 0, src.stride_v as int, (h / 2) as int),
            ),
    {
        let w = w as usize;
        let h = h as usize;
        let dsy = dst.stride_y as usize;
        let dsu = dst.stride_u as usize;
        copy_rect_flipped(&mut dst.data_y, 0, dsy, w, h, src.y, 0, src.stride_y);
        let half_w = w / 2;
        let half_h = h / 2;
        copy_rect_flipped(&mut dst.data_u, 0, dsu, half_w, half_h, src.u, 0, src.stride_u);
        let dsv = dst.stride_v as usize;
        copy_rect_flipped(&mut dst.data_v, 0, dsv, half_w, half_h, src.v, 0, src.stride_v);
        Ok(())
    }

    /// Copies the `w × h` window at `(x, y)` (chroma: `w/2 × h/2` at
    /// `(x/2, y/2)`).
    fn crop(
        src: I420BufferRef,
        x: u32,
        y: u32,
        w: u32,
        h: u32,
        dst: &mut I420Buffer,
    ) -> (r: Result<(), MediaError>)
        ensures
            r is Ok,
            same_layout(*final(dst), *old(dst)),
            final(dst).data_y@ == paint(
                old(dst).data_y@,
                h as nat,
                w as nat,
                rect_at(0, old(dst).stride_y as int),
                copy_val(src.y@, y * src.stride_y + x, src.stride_y as int),
            ),
            final(dst).data_u@ == paint(
                old(dst).data_u@,
                (h / 2) as nat,
                (w / 2) as nat,
                rect_at(0, old(dst).stride_u as int),
                copy_val(src.u@, (y / 2) * src.stride_u + x / 2, src.stride_u as int),
            ),
            final(dst).data_v@ == paint(
                old(dst).data_v@,
                (h / 2) as nat,
                (w / 2) as nat,
                rect_at(0, old(dst).stride_v as int),
                copy_val(src.v@, (y / 2) * src.stride_v + x / 2, src.stride_v as int),
            ),
    {
        let w = w as usize;
        let h = h as usize;
        let x = x as usize;
        let y = y as usize;
        let dsy = dst.stride_y as usize;
        let dsu = dst.stride_u as usize;
        let dsv = dst.stride_v as usize;
        let _ = src.y.len();
        let _ = src.u.len();
        let _ = src.v.len();
        if w > 0 && h > 0 {
            assert(0 <= rect_at(y * src.stride_y + x, src.stride_y as int)(0, 0) < src.y@.len());
            let base = y * src.stride_y + x;
            copy_rect(&mut dst.data_y, 0, dsy, src.y, base, src.stride_y, w, h);
        } else {
            proof {
                lemma_paint_empty(dst.data_y@, h as nat, w as nat, rect_at(0, dsy as int), copy_val(src.y@, y * src.stride_y + x, src.stride_y as int));
            }
        }
        let half_x = x / 2;
        let half_y = y / 2;
        let half_w = w / 2;
        let half_h = h / 2;
        if half_w > 0 && half_h > 0 {
            assert(0 <= rect_at(half_y * src.stride_u + half_x, src.stride_u as int)(0, 0) < src.u@.len());
            assert(0 <= rect_at(half_y * src.stride_v + half_x, src.stride_v as int)(0, 0) < src.v@.len());
            let cbase = half_y * src.stride_u + half_x;
            let vbase = half_y * src.stride_v + half_x;
            copy_rect(&mut dst.data_u, 0, dsu, src.u, cbase, src.stride_u, half_w, half_h);
            copy_rect(&mut dst.data_v, 0, dsv, src.v, vbase, src.stride_v, half_w, half_h);
        } else {
            proof {
                lemma_paint_empty(dst.data_u@, half_h as nat, half_w as nat, rect_at(0, dsu as int), copy_val(src.u@, half_y * src.stride_u + half_x, src.stride_u as int));
                lemma_paint_empty(dst.data_v@, half_h as nat, half_w as nat, rect_at(0, dsv as int), copy_val(src.v@, half_y * src.stride_v + half_x, src.stride_v as int));
            }
        }
        Ok(())
    }

    /// Moves every source pixel to its rotated position (clockwise angles).
    fn rotate(
        src: I420BufferRef,
        w: u32,
        h: u32,
        rot: VideoRotation,
        dst: &mut I420Buffer,
    ) -> (r: Result<(), MediaError>)
        ensures
            r is Ok,
            same_layout(*final(dst), *old(dst)),
            final(dst).data_y@ == paint(
                old(dst).data_y@,
                h as nat,
                w as nat,
                rot_at(rot, old(dst).stride_y as int, w as int, h as int),
                copy_val(src.y@, 0, src.stride_y as int),
            ),
            final(dst).data_u@ == paint(
                old(dst).data_u@,
                (h / 2) as nat,
                (w / 2) as nat,
                rot_at(rot, old(dst).stride_u as int, (w / 2) as int, (h / 2) as int),
                copy_val(src.u@, 0, src.stride_u as int),
            ),
            final(dst).data_v@ == paint(
                old(dst).data_v@,
                (h / 2) as nat,
                (w / 2) as nat,
                rot_at(rot, old(dst).stride_v as int, (w / 2) as int, (h / 2) as int),
                copy_val(src.v@, 0, src.stride_v as int),
            ),
    {
        let w = w as usize;
        let h = h as usize;
        let half_w = w / 2;
        let half_h = h / 2;
        let dsy = dst.stride_y as usize;
        let dsu = dst.stride_u as usize;
        let dsv = dst.stride_v as usize;
        let ssv = src.stride_v;
        proof {
            lemma_rot_in_bounds(rot, dsy as int, w as nat, h as nat, dst.data_y@.len());
            lemma_rot_in_bounds(rot, dsu as int, half_w as nat, half_h as nat, dst.data_u@.len());
            lemma_rot_in_bounds(rot, dsv as int, half_w as nat, half_h as nat, dst.data_v@.len());
            assert(rect_at(0, src.stride_y as int) == rect_at(0u32 * src.stride_y + 0u32, src.stride_y as int));
            assert(rect_at(0, src.stride_u as int) == rect_at((0u32 / 2) * src.stride_u + 0u32 / 2, src.stride_u as int));
            assert(rect_at(0, ssv as int) == rect_at((0u32 / 2) * (ssv as int) + 0u32 / 2, ssv as int));
        }
        rotate_plane(&mut dst.data_y, dsy, src.y, src.stride_y, w, h, rot);
        rotate_plane(&mut dst.data_u, dsu, src.u, src.stride_u, half_w, half_h, rot);
        rotate_plane(&mut dst.data_v, dsv, src.v, ssv, half_w, half_h, rot);
        Ok(())
    }

    /// BT.601 conversion of a B,G,R,A image (row pitch `4w`): each pixel of
    /// the `2·(w/2) × 2·(h/2)` block area gets its limited luma, each 2×2
    /// block the rounded mean of its four limited U and V values (both chroma
    /// planes written with the U row pitch).
    fn argb_to_i420(argb: &[u8], w: u32, h: u32, dst: &mut I420Buffer) -> (r: Result<(), MediaError>)
        ensures
            r is Ok,
            same_layout(*final(dst), *old(dst)),
            final(dst).data_y@ == paint(
                old(dst).data_y@,
                (h / 2) as nat,
                (4 * (w / 2)) as nat,
                argb_y_at(old(dst).stride_y as int),
                argb_y_val(argb@, w as int),
            ),
            final(dst).data_u@ == paint(
                old(dst).data_u@,
                (h / 2) as nat,
                (w / 2) as nat,
                rect_at(0, old(dst).stride_u as int),
                argb_u_val(argb@, w as int),
            ),
            final(dst).data_v@ == paint(
                old(dst).data_v@,
                (h / 2) as nat,
                (w / 2) as nat,
                rect_at(0, old(dst).stride_u as int),
                argb_v_val(argb@, w as int),
            ),
    {
        let w = w as usize;
        let h = h as usize;
        let hw = w / 2;
        let hh = h / 2;
        let dsy = dst.stride_y as usize;
        let dsu = dst.stride_u as usize;
        proof {
            lemma_argb_y_in_bounds(dsy as int, hh as nat, hw as nat, dst.data_y@.len());
        }
        argb_luma_pass(&mut dst.data_y, dsy, argb, w, hh, hw);
        argb_chroma_pass(&mut dst.data_u, dsu, argb, w, hh, hw, false);
        argb_chroma_pass(&mut dst.data_v, dsu, argb, w, hh, hw, true);
        Ok(())
    }

    fn i420_to_argb(
        src: I420BufferRef,
        w: u32,
        h: u32,
        fmt: PixelFormat,
        dst: &mut Vec<u8>,
    ) -> (r: Result<(), MediaError>)
        ensures
            r is Err <==> (w > 0 && h > 0 && !fmt.is_packed_rgb()),
            r is Err ==> r == Err::<(), MediaError>(MediaError::UnsupportedFormat(fmt)) && final(dst)@ == old(dst)@,
            r is Ok ==> final(dst)@ == paint(
                old(dst)@,
                h as nat,
                (4 * w) as nat,
                rect_at(0, 4 * w),
                yuv_packed_val(src.y@, src.u@, src.v@, src.stride_y as int, src.stride_u as int, src.stride_v as int, fmt),
            ),
    {
        let is_rgb = match fmt {
            PixelFormat::ARGB | PixelFormat::BGRA | PixelFormat::ABGR | PixelFormat::RGBA => true,
            _ => false,
        };
        if !is_rgb {
            if w > 0 && h > 0 {
                return Err(MediaError::UnsupportedFormat(fmt));
            }
            proof {
                lemma_paint_empty(dst@, h as nat, (4 * w) as nat, rect_at(0, 4 * w), yuv_packed_val(src.y@, src.u@, src.v@, src.stride_y as int, src.stride_u as int, src.stride_v as int, fmt));
            }
            return Ok(());
        }
        packed_pass(dst, src, w as usize, h as usize, fmt);
        Ok(())
    }

    /// Copies Y into a plane of row pitch `w` and interleaves U and V (both
    /// read with the U row pitch) into UVUV rows of `2·(w/2)` bytes.
    fn i420_to_nv12(
        src: I420BufferRef,
        w: u32,
        h: u32,
        dst_y: &mut Vec<u8>,
        dst_uv: &mut Vec<u8>,
    ) -> (r: Result<(), MediaError>)
        ensures
            r is Ok,
            final(dst_y)@ == paint(
                old(dst_y)@,
                h as nat,
                w as nat,
                rect_at(0, w as int),
                copy_val(src.y@, 0, src.stride_y as int),
            ),
            final(dst_uv)@ == paint(
                old(dst_uv)@,
                (h / 2) as nat,
                (2 * (w / 2)) as nat,
                rect_at(0, 2 * (w / 2)),
                interleave_val(src.u@, src.v@, src.stride_u as int),
            ),
    {
        let w = w as usize;
        let h = h as usize;
        proof {
            assert(rect_at(0, src.stride_y as int) == rect_at(0u32 * src.stride_y + 0u32, src.stride_y as int));
            assert(rect_at(0, src.stride_u as int) == rect_at((0u32 / 2) * src.stride_u + 0u32 / 2, src.stride_u as int));
        }
        copy_rect(dst_y, 0, w, src.y, 0, src.stride_y, w, h);
        let half_w = w / 2;
        let half_h = h / 2;
        assert((2 * half_w) / 2 == half_w);
        interleave_rect(dst_uv, 0, 2 * half_w, 2 * half_w, half_h, src.u, src.v, src.stride_u);
        Ok(())
    }

    /// Copies Y from a plane of row pitch `w` and splits the UVUV rows (of
    /// `2·(w/2)` bytes) into U (even bytes) and V (odd bytes), both written
    /// with the U row pitch.
    fn nv12_to_i420(
        src_y: &[u8],
        src_uv: &[u8],
        w: u32,
        h: u32,
        dst: &mut I420Buffer,
    ) -> (r: Result<(), MediaError>)
        ensures
            r is Ok,
            same_layout(*final(dst), *old(dst)),
            final(dst).data_y@ == paint(
                old(dst).data_y@,
                h as nat,
                w as nat,
                rect_at(0, old(dst).stride_y as int),
                copy_val(src_y@, 0, w as int),
            ),
            final(dst).data_u@ == paint(
                old(dst).data_u@,
                (h / 2) as nat,
                (w / 2) as nat,
                rect_at(0, old(dst).stride_u as int),
                interleaved_val(src_uv@, 2 * (w / 2), 0),
            ),
            final(dst).data_v@ == paint(
                old(dst).data_v@,
                (h / 2) as nat,
                (w / 2) as nat,
                rect_at(0, old(dst).stride_u as int),
                interleaved_val(src_uv@, 2 * (w / 2), 1),
            ),
    {
        let w = w as usize;
        let h = h as usize;
        let dsy = dst.stride_y as usize;
        let dsu = dst.stride_u as usize;
        copy_rect(&mut dst.data_y, 0, dsy, src_y, 0, w, w, h);
        let half_w = w / 2;
        let half_h = h / 2;
        deinterleave_rect(&mut dst.data_u, 0, dsu, half_w, half_h, src_uv, 2 * half_w, 0);
        deinterleave_rect(&mut dst.data_v, 0, dsu, half_w, half_h, src_uv, 2 * half_w, 1);
        Ok(())
    }
}

} // verus!
