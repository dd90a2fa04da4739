use vstd::prelude::*;

use crate::error::{MediaError, MediaResult};
use crate::paint::{
    copy_rect, in_bounds, lemma_nn_src_bound, lemma_packed_rect, lemma_paint_injective, lemma_rect_in_bounds, nn_at,
    nn_src, nn_val, rect_at, scale_plane,
};
use crate::plane_ops::{
    average_pairs, average_quads, deinterleave_rect, interleaved_val, narrow_rect, narrow_val,
    pair_mean_val, quad_mean_val,
};
use crate::pixel_format::PixelFormat;

verus! {

// ── I420BufferRef ────────────────────────────────────────

/// Borrowed zero-copy view of I420 plane data, for reading by the transforms.
#[derive(Copy, Clone)]
pub struct I420BufferRef<'a> {
    pub y: &'a [u8],
    pub u: &'a [u8],
    pub v: &'a [u8],
    pub stride_y: usize,
    pub stride_u: usize,
    pub stride_v: usize,
}

// ── I420Buffer ───────────────────────────────────────────

/// Canonical 3-plane YUV 4:2:0 8-bit buffer.
#[derive(Debug)]
pub struct I420Buffer {
    pub data_y: Vec<u8>,
    pub data_u: Vec<u8>,
    pub data_v: Vec<u8>,
    pub stride_y: u32,
    pub stride_u: u32,
    pub stride_v: u32,
    pub width: u32,
    pub height: u32,
}

/// Number of bytes of a full-resolution plane of `w × h`.
pub open spec fn luma_size(w: u32, h: u32) -> int {
    h * w
}

/// Number of bytes of a 2:1 subsampled chroma plane of a `w × h` frame.
pub open spec fn chroma_size(w: u32, h: u32) -> int {
    (h / 2) * (w / 2)
}

proof fn lemma_chroma_le_luma(w: u32, h: u32)
    ensures
        0 <= chroma_size(w, h) <= luma_size(w, h),
{
    assert(0 <= (h / 2) * (w / 2) <= h * w) by (nonlinear_arith)
        requires
            0 <= w / 2 <= w,
            0 <= h / 2 <= h,
    ;
}

impl I420Buffer {
    /// Logical width in pixels.
    pub open spec fn frame_width(&self) -> u32 {
        self.width
    }

    /// Logical height in pixels.
    pub open spec fn frame_height(&self) -> u32 {
        self.height
    }

    /// The layout that `new` produces: planes of exactly `w·h` and
    /// `(w/2)·(h/2)` bytes, with row pitches `w`, `w/2`, `w/2`.
    pub open spec fn is_packed(&self) -> bool {
        &&& self.data_y@.len() == luma_size(self.frame_width(), self.frame_height())
        &&& self.data_u@.len() == chroma_size(self.frame_width(), self.frame_height())
        &&& self.data_v@.len() == chroma_size(self.frame_width(), self.frame_height())
        &&& self.stride_y == self.frame_width()
        &&& self.stride_u == self.frame_width() / 2
        &&& self.stride_v == self.frame_width() / 2
    }

    /// Create an I420 buffer with the given dimensions: Y zero-filled (black),
    /// U and V filled with 128 (no colour). Strides equal `width` (Y) and
    /// `width / 2` (U, V).
    pub fn new(width: u32, height: u32) -> (b: Self)
        requires
            width * height <= u32::MAX,
        ensures
            b.frame_width() == width,
            b.frame_height() == height,
            b.is_packed(),
            forall|i: int| 0 <= i < b.data_y@.len() ==> #[trigger] b.data_y@[i] == 0,
            forall|i: int| 0 <= i < b.data_u@.len() ==> #[trigger] b.data_u@[i] == 128,
            forall|i: int| 0 <= i < b.data_v@.len() ==> #[trigger] b.data_v@[i] == 128,
    {
        proof {
            lemma_chroma_le_luma(width, height);
            assert(width * height == height * width) by (nonlinear_arith);
            assert((width / 2) * (height / 2) == (height / 2) * (width / 2)) by (nonlinear_arith);
        }
        let y_size = (width * height) as usize;
        let uv_size = ((width / 2) * (height / 2)) as usize;
        let data_y = vec![0u8; y_size];
        let data_u = vec![128u8; uv_size];
        let data_v = vec![128u8; uv_size];
        I420Buffer {
            data_y,
            data_u,
            data_v,
            stride_y: width,
            stride_u: width / 2,
            stride_v: width / 2,
            width,
            height,
        }
    }

    /// A copy of every plane, stride and dimension.
    pub fn duplicate(&self) -> (r: I420Buffer)
        ensures
            r.data_y@ == self.data_y@,
            r.data_u@ == self.data_u@,
            r.data_v@ == self.data_v@,
            r.stride_y == self.stride_y,
            r.stride_u == self.stride_u,
            r.stride_v == self.stride_v,
            r.frame_width() == self.frame_width(),
            r.frame_height() == self.frame_height(),
    {
        let data_y = self.data_y.clone();
        let data_u = self.data_u.clone();
        let data_v = self.data_v.clone();
        assert(data_y@ =~= self.data_y@);
        assert(data_u@ =~= self.data_u@);
        assert(data_v@ =~= self.data_v@);
        I420Buffer {
            data_y,
            data_u,
            data_v,
            stride_y: self.stride_y,
            stride_u: self.stride_u,
            stride_v: self.stride_v,
            width: self.width,
            height: self.height,
        }
    }

    /// The planes that nearest-neighbour scaling to `nw × nh` reads lie inside
    /// this buffer's planes.
    pub open spec fn scale_reads_ok(&self, nw: u32, nh: u32) -> bool {
        let w = self.frame_width();
        let h = self.frame_height();
        &&& in_bounds(
            nh as nat,
            nw as nat,
            nn_at(self.stride_y as int, w as int, h as int, nw as int, nh as int),
            self.data_y@.len(),
        )
        &&& in_bounds(
            (nh / 2) as nat,
            (nw / 2) as nat,
            nn_at(self.stride_u as int, (w / 2) as int, (h / 2) as int, (nw / 2) as int, (nh / 2) as int),
            self.data_u@.len(),
        )
        &&& in_bounds(
            (nh / 2) as nat,
            (nw / 2) as nat,
            nn_at(self.stride_v as int, (w / 2) as int, (h / 2) as int, (nw / 2) as int, (nh / 2) as int),
            self.data_v@.len(),
        )
    }

    /// A packed buffer holds every pixel that scaling reads, unless a plane
    /// it reads from is empty while the scaled plane is not.
    pub open spec fn packed_scale_ok(&self, nw: u32, nh: u32) -> bool {
        let w = self.frame_width();
        let h = self.frame_height();
        &&& self.is_packed()
        &&& nw > 0 && nh > 0 ==> w > 0 && h > 0
        &&& nw / 2 > 0 && nh / 2 > 0 ==> w / 2 > 0 && h / 2 > 0
    }

    /// Nearest-neighbour scale to new dimensions: output pixel `(x, y)` takes
    /// the source pixel `(⌊x·w/nw⌋, ⌊y·h/nh⌋)`, plane by plane (chroma at half
    /// resolution). The reads must lie in the planes; for a packed buffer
    /// that is so unless a source plane is empty and its scaled plane is not.
    pub fn scale(&self, new_width: u32, new_height: u32) -> (out: I420Buffer)
        requires
            new_width * new_height <= u32::MAX,
            self.scale_reads_ok(new_width, new_height) || self.packed_scale_ok(new_width, new_height),
        ensures
            out.frame_width() == new_width,
            out.frame_height() == new_height,
            out.is_packed(),
            forall|r: int, c: int|
                0 <= r < new_height && 0 <= c < new_width ==> #[trigger] out.data_y@[r * new_width + c]
                    == nn_val(
                    self.data_y@,
                    self.stride_y as int,
                    self.frame_width() as int,
                    self.frame_height() as int,
                    new_width as int,
                    new_height as int,
                )(r, c),
            forall|r: int, c: int|
                0 <= r < new_height / 2 && 0 <= c < new_width / 2 ==> #[trigger] out.data_u@[r * (
                new_width / 2) + c] == nn_val(
                    self.data_u@,
                    self.stride_u as int,
                    (self.frame_width() / 2) as int,
                    (self.frame_height() / 2) as int,
                    (new_width / 2) as int,
                    (new_height / 2) as int,
                )(r, c),
            forall|r: int, c: int|
                0 <= r < new_height / 2 && 0 <= c < new_width / 2 ==> #[trigger] out.data_v@[r * (
                new_width / 2) + c] == nn_val(
                    self.data_v@,
                    self.stride_v as int,
                    (self.frame_width() / 2) as int,
                    (self.frame_height() / 2) as int,
                    (new_width / 2) as int,
                    (new_height / 2) as int,
                )(r, c),
    {
        proof {
            if !self.scale_reads_ok(new_width, new_height) {
                lemma_packed_scale_reads_ok(self, new_width, new_height);
            }
        }
        let mut out = I420Buffer::new(new_width, new_height);
        let src_w = self.width;
        let src_h = self.height;
        let ghost oy = out.data_y@;
        let ghost ou = out.data_u@;
        let ghost ov = out.data_v@;
        let hw = new_width / 2;
        let hh = new_height / 2;
        proof {
            lemma_packed_rect(new_height as nat, new_width as nat, oy.len());
            lemma_packed_rect(hh as nat, hw as nat, ou.len());
        }
        scale_plane(
            &mut out.data_y,
            new_width as usize,
            new_width,
            new_height,
            self.data_y.as_slice(),
            self.stride_y as usize,
            src_w,
            src_h,
        );
        scale_plane(
            &mut out.data_u,
            hw as usize,
            hw,
            hh,
            self.data_u.as_slice(),
            self.stride_u as usize,
            src_w / 2,
            src_h / 2,
        );
        scale_plane(
            &mut out.data_v,
            hw as usize,
            hw,
            hh,
            self.data_v.as_slice(),
            self.stride_v as usize,
            src_w / 2,
            src_h / 2,
        );
        proof {
            lemma_paint_injective(
                oy,
                new_height as nat,
                new_width as nat,
                rect_at(0, new_width as int),
                nn_val(self.data_y@, self.stride_y as int, src_w as int, src_h as int, new_width as int, new_height as int),
            );
            lemma_paint_injective(
                ou,
                hh as nat,
                hw as nat,
                rect_at(0, hw as int),
                nn_val(self.data_u@, self.stride_u as int, (src_w / 2) as int, (src_h / 2) as int, hw as int, hh as int),
            );
            lemma_paint_injective(
                ov,
                hh as nat,
                hw as nat,
                rect_at(0, hw as int),
                nn_val(self.data_v@, self.stride_v as int, (src_w / 2) as int, (src_h / 2) as int, hw as int, hh as int),
            );
            assert forall|r: int, c: int|
                0 <= r < new_height && 0 <= c < new_width implies #[trigger] out.data_y@[r * new_width + c]
                == nn_val(self.data_y@, self.stride_y as int, src_w as int, src_h as int, new_width as int, new_height as int)(r, c) by {
                assert(rect_at(0, new_width as int)(r, c) == r * new_width + c);
            }
            assert forall|r: int, c: int|
                0 <= r < new_height / 2 && 0 <= c < new_width / 2 implies #[trigger] out.data_u@[r * (new_width / 2) + c]
                == nn_val(self.data_u@, self.stride_u as int, (src_w / 2) as int, (src_h / 2) as int, hw as int, hh as int)(r, c) by {
                assert(rect_at(0, hw as int)(r, c) == r * hw + c);
            }
            assert forall|r: int, c: int|
                0 <= r < new_height / 2 && 0 <= c < new_width / 2 implies #[trigger] out.data_v@[r * (new_width / 2) + c]
                == nn_val(self.data_v@, self.stride_v as int, (src_w / 2) as int, (src_h / 2) as int, hw as int, hh as int)(r, c) by {
                assert(rect_at(0, hw as int)(r, c) == r * hw + c);
            }
        }
        out
    }
}


/// Copies the first `n` bytes of `src` over the first `n` bytes of `dst`.
fn copy_prefix(dst: &mut Vec<u8>, src: &Vec<u8>, n: usize)
    requires
        n <= old(dst)@.len(),
        n <= src@.len(),
    ensures
        final(dst)@.len() == old(dst)@.len(),
        forall|i: int| 0 <= i < n ==> #[trigger] final(dst)@[i] == src@[i],
        forall|i: int| n <= i < old(dst)@.len() ==> #[trigger] final(dst)@[i] == old(dst)@[i],
{
    let ghost s0 = dst@;
    proof {
        lemma_rect_in_bounds(0, n as int, 1, n as nat, s0.len());
        lemma_rect_in_bounds(0, n as int, 1, n as nat, src@.len());
        crate::paint::lemma_rect_injective(0, n as int, 1, n as nat);
    }
    copy_rect(dst, 0, n, src.as_slice(), 0, n, n, 1);
    proof {
        lemma_paint_injective(s0, 1, n as nat, rect_at(0, n as int), crate::paint::copy_val(src@, 0, n as int));
        assert forall|i: int| 0 <= i < n implies #[trigger] dst@[i] == src@[i] by {
            assert(rect_at(0, n as int)(0, i) == i);
        }
        assert forall|i: int| n <= i < s0.len() implies #[trigger] dst@[i] == s0[i] by {
            assert forall|r: int, c: int| 0 <= r < 1 && 0 <= c < n implies #[trigger] rect_at(0, n as int)(r, c) != i by {}
        }
    }
}

// ── VideoBuffer trait ────────────────────────────────────

/// Unified buffer interface for all pixel formats.
///
/// Every concrete buffer (I420, NV12, etc.) implements this trait.
/// Backend processing works through `as_i420_ref()` for zero-copy
/// access; format conversion goes through `to_i420()`.
pub trait VideoBuffer {
    /// Logical width in pixels.
    spec fn spec_width(&self) -> u32;

    /// Logical height in pixels.
    spec fn spec_height(&self) -> u32;

    /// Pixel layout.
    spec fn spec_format(&self) -> PixelFormat;

    /// The planes hold every byte that `to_i420` reads, and `width · height`
    /// fits in 32 bits.
    spec fn convertible(&self) -> bool;

    fn width(&self) -> (r: u32)
        ensures
            r == self.spec_width(),
    ;

    fn height(&self) -> (r: u32)
        ensures
            r == self.spec_height(),
    ;

    fn format(&self) -> (r: PixelFormat)
        ensures
            r == self.spec_format(),
    ;

    /// Zero-copy borrow of I420 planes for backend processing.
    ///
    /// Returns `None` if the buffer cannot be viewed as I420
    /// without a copy.
    fn as_i420_ref(&self) -> Option<I420BufferRef<'_>>;

    /// Convert to I420 (center format). Always succeeds for any format:
    /// the result has the same dimensions and the packed I420 layout.
    fn to_i420(&self) -> (r: MediaResult<I420Buffer>)
        requires
            self.convertible(),
        ensures
            r is Ok,
            r matches Ok(b) ==> {
                &&& b.frame_width() == self.spec_width()
                &&& b.frame_height() == self.spec_height()
                &&& b.is_packed()
            },
    ;

    /// Borrow as I420: only a I420 buffer gives itself; every other
    /// layout gives none.
    fn as_i420(&self) -> (r: Option<&I420Buffer>)
        ensures
            r is Some ==> self.spec_format() == PixelFormat::I420,
        default_ensures
            r is None,
    {
        None
    }

    /// Borrow as I422: only a I422 buffer gives itself; every other
    /// layout gives none.
    fn as_i422(&self) -> (r: Option<&I422Buffer>)
        ensures
            r is Some ==> self.spec_format() == PixelFormat::I422,
        default_ensures
            r is None,
    {
        None
    }

    /// Borrow as I444: only a I444 buffer gives itself; every other
    /// layout gives none.
    fn as_i444(&self) -> (r: Option<&I444Buffer>)
        ensures
            r is Some ==> self.spec_format() == PixelFormat::I444,
        default_ensures
            r is None,
    {
        None
    }

    /// Borrow as NV12: only a NV12 buffer gives itself; every other
    /// layout gives none.
    fn as_nv12(&self) -> (r: Option<&NV12Buffer>)
        ensures
            r is Some ==> self.spec_format() == PixelFormat::NV12,
        default_ensures
            r is None,
    {
        None
    }

    /// Borrow as I010: only a I010 buffer gives itself; every other
    /// layout gives none.
    fn as_i010(&self) -> (r: Option<&I010Buffer>)
        ensures
            r is Some ==> self.spec_format() == PixelFormat::I010,
        default_ensures
            r is None,
    {
        None
    }
}

impl VideoBuffer for I420Buffer {
    open spec fn spec_width(&self) -> u32 {
        self.width
    }

    open spec fn spec_height(&self) -> u32 {
        self.height
    }

    open spec fn spec_format(&self) -> PixelFormat {
        PixelFormat::I420
    }

    open spec fn convertible(&self) -> bool {
        self.is_packed()
    }

    fn width(&self) -> (r: u32) {
        self.width
    }

    fn height(&self) -> (r: u32) {
        self.height
    }

    fn format(&self) -> (r: PixelFormat) {
        PixelFormat::I420
    }

    fn as_i420_ref(&self) -> (r: Option<I420BufferRef<'_>>)
        ensures
            r matches Some(v) && v.y@ == self.data_y@ && v.u@ == self.data_u@ && v.v@
                == self.data_v@ && v.stride_y == self.stride_y && v.stride_u == self.stride_u
                && v.stride_v == self.stride_v,
    {
        Some(
            I420BufferRef {
                y: self.data_y.as_slice(),
                u: self.data_u.as_slice(),
                v: self.data_v.as_slice(),
                stride_y: self.stride_y as usize,
                stride_u: self.stride_u as usize,
                stride_v: self.stride_v as usize,
            },
        )
    }

    /// A copy of this buffer.
    fn to_i420(&self) -> (r: MediaResult<I420Buffer>)
        ensures
            r matches Ok(b) && b.data_y@ == self.data_y@ && b.data_u@ == self.data_u@ && b.data_v@
                == self.data_v@,
    {
        Ok(self.duplicate())
    }

    fn as_i420(&self) -> (r: Option<&I420Buffer>)
        ensures
            r == Some(self),
    {
        Some(self)
    }
}

// ── I422Buffer ───────────────────────────────────────────

/// 3-plane YUV 4:2:2 buffer — full-resolution Y, U/V at half width.
#[derive(Debug)]
pub struct I422Buffer {
    pub data_y: Vec<u8>,
    pub data_u: Vec<u8>,
    pub data_v: Vec<u8>,
    pub stride_y: u32,
    pub stride_u: u32,
    pub stride_v: u32,
    pub width: u32,
    pub height: u32,
}

impl VideoBuffer for I422Buffer {
    open spec fn spec_width(&self) -> u32 {
        self.width
    }

    open spec fn spec_height(&self) -> u32 {
        self.height
    }

    open spec fn spec_format(&self) -> PixelFormat {
        PixelFormat::I422
    }

    open spec fn convertible(&self) -> bool {
        let hw = (self.width / 2) as nat;
        let hh = (self.height / 2) as nat;
        &&& self.width * self.height <= u32::MAX
        &&& self.data_y@.len() >= luma_size(self.width, self.height)
        &&& in_bounds(hh, 2 * hw, rect_at(0, self.stride_u as int), self.data_u@.len())
        &&& in_bounds(hh, 2 * hw, rect_at(0, self.stride_v as int), self.data_v@.len())
    }

    fn width(&self) -> (r: u32) {
        self.width
    }

    fn height(&self) -> (r: u32) {
        self.height
    }

    fn format(&self) -> (r: PixelFormat) {
        PixelFormat::I422
    }

    fn as_i420_ref(&self) -> (r: Option<I420BufferRef<'_>>)
        ensures
            r is None,
    {
        None
    }

    /// Y is copied; each output chroma sample is the truncated mean of the
    /// two horizontally adjacent input samples it covers.
    fn to_i420(&self) -> (r: MediaResult<I420Buffer>)
        ensures
            r matches Ok(b) && (forall|i: int|
                0 <= i < luma_size(self.width, self.height) ==> #[trigger] b.data_y@[i]
                    == self.data_y@[i]) && (forall|y: int, x: int|
                0 <= y < self.height / 2 && 0 <= x < self.width / 2 ==> #[trigger] b.data_u@[y * (
                self.width / 2) + x] == pair_mean_val(self.data_u@, self.stride_u as int)(y, x))
                && (forall|y: int, x: int|
                0 <= y < self.height / 2 && 0 <= x < self.width / 2 ==> #[trigger] b.data_v@[y * (
                self.width / 2) + x] == pair_mean_val(self.data_v@, self.stride_v as int)(y, x)),
    {
        proof {
            assert(self.width * self.height == luma_size(self.width, self.height)) by (nonlinear_arith);
        }
        let mut out = I420Buffer::new(self.width, self.height);
        let y_size = (self.width * self.height) as usize;
        copy_prefix(&mut out.data_y, &self.data_y, y_size);
        let half_w = (self.width / 2) as usize;
        let half_h = (self.height / 2) as usize;
        let ghost ou = out.data_u@;
        let ghost ov = out.data_v@;
        proof {
            lemma_packed_rect(half_h as nat, half_w as nat, ou.len());
        }
        average_pairs(&mut out.data_u, 0, half_w, half_w, half_h, self.data_u.as_slice(), self.stride_u as usize);
        average_pairs(&mut out.data_v, 0, half_w, half_w, half_h, self.data_v.as_slice(), self.stride_v as usize);
        proof {
            lemma_paint_injective(ou, half_h as nat, half_w as nat, rect_at(0, half_w as int), pair_mean_val(self.data_u@, self.stride_u as int));
            lemma_paint_injective(ov, half_h as nat, half_w as nat, rect_at(0, half_w as int), pair_mean_val(self.data_v@, self.stride_v as int));
            assert forall|y: int, x: int| 0 <= y < self.height / 2 && 0 <= x < self.width / 2 implies #[trigger] out.data_u@[y * (self.width / 2) + x] == pair_mean_val(self.data_u@, self.stride_u as int)(y, x) by {
                assert(rect_at(0, half_w as int)(y, x) == y * half_w + x);
            }
            assert forall|y: int, x: int| 0 <= y < self.height / 2 && 0 <= x < self.width / 2 implies #[trigger] out.data_v@[y * (self.width / 2) + x] == pair_mean_val(self.data_v@, self.stride_v as int)(y, x) by {
                assert(rect_at(0, half_w as int)(y, x) == y * half_w + x);
            }
        }
        Ok(out)
    }

    fn as_i422(&self) -> (r: Option<&I422Buffer>)
        ensures
            r == Some(self),
    {
        Some(self)
    }
}

// ── I444Buffer ───────────────────────────────────────────

/// 3-plane YUV 4:4:4 buffer — full-resolution chroma.
#[derive(Debug)]
pub struct I444Buffer {
    pub data_y: Vec<u8>,
    pub data_u: Vec<u8>,
    pub data_v: Vec<u8>,
    pub stride_y: u32,
    pub stride_u: u32,
    pub stride_v: u32,
    pub width: u32,
    pub height: u32,
}

impl VideoBuffer for I444Buffer {
    open spec fn spec_width(&self) -> u32 {
        self.width
    }

    open spec fn spec_height(&self) -> u32 {
        self.height
    }

    open spec fn spec_format(&self) -> PixelFormat {
        PixelFormat::I444
    }

    open spec fn convertible(&self) -> bool {
        let hw = (self.width / 2) as nat;
        let hh = (self.height / 2) as nat;
        &&& self.width * self.height <= u32::MAX
        &&& self.data_y@.len() >= luma_size(self.width, self.height)
        &&& in_bounds(2 * hh, 2 * hw, rect_at(0, self.stride_u as int), self.data_u@.len())
        &&& in_bounds(2 * hh, 2 * hw, rect_at(0, self.stride_v as int), self.data_v@.len())
    }

    fn width(&self) -> (r: u32) {
        self.width
    }

    fn height(&self) -> (r: u32) {
        self.height
    }

    fn format(&self) -> (r: PixelFormat) {
        PixelFormat::I444
    }

    fn as_i420_ref(&self) -> (r: Option<I420BufferRef<'_>>)
        ensures
            r is None,
    {
        None
    }

    /// Y is copied; each output chroma sample is the truncated mean of the
    /// 2×2 block of input samples it covers.
    fn to_i420(&self) -> (r: MediaResult<I420Buffer>)
        ensures
            r matches Ok(b) && (forall|i: int|
                0 <= i < luma_size(self.width, self.height) ==> #[trigger] b.data_y@[i]
                    == self.data_y@[i]) && (forall|y: int, x: int|
                0 <= y < self.height / 2 && 0 <= x < self.width / 2 ==> #[trigger] b.data_u@[y * (
                self.width / 2) + x] == quad_mean_val(self.data_u@, self.stride_u as int)(y, x))
                && (forall|y: int, x: int|
                0 <= y < self.height / 2 && 0 <= x < self.width / 2 ==> #[trigger] b.data_v@[y * (
                self.width / 2) + x] == quad_mean_val(self.data_v@, self.stride_v as int)(y, x)),
    {
        proof {
            assert(self.width * self.height == luma_size(self.width, self.height)) by (nonlinear_arith);
        }
        let mut out = I420Buffer::new(self.width, self.height);
        let y_size = (self.width * self.height) as usize;
        copy_prefix(&mut out.data_y, &self.data_y, y_size);
        let half_w = (self.width / 2) as usize;
        let half_h = (self.height / 2) as usize;
        let ghost ou = out.data_u@;
        let ghost ov = out.data_v@;
        proof {
            lemma_packed_rect(half_h as nat, half_w as nat, ou.len());
        }
        average_quads(&mut out.data_u, 0, half_w, half_w, half_h, self.data_u.as_slice(), self.stride_u as usize);
        average_quads(&mut out.data_v, 0, half_w, half_w, half_h, self.data_v.as_slice(), self.stride_v as usize);
        proof {
            lemma_paint_injective(ou, half_h as nat, half_w as nat, rect_at(0, half_w as int), quad_mean_val(self.data_u@, self.stride_u as int));
            lemma_paint_injective(ov, half_h as nat, half_w as nat, rect_at(0, half_w as int), quad_mean_val(self.data_v@, self.stride_v as int));
            assert forall|y: int, x: int| 0 <= y < self.height / 2 && 0 <= x < self.width / 2 implies #[trigger] out.data_u@[y * (self.width / 2) + x] == quad_mean_val(self.data_u@, self.stride_u as int)(y, x) by {
                assert(rect_at(0, half_w as int)(y, x) == y * half_w + x);
            }
            assert forall|y: int, x: int| 0 <= y < self.height / 2 && 0 <= x < self.width / 2 implies #[trigger] out.data_v@[y * (self.width / 2) + x] == quad_mean_val(self.data_v@, self.stride_v as int)(y, x) by {
                assert(rect_at(0, half_w as int)(y, x) == y * half_w + x);
            }
        }
        Ok(out)
    }

    fn as_i444(&self) -> (r: Option<&I444Buffer>)
        ensures
            r == Some(self),
    {
        Some(self)
    }
}

// ── NV12Buffer ───────────────────────────────────────────

/// Biplanar YUV 4:2:0 buffer — full-resolution Y, interleaved UV.
#[derive(Debug)]
pub struct NV12Buffer {
    pub data_y: Vec<u8>,
    pub data_uv: Vec<u8>,
    pub stride_y: u32,
    pub stride_uv: u32,
    pub width: u32,
    pub height: u32,
}

impl VideoBuffer for NV12Buffer {
    open spec fn spec_width(&self) -> u32 {
        self.width
    }

    open spec fn spec_height(&self) -> u32 {
        self.height
    }

    open spec fn spec_format(&self) -> PixelFormat {
        PixelFormat::NV12
    }

    open spec fn convertible(&self) -> bool {
        let hw = (self.width / 2) as nat;
        let hh = (self.height / 2) as nat;
        &&& self.width * self.height <= u32::MAX
        &&& self.data_y@.len() >= luma_size(self.width, self.height)
        &&& in_bounds(hh, 2 * hw, rect_at(0, self.stride_uv as int), self.data_uv@.len())
    }

    fn width(&self) -> (r: u32) {
        self.width
    }

    fn height(&self) -> (r: u32) {
        self.height
    }

    fn format(&self) -> (r: PixelFormat) {
        PixelFormat::NV12
    }

    fn as_i420_ref(&self) -> (r: Option<I420BufferRef<'_>>)
        ensures
            r is None,
    {
        None
    }

    /// Y is copied; the interleaved UVUV rows are split into the U plane
    /// (even bytes) and the V plane (odd bytes).
    fn to_i420(&self) -> (r: MediaResult<I420Buffer>)
        ensures
            r matches Ok(b) && (forall|i: int|
                0 <= i < luma_size(self.width, self.height) ==> #[trigger] b.data_y@[i]
                    == self.data_y@[i]) && (forall|y: int, x: int|
                0 <= y < self.height / 2 && 0 <= x < self.width / 2 ==> #[trigger] b.data_u@[y * (
                self.width / 2) + x] == self.data_uv@[y * self.stride_uv + 2 * x]) && (forall|
                y: int,
                x: int,
            |
                0 <= y < self.height / 2 && 0 <= x < self.width / 2 ==> #[trigger] b.data_v@[y * (
                self.width / 2) + x] == self.data_uv@[y * self.stride_uv + 2 * x + 1]),
    {
        proof {
            assert(self.width * self.height == luma_size(self.width, self.height)) by (nonlinear_arith);
        }
        let mut out = I420Buffer::new(self.width, self.height);
        let y_size = (self.width * self.height) as usize;
        copy_prefix(&mut out.data_y, &self.data_y, y_size);
        let half_w = (self.width / 2) as usize;
        let half_h = (self.height / 2) as usize;
        let uv_stride = self.stride_uv as usize;
        let out_uv_stride = out.stride_u as usize;
        let ghost ou = out.data_u@;
        let ghost ov = out.data_v@;
        proof {
            lemma_packed_rect(half_h as nat, half_w as nat, ou.len());
        }
        deinterleave_rect(&mut out.data_u, 0, out_uv_stride, half_w, half_h, self.data_uv.as_slice(), uv_stride, 0);
        deinterleave_rect(&mut out.data_v, 0, out_uv_stride, half_w, half_h, self.data_uv.as_slice(), uv_stride, 1);
        proof {
            lemma_paint_injective(ou, half_h as nat, half_w as nat, rect_at(0, half_w as int), interleaved_val(self.data_uv@, uv_stride as int, 0));
            lemma_paint_injective(ov, half_h as nat, half_w as nat, rect_at(0, half_w as int), interleaved_val(self.data_uv@, uv_stride as int, 1));
            assert forall|y: int, x: int| 0 <= y < self.height / 2 && 0 <= x < self.width / 2 implies #[trigger] out.data_u@[y * (self.width / 2) + x] == self.data_uv@[y * self.stride_uv + 2 * x] by {
                assert(rect_at(0, half_w as int)(y, x) == y * half_w + x);
            }
            assert forall|y: int, x: int| 0 <= y < self.height / 2 && 0 <= x < self.width / 2 implies #[trigger] out.data_v@[y * (self.width / 2) + x] == self.data_uv@[y * self.stride_uv + 2 * x + 1] by {
                assert(rect_at(0, half_w as int)(y, x) == y * half_w + x);
            }
        }
        Ok(out)
    }

    fn as_nv12(&self) -> (r: Option<&NV12Buffer>)
        ensures
            r == Some(self),
    {
        Some(self)
    }
}

// ── I010Buffer ───────────────────────────────────────────

/// 10-bit planar YUV 4:2:0 buffer — same geometry as I420, `u16` per sample.
#[derive(Debug)]
pub struct I010Buffer {
    pub data_y: Vec<u16>,
    pub data_u: Vec<u16>,
    pub data_v: Vec<u16>,
    pub stride_y: u32,
    pub stride_u: u32,
    pub stride_v: u32,
    pub width: u32,
    pub height: u32,
}

/// Narrows the first `n` samples of `src` into the first `n` bytes of `dst`.
fn narrow_prefix(dst: &mut Vec<u8>, src: &Vec<u16>, n: usize)
    requires
        n <= old(dst)@.len(),
        n <= src@.len(),
    ensures
        final(dst)@.len() == old(dst)@.len(),
        forall|i: int| 0 <= i < n ==> #[trigger] final(dst)@[i] == (src@[i] >> 2u16) as u8,
        forall|i: int| n <= i < old(dst)@.len() ==> #[trigger] final(dst)@[i] == old(dst)@[i],
{
    let ghost s0 = dst@;
    proof {
        lemma_rect_in_bounds(0, n as int, 1, n as nat, s0.len());
        lemma_rect_in_bounds(0, n as int, 1, n as nat, src@.len());
        crate::paint::lemma_rect_injective(0, n as int, 1, n as nat);
    }
    narrow_rect(dst, 0, n, n, 1, src.as_slice(), n);
    proof {
        lemma_paint_injective(s0, 1, n as nat, rect_at(0, n as int), narrow_val(src@, n as int));
        assert forall|i: int| 0 <= i < n implies #[trigger] dst@[i] == (src@[i] >> 2u16) as u8 by {
            assert(rect_at(0, n as int)(0, i) == i);
        }
        assert forall|i: int| n <= i < s0.len() implies #[trigger] dst@[i] == s0[i] by {
            assert forall|r: int, c: int| 0 <= r < 1 && 0 <= c < n implies #[trigger] rect_at(0, n as int)(r, c) != i by {}
        }
    }
}

impl VideoBuffer for I010Buffer {
    open spec fn spec_width(&self) -> u32 {
        self.width
    }

    open spec fn spec_height(&self) -> u32 {
        self.height
    }

    open spec fn spec_format(&self) -> PixelFormat {
        PixelFormat::I010
    }

    open spec fn convertible(&self) -> bool {
        &&& self.width * self.height <= u32::MAX
        &&& self.data_y@.len() >= luma_size(self.width, self.height)
        &&& self.data_u@.len() >= chroma_size(self.width, self.height)
        &&& self.data_v@.len() >= chroma_size(self.width, self.height)
    }

    fn width(&self) -> (r: u32) {
        self.width
    }

    fn height(&self) -> (r: u32) {
        self.height
    }

    fn format(&self) -> (r: PixelFormat) {
        PixelFormat::I010
    }

    fn as_i420_ref(&self) -> (r: Option<I420BufferRef<'_>>)
        ensures
            r is None,
    {
        None
    }

    /// Every sample is shifted right by two bits (10 → 8 bits), plane by plane
    /// over the packed sizes.
    fn to_i420(&self) -> (r: MediaResult<I420Buffer>)
        ensures
            r matches Ok(b) && (forall|i: int|
                0 <= i < luma_size(self.width, self.height) ==> #[trigger] b.data_y@[i] == (
                self.data_y@[i] >> 2u16) as u8) && (forall|i: int|
                0 <= i < chroma_size(self.width, self.height) ==> #[trigger] b.data_u@[i] == (
                self.data_u@[i] >> 2u16) as u8) && (forall|i: int|
                0 <= i < chroma_size(self.width, self.height) ==> #[trigger] b.data_v@[i] == (
                self.data_v@[i] >> 2u16) as u8),
    {
        proof {
            assert(self.width * self.height == luma_size(self.width, self.height)) by (nonlinear_arith);
            assert((self.width / 2) * (self.height / 2) == chroma_size(self.width, self.height)) by (nonlinear_arith);
            lemma_chroma_le_luma(self.width, self.height);
        }
        let mut out = I420Buffer::new(self.width, self.height);
        let y_size = (self.width * self.height) as usize;
        let uv_size = ((self.width / 2) * (self.height / 2)) as usize;
        narrow_prefix(&mut out.data_y, &self.data_y, y_size);
        narrow_prefix(&mut out.data_u, &self.data_u, uv_size);
        narrow_prefix(&mut out.data_v, &self.data_v, uv_size);
        Ok(out)
    }

    fn as_i010(&self) -> (r: Option<&I010Buffer>)
        ensures
            r == Some(self),
    {
        Some(self)
    }
}

/// Nearest-neighbour reads of a packed `cols × rows` plane (row pitch
/// `cols`) lie inside it when it is not empty.
proof fn lemma_packed_plane_nn(rows: int, cols: int, dw: int, dh: int)
    requires
        rows > 0,
        cols > 0,
        dw >= 0,
        dh >= 0,
    ensures
        in_bounds(dh as nat, dw as nat, nn_at(cols, cols, rows, dw, dh), (rows * cols) as nat),
{
    assert forall|r: int, c: int| 0 <= r < dh && 0 <= c < dw implies 0 <= #[trigger] nn_at(
        cols,
        cols,
        rows,
        dw,
        dh,
    )(r, c) < rows * cols by {
        lemma_nn_src_bound(r, rows, dh);
        lemma_nn_src_bound(c, cols, dw);
        let sr = nn_src(r, rows, dh);
        let sc = nn_src(c, cols, dw);
        assert(0 <= sr * cols + sc < rows * cols) by (nonlinear_arith)
            requires
                0 <= sr < rows,
                0 <= sc < cols,
        ;
    }
}

/// A packed buffer holds every pixel that scaling reads, unless a plane it
/// reads from is empty while the scaled plane is not.
pub proof fn lemma_packed_scale_reads_ok(b: &I420Buffer, nw: u32, nh: u32)
    requires
        b.packed_scale_ok(nw, nh),
    ensures
        b.scale_reads_ok(nw, nh),
{
    let w = b.frame_width() as int;
    let h = b.frame_height() as int;
    if nw > 0 && nh > 0 {
        lemma_packed_plane_nn(h, w, nw as int, nh as int);
        assert(luma_size(b.frame_width(), b.frame_height()) == h * w);
    }
    if nw / 2 > 0 && nh / 2 > 0 {
        lemma_packed_plane_nn(h / 2, w / 2, (nw / 2) as int, (nh / 2) as int);
        assert(chroma_size(b.frame_width(), b.frame_height()) == (h / 2) * (w / 2));
    }
}

} // verus!
