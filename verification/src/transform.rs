use vstd::prelude::*;

use crate::base::buffer::{I420Buffer, I420BufferRef};
use crate::base::rotation::VideoRotation;
use crate::error::MediaError;
use crate::paint::{in_bounds, nn_at, rect_at};
use crate::pixel_format::PixelFormat;

verus! {

/// Each plane of `b` holds the rectangle of `w × h` (chroma: `w/2 × h/2`)
/// at its row pitch; the V plane is addressed with pitch `v_stride`.
pub open spec fn dst_fits(b: I420Buffer, w: nat, h: nat, v_stride: int) -> bool {
    &&& in_bounds(h, w, rect_at(0, b.stride_y as int), b.data_y@.len())
    &&& in_bounds(h / 2, w / 2, rect_at(0, b.stride_u as int), b.data_u@.len())
    &&& in_bounds(h / 2, w / 2, rect_at(0, v_stride), b.data_v@.len())
}

/// `a` and `b` have the same strides and dimensions.
pub open spec fn same_layout(a: I420Buffer, b: I420Buffer) -> bool {
    &&& a.stride_y == b.stride_y
    &&& a.stride_u == b.stride_u
    &&& a.stride_v == b.stride_v
    &&& a.width == b.width
    &&& a.height == b.height
}

/// The planes of `src` hold every byte that resampling `sw × sh` to `dw × dh` reads.
pub open spec fn scale_src_fits(src: I420BufferRef, sw: u32, sh: u32, dw: u32, dh: u32) -> bool {
    &&& in_bounds(
        dh as nat,
        dw as nat,
        nn_at(src.stride_y as int, sw as int, sh as int, dw as int, dh as int),
        src.y@.len(),
    )
    &&& in_bounds(
        (dh / 2) as nat,
        (dw / 2) as nat,
        nn_at(src.stride_u as int, (sw / 2) as int, (sh / 2) as int, (dw / 2) as int, (dh / 2) as int),
        src.u@.len(),
    )
    &&& in_bounds(
        (dh / 2) as nat,
        (dw / 2) as nat,
        nn_at(src.stride_v as int, (sw / 2) as int, (sh / 2) as int, (dw / 2) as int, (dh / 2) as int),
        src.v@.len(),
    )
}

/// The planes of `src` hold the rectangle of `w × h` whose top-left corner is
/// `(x, y)` (chroma: `(x/2, y/2)`, `w/2 × h/2`); the V plane is addressed
/// with pitch `v_stride`.
pub open spec fn src_window_fits(src: I420BufferRef, x: u32, y: u32, w: u32, h: u32, v_stride: int) -> bool {
    &&& in_bounds(h as nat, w as nat, rect_at(y * src.stride_y + x, src.stride_y as int), src.y@.len())
    &&& in_bounds(
        (h / 2) as nat,
        (w / 2) as nat,
        rect_at((y / 2) * src.stride_u + x / 2, src.stride_u as int),
        src.u@.len(),
    )
    &&& in_bounds(
        (h / 2) as nat,
        (w / 2) as nat,
        rect_at((y / 2) * v_stride + x / 2, v_stride),
        src.v@.len(),
    )
}

/// Bytes of each row of a B,G,R,A image that `argb_to_i420` reads for `hw`
/// blocks: every byte of the `2·hw` pixels but the alpha of the last one.
pub open spec fn argb_row_reads(hw: int) -> int {
    if hw == 0 {
        0
    } else {
        8 * hw - 1
    }
}

/// Rotations by 90 and 270 degrees swap the axes of the picture.
pub open spec fn swaps_axes(rot: VideoRotation) -> bool {
    rot is Rotation90 || rot is Rotation270
}

/// Merged trait for spatial transforms and color space conversion.
/// Sources are read through an `I420BufferRef`, destinations are written in place.
pub trait VideoTransform {
    // --- Spatial transforms ---
    fn scale(
        src: I420BufferRef,
        src_w: u32,
        src_h: u32,
        dst: &mut I420Buffer,
        dst_w: u32,
        dst_h: u32,
    ) -> Result<(), MediaError>
        requires
            scale_src_fits(src, src_w, src_h, dst_w, dst_h),
            dst_fits(*old(dst), dst_w as nat, dst_h as nat, old(dst).stride_v as int),
    ;

    fn mirror(src: I420BufferRef, w: u32, h: u32, dst: &mut I420Buffer) -> Result<(), MediaError>
        requires
            src_window_fits(src, 0, 0, w, h, src.stride_v as int),
            dst_fits(*old(dst), w as nat, h as nat, old(dst).stride_v as int),
    ;

    fn crop(
        src: I420BufferRef,
        x: u32,
        y: u32,
        w: u32,
        h: u32,
        dst: &mut I420Buffer,
    ) -> Result<(), MediaError>
        requires
            src_window_fits(src, x, y, w, h, src.stride_v as int),
            dst_fits(*old(dst), w as nat, h as nat, old(dst).stride_v as int),
    ;

    fn rotate(
        src: I420BufferRef,
        w: u32,
        h: u32,
        rot: VideoRotation,
        dst: &mut I420Buffer,
    ) -> Result<(), MediaError>
        requires
            src_window_fits(
                src,
                0,
                0,
                w,
                h,
                src.stride_v as int,
            ),
            swaps_axes(rot) ==> dst_fits(*old(dst), h as nat, w as nat, old(dst).stride_v as int),
            !swaps_axes(rot) ==> dst_fits(
                *old(dst),
                w as nat,
                h as nat,
                old(dst).stride_v as int,
            ),
    ;

    // --- Color space conversion ---
    fn argb_to_i420(argb: &[u8], w: u32, h: u32, dst: &mut I420Buffer) -> Result<(), MediaError>
        requires
            4 * w <= usize::MAX,
            in_bounds(
                (2 * (h / 2)) as nat,
                argb_row_reads((w / 2) as int) as nat,
                rect_at(0, 4 * w),
                argb@.len(),
            ),
            dst_fits(*old(dst), (2 * (w / 2)) as nat, (2 * (h / 2)) as nat, old(dst).stride_u as int),
    ;

    fn i420_to_argb(
        src: I420BufferRef,
        w: u32,
        h: u32,
        fmt: PixelFormat,
        dst: &mut Vec<u8>,
    ) -> Result<(), MediaError>
        requires
            4 * w <= usize::MAX,
            fmt.is_packed_rgb() ==> {
                &&& in_bounds(h as nat, w as nat, rect_at(0, src.stride_y as int), src.y@.len())
                &&& in_bounds(
                    ((h + 1) / 2) as nat,
                    ((w + 1) / 2) as nat,
                    rect_at(0, src.stride_u as int),
                    src.u@.len(),
                )
                &&& in_bounds(
                    ((h + 1) / 2) as nat,
                    ((w + 1) / 2) as nat,
                    rect_at(0, src.stride_v as int),
                    src.v@.len(),
                )
                &&& in_bounds(h as nat, (4 * w) as nat, rect_at(0, 4 * w), old(dst)@.len())
            },
    ;

    fn i420_to_nv12(
        src: I420BufferRef,
        w: u32,
        h: u32,
        dst_y: &mut Vec<u8>,
        dst_uv: &mut Vec<u8>,
    ) -> Result<(), MediaError>
        requires
            src_window_fits(src, 0, 0, w, h, src.stride_u as int),
            in_bounds(h as nat, w as nat, rect_at(0, w as int), old(dst_y)@.len()),
            in_bounds(
                (h / 2) as nat,
                (2 * (w / 2)) as nat,
                rect_at(0, 2 * (w / 2)),
                old(dst_uv)@.len(),
            ),
    ;

    fn nv12_to_i420(
        src_y: &[u8],
        src_uv: &[u8],
        w: u32,
        h: u32,
        dst: &mut I420Buffer,
    ) -> Result<(), MediaError>
        requires
            in_bounds(h as nat, w as nat, rect_at(0, w as int), src_y@.len()),
            in_bounds(
                (h / 2) as nat,
                (2 * (w / 2)) as nat,
                rect_at(0, 2 * (w / 2)),
                src_uv@.len(),
            ),
            dst_fits(*old(dst), w as nat, h as nat, old(dst).stride_u as int),
    ;
}

} // verus!
