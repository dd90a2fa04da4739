//! Test-pattern generators: patterns painted into I420 planes, text and
//! timestamps burned over them.

pub mod canvas;
pub mod fonts;
pub mod sinks;
pub mod smpte_bars;
pub mod square_pattern;
pub mod squares;
pub mod timestamp;

use vstd::prelude::*;
use crate::base::buffer::{chroma_size, luma_size, I420Buffer};
use timestamp::TimestampOverlay as TextOverlay;

pub use fonts::bitmap_font::BitmapFont;
pub use fonts::text_burner::{Anchor, TextBurner};
pub use sinks::SinkRegistry;
pub use smpte_bars::SmpteBarsPattern;
pub use square_pattern::SquarePattern;
pub use squares::{ColorStrategy, Square, SquaresConfig, SquaresPattern};
pub use timestamp::{TimestampFormat, TimestampOverlay};


verus! {

/// Draws a pattern into pre-allocated I420 plane buffers.
///
/// Implementors are called once per generated frame. The caller
/// guarantees that the planes hold what `planes_fit` asks of them and that
/// the strides describe their layout.
pub trait FramePattern {
    /// The planes, of these lengths and row pitches, hold every pixel that
    /// drawing a `width × height` frame writes.
    spec fn planes_fit(
        &self,
        len_y: nat,
        len_u: nat,
        len_v: nat,
        stride_y: int,
        stride_u: int,
        stride_v: int,
        width: int,
        height: int,
    ) -> bool;

    /// What one call of `draw` does: from the pattern `self` and the planes
    /// `y0`, `u0`, `v0` to the pattern `after` and the planes `y1`, `u1`, `v1`.
    spec fn drawn(
        &self,
        after: &Self,
        y0: Seq<u8>,
        u0: Seq<u8>,
        v0: Seq<u8>,
        y1: Seq<u8>,
        u1: Seq<u8>,
        v1: Seq<u8>,
        stride_y: int,
        stride_u: int,
        stride_v: int,
        width: int,
        height: int,
    ) -> bool;

    /// Fill the three I420 planes with pixel data. `stride_*` gives the row
    /// pitch of each plane; `width` and `height` are the frame's dimensions.
    fn draw(
        &mut self,
        y: &mut Vec<u8>,
        u: &mut Vec<u8>,
        v: &mut Vec<u8>,
        stride_y: usize,
        stride_u: usize,
        stride_v: usize,
        width: u32,
        height: u32,
    )
        requires
            old(self).planes_fit(
                old(y)@.len(),
                old(u)@.len(),
                old(v)@.len(),
                stride_y as int,
                stride_u as int,
                stride_v as int,
                width as int,
                height as int,
            ),
        ensures
            final(y)@.len() == old(y)@.len(),
            final(u)@.len() == old(u)@.len(),
            final(v)@.len() == old(v)@.len(),
            old(self).drawn(
                final(self),
                old(y)@,
                old(u)@,
                old(v)@,
                final(y)@,
                final(u)@,
                final(v)@,
                stride_y as int,
                stride_u as int,
                stride_v as int,
                width as int,
                height as int,
            ),
    ;

    /// Whether the planes of a new packed `width × height` I420 buffer hold
    /// what drawing asks of them.
    fn fits_packed(&self, width: u32, height: u32) -> (b: bool)
        requires
            width * height <= u32::MAX,
        ensures
            b == self.planes_fit(
                luma_size(width, height) as nat,
                chroma_size(width, height) as nat,
                chroma_size(width, height) as nat,
                width as int,
                (width / 2) as int,
                (width / 2) as int,
                width as int,
                height as int,
            ),
    ;
}

/// The planes of a packed `w × h` I420 frame: luma `w · h` bytes of pitch
/// `w`, each chroma plane `(w / 2) · (h / 2)` bytes of pitch `w / 2`.
pub open spec fn packed_planes_fit<P: FramePattern>(pattern: &P, w: u32, h: u32) -> bool {
    pattern.planes_fit(
        luma_size(w, h) as nat,
        chroma_size(w, h) as nat,
        chroma_size(w, h) as nat,
        w as int,
        (w / 2) as int,
        (w / 2) as int,
        w as int,
        h as int,
    )
}

/// The planes `y2`, `u2`, `v2` are `y1`, `u1`, `v1` with the overlay,
/// if any, burned over a `w × h` frame where its text block can be laid
/// out.
pub open spec fn overlaid(
    overlay: Option<&TimestampOverlay>,
    ts_us: i64,
    frame_id: u32,
    width: u32,
    height: u32,
    y1: Seq<u8>,
    u1: Seq<u8>,
    v1: Seq<u8>,
    y2: Seq<u8>,
    u2: Seq<u8>,
    v2: Seq<u8>,
) -> bool {
    match overlay {
        None => y2 == y1 && u2 == u1 && v2 == v1,
        Some(o) => {
            let text = timestamp::overlay_text(o.format_spec(), ts_us, frame_id);
            if text.len() == 0 || o.block_computable(text, width as int, height as int) {
                o.burned(
                    text,
                    y1,
                    u1,
                    v1,
                    y2,
                    u2,
                    v2,
                    width as int,
                    (width / 2) as int,
                    (width / 2) as int,
                    width as int,
                    height as int,
                )
            } else {
                y2 == y1 && u2 == u1 && v2 == v1
            }
        },
    }
}

/// One generated frame: a new `width × height` I420 buffer (black luma,
/// neutral chroma) with the pattern drawn into it, then the overlay burned
/// over it where its text block can be laid out.
///
/// The frame must hold what the pattern and the overlay write: on a frame
/// of fewer than two pixels in a direction the chroma planes are empty,
/// and drawing a square, a bar row or the overlay's backdrop there would
/// index outside them. `FramePattern::fits_packed` and
/// `TimestampOverlay::fits_packed` test those conditions.
pub fn render_frame<P: FramePattern>(
    pattern: &mut P,
    overlay: Option<&TimestampOverlay>,
    width: u32,
    height: u32,
    ts_us: i64,
    frame_id: u32,
) -> (buf: I420Buffer)
    requires
        width * height <= u32::MAX,
        packed_planes_fit(&*old(pattern), width, height),
        overlay is Some ==> TextOverlay::planes_hold(
            luma_size(width, height) as nat,
            chroma_size(width, height) as nat,
            chroma_size(width, height) as nat,
            width as int,
            (width / 2) as int,
            (width / 2) as int,
            width as int,
            height as int,
        ),
    ensures
        buf.frame_width() == width,
        buf.frame_height() == height,
        buf.is_packed(),
        exists|y1: Seq<u8>, u1: Seq<u8>, v1: Seq<u8>|
            {
                &&& #[trigger] old(pattern).drawn(
                    final(pattern),
                    square_pattern::flat_plane(luma_size(width, height) as nat, 0),
                    square_pattern::flat_plane(chroma_size(width, height) as nat, 128),
                    square_pattern::flat_plane(chroma_size(width, height) as nat, 128),
                    y1,
                    u1,
                    v1,
                    width as int,
                    (width / 2) as int,
                    (width / 2) as int,
                    width as int,
                    height as int,
                )
                &&& overlaid(overlay, ts_us, frame_id, width, height, y1, u1, v1, buf.data_y@, buf.data_u@, buf.data_v@)
            },
{
    let mut buf = I420Buffer::new(width, height);
    proof {
        assert(buf.data_y@ =~= square_pattern::flat_plane(luma_size(width, height) as nat, 0));
        assert(buf.data_u@ =~= square_pattern::flat_plane(chroma_size(width, height) as nat, 128));
        assert(buf.data_v@ =~= square_pattern::flat_plane(chroma_size(width, height) as nat, 128));
    }
    let ghost y0 = buf.data_y@;
    let ghost u0 = buf.data_u@;
    let ghost v0 = buf.data_v@;
    let stride_y = buf.stride_y as usize;
    let stride_u = buf.stride_u as usize;
    let stride_v = buf.stride_v as usize;
    pattern.draw(&mut buf.data_y, &mut buf.data_u, &mut buf.data_v, stride_y, stride_u, stride_v, width, height);
    let ghost y1 = buf.data_y@;
    let ghost u1 = buf.data_u@;
    let ghost v1 = buf.data_v@;
    assert(old(pattern).drawn(
        &*pattern,
        square_pattern::flat_plane(luma_size(width, height) as nat, 0),
        square_pattern::flat_plane(chroma_size(width, height) as nat, 128),
        square_pattern::flat_plane(chroma_size(width, height) as nat, 128),
        y1,
        u1,
        v1,
        width as int,
        (width / 2) as int,
        (width / 2) as int,
        width as int,
        height as int,
    ));
    match overlay {
        Some(o) => {
            let _ = o.burn_i420_checked(
                &mut buf.data_y,
                &mut buf.data_u,
                &mut buf.data_v,
                stride_y,
                stride_u,
                stride_v,
                ts_us,
                frame_id,
                width,
                height,
            );
        },
        None => {},
    }
    assert(overlaid(overlay, ts_us, frame_id, width, height, y1, u1, v1, buf.data_y@, buf.data_u@, buf.data_v@));
    buf
}

/// How long to sleep before the next frame, at `now` with the next frame
/// due at `next` (both in one unit, from a common origin): the time
/// left, or none when the frame is already due.
pub fn pacing_sleep(now: u64, next: u64) -> (d: u64)
    ensures
        d == if now < next { next - now } else { 0 },
{
    if now < next {
        next - now
    } else {
        0
    }
}

/// When the frame after the one due at `next` is due: one frame interval
/// later, or, where that is already past at `now_check`, one interval after
/// `now_reset` (the clock is reset after falling behind).
pub fn pacing_next(next: u64, frame: u64, now_check: u64, now_reset: u64) -> (n: u64)
    requires
        next + frame <= u64::MAX,
        now_reset + frame <= u64::MAX,
    ensures
        n == if next + frame <= now_check { now_reset + frame } else { next + frame },
{
    let advanced = next + frame;
    if advanced <= now_check {
        now_reset + frame
    } else {
        advanced
    }
}

/// Which pattern to generate.
pub enum PatternMode {
    /// Colored squares with configurable count, size, color strategy, and motion.
    Squares(SquaresConfig),
    /// SMPTE 75% color bars plus grayscale gradient.
    SmpteBars,
}

} // verus!
