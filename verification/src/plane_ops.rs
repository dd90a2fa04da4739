//! Row-by-row plane writers. Each stores one byte per step of a rectangle
//! of the destination plane (row pitch `dstride`, first byte at `dbase`)
//! and is proved to leave exactly the plane that `paint` describes.

use vstd::prelude::*;

use crate::paint::{in_bounds, paint, paint_row, rect_at};

verus! {

/// flipped val: byte `c` of source row `rows - 1 - r`
pub open spec fn flipped_val(src: Seq<u8>, base: int, stride: int, rows: int) -> spec_fn(int, int) -> u8 {
    |r: int, c: int| src[base + (rows - 1 - r) * stride + c]
}

/// Copies the rectangle of `rows × cols` at `sbase` (row pitch `sstride`) of
/// `src` into the destination rectangle upside down: destination row `r`
/// takes source row `rows - 1 - r`.
#[verifier::rlimit(50)]
pub(crate) fn copy_rect_flipped(
    dst: &mut Vec<u8>,
    dbase: usize,
    dstride: usize,
    cols: usize,
    rows: usize,
    src: &[u8],
    sbase: usize,
    sstride: usize,
)
    requires
        in_bounds(rows as nat, cols as nat, rect_at(dbase as int, dstride as int), old(dst)@.len()),
        in_bounds(rows as nat, cols as nat, rect_at(sbase as int, sstride as int), src@.len()),
    ensures
        final(dst)@ == paint(
            old(dst)@,
            rows as nat,
            cols as nat,
            rect_at(dbase as int, dstride as int),
            flipped_val(src@, sbase as int, sstride as int, rows as int),
        ),
{
    let ghost at = rect_at(dbase as int, dstride as int);
    let ghost val = flipped_val(src@, sbase as int, sstride as int, rows as int);
    let ghost s0 = dst@;
    let slen = src.len();
    let mut r: usize = 0;
    while r < rows
        invariant
            r <= rows,
            slen == src@.len(),
            s0 == old(dst)@,
            at == rect_at(dbase as int, dstride as int),
            val == flipped_val(src@, sbase as int, sstride as int, rows as int),
            in_bounds(rows as nat, cols as nat, at, s0.len()),
            in_bounds(rows as nat, cols as nat, rect_at(sbase as int, sstride as int), src@.len()),

            dst@ == paint(s0, r as nat, cols as nat, at, val),
            dst.len() == s0.len(),
        decreases rows - r,
    {
        if cols == 0 {
            r = r + 1;
            continue;
        }
        assert(0 <= at(r as int, 0) < s0.len());
        let drow = dbase + r * dstride;
        assert(0 <= rect_at(sbase as int, sstride as int)((rows - 1 - r) as int, 0) < src@.len());
        let srow = sbase + (rows - 1 - r) * sstride;
        let mut c: usize = 0;
        while c < cols
            invariant
                r < rows,
                c <= cols,
                slen == src@.len(),
                drow == dbase + r * dstride,
                srow == sbase + (rows - 1 - r) * sstride,
                s0 == old(dst)@,
                at == rect_at(dbase as int, dstride as int),
                val == flipped_val(src@, sbase as int, sstride as int, rows as int),
                in_bounds(rows as nat, cols as nat, at, s0.len()),
                in_bounds(rows as nat, cols as nat, rect_at(sbase as int, sstride as int), src@.len()),

                dst@ == paint_row(paint(s0, r as nat, cols as nat, at, val), r as int, c as nat, at, val),
                dst.len() == s0.len(),
            decreases cols - c,
        {
            assert(0 <= at(r as int, c as int) < s0.len());
            assert(0 <= rect_at(sbase as int, sstride as int)((rows - 1 - r) as int, c as int) < src@.len());
            let b = src[srow + c];
            assert(b == val(r as int, c as int));
            dst.set(drow + c, b);
            c = c + 1;
        }
        r = r + 1;
    }
}

/// interleaved val: byte `2c + phase` of source row `r`
pub open spec fn interleaved_val(src: Seq<u8>, stride: int, phase: int) -> spec_fn(int, int) -> u8 {
    |r: int, c: int| src[r * stride + 2 * c + phase]
}

/// Fills the destination rectangle with every other byte of the rows of
/// `src` (row pitch `sstride`): column `c` of row `r` takes `src[r·sstride + 2c + phase]`.
#[verifier::rlimit(50)]
pub(crate) fn deinterleave_rect(
    dst: &mut Vec<u8>,
    dbase: usize,
    dstride: usize,
    cols: usize,
    rows: usize,
    src: &[u8],
    sstride: usize,
    phase: usize,
)
    requires
        in_bounds(rows as nat, cols as nat, rect_at(dbase as int, dstride as int), old(dst)@.len()),
        phase < 2,
        in_bounds(rows as nat, (2 * cols) as nat, rect_at(0, sstride as int), src@.len()),
    ensures
        final(dst)@ == paint(
            old(dst)@,
            rows as nat,
            cols as nat,
            rect_at(dbase as int, dstride as int),
            interleaved_val(src@, sstride as int, phase as int),
        ),
{
    let ghost at = rect_at(dbase as int, dstride as int);
    let ghost val = interleaved_val(src@, sstride as int, phase as int);
    let ghost s0 = dst@;
    let slen = src.len();
    let mut r: usize = 0;
    while r < rows
        invariant
            r <= rows,
            slen == src@.len(),
            s0 == old(dst)@,
            at == rect_at(dbase as int, dstride as int),
            val == interleaved_val(src@, sstride as int, phase as int),
            in_bounds(rows as nat, cols as nat, at, s0.len()),
            phase < 2,
            in_bounds(rows as nat, (2 * cols) as nat, rect_at(0, sstride as int), src@.len()),

            dst@ == paint(s0, r as nat, cols as nat, at, val),
            dst.len() == s0.len(),
        decreases rows - r,
    {
        if cols == 0 {
            r = r + 1;
            continue;
        }
        assert(0 <= at(r as int, 0) < s0.len());
        let drow = dbase + r * dstride;
        assert(0 <= rect_at(0, sstride as int)(r as int, 0) < src@.len());
        let srow = r * sstride;
        let mut c: usize = 0;
        while c < cols
            invariant
                r < rows,
                c <= cols,
                slen == src@.len(),
                drow == dbase + r * dstride,
                srow == r * sstride,
                s0 == old(dst)@,
                at == rect_at(dbase as int, dstride as int),
                val == interleaved_val(src@, sstride as int, phase as int),
                in_bounds(rows as nat, cols as nat, at, s0.len()),
                phase < 2,
                in_bounds(rows as nat, (2 * cols) as nat, rect_at(0, sstride as int), src@.len()),

                dst@ == paint_row(paint(s0, r as nat, cols as nat, at, val), r as int, c as nat, at, val),
                dst.len() == s0.len(),
            decreases cols - c,
        {
            assert(0 <= at(r as int, c as int) < s0.len());
            assert(0 <= rect_at(0, sstride as int)(r as int, (2 * c + phase) as int) < src@.len());
            let b = src[srow + 2 * c + phase];
            assert(b == val(r as int, c as int));
            dst.set(drow + c, b);
            c = c + 1;
        }
        r = r + 1;
    }
}

/// interleave val: `u` for even columns, `v` for odd ones, at column `c / 2`
pub open spec fn interleave_val(u: Seq<u8>, v: Seq<u8>, stride: int) -> spec_fn(int, int) -> u8 {
    |r: int, c: int| if c % 2 == 0 { u[r * stride + c / 2] } else { v[r * stride + c / 2] }
}

/// Fills the destination rectangle by interleaving `u` and `v` (shared row
/// pitch `sstride`): column `j` of row `r` takes `u[r·sstride + j/2]` for even
/// `j` and `v[r·sstride + j/2]` for odd `j`.
#[verifier::rlimit(50)]
pub(crate) fn interleave_rect(
    dst: &mut Vec<u8>,
    dbase: usize,
    dstride: usize,
    cols: usize,
    rows: usize,
    u: &[u8],
    v: &[u8],
    sstride: usize,
)
    requires
        in_bounds(rows as nat, cols as nat, rect_at(dbase as int, dstride as int), old(dst)@.len()),
        cols % 2 == 0,
        in_bounds(rows as nat, (cols / 2) as nat, rect_at(0, sstride as int), u@.len()),
        in_bounds(rows as nat, (cols / 2) as nat, rect_at(0, sstride as int), v@.len()),
    ensures
        final(dst)@ == paint(
            old(dst)@,
            rows as nat,
            cols as nat,
            rect_at(dbase as int, dstride as int),
            interleave_val(u@, v@, sstride as int),
        ),
{
    let ghost at = rect_at(dbase as int, dstride as int);
    let ghost val = interleave_val(u@, v@, sstride as int);
    let ghost s0 = dst@;
    let ulen = u.len();
    let vlen = v.len();
    let mut r: usize = 0;
    while r < rows
        invariant
            r <= rows,
            ulen == u@.len(),
            vlen == v@.len(),
            s0 == old(dst)@,
            at == rect_at(dbase as int, dstride as int),
            val == interleave_val(u@, v@, sstride as int),
            in_bounds(rows as nat, cols as nat, at, s0.len()),
            cols % 2 == 0,
            in_bounds(rows as nat, (cols / 2) as nat, rect_at(0, sstride as int), u@.len()),
            in_bounds(rows as nat, (cols / 2) as nat, rect_at(0, sstride as int), v@.len()),

            dst@ == paint(s0, r as nat, cols as nat, at, val),
            dst.len() == s0.len(),
        decreases rows - r,
    {
        if cols == 0 {
            r = r + 1;
            continue;
        }
        assert(0 <= at(r as int, 0) < s0.len());
        let drow = dbase + r * dstride;
        assert(0 <= rect_at(0, sstride as int)(r as int, 0) < u@.len());
        let srow = r * sstride;
        let mut c: usize = 0;
        while c < cols
            invariant
                r < rows,
                c <= cols,
                ulen == u@.len(),
                vlen == v@.len(),
                drow == dbase + r * dstride,
                srow == r * sstride,
                s0 == old(dst)@,
                at == rect_at(dbase as int, dstride as int),
                val == interleave_val(u@, v@, sstride as int),
                in_bounds(rows as nat, cols as nat, at, s0.len()),
                cols % 2 == 0,
                in_bounds(rows as nat, (cols / 2) as nat, rect_at(0, sstride as int), u@.len()),
                in_bounds(rows as nat, (cols / 2) as nat, rect_at(0, sstride as int), v@.len()),

                dst@ == paint_row(paint(s0, r as nat, cols as nat, at, val), r as int, c as nat, at, val),
                dst.len() == s0.len(),
            decreases cols - c,
        {
            assert(0 <= at(r as int, c as int) < s0.len());
            if c % 2 == 0 {
                assert(c / 2 < cols / 2);
                assert(0 <= rect_at(0, sstride as int)(r as int, (c / 2) as int) < u@.len());
            } else {
                assert(c / 2 < cols / 2);
                assert(0 <= rect_at(0, sstride as int)(r as int, (c / 2) as int) < v@.len());
            }
            let b = if c % 2 == 0 {
                u[srow + c / 2]
            } else {
                v[srow + c / 2]
            };
            assert(b == val(r as int, c as int));
            dst.set(drow + c, b);
            c = c + 1;
        }
        r = r + 1;
    }
}

/// pair mean val: the mean of bytes `2c` and `2c + 1` of source row `r`
pub open spec fn pair_mean_val(src: Seq<u8>, stride: int) -> spec_fn(int, int) -> u8 {
    |r: int, c: int| ((src[r * stride + 2 * c] + src[r * stride + 2 * c + 1]) / 2) as u8
}

/// Fills the destination rectangle with the truncated mean of horizontal
/// byte pairs of `src` (row pitch `sstride`): column `c` of row `r` takes
/// `⌊(src[r·sstride + 2c] + src[r·sstride + 2c + 1]) / 2⌋`.
#[verifier::rlimit(50)]
pub(crate) fn average_pairs(
    dst: &mut Vec<u8>,
    dbase: usize,
    dstride: usize,
    cols: usize,
    rows: usize,
    src: &[u8],
    sstride: usize,
)
    requires
        in_bounds(rows as nat, cols as nat, rect_at(dbase as int, dstride as int), old(dst)@.len()),
        in_bounds(rows as nat, (2 * cols) as nat, rect_at(0, sstride as int), src@.len()),
    ensures
        final(dst)@ == paint(
            old(dst)@,
            rows as nat,
            cols as nat,
            rect_at(dbase as int, dstride as int),
            pair_mean_val(src@, sstride as int),
        ),
{
    let ghost at = rect_at(dbase as int, dstride as int);
    let ghost val = pair_mean_val(src@, sstride as int);
    let ghost s0 = dst@;
    let slen = src.len();
    let mut r: usize = 0;
    while r < rows
        invariant
            r <= rows,
            slen == src@.len(),
            s0 == old(dst)@,
            at == rect_at(dbase as int, dstride as int),
            val == pair_mean_val(src@, sstride as int),
            in_bounds(rows as nat, cols as nat, at, s0.len()),
            in_bounds(rows as nat, (2 * cols) as nat, rect_at(0, sstride as int), src@.len()),

            dst@ == paint(s0, r as nat, cols as nat, at, val),
            dst.len() == s0.len(),
        decreases rows - r,
    {
        if cols == 0 {
            r = r + 1;
            continue;
        }
        assert(0 <= at(r as int, 0) < s0.len());
        let drow = dbase + r * dstride;
        assert(0 <= rect_at(0, sstride as int)(r as int, 0) < src@.len());
        let srow = r * sstride;
        let mut c: usize = 0;
        while c < cols
            invariant
                r < rows,
                c <= cols,
                slen == src@.len(),
                drow == dbase + r * dstride,
                srow == r * sstride,
                s0 == old(dst)@,
                at == rect_at(dbase as int, dstride as int),
                val == pair_mean_val(src@, sstride as int),
                in_bounds(rows as nat, cols as nat, at, s0.len()),
                in_bounds(rows as nat, (2 * cols) as nat, rect_at(0, sstride as int), src@.len()),

                dst@ == paint_row(paint(s0, r as nat, cols as nat, at, val), r as int, c as nat, at, val),
                dst.len() == s0.len(),
            decreases cols - c,
        {
            assert(0 <= at(r as int, c as int) < s0.len());
            assert(0 <= rect_at(0, sstride as int)(r as int, (2 * c + 1) as int) < src@.len());
            let b = ((src[srow + 2 * c] as u16 + src[srow + 2 * c + 1] as u16) / 2) as u8;
            assert(b == val(r as int, c as int));
            dst.set(drow + c, b);
            c = c + 1;
        }
        r = r + 1;
    }
}

/// quad mean val: the mean of the 2×2 source block at `(2c, 2r)`
pub open spec fn quad_mean_val(src: Seq<u8>, stride: int) -> spec_fn(int, int) -> u8 {
    |r: int, c: int| ((src[2 * r * stride + 2 * c] + src[2 * r * stride + 2 * c + 1] + src[(2 * r + 1) * stride + 2 * c] + src[(2 * r + 1) * stride + 2 * c + 1]) / 4) as u8
}

/// Fills the destination rectangle with the truncated mean of 2×2 blocks of
/// `src` (row pitch `sstride`): column `c` of row `r` takes the mean of the
/// bytes at columns `2c`, `2c + 1` of source rows `2r`, `2r + 1`.
#[verifier::rlimit(50)]
pub(crate) fn average_quads(
    dst: &mut Vec<u8>,
    dbase: usize,
    dstride: usize,
    cols: usize,
    rows: usize,
    src: &[u8],
    sstride: usize,
)
    requires
        in_bounds(rows as nat, cols as nat, rect_at(dbase as int, dstride as int), old(dst)@.len()),
        2 * rows <= usize::MAX,
        in_bounds((2 * rows) as nat, (2 * cols) as nat, rect_at(0, sstride as int), src@.len()),
    ensures
        final(dst)@ == paint(
            old(dst)@,
            rows as nat,
            cols as nat,
            rect_at(dbase as int, dstride as int),
            quad_mean_val(src@, sstride as int),
        ),
{
    let ghost at = rect_at(dbase as int, dstride as int);
    let ghost val = quad_mean_val(src@, sstride as int);
    let ghost s0 = dst@;
    let slen = src.len();
    let mut r: usize = 0;
    while r < rows
        invariant
            r <= rows,
            slen == src@.len(),
            s0 == old(dst)@,
            at == rect_at(dbase as int, dstride as int),
            val == quad_mean_val(src@, sstride as int),
            in_bounds(rows as nat, cols as nat, at, s0.len()),
            2 * rows <= usize::MAX,
            in_bounds((2 * rows) as nat, (2 * cols) as nat, rect_at(0, sstride as int), src@.len()),

            dst@ == paint(s0, r as nat, cols as nat, at, val),
            dst.len() == s0.len(),
        decreases rows - r,
    {
        if cols == 0 {
            r = r + 1;
            continue;
        }
        assert(0 <= at(r as int, 0) < s0.len());
        let drow = dbase + r * dstride;
        assert(0 <= rect_at(0, sstride as int)((2 * r + 1) as int, 0) < src@.len());
        assert(0 <= rect_at(0, sstride as int)((2 * r) as int, 0) < src@.len());
        let srow0 = (2 * r) * sstride;
        let srow1 = (2 * r + 1) * sstride;
        let mut c: usize = 0;
        while c < cols
            invariant
                r < rows,
                c <= cols,
                slen == src@.len(),
                drow == dbase + r * dstride,
                srow0 == (2 * r) * sstride,
                srow1 == (2 * r + 1) * sstride,
                s0 == old(dst)@,
                at == rect_at(dbase as int, dstride as int),
                val == quad_mean_val(src@, sstride as int),
                in_bounds(rows as nat, cols as nat, at, s0.len()),
                2 * rows <= usize::MAX,
                in_bounds((2 * rows) as nat, (2 * cols) as nat, rect_at(0, sstride as int), src@.len()),

                dst@ == paint_row(paint(s0, r as nat, cols as nat, at, val), r as int, c as nat, at, val),
                dst.len() == s0.len(),
            decreases cols - c,
        {
            assert(0 <= at(r as int, c as int) < s0.len());
            assert(0 <= rect_at(0, sstride as int)((2 * r) as int, (2 * c + 1) as int) < src@.len());
            assert(0 <= rect_at(0, sstride as int)((2 * r + 1) as int, (2 * c + 1) as int) < src@.len());
            let u00 = src[srow0 + 2 * c] as u16;
            let u01 = src[srow0 + 2 * c + 1] as u16;
            let u10 = src[srow1 + 2 * c] as u16;
            let u11 = src[srow1 + 2 * c + 1] as u16;
            let b = ((u00 + u01 + u10 + u11) / 4) as u8;
            assert(2 * r * sstride == (2 * r) * sstride) by (nonlinear_arith);
            assert(b == val(r as int, c as int));
            dst.set(drow + c, b);
            c = c + 1;
        }
        r = r + 1;
    }
}

/// narrow val: sample `c` of source row `r` shifted right by two, low 8 bits
pub open spec fn narrow_val(src: Seq<u16>, stride: int) -> spec_fn(int, int) -> u8 {
    |r: int, c: int| (src[r * stride + c] >> 2u16) as u8
}

/// Fills the destination rectangle with the 10-bit samples of `src` (row
/// pitch `sstride`) shifted right by two bits and cut to 8 bits.
#[verifier::rlimit(50)]
pub(crate) fn narrow_rect(
    dst: &mut Vec<u8>,
    dbase: usize,
    dstride: usize,
    cols: usize,
    rows: usize,
    src: &[u16],
    sstride: usize,
)
    requires
        in_bounds(rows as nat, cols as nat, rect_at(dbase as int, dstride as int), old(dst)@.len()),
        in_bounds(rows as nat, cols as nat, rect_at(0, sstride as int), src@.len()),
    ensures
        final(dst)@ == paint(
            old(dst)@,
            rows as nat,
            cols as nat,
            rect_at(dbase as int, dstride as int),
            narrow_val(src@, sstride as int),
        ),
{
    let ghost at = rect_at(dbase as int, dstride as int);
    let ghost val = narrow_val(src@, sstride as int);
    let ghost s0 = dst@;
    let slen = src.len();
    let mut r: usize = 0;
    while r < rows
        invariant
            r <= rows,
            slen == src@.len(),
            s0 == old(dst)@,
            at == rect_at(dbase as int, dstride as int),
            val == narrow_val(src@, sstride as int),
            in_bounds(rows as nat, cols as nat, at, s0.len()),
            in_bounds(rows as nat, cols as nat, rect_at(0, sstride as int), src@.len()),

            dst@ == paint(s0, r as nat, cols as nat, at, val),
            dst.len() == s0.len(),
        decreases rows - r,
    {
        if cols == 0 {
            r = r + 1;
            continue;
        }
        assert(0 <= at(r as int, 0) < s0.len());
        let drow = dbase + r * dstride;
        assert(0 <= rect_at(0, sstride as int)(r as int, 0) < src@.len());
        let srow = r * sstride;
        let mut c: usize = 0;
        while c < cols
            invariant
                r < rows,
                c <= cols,
                slen == src@.len(),
                drow == dbase + r * dstride,
                srow == r * sstride,
                s0 == old(dst)@,
                at == rect_at(dbase as int, dstride as int),
                val == narrow_val(src@, sstride as int),
                in_bounds(rows as nat, cols as nat, at, s0.len()),
                in_bounds(rows as nat, cols as nat, rect_at(0, sstride as int), src@.len()),

                dst@ == paint_row(paint(s0, r as nat, cols as nat, at, val), r as int, c as nat, at, val),
                dst.len() == s0.len(),
            decreases cols - c,
        {
            assert(0 <= at(r as int, c as int) < s0.len());
            assert(0 <= rect_at(0, sstride as int)(r as int, c as int) < src@.len());
            let b = (src[srow + c] >> 2u16) as u8;
            assert(b == val(r as int, c as int));
            dst.set(drow + c, b);
            c = c + 1;
        }
        r = r + 1;
    }
}


} // verus!
