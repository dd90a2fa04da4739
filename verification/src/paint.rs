//! A mathematical model of painting bytes into a plane.
//!
//! Every transform of this crate fills its destination planes by a nested
//! loop that stores one byte per inner step. `paint` states the plane that
//! such a sequence of stores leaves behind: rows `0..rows`, and in each row
//! the steps `0..cols`, step `(r, c)` storing `val(r, c)` at index `at(r, c)`.
//! When no two steps hit the same index, `lemma_paint_injective` gives the
//! closed form: each hit index holds its value, every other byte is kept.

use vstd::prelude::*;

verus! {

/// The plane after the steps `(r, 0) .. (r, n - 1)` of one row, applied to `s`.
pub open spec fn paint_row(
    s: Seq<u8>,
    r: int,
    n: nat,
    at: spec_fn(int, int) -> int,
    val: spec_fn(int, int) -> u8,
) -> Seq<u8>
    decreases n,
{
    if n == 0 {
        s
    } else {
        paint_row(s, r, (n - 1) as nat, at, val).update(at(r, n - 1), val(r, n - 1))
    }
}

/// The plane after all steps of rows `0 .. rows`, each of `cols` steps, applied to `s`.
pub open spec fn paint(
    s: Seq<u8>,
    rows: nat,
    cols: nat,
    at: spec_fn(int, int) -> int,
    val: spec_fn(int, int) -> u8,
) -> Seq<u8>
    decreases rows,
{
    if rows == 0 {
        s
    } else {
        paint_row(paint(s, (rows - 1) as nat, cols, at, val), rows - 1, cols, at, val)
    }
}

/// Every step of the grid `rows × cols` stores inside a plane of `len` bytes.
pub open spec fn in_bounds(rows: nat, cols: nat, at: spec_fn(int, int) -> int, len: nat) -> bool {
    forall|r: int, c: int| 0 <= r < rows && 0 <= c < cols ==> 0 <= #[trigger] at(r, c) < len
}

/// No two distinct steps of the grid `rows × cols` store at the same index.
pub open spec fn injective(rows: nat, cols: nat, at: spec_fn(int, int) -> int) -> bool {
    forall|r1: int, c1: int, r2: int, c2: int|
        0 <= r1 < rows && 0 <= c1 < cols && 0 <= r2 < rows && 0 <= c2 < cols && (r1 != r2 || c1
            != c2) ==> #[trigger] at(r1, c1) != #[trigger] at(r2, c2)
}

/// Index map of a rectangle: row `r`, column `c` lies at `base + r * stride + c`.
pub open spec fn rect_at(base: int, stride: int) -> spec_fn(int, int) -> int {
    |r: int, c: int| base + r * stride + c
}

/// A value map that ignores its position.
pub open spec fn const_val(v: u8) -> spec_fn(int, int) -> u8 {
    |r: int, c: int| v
}

/// A value map that copies a rectangle of `src` laid out at `base + r * stride + c`.
pub open spec fn copy_val(src: Seq<u8>, base: int, stride: int) -> spec_fn(int, int) -> u8 {
    |r: int, c: int| src[base + r * stride + c]
}

/// Painting a row keeps the length of the plane.
pub proof fn lemma_paint_row_len(
    s: Seq<u8>,
    r: int,
    n: nat,
    at: spec_fn(int, int) -> int,
    val: spec_fn(int, int) -> u8,
)
    requires
        forall|c: int| 0 <= c < n ==> 0 <= #[trigger] at(r, c) < s.len(),
    ensures
        paint_row(s, r, n, at, val).len() == s.len(),
    decreases n,
{
    if n > 0 {
        lemma_paint_row_len(s, r, (n - 1) as nat, at, val);
    }
}

/// Painting in bounds keeps the length of the plane.
pub proof fn lemma_paint_len(
    s: Seq<u8>,
    rows: nat,
    cols: nat,
    at: spec_fn(int, int) -> int,
    val: spec_fn(int, int) -> u8,
)
    requires
        in_bounds(rows, cols, at, s.len()),
    ensures
        paint(s, rows, cols, at, val).len() == s.len(),
    decreases rows,
{
    if rows > 0 {
        lemma_paint_len(s, (rows - 1) as nat, cols, at, val);
        let p = paint(s, (rows - 1) as nat, cols, at, val);
        assert forall|c: int| 0 <= c < cols implies 0 <= #[trigger] at(rows - 1, c) < p.len() by {
            assert(0 <= at(rows - 1, c) < s.len());
        }
        lemma_paint_row_len(p, rows - 1, cols, at, val);
    }
}

proof fn lemma_paint_row_points(
    s: Seq<u8>,
    r: int,
    n: nat,
    at: spec_fn(int, int) -> int,
    val: spec_fn(int, int) -> u8,
)
    requires
        forall|c: int| 0 <= c < n ==> 0 <= #[trigger] at(r, c) < s.len(),
        forall|c1: int, c2: int|
            0 <= c1 < n && 0 <= c2 < n && c1 != c2 ==> #[trigger] at(r, c1) != #[trigger] at(r, c2),
    ensures
        paint_row(s, r, n, at, val).len() == s.len(),
        forall|c: int| 0 <= c < n ==> paint_row(s, r, n, at, val)[#[trigger] at(r, c)] == val(r, c),
        forall|i: int|
            0 <= i < s.len() && (forall|c: int| 0 <= c < n ==> #[trigger] at(r, c) != i) ==> #[trigger] paint_row(
                s,
                r,
                n,
                at,
                val,
            )[i] == s[i],
    decreases n,
{
    lemma_paint_row_len(s, r, n, at, val);
    if n > 0 {
        lemma_paint_row_points(s, r, (n - 1) as nat, at, val);
        let prev = paint_row(s, r, (n - 1) as nat, at, val);
        assert forall|c: int| 0 <= c < n implies paint_row(s, r, n, at, val)[#[trigger] at(r, c)]
            == val(r, c) by {
            if c < n - 1 {
                assert(at(r, c) != at(r, n - 1));
                assert(prev[at(r, c)] == val(r, c));
            }
        }
        assert forall|i: int|
            0 <= i < s.len() && (forall|c: int| 0 <= c < n ==> #[trigger] at(r, c) != i) implies #[trigger] paint_row(
            s,
            r,
            n,
            at,
            val,
        )[i] == s[i] by {
            assert(at(r, n - 1) != i);
            assert forall|c: int| 0 <= c < n - 1 implies #[trigger] at(r, c) != i by {
                assert(0 <= c < n);
            }
        }
    }
}

/// Painting no rows, or rows of no steps, leaves the plane unchanged.
pub proof fn lemma_paint_empty(
    s: Seq<u8>,
    rows: nat,
    cols: nat,
    at: spec_fn(int, int) -> int,
    val: spec_fn(int, int) -> u8,
)
    requires
        rows == 0 || cols == 0,
    ensures
        paint(s, rows, cols, at, val) == s,
    decreases rows,
{
    if rows > 0 {
        lemma_paint_empty(s, (rows - 1) as nat, cols, at, val);
    }
}

/// Closed form of `paint` when no two steps store at the same index: each
/// stored index holds the value of its step, every other byte is unchanged.
pub proof fn lemma_paint_injective(
    s: Seq<u8>,
    rows: nat,
    cols: nat,
    at: spec_fn(int, int) -> int,
    val: spec_fn(int, int) -> u8,
)
    requires
        in_bounds(rows, cols, at, s.len()),
        injective(rows, cols, at),
    ensures
        paint(s, rows, cols, at, val).len() == s.len(),
        forall|r: int, c: int|
            0 <= r < rows && 0 <= c < cols ==> paint(s, rows, cols, at, val)[#[trigger] at(r, c)]
                == val(r, c),
        forall|i: int|
            0 <= i < s.len() && (forall|r: int, c: int|
                0 <= r < rows && 0 <= c < cols ==> #[trigger] at(r, c) != i) ==> #[trigger] paint(
                s,
                rows,
                cols,
                at,
                val,
            )[i] == s[i],
    decreases rows,
{
    lemma_paint_len(s, rows, cols, at, val);
    if rows > 0 {
        let rr = (rows - 1) as nat;
        assert(in_bounds(rr, cols, at, s.len()));
        assert(injective(rr, cols, at));
        lemma_paint_injective(s, rr, cols, at, val);
        let p = paint(s, rr, cols, at, val);
        assert forall|c: int| 0 <= c < cols implies 0 <= #[trigger] at(rows - 1, c) < p.len() by {
            assert(0 <= at(rows - 1, c) < s.len());
        }
        assert forall|c1: int, c2: int|
            0 <= c1 < cols && 0 <= c2 < cols && c1 != c2 implies #[trigger] at(rows - 1, c1)
            != #[trigger] at(rows - 1, c2) by {
            assert(at(rows - 1, c1) != at(rows - 1, c2));
        }
        lemma_paint_row_points(p, rows - 1, cols, at, val);
        let q = paint(s, rows, cols, at, val);
        assert forall|r: int, c: int| 0 <= r < rows && 0 <= c < cols implies q[#[trigger] at(r, c)]
            == val(r, c) by {
            if r < rows - 1 {
                assert forall|c2: int| 0 <= c2 < cols implies #[trigger] at(rows - 1, c2) != at(r, c) by {
                    assert(at(rows - 1, c2) != at(r, c));
                }
                assert(0 <= at(r, c) < s.len());
                assert(p[at(r, c)] == val(r, c));
            }
        }
        assert forall|i: int|
            0 <= i < s.len() && (forall|r: int, c: int|
                0 <= r < rows && 0 <= c < cols ==> #[trigger] at(r, c) != i) implies #[trigger] q[i] == s[i] by {
            assert forall|c: int| 0 <= c < cols implies #[trigger] at(rows - 1, c) != i by {
                assert(0 <= rows - 1 < rows);
            }
            assert forall|r: int, c: int| 0 <= r < rr && 0 <= c < cols implies #[trigger] at(r, c) != i by {
                assert(0 <= r < rows);
            }
        }
    }
}


/// Sufficient condition for a rectangle of `rows × cols` at `base` with row
/// pitch `stride` to lie inside `len` bytes: its last byte does.
pub proof fn lemma_rect_in_bounds(base: int, stride: int, rows: nat, cols: nat, len: nat)
    requires
        base >= 0,
        stride >= 0,
        rows > 0 && cols > 0 ==> base + (rows - 1) * stride + cols <= len,
    ensures
        in_bounds(rows, cols, rect_at(base, stride), len),
{
    assert forall|r: int, c: int| 0 <= r < rows && 0 <= c < cols implies 0 <= #[trigger] rect_at(
        base,
        stride,
    )(r, c) < len by {
        assert(r * stride <= (rows - 1) * stride) by (nonlinear_arith)
            requires
                0 <= r < rows,
                stride >= 0,
        ;
        assert(r * stride >= 0) by (nonlinear_arith)
            requires
                0 <= r,
                stride >= 0,
        ;
    }
}

/// Rows of a rectangle do not overlap when the row pitch is at least its width.
pub proof fn lemma_rect_injective(base: int, stride: int, rows: nat, cols: nat)
    requires
        stride >= cols,
    ensures
        injective(rows, cols, rect_at(base, stride)),
{
    assert forall|r1: int, c1: int, r2: int, c2: int|
        0 <= r1 < rows && 0 <= c1 < cols && 0 <= r2 < rows && 0 <= c2 < cols && (r1 != r2 || c1
            != c2) implies #[trigger] rect_at(base, stride)(r1, c1) != #[trigger] rect_at(
        base,
        stride,
    )(r2, c2) by {
        if r1 < r2 {
            assert(r1 * stride + stride <= r2 * stride) by (nonlinear_arith)
                requires
                    r1 < r2,
                    stride >= 0,
            ;
        } else if r2 < r1 {
            assert(r2 * stride + stride <= r1 * stride) by (nonlinear_arith)
                requires
                    r2 < r1,
                    stride >= 0,
            ;
        }
    }
}

/// A plane of exactly `rows · cols` bytes with row pitch `cols` holds every
/// step of the grid, each at its own index.
pub proof fn lemma_packed_rect(rows: nat, cols: nat, len: nat)
    requires
        len == rows * cols,
    ensures
        in_bounds(rows, cols, rect_at(0, cols as int), len),
        injective(rows, cols, rect_at(0, cols as int)),
{
    if rows > 0 && cols > 0 {
        assert((rows - 1) * cols + cols == rows * cols) by (nonlinear_arith);
    }
    lemma_rect_in_bounds(0, cols as int, rows, cols, len);
    lemma_rect_injective(0, cols as int, rows, cols);
}

/// Stores `v` into every byte of the rectangle of `rows × cols` at `base`
/// with row pitch `stride`, row by row.
#[verifier::rlimit(50)]
pub(crate) fn fill_rect(dst: &mut Vec<u8>, base: usize, stride: usize, cols: usize, rows: usize, v: u8)
    requires
        in_bounds(rows as nat, cols as nat, rect_at(base as int, stride as int), old(dst)@.len()),
    ensures
        final(dst)@ == paint(
            old(dst)@,
            rows as nat,
            cols as nat,
            rect_at(base as int, stride as int),
            const_val(v),
        ),
{
    let ghost at = rect_at(base as int, stride as int);
    let ghost val = const_val(v);
    let ghost s0 = dst@;
    let mut r: usize = 0;
    while r < rows
        invariant
            r <= rows,
            s0 == old(dst)@,
            at == rect_at(base as int, stride as int),
            val == const_val(v),
            in_bounds(rows as nat, cols as nat, at, s0.len()),
            dst@ == paint(s0, r as nat, cols as nat, at, val),
            dst.len() == s0.len(),
        decreases rows - r,
    {
        if cols == 0 {
            r = r + 1;
            continue;
        }
        assert(0 <= at(r as int, 0) < s0.len());
        let row = base + r * stride;
        let mut c: usize = 0;
        while c < cols
            invariant
                r < rows,
                c <= cols,
                row == base + r * stride,
                s0 == old(dst)@,
                at == rect_at(base as int, stride as int),
                val == const_val(v),
                in_bounds(rows as nat, cols as nat, at, s0.len()),
                dst@ == paint_row(paint(s0, r as nat, cols as nat, at, val), r as int, c as nat, at, val),
                dst.len() == s0.len(),
            decreases cols - c,
        {
            assert(0 <= at(r as int, c as int) < s0.len());
            dst.set(row + c, v);
            c = c + 1;
        }
        r = r + 1;
    }
}

/// Copies the rectangle of `rows × cols` at `sbase` (row pitch `sstride`) of
/// `src` into the rectangle at `dbase` (row pitch `dstride`) of `dst`, row by row.
#[verifier::rlimit(50)]
pub(crate) fn copy_rect(
    dst: &mut Vec<u8>,
    dbase: usize,
    dstride: usize,
    src: &[u8],
    sbase: usize,
    sstride: usize,
    cols: usize,
    rows: usize,
)
    requires
        in_bounds(rows as nat, cols as nat, rect_at(dbase as int, dstride as int), old(dst)@.len()),
        in_bounds(rows as nat, cols as nat, rect_at(sbase as int, sstride as int), src@.len()),
    ensures
        final(dst)@ == paint(
            old(dst)@,
            rows as nat,
            cols as nat,
            rect_at(dbase as int, dstride as int),
            copy_val(src@, sbase as int, sstride as int),
        ),
{
    let ghost at = rect_at(dbase as int, dstride as int);
    let ghost sat = rect_at(sbase as int, sstride as int);
    let ghost val = copy_val(src@, sbase as int, sstride as int);
    let ghost s0 = dst@;
    let slen = src.len();
    let mut r: usize = 0;
    while r < rows
        invariant
            r <= rows,
            slen == src@.len(),
            s0 == old(dst)@,
            at == rect_at(dbase as int, dstride as int),
            sat == rect_at(sbase as int, sstride as int),
            val == copy_val(src@, sbase as int, sstride as int),
            in_bounds(rows as nat, cols as nat, at, s0.len()),
            in_bounds(rows as nat, cols as nat, sat, src@.len()),
            dst@ == paint(s0, r as nat, cols as nat, at, val),
            dst.len() == s0.len(),
        decreases rows - r,
    {
        if cols == 0 {
            r = r + 1;
            continue;
        }
        assert(0 <= at(r as int, 0) < s0.len());
        assert(0 <= sat(r as int, 0) < src@.len());
        let drow = dbase + r * dstride;
        let srow = sbase + r * sstride;
        let mut c: usize = 0;
        while c < cols
            invariant
                r < rows,
                c <= cols,
                slen == src@.len(),
                drow == dbase + r * dstride,
                srow == sbase + r * sstride,
                s0 == old(dst)@,
                at == rect_at(dbase as int, dstride as int),
                sat == rect_at(sbase as int, sstride as int),
                val == copy_val(src@, sbase as int, sstride as int),
                in_bounds(rows as nat, cols as nat, at, s0.len()),
                in_bounds(rows as nat, cols as nat, sat, src@.len()),
                dst@ == paint_row(paint(s0, r as nat, cols as nat, at, val), r as int, c as nat, at, val),
                dst.len() == s0.len(),
            decreases cols - c,
        {
            assert(0 <= at(r as int, c as int) < s0.len());
            assert(0 <= sat(r as int, c as int) < src@.len());
            let b = src[srow + c];
            dst.set(drow + c, b);
            c = c + 1;
        }
        r = r + 1;
    }
}


/// Source coordinate that nearest-neighbour resampling from `s` to `d`
/// samples for destination coordinate `i`: `⌊i · s / d⌋`.
pub open spec fn nn_src(i: int, s: int, d: int) -> int {
    i * s / d
}

/// Source index read for destination pixel `(r, c)` when resampling a plane
/// of `sw × sh` (row pitch `stride`) to `dw × dh`.
pub open spec fn nn_at(stride: int, sw: int, sh: int, dw: int, dh: int) -> spec_fn(int, int) -> int {
    |r: int, c: int| nn_src(r, sh, dh) * stride + nn_src(c, sw, dw)
}

/// Source byte for destination pixel `(r, c)` of a nearest-neighbour resampling.
pub open spec fn nn_val(src: Seq<u8>, stride: int, sw: int, sh: int, dw: int, dh: int) -> spec_fn(
    int,
    int,
) -> u8 {
    |r: int, c: int| src[nn_at(stride, sw, sh, dw, dh)(r, c)]
}

/// The sampled coordinate stays within the source extent.
pub proof fn lemma_nn_src_bound(i: int, s: int, d: int)
    requires
        0 <= i < d,
        0 <= s,
    ensures
        0 <= nn_src(i, s, d),
        nn_src(i, s, d) <= s,
        s > 0 ==> nn_src(i, s, d) < s,
{
    assert(0 <= i * s <= d * s) by (nonlinear_arith)
        requires
            0 <= i < d,
            0 <= s,
    ;
    assert(i * s < d * s || s == 0) by (nonlinear_arith)
        requires
            0 <= i < d,
            0 <= s,
    ;
    vstd::arithmetic::div_mod::lemma_div_is_ordered(i * s, d * s, d);
    vstd::arithmetic::div_mod::lemma_div_multiples_vanish(s, d);
    vstd::arithmetic::div_mod::lemma_div_pos_is_pos(i * s, d);
    if s > 0 {
        vstd::arithmetic::div_mod::lemma_fundamental_div_mod(i * s, d);
        vstd::arithmetic::div_mod::lemma_mod_pos_bound(i * s, d);
        assert(nn_src(i, s, d) < s) by (nonlinear_arith)
            requires
                i * s == d * (i * s / d) + (i * s) % d,
                0 <= (i * s) % d,
                i * s < d * s,
                d > 0,
        ;
    }
}

/// Fills the rectangle `dw × dh` (row pitch `dstride`) of `dst` with a
/// nearest-neighbour resampling of the `sw × sh` plane `src` (row pitch
/// `sstride`), row by row.
#[verifier::rlimit(50)]
pub(crate) fn scale_plane(
    dst: &mut Vec<u8>,
    dstride: usize,
    dw: u32,
    dh: u32,
    src: &[u8],
    sstride: usize,
    sw: u32,
    sh: u32,
)
    requires
        in_bounds(dh as nat, dw as nat, rect_at(0, dstride as int), old(dst)@.len()),
        in_bounds(dh as nat, dw as nat, nn_at(sstride as int, sw as int, sh as int, dw as int, dh as int), src@.len()),
    ensures
        final(dst)@ == paint(
            old(dst)@,
            dh as nat,
            dw as nat,
            rect_at(0, dstride as int),
            nn_val(src@, sstride as int, sw as int, sh as int, dw as int, dh as int),
        ),
{
    let ghost at = rect_at(0, dstride as int);
    let ghost sat = nn_at(sstride as int, sw as int, sh as int, dw as int, dh as int);
    let ghost val = nn_val(src@, sstride as int, sw as int, sh as int, dw as int, dh as int);
    let ghost s0 = dst@;
    let slen = src.len();
    let mut r: u32 = 0;
    while r < dh
        invariant
            r <= dh,
            slen == src@.len(),
            s0 == old(dst)@,
            at == rect_at(0, dstride as int),
            sat == nn_at(sstride as int, sw as int, sh as int, dw as int, dh as int),
            val == nn_val(src@, sstride as int, sw as int, sh as int, dw as int, dh as int),
            in_bounds(dh as nat, dw as nat, at, s0.len()),
            in_bounds(dh as nat, dw as nat, sat, src@.len()),
            dst@ == paint(s0, r as nat, dw as nat, at, val),
            dst.len() == s0.len(),
        decreases dh - r,
    {
        if dw == 0 {
            r = r + 1;
            continue;
        }
        assert(0 <= at(r as int, 0) < s0.len());
        assert(0 <= sat(r as int, 0) < src@.len());
        proof {
            lemma_nn_src_bound(r as int, sh as int, dh as int);
            assert((r as int) * (sh as int) <= u64::MAX) by (nonlinear_arith)
                requires
                    r <= u32::MAX,
                    sh <= u32::MAX,
            ;
        }
        let sy = ((r as u64) * (sh as u64) / (dh as u64)) as usize;
        assert(sy == nn_src(r as int, sh as int, dh as int));
        assert(sy * sstride <= sat(r as int, 0)) by {
            lemma_nn_src_bound(0, sw as int, dw as int);
        }
        let srow = sy * sstride;
        let drow = (r as usize) * dstride;
        let mut c: u32 = 0;
        while c < dw
            invariant
                r < dh,
                c <= dw,
                slen == src@.len(),
                sy == nn_src(r as int, sh as int, dh as int),
                srow == sy * sstride,
                drow == r * dstride,
                s0 == old(dst)@,
                at == rect_at(0, dstride as int),
                sat == nn_at(sstride as int, sw as int, sh as int, dw as int, dh as int),
                val == nn_val(src@, sstride as int, sw as int, sh as int, dw as int, dh as int),
                in_bounds(dh as nat, dw as nat, at, s0.len()),
                in_bounds(dh as nat, dw as nat, sat, src@.len()),
                dst@ == paint_row(paint(s0, r as nat, dw as nat, at, val), r as int, c as nat, at, val),
                dst.len() == s0.len(),
            decreases dw - c,
        {
            assert(0 <= at(r as int, c as int) < s0.len());
            assert(0 <= sat(r as int, c as int) < src@.len());
            proof {
                lemma_nn_src_bound(c as int, sw as int, dw as int);
                assert((c as int) * (sw as int) <= u64::MAX) by (nonlinear_arith)
                    requires
                        c <= u32::MAX,
                        sw <= u32::MAX,
                ;
            }
            let sx = ((c as u64) * (sw as u64) / (dw as u64)) as usize;
            assert(sx == nn_src(c as int, sw as int, dw as int));
            let b = src[srow + sx];
            dst.set(drow + c as usize, b);
            c = c + 1;
        }
        r = r + 1;
    }
}

} // verus!
