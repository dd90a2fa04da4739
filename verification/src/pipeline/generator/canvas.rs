//! Planes as pictures: byte `i` of a plane with row pitch `stride` is the
//! pixel `(i / stride, i % stride)`, row first. `mark` gives the plane
//! after a set of pixels has been painted one value, in whatever order.

use vstd::prelude::*;

verus! {

/// The plane `s` with every byte whose pixel satisfies `lit` set to `v`,
/// the others kept.
pub open spec fn mark(s: Seq<u8>, stride: int, lit: spec_fn(int, int) -> bool, v: u8) -> Seq<u8> {
    Seq::new(s.len(), |i: int| if lit(i / stride, i % stride) { v } else { s[i] })
}

/// The pixels of the box of rows `y0..y1` and columns `x0..x1`.
pub open spec fn in_box(x0: int, y0: int, x1: int, y1: int) -> spec_fn(int, int) -> bool {
    |a: int, b: int| y0 <= a < y1 && x0 <= b < x1
}

/// A plane of `len` bytes and row pitch `stride` holds every pixel of the
/// box of rows `y0..y1` and columns `x0..x1`.
pub open spec fn box_fits(len: nat, stride: int, x0: int, y0: int, x1: int, y1: int) -> bool {
    x0 < x1 && y0 < y1 ==> x1 <= stride && (y1 - 1) * stride + x1 <= len
}

/// The pixels of `lit` that lie before `(py, px)` in row-major order.
pub open spec fn lit_before(lit: spec_fn(int, int) -> bool, py: int, px: int) -> spec_fn(int, int) -> bool {
    |a: int, b: int| lit(a, b) && (a < py || (a == py && b < px))
}

/// Pixel `(a, b)` with `0 ≤ b < stride` lies at `a * stride + b`, and that
/// index gives the pixel back.
pub proof fn lemma_pixel_index(a: int, b: int, stride: int)
    requires
        stride > 0,
        0 <= b < stride,
    ensures
        (a * stride + b) / stride == a,
        (a * stride + b) % stride == b,
{
    vstd::arithmetic::div_mod::lemma_fundamental_div_mod_converse(a * stride + b, stride, a, b);
}

/// Every index is `(i / stride) * stride + i % stride`.
pub proof fn lemma_index_pixel(i: int, stride: int)
    requires
        stride > 0,
    ensures
        i == (i / stride) * stride + i % stride,
        0 <= i % stride < stride,
{
    vstd::arithmetic::div_mod::lemma_fundamental_div_mod(i, stride);
    vstd::arithmetic::div_mod::lemma_mod_bound(i, stride);
    assert(stride * (i / stride) == (i / stride) * stride) by (nonlinear_arith);
}

/// Marking with a predicate that nothing satisfies keeps the plane.
pub proof fn lemma_mark_none(s: Seq<u8>, stride: int, lit: spec_fn(int, int) -> bool, v: u8)
    requires
        forall|a: int, b: int| !#[trigger] lit(a, b),
    ensures
        mark(s, stride, lit, v) == s,
{
    assert(mark(s, stride, lit, v) =~= s);
}

/// Marking with two predicates that agree gives the same plane.
pub proof fn lemma_mark_ext(
    s: Seq<u8>,
    stride: int,
    l1: spec_fn(int, int) -> bool,
    l2: spec_fn(int, int) -> bool,
    v: u8,
)
    requires
        forall|a: int, b: int| #[trigger] l1(a, b) == l2(a, b),
    ensures
        mark(s, stride, l1, v) == mark(s, stride, l2, v),
{
    assert(mark(s, stride, l1, v) =~= mark(s, stride, l2, v));
}

/// Marking twice with one value marks the union.
pub proof fn lemma_mark_twice(
    s: Seq<u8>,
    stride: int,
    l1: spec_fn(int, int) -> bool,
    l2: spec_fn(int, int) -> bool,
    l3: spec_fn(int, int) -> bool,
    v: u8,
)
    requires
        forall|a: int, b: int| #[trigger] l3(a, b) == (l1(a, b) || l2(a, b)),
    ensures
        mark(mark(s, stride, l1, v), stride, l2, v) == mark(s, stride, l3, v),
{
    assert(mark(mark(s, stride, l1, v), stride, l2, v) =~= mark(s, stride, l3, v));
}

/// Storing `v` at pixel `(py, px)` extends a marking by that pixel.
pub proof fn lemma_mark_store(
    s: Seq<u8>,
    stride: int,
    lit: spec_fn(int, int) -> bool,
    more: spec_fn(int, int) -> bool,
    v: u8,
    py: int,
    px: int,
)
    requires
        stride > 0,
        0 <= px < stride,
        0 <= py * stride + px < s.len(),
        forall|a: int, b: int| #[trigger] more(a, b) == (lit(a, b) || (a == py && b == px)),
    ensures
        mark(s, stride, lit, v).update(py * stride + px, v) == mark(s, stride, more, v),
{
    let i = py * stride + px;
    lemma_pixel_index(py, px, stride);
    assert forall|j: int| 0 <= j < s.len() implies #[trigger] mark(s, stride, lit, v).update(i, v)[j]
        == mark(s, stride, more, v)[j] by {
        if j != i {
            lemma_index_pixel(j, stride);
            if j / stride == py && j % stride == px {
                assert(j == i);
            }
        }
    }
    assert(mark(s, stride, lit, v).update(i, v) =~= mark(s, stride, more, v));
}

/// A pixel of a box that fits lies inside the plane.
pub proof fn lemma_box_pixel_in_plane(
    len: nat,
    stride: int,
    x0: int,
    y0: int,
    x1: int,
    y1: int,
    a: int,
    b: int,
)
    requires
        box_fits(len, stride, x0, y0, x1, y1),
        0 <= y0 <= a < y1,
        0 <= x0 <= b < x1,
    ensures
        0 <= a * stride + b < len,
        0 <= b < stride,
{
    assert(a * stride + b < len) by (nonlinear_arith)
        requires
            0 <= a < y1,
            0 <= b,
            b < x1,
            x1 <= stride,
            (y1 - 1) * stride + x1 <= len,
    ;
    assert(a * stride >= 0) by (nonlinear_arith)
        requires
            a >= 0,
            stride >= 0,
    ;
}

/// Stores `v` into every pixel of the box of rows `y0..y1` and columns
/// `x0..x1` of the plane `dst` (row pitch `stride`), row by row. An empty
/// box (`x1 ≤ x0` or `y1 ≤ y0`) stores nothing.
#[verifier::rlimit(50)]
pub fn fill_box(dst: &mut Vec<u8>, stride: usize, x0: usize, y0: usize, x1: usize, y1: usize, v: u8)
    requires
        box_fits(old(dst)@.len(), stride as int, x0 as int, y0 as int, x1 as int, y1 as int),
    ensures
        final(dst)@ == mark(
            old(dst)@,
            stride as int,
            in_box(x0 as int, y0 as int, x1 as int, y1 as int),
            v,
        ),
{
    let ghost s0 = dst@;
    let n = dst.len();
    let ghost lit = in_box(x0 as int, y0 as int, x1 as int, y1 as int);
    if x1 <= x0 || y1 <= y0 {
        proof {
            lemma_mark_none(s0, stride as int, lit, v);
        }
        return ;
    }
    proof {
        lemma_mark_ext(s0, stride as int, lit_before(lit, y0 as int, x0 as int), |a: int, b: int| false, v);
        lemma_mark_none(s0, stride as int, |a: int, b: int| false, v);
    }
    let mut a = y0;
    while a < y1
        invariant
            x0 < x1,
            y0 < y1,
            y0 <= a <= y1,
            n == s0.len(),
            box_fits(s0.len(), stride as int, x0 as int, y0 as int, x1 as int, y1 as int),
            lit == in_box(x0 as int, y0 as int, x1 as int, y1 as int),
            dst@ == mark(s0, stride as int, lit_before(lit, a as int, x0 as int), v),
        decreases y1 - a,
    {
        let mut b = x0;
        while b < x1
            invariant
                x0 <= b <= x1,
                y0 <= a < y1,
                n == s0.len(),
                box_fits(s0.len(), stride as int, x0 as int, y0 as int, x1 as int, y1 as int),
                lit == in_box(x0 as int, y0 as int, x1 as int, y1 as int),
                dst@ == mark(s0, stride as int, lit_before(lit, a as int, b as int), v),
            decreases x1 - b,
        {
            proof {
                lemma_box_pixel_in_plane(s0.len(), stride as int, x0 as int, y0 as int, x1 as int, y1 as int, a as int, b as int);
                lemma_mark_store(
                    s0,
                    stride as int,
                    lit_before(lit, a as int, b as int),
                    lit_before(lit, a as int, b + 1),
                    v,
                    a as int,
                    b as int,
                );
            }
            dst.set(a * stride + b, v);
            b = b + 1;
        }
        proof {
            lemma_mark_ext(
                s0,
                stride as int,
                lit_before(lit, a as int, b as int),
                lit_before(lit, a + 1, x0 as int),
                v,
            );
        }
        a = a + 1;
    }
    proof {
        lemma_mark_ext(s0, stride as int, lit_before(lit, a as int, x0 as int), lit, v);
    }
}

/// A box inside a box that fits fits too.
pub proof fn lemma_box_fits_sub(
    len: nat,
    stride: int,
    x1: int,
    y1: int,
    a0: int,
    b0: int,
    a1: int,
    b1: int,
)
    requires
        box_fits(len, stride, 0, 0, x1, y1),
        0 <= a0,
        0 <= b0,
        a0 < a1 && b0 < b1 ==> a1 <= x1 && b1 <= y1,
    ensures
        box_fits(len, stride, a0, b0, a1, b1),
{
    if a0 < a1 && b0 < b1 {
        assert((b1 - 1) * stride <= (y1 - 1) * stride) by (nonlinear_arith)
            requires
                b1 <= y1,
                stride >= 0,
        ;
    }
}

/// In a packed plane of `rows × cols` bytes, a box from the origin fits
/// exactly when it lies within the plane's rows and columns.
pub proof fn lemma_packed_box(rows: int, cols: int, x1: int, y1: int)
    requires
        rows >= 0,
        cols >= 0,
    ensures
        box_fits((rows * cols) as nat, cols, 0, 0, x1, y1) <==> (0 < x1 && 0 < y1 ==> x1 <= cols && y1 <= rows),
{
    assert(rows * cols >= 0) by (nonlinear_arith)
        requires
            rows >= 0,
            cols >= 0,
    ;
    if 0 < x1 && 0 < y1 && x1 <= cols {
        if y1 <= rows {
            assert((y1 - 1) * cols + x1 <= rows * cols) by (nonlinear_arith)
                requires
                    0 < y1 <= rows,
                    0 < x1 <= cols,
            ;
        } else {
            assert((y1 - 1) * cols + x1 > rows * cols) by (nonlinear_arith)
                requires
                    y1 > rows,
                    rows >= 0,
                    0 < x1 <= cols,
            ;
        }
    }
}

} // verus!
