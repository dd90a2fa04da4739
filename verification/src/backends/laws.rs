//! Laws of the native transforms, stated over the plane model that their
//! contracts use. A plane here is packed: `h` rows of `w` bytes, row pitch `w`.

use vstd::prelude::*;

use crate::backends::native::rot_at;
use crate::base::rotation::VideoRotation;
use crate::paint::{
    copy_val, injective, lemma_packed_rect, lemma_paint_injective,
    lemma_rect_injective, nn_src, nn_val, paint, rect_at,
};
use crate::plane_ops::{flipped_val, interleave_val, interleaved_val};

verus! {

/// Every index of a packed `h × w` plane is `r · w + c` for one cell `(r, c)`.
pub proof fn lemma_packed_cell(i: int, w: int, h: int)
    requires
        w > 0,
        0 <= i < h * w,
    ensures
        0 <= i / w < h,
        0 <= i % w < w,
        i == (i / w) * w + i % w,
{
    vstd::arithmetic::div_mod::lemma_fundamental_div_mod(i, w);
    vstd::arithmetic::div_mod::lemma_mod_pos_bound(i, w);
    vstd::arithmetic::div_mod::lemma_div_pos_is_pos(i, w);
    assert(i / w < h) by (nonlinear_arith)
        requires
            i == w * (i / w) + i % w,
            0 <= i % w,
            i < h * w,
            w > 0,
    ;
    assert(w * (i / w) == (i / w) * w) by (nonlinear_arith);
}

/// Painting every cell of a packed plane: each cell holds its value, whatever
/// the plane held before.
pub proof fn lemma_paint_packed(d: Seq<u8>, h: nat, w: nat, val: spec_fn(int, int) -> u8)
    requires
        d.len() == h * w,
    ensures
        paint(d, h, w, rect_at(0, w as int), val).len() == d.len(),
        forall|r: int, c: int|
            0 <= r < h && 0 <= c < w ==> #[trigger] paint(d, h, w, rect_at(0, w as int), val)[r * w
                + c] == val(r, c),
{
    lemma_packed_rect(h, w, d.len());
    lemma_paint_injective(d, h, w, rect_at(0, w as int), val);
    assert forall|r: int, c: int| 0 <= r < h && 0 <= c < w implies #[trigger] paint(
        d,
        h,
        w,
        rect_at(0, w as int),
        val,
    )[r * w + c] == val(r, c) by {
        assert(rect_at(0, w as int)(r, c) == r * w + c);
    }
}

/// Two packed planes of the same size that agree on every cell are equal.
pub proof fn lemma_packed_ext(a: Seq<u8>, b: Seq<u8>, h: nat, w: nat)
    requires
        a.len() == h * w,
        b.len() == h * w,
        forall|r: int, c: int| 0 <= r < h && 0 <= c < w ==> #[trigger] a[r * w + c] == b[r * w + c],
    ensures
        a == b,
{
    assert forall|i: int| 0 <= i < a.len() implies a[i] == b[i] by {
        lemma_packed_cell(i, w as int, h as int);
        let r = i / (w as int);
        let c = i % (w as int);
        assert(a[r * w + c] == b[r * w + c]);
    }
    assert(a =~= b);
}

/// Flipping a packed plane upside down twice gives it back: `mirror` applied
/// to its own output restores the source picture.
pub proof fn law_mirror_twice_restores(s: Seq<u8>, d1: Seq<u8>, d2: Seq<u8>, h: nat, w: nat)
    requires
        s.len() == h * w,
        d1.len() == h * w,
        d2.len() == h * w,
    ensures
        ({
            let once = paint(d1, h, w, rect_at(0, w as int), flipped_val(s, 0, w as int, h as int));
            paint(d2, h, w, rect_at(0, w as int), flipped_val(once, 0, w as int, h as int)) == s
        }),
{
    let once = paint(d1, h, w, rect_at(0, w as int), flipped_val(s, 0, w as int, h as int));
    lemma_paint_packed(d1, h, w, flipped_val(s, 0, w as int, h as int));
    let twice = paint(d2, h, w, rect_at(0, w as int), flipped_val(once, 0, w as int, h as int));
    lemma_paint_packed(d2, h, w, flipped_val(once, 0, w as int, h as int));
    assert forall|r: int, c: int| 0 <= r < h && 0 <= c < w implies #[trigger] twice[r * w + c] == s[r
        * w + c] by {
        assert(twice[r * w + c] == once[0 + (h - 1 - r) * w + c]);
        assert(once[(h - 1 - r) * w + c] == s[0 + (h - 1 - (h - 1 - r)) * w + c]);
    }
    lemma_packed_ext(twice, s, h, w);
}

/// No two pixels of a `w × h` plane land on the same byte when rotated into
/// a destination whose row pitch is at least the rotated width.
pub proof fn lemma_rot_injective(rot: VideoRotation, ds: int, w: nat, h: nat)
    requires
        rot is Rotation90 || rot is Rotation270 ==> ds >= h,
        rot is Rotation0 || rot is Rotation180 ==> ds >= w,
    ensures
        injective(h, w, rot_at(rot, ds, w as int, h as int)),
{
    let at = rot_at(rot, ds, w as int, h as int);
    if rot is Rotation90 || rot is Rotation270 {
        lemma_rect_injective(0, ds, w, h);
    } else {
        lemma_rect_injective(0, ds, h, w);
    }
    assert forall|r1: int, c1: int, r2: int, c2: int|
        0 <= r1 < h && 0 <= c1 < w && 0 <= r2 < h && 0 <= c2 < w && (r1 != r2 || c1 != c2) implies #[trigger] at(
        r1,
        c1,
    ) != #[trigger] at(r2, c2) by {
        match rot {
            VideoRotation::Rotation0 => {
                assert(at(r1, c1) == rect_at(0, ds)(r1, c1));
                assert(at(r2, c2) == rect_at(0, ds)(r2, c2));
            },
            VideoRotation::Rotation270 => {
                assert(at(r1, c1) == rect_at(0, ds)(w - 1 - c1, r1));
                assert(at(r2, c2) == rect_at(0, ds)(w - 1 - c2, r2));
            },
            VideoRotation::Rotation180 => {
                assert(at(r1, c1) == rect_at(0, ds)(h - 1 - r1, w - 1 - c1));
                assert(at(r2, c2) == rect_at(0, ds)(h - 1 - r2, w - 1 - c2));
            },
            VideoRotation::Rotation90 => {
                assert(at(r1, c1) == rect_at(0, ds)(c1, h - 1 - r1));
                assert(at(r2, c2) == rect_at(0, ds)(c2, h - 1 - r2));
            },
        }
    }
}

proof fn lemma_rot_packed(rot: VideoRotation, ds: int, d: Seq<u8>, w: nat, h: nat, val: spec_fn(int, int) -> u8)
    requires
        d.len() == h * w,
        rot is Rotation90 || rot is Rotation270 ==> ds == h,
        rot is Rotation0 || rot is Rotation180 ==> ds == w,
    ensures
        paint(d, h, w, rot_at(rot, ds, w as int, h as int), val).len() == d.len(),
        forall|r: int, c: int|
            0 <= r < h && 0 <= c < w ==> #[trigger] paint(d, h, w, rot_at(rot, ds, w as int, h as int), val)[rot_at(rot, ds, w as int, h as int)(r, c)]
                == val(r, c),
{
    if rot is Rotation90 || rot is Rotation270 {
        assert(d.len() == w * h) by (nonlinear_arith)
            requires
                d.len() == h * w,
        ;
        lemma_packed_rect(w, h, d.len());
    } else {
        lemma_packed_rect(h, w, d.len());
    }
    crate::backends::native::lemma_rot_in_bounds(rot, ds, w, h, d.len());
    lemma_rot_injective(rot, ds, w, h);
    lemma_paint_injective(d, h, w, rot_at(rot, ds, w as int, h as int), val);
}

/// Rotating a packed `w × h` plane by 90° (into an `h × w` plane) and the
/// result by 270° gives the source plane back.
pub proof fn law_rotate_90_then_270_restores(s: Seq<u8>, d1: Seq<u8>, d2: Seq<u8>, w: nat, h: nat)
    requires
        s.len() == h * w,
        d1.len() == h * w,
        d2.len() == h * w,
    ensures
        ({
            let once = paint(
                d1,
                h,
                w,
                rot_at(VideoRotation::Rotation90, h as int, w as int, h as int),
                copy_val(s, 0, w as int),
            );
            paint(
                d2,
                w,
                h,
                rot_at(VideoRotation::Rotation270, w as int, h as int, w as int),
                copy_val(once, 0, h as int),
            ) == s
        }),
{
    let once = paint(
        d1,
        h,
        w,
        rot_at(VideoRotation::Rotation90, h as int, w as int, h as int),
        copy_val(s, 0, w as int),
    );
    lemma_rot_packed(VideoRotation::Rotation90, h as int, d1, w, h, copy_val(s, 0, w as int));
    assert(d2.len() == w * h) by (nonlinear_arith)
        requires
            d2.len() == h * w,
    ;
    let twice = paint(
        d2,
        w,
        h,
        rot_at(VideoRotation::Rotation270, w as int, h as int, w as int),
        copy_val(once, 0, h as int),
    );
    lemma_rot_packed(VideoRotation::Rotation270, w as int, d2, h, w, copy_val(once, 0, h as int));
    assert forall|r: int, c: int| 0 <= r < h && 0 <= c < w implies #[trigger] twice[r * w + c] == s[r
        * w + c] by {
        let at2 = rot_at(VideoRotation::Rotation270, w as int, h as int, w as int);
        let at1 = rot_at(VideoRotation::Rotation90, h as int, w as int, h as int);
        // the second rotation moves its pixel (c, h - 1 - r) to index r·w + c
        assert(at2(c, h - 1 - r) == r * w + c);
        assert(twice[at2(c, h - 1 - r)] == copy_val(once, 0, h as int)(c, h - 1 - r));
        // the first rotation moved pixel (r, c) to index c·h + (h - 1 - r)
        assert(at1(r, c) == c * h + (h - 1 - r));
        assert(once[at1(r, c)] == copy_val(s, 0, w as int)(r, c));
    }
    lemma_packed_ext(twice, s, h, w);
}

/// Rotating a packed plane by 180° twice gives it back.
pub proof fn law_rotate_180_twice_restores(s: Seq<u8>, d1: Seq<u8>, d2: Seq<u8>, w: nat, h: nat)
    requires
        s.len() == h * w,
        d1.len() == h * w,
        d2.len() == h * w,
    ensures
        ({
            let once = paint(
                d1,
                h,
                w,
                rot_at(VideoRotation::Rotation180, w as int, w as int, h as int),
                copy_val(s, 0, w as int),
            );
            paint(
                d2,
                h,
                w,
                rot_at(VideoRotation::Rotation180, w as int, w as int, h as int),
                copy_val(once, 0, w as int),
            ) == s
        }),
{
    let at = rot_at(VideoRotation::Rotation180, w as int, w as int, h as int);
    let once = paint(d1, h, w, at, copy_val(s, 0, w as int));
    lemma_rot_packed(VideoRotation::Rotation180, w as int, d1, w, h, copy_val(s, 0, w as int));
    let twice = paint(d2, h, w, at, copy_val(once, 0, w as int));
    lemma_rot_packed(VideoRotation::Rotation180, w as int, d2, w, h, copy_val(once, 0, w as int));
    assert forall|r: int, c: int| 0 <= r < h && 0 <= c < w implies #[trigger] twice[r * w + c] == s[r
        * w + c] by {
        assert(at(h - 1 - r, w - 1 - c) == r * w + c);
        assert(twice[at(h - 1 - r, w - 1 - c)] == copy_val(once, 0, w as int)(h - 1 - r, w - 1 - c));
        assert(at(r, c) == (h - 1 - r) * w + (w - 1 - c));
        assert(once[at(r, c)] == copy_val(s, 0, w as int)(r, c));
    }
    lemma_packed_ext(twice, s, h, w);
}

/// Rotation by 0° copies a packed plane.
pub proof fn law_rotate_0_is_copy(s: Seq<u8>, d: Seq<u8>, w: nat, h: nat)
    requires
        s.len() == h * w,
        d.len() == h * w,
    ensures
        paint(d, h, w, rot_at(VideoRotation::Rotation0, w as int, w as int, h as int), copy_val(s, 0, w as int))
            == s,
{
    let at = rot_at(VideoRotation::Rotation0, w as int, w as int, h as int);
    let p = paint(d, h, w, at, copy_val(s, 0, w as int));
    lemma_rot_packed(VideoRotation::Rotation0, w as int, d, w, h, copy_val(s, 0, w as int));
    assert forall|r: int, c: int| 0 <= r < h && 0 <= c < w implies #[trigger] p[r * w + c] == s[r * w
        + c] by {
        assert(at(r, c) == r * w + c);
        assert(p[at(r, c)] == copy_val(s, 0, w as int)(r, c));
    }
    lemma_packed_ext(p, s, h, w);
}

/// Nearest-neighbour resampling to the same size samples each pixel itself.
pub proof fn law_nn_same_size_is_identity(i: int, n: int)
    requires
        0 <= i < n,
    ensures
        nn_src(i, n, n) == i,
{
    vstd::arithmetic::div_mod::lemma_div_multiples_vanish(i, n);
    assert(i * n == n * i) by (nonlinear_arith);
}

/// Scaling a packed plane to its own size copies it.
pub proof fn law_scale_same_size_is_copy(s: Seq<u8>, d: Seq<u8>, w: nat, h: nat)
    requires
        s.len() == h * w,
        d.len() == h * w,
    ensures
        paint(d, h, w, rect_at(0, w as int), nn_val(s, w as int, w as int, h as int, w as int, h as int)) == s,
{
    let p = paint(d, h, w, rect_at(0, w as int), nn_val(s, w as int, w as int, h as int, w as int, h as int));
    lemma_paint_packed(d, h, w, nn_val(s, w as int, w as int, h as int, w as int, h as int));
    assert forall|r: int, c: int| 0 <= r < h && 0 <= c < w implies #[trigger] p[r * w + c] == s[r * w
        + c] by {
        law_nn_same_size_is_identity(r, h as int);
        law_nn_same_size_is_identity(c, w as int);
    }
    lemma_packed_ext(p, s, h, w);
}

/// Interleaving two packed `hh × hw` chroma planes into NV12 rows and
/// splitting those rows again gives both planes back.
pub proof fn law_nv12_roundtrip_restores(
    u: Seq<u8>,
    v: Seq<u8>,
    duv: Seq<u8>,
    du: Seq<u8>,
    dv: Seq<u8>,
    hw: nat,
    hh: nat,
)
    requires
        u.len() == hh * hw,
        v.len() == hh * hw,
        du.len() == hh * hw,
        dv.len() == hh * hw,
        duv.len() == hh * (2 * hw),
    ensures
        ({
            let uv = paint(duv, hh, 2 * hw, rect_at(0, (2 * hw) as int), interleave_val(u, v, hw as int));
            &&& paint(du, hh, hw, rect_at(0, hw as int), interleaved_val(uv, (2 * hw) as int, 0)) == u
            &&& paint(dv, hh, hw, rect_at(0, hw as int), interleaved_val(uv, (2 * hw) as int, 1)) == v
        }),
{
    let uv = paint(duv, hh, 2 * hw, rect_at(0, (2 * hw) as int), interleave_val(u, v, hw as int));
    lemma_paint_packed(duv, hh, 2 * hw, interleave_val(u, v, hw as int));
    let pu = paint(du, hh, hw, rect_at(0, hw as int), interleaved_val(uv, (2 * hw) as int, 0));
    let pv = paint(dv, hh, hw, rect_at(0, hw as int), interleaved_val(uv, (2 * hw) as int, 1));
    lemma_paint_packed(du, hh, hw, interleaved_val(uv, (2 * hw) as int, 0));
    lemma_paint_packed(dv, hh, hw, interleaved_val(uv, (2 * hw) as int, 1));
    assert forall|r: int, c: int| 0 <= r < hh && 0 <= c < hw implies #[trigger] pu[r * hw + c] == u[r
        * hw + c] by {
        assert(pu[r * hw + c] == uv[r * (2 * hw) + 2 * c + 0]);
        assert(uv[r * (2 * hw) + 2 * c] == interleave_val(u, v, hw as int)(r, 2 * c));
        assert((2 * c) % 2 == 0 && (2 * c) / 2 == c);
    }
    assert forall|r: int, c: int| 0 <= r < hh && 0 <= c < hw implies #[trigger] pv[r * hw + c] == v[r
        * hw + c] by {
        assert(pv[r * hw + c] == uv[r * (2 * hw) + 2 * c + 1]);
        assert(uv[r * (2 * hw) + (2 * c + 1)] == interleave_val(u, v, hw as int)(r, 2 * c + 1));
        assert((2 * c + 1) % 2 == 1 && (2 * c + 1) / 2 == c);
    }
    lemma_packed_ext(pu, u, hh, hw);
    lemma_packed_ext(pv, v, hh, hw);
}

} // verus!
