//! The animator.
//!
//! Each frame, every box's rendered width and centre move one tenth of
//! the way to their targets: `value = value + (target - value) / 10`.
//! The step is exact, so the distance to the target after a step is
//! exactly nine tenths of what it was, and a value already at its
//! target stays there.

use vstd::prelude::*;

use crate::geom::{boxes_geom_ok, boxes_targets_ok, LayoutBox};
use crate::rat::{
    fabs, fadd, fdiv_count, feq, fits, fneg, fscale, fsub, fwf, lemma_fit_mul, lemma_pos_mul,
    Frac, Rat,
};

verus! {

/// One animator step: `a + (t - a) / 10`, as one exact fraction over
/// the common denominator `10 * a.d * t.d`.
pub open spec fn flerp(a: Frac, t: Frac) -> Frac {
    Frac { n: 10 * (a.n * t.d) + (t.n * a.d - a.n * t.d), d: 10 * (a.d * t.d) }
}

/// The closed form above is exactly `a + (t - a) / 10`.
pub proof fn lemma_flerp_is_step(a: Frac, t: Frac)
    requires
        fwf(a),
        fwf(t),
    ensures
        feq(flerp(a, t), fadd(a, fdiv_count(fsub(t, a), 10))),
{
    assert(feq(flerp(a, t), fadd(a, fdiv_count(fsub(t, a), 10)))) by (nonlinear_arith)
        requires
            a.d > 0,
            t.d > 0,
    ;
}

/// A value already at its target stays there.
pub proof fn lemma_flerp_fixed(a: Frac, t: Frac)
    requires
        fwf(a),
        fwf(t),
        feq(a, t),
    ensures
        feq(flerp(a, t), a),
{
    assert(feq(flerp(a, t), a)) by (nonlinear_arith)
        requires
            a.d > 0,
            t.d > 0,
            a.n * t.d == t.n * a.d,
    ;
}

/// Ten times one signed distance equals nine times the other, over raw
/// cross-products: negating both sides of the cross-multiplied
/// equation.
proof fn lemma_cross_neg(p: int, q: int, u: int, v: int)
    by (nonlinear_arith)
    requires
        (10 * p) * v == (9 * q) * u,
    ensures
        (10 * -p) * v == (9 * -q) * u,
{
}

/// Two signed distances in the exact ratio 10 : 9 have the same sign.
proof fn lemma_cross_sign(p: int, q: int, u: int, v: int)
    by (nonlinear_arith)
    requires
        u > 0,
        v > 0,
        (10 * p) * v == (9 * q) * u,
    ensures
        (p < 0) == (q < 0),
{
}

/// Contraction law: one animator step shrinks the distance to the
/// target by the factor 9/10 exactly — ten times the distance after
/// the step equals nine times the distance before it.
pub proof fn lemma_lerp_contraction(a: Frac, t: Frac)
    requires
        fwf(a),
        fwf(t),
    ensures
        feq(fscale(10, fsub(t, flerp(a, t))), fscale(9, fsub(t, a))),
        feq(fscale(10, fabs(fsub(t, flerp(a, t)))), fscale(9, fabs(fsub(t, a)))),
{
    let x = fsub(t, flerp(a, t));
    let y = fsub(t, a);
    lemma_pos_mul(a.d, t.d);
    lemma_pos_mul(t.d, 10 * (a.d * t.d));
    lemma_pos_mul(t.d, a.d);
    assert(feq(fscale(10, x), fscale(9, y))) by (nonlinear_arith)
        requires
            a.d > 0,
            t.d > 0,
            x == fsub(t, flerp(a, t)),
            y == fsub(t, a),
    ;
    lemma_cross_sign(x.n, y.n, x.d, y.d);
    if y.n < 0 {
        lemma_cross_neg(x.n, y.n, x.d, y.d);
        assert(fabs(x) == fneg(x));
        assert(fabs(y) == fneg(y));
    } else {
        assert(fabs(x) == x);
        assert(fabs(y) == y);
    }
}

/// `post` is one animator step over `pre`: ids and targets kept,
/// rendered width and centre moved one tenth of the way to their
/// targets.
pub open spec fn is_anim_of(pre: Seq<LayoutBox>, post: Seq<LayoutBox>) -> bool {
    &&& post.len() == pre.len()
    &&& forall|i: int|
        0 <= i < pre.len() ==> (#[trigger] post[i]).id == pre[i].id && post[i].target_width
            == pre[i].target_width && post[i].target_centre == pre[i].target_centre
            && post[i].width@ == flerp(pre[i].width@, pre[i].target_width@) && post[i].centre@
            == flerp(pre[i].centre@, pre[i].target_centre@) && post[i].width.wf()
            && post[i].centre.wf()
}

/// One animator step: `a + (t - a) / 10`, exactly.
pub fn rat_lerp(a: Rat, t: Rat) -> (r: Rat)
    requires
        a.wf(),
        t.wf(),
        fits(a@.n * t@.d),
        fits(t@.n * a@.d),
        fits(a@.d * t@.d),
    ensures
        r.wf(),
        r@ == flerp(a@, t@),
{
    proof {
        lemma_pos_mul(a.den as int, t.den as int);
    }
    Rat {
        num: 10 * (a.num * t.den) + (t.num * a.den - a.num * t.den),
        den: 10 * (a.den * t.den),
    }
}

/// Advance every box's rendered geometry one tenth of the way to its
/// target; targets and ids are untouched.
pub fn animate_boxes(boxes: &mut Vec<LayoutBox>)
    requires
        boxes_geom_ok(old(boxes)@),
        boxes_targets_ok(old(boxes)@),
    ensures
        final(boxes)@.len() == old(boxes)@.len(),
        is_anim_of(old(boxes)@, final(boxes)@),
{
    let n = boxes.len();
    let mut out: Vec<LayoutBox> = Vec::new();
    let mut i: usize = 0;
    while i < n
        invariant
            i <= n,
            n == boxes@.len(),
            boxes_geom_ok(boxes@),
            boxes_targets_ok(boxes@),
            out@.len() == i as int,
            forall|k: int|
                0 <= k < i ==> (#[trigger] out@[k]).id == boxes@[k].id && out@[k].target_width
                    == boxes@[k].target_width && out@[k].target_centre == boxes@[k].target_centre
                    && out@[k].width@ == flerp(boxes@[k].width@, boxes@[k].target_width@)
                    && out@[k].centre@ == flerp(boxes@[k].centre@, boxes@[k].target_centre@)
                    && out@[k].width.wf() && out@[k].centre.wf(),
        decreases n - i,
    {
        let b = boxes[i];
        proof {
            lemma_fit_mul(
                b.width@.n,
                b.target_width@.d,
                100_000_000,
                1_000_000_000_000_000_000_000_000,
            );
            lemma_fit_mul(
                b.target_width@.n,
                b.width@.d,
                10_000_000_000_000_000_000_000_000_000,
                100_000,
            );
            lemma_fit_mul(b.width@.d, b.target_width@.d, 100_000, 1_000_000_000_000_000_000_000_000);
            lemma_fit_mul(
                b.centre@.n,
                b.target_centre@.d,
                100_000_000,
                1_000_000_000_000_000_000_000_000,
            );
            lemma_fit_mul(
                b.target_centre@.n,
                b.centre@.d,
                10_000_000_000_000_000_000_000_000_000,
                100_000,
            );
            lemma_fit_mul(
                b.centre@.d,
                b.target_centre@.d,
                100_000,
                1_000_000_000_000_000_000_000_000,
            );
        }
        let w = rat_lerp(b.width, b.target_width);
        let c = rat_lerp(b.centre, b.target_centre);
        out.push(
            LayoutBox {
                id: b.id,
                width: w,
                target_width: b.target_width,
                centre: c,
                target_centre: b.target_centre,
            },
        );
        i += 1;
    }
    *boxes = out;
}

} // verus!
