//! Exact rational coordinates.
//!
//! Every coordinate of the layout is a fraction `num / den` with a
//! positive denominator. Operations build the exact unreduced result,
//! so a contract can state what a value *is*, field by field, and
//! equality and order of coordinates are plain integer comparisons of
//! cross-products.

use vstd::prelude::*;

verus! {

/// An exact rational number, `num / den`, with `den > 0`.
#[derive(Clone, Copy, Debug)]
pub struct Rat {
    pub num: i128,
    pub den: i128,
}

/// A rational as a pair of unbounded integers: the model a `Rat` is read as.
pub struct Frac {
    pub n: int,
    pub d: int,
}

impl View for Rat {
    type V = Frac;

    open spec fn view(&self) -> Frac {
        Frac { n: self.num as int, d: self.den as int }
    }
}

impl Rat {
    /// Well-formed: the denominator is positive.
    pub open spec fn wf(self) -> bool {
        self.den > 0
    }
}

/// Well-formed fraction: positive denominator.
pub open spec fn fwf(a: Frac) -> bool {
    a.d > 0
}

/// `a == b` as rationals, by cross-multiplication.
pub open spec fn feq(a: Frac, b: Frac) -> bool {
    a.n * b.d == b.n * a.d
}

/// `a <= b` as rationals, by cross-multiplication (for positive denominators).
pub open spec fn fle(a: Frac, b: Frac) -> bool {
    a.n * b.d <= b.n * a.d
}

/// `a < b` as rationals, by cross-multiplication (for positive denominators).
pub open spec fn flt(a: Frac, b: Frac) -> bool {
    a.n * b.d < b.n * a.d
}

/// The rational zero.
pub open spec fn fzero() -> Frac {
    Frac { n: 0, d: 1 }
}

/// Exact sum.
pub open spec fn fadd(a: Frac, b: Frac) -> Frac {
    Frac { n: a.n * b.d + b.n * a.d, d: a.d * b.d }
}

/// Exact difference.
pub open spec fn fsub(a: Frac, b: Frac) -> Frac {
    Frac { n: a.n * b.d - b.n * a.d, d: a.d * b.d }
}

/// Exact product.
pub open spec fn fmul(a: Frac, b: Frac) -> Frac {
    Frac { n: a.n * b.n, d: a.d * b.d }
}

/// Exact quotient `a / b`, for `b` nonzero; the sign moves into the numerator.
pub open spec fn fdivq(a: Frac, b: Frac) -> Frac {
    if b.n > 0 {
        Frac { n: a.n * b.d, d: a.d * b.n }
    } else {
        Frac { n: -(a.n * b.d), d: -(a.d * b.n) }
    }
}

/// Negation.
pub open spec fn fneg(a: Frac) -> Frac {
    Frac { n: -a.n, d: a.d }
}

/// Absolute value.
pub open spec fn fabs(a: Frac) -> Frac {
    if a.n < 0 {
        fneg(a)
    } else {
        a
    }
}

/// Division by a positive count: an equal share of `a` among `k` members.
pub open spec fn fdiv_count(a: Frac, k: int) -> Frac {
    Frac { n: a.n, d: a.d * k }
}

/// Half of `a`.
pub open spec fn fhalf(a: Frac) -> Frac {
    Frac { n: a.n, d: 2 * a.d }
}

/// `k` times `a`.
pub open spec fn fscale(k: int, a: Frac) -> Frac {
    Frac { n: k * a.n, d: a.d }
}

/// The offset of the centre of slot `k` in a run of equal slots of width
/// `w`: `(k + 1/2) * w`.
pub open spec fn fslot(w: Frac, k: int) -> Frac {
    Frac { n: (2 * k + 1) * w.n, d: 2 * w.d }
}

/// `v` clamped to `[lo, hi]`, the lower bound winning when the bounds cross.
pub open spec fn fclamp(v: Frac, lo: Frac, hi: Frac) -> Frac {
    if flt(v, lo) {
        lo
    } else if flt(hi, v) {
        hi
    } else {
        v
    }
}

/// Within the headroom that exact `i128` cross-products leave: every
/// operation below forms sums of at most a few such products.
pub open spec fn fits(x: int) -> bool {
    -1_000_000_000_000_000_000_000_000_000_000_000_000 <= x
        && x <= 1_000_000_000_000_000_000_000_000_000_000_000_000
}

/// The product of two positives is positive.
pub proof fn lemma_pos_mul(x: int, y: int)
    by (nonlinear_arith)
    requires
        0 < x,
        0 < y,
    ensures
        0 < x * y,
{
}

/// A product is bounded by the product of the bounds of its factors.
pub proof fn lemma_fit_mul(x: int, y: int, bx: int, by: int)
    by (nonlinear_arith)
    requires
        0 <= bx,
        0 <= by,
        -bx <= x <= bx,
        -by <= y <= by,
    ensures
        -(bx * by) <= x * y <= bx * by,
{
}

/// Rational equality is transitive.
pub proof fn lemma_feq_trans(a: Frac, b: Frac, c: Frac)
    requires
        fwf(a),
        fwf(b),
        fwf(c),
        feq(a, b),
        feq(b, c),
    ensures
        feq(a, c),
{
    assert(a.n * c.d == c.n * a.d) by (nonlinear_arith)
        requires
            a.d > 0,
            b.d > 0,
            c.d > 0,
            a.n * b.d == b.n * a.d,
            b.n * c.d == c.n * b.d,
    ;
}

/// Rational order is transitive.
pub proof fn lemma_fle_trans(a: Frac, b: Frac, c: Frac)
    requires
        fwf(a),
        fwf(b),
        fwf(c),
        fle(a, b),
        fle(b, c),
    ensures
        fle(a, c),
{
    assert(a.n * c.d <= c.n * a.d) by (nonlinear_arith)
        requires
            a.d > 0,
            b.d > 0,
            c.d > 0,
            a.n * b.d <= b.n * a.d,
            b.n * c.d <= c.n * b.d,
    ;
}

/// Strict order survives a weak step on the right.
pub proof fn lemma_flt_fle_trans(a: Frac, b: Frac, c: Frac)
    requires
        fwf(a),
        fwf(b),
        fwf(c),
        flt(a, b),
        fle(b, c),
    ensures
        flt(a, c),
{
    assert(a.n * c.d < c.n * a.d) by (nonlinear_arith)
        requires
            a.d > 0,
            b.d > 0,
            c.d > 0,
            a.n * b.d < b.n * a.d,
            b.n * c.d <= c.n * b.d,
    ;
}

/// Strict order survives a weak step on the left.
pub proof fn lemma_fle_flt_trans(a: Frac, b: Frac, c: Frac)
    requires
        fwf(a),
        fwf(b),
        fwf(c),
        fle(a, b),
        flt(b, c),
    ensures
        flt(a, c),
{
    assert(a.n * c.d < c.n * a.d) by (nonlinear_arith)
        requires
            a.d > 0,
            b.d > 0,
            c.d > 0,
            a.n * b.d <= b.n * a.d,
            b.n * c.d < c.n * b.d,
    ;
}

/// Equal rationals sit on the same side of any third one.
pub proof fn lemma_feq_fle(a: Frac, b: Frac, c: Frac)
    requires
        fwf(a),
        fwf(b),
        fwf(c),
        feq(a, b),
    ensures
        fle(a, c) == fle(b, c),
        fle(c, a) == fle(c, b),
        flt(a, c) == flt(b, c),
        flt(c, a) == flt(c, b),
{
    assert((a.n * c.d <= c.n * a.d) == (b.n * c.d <= c.n * b.d)
        && (c.n * a.d <= a.n * c.d) == (c.n * b.d <= b.n * c.d)
        && (a.n * c.d < c.n * a.d) == (b.n * c.d < c.n * b.d)
        && (c.n * a.d < a.n * c.d) == (c.n * b.d < b.n * c.d)) by (nonlinear_arith)
        requires
            a.d > 0,
            b.d > 0,
            c.d > 0,
            a.n * b.d == b.n * a.d,
    ;
}

/// Adding `a` to each of two equal rationals gives equal rationals,
/// stated over the raw cross-products.
proof fn lemma_cross_add(an: int, ad: int, bn: int, bd: int, cn: int, cd: int)
    by (nonlinear_arith)
    requires
        ad > 0,
        bd > 0,
        cd > 0,
        bn * cd == cn * bd,
    ensures
        (an * bd + bn * ad) * (ad * cd) == (an * cd + cn * ad) * (ad * bd),
{
}

/// Regrouping the numerator of `(a + u) + v` around the combined
/// denominator `ud * vd`.
proof fn lemma_regroup_sum(an: int, ad: int, un: int, ud: int, vn: int, vd: int)
    by (nonlinear_arith)
    requires
        ad > 0,
        ud > 0,
        vd > 0,
    ensures
        (an * ud + un * ad) * vd + vn * (ad * ud) == an * (ud * vd) + (un * vd + vn * ud) * ad,
{
}

/// Products associate.
proof fn lemma_mul_assoc(x: int, y: int, z: int)
    by (nonlinear_arith)
    ensures
        (x * y) * z == x * (y * z),
{
}

/// Sums respect rational equality in their right operand.
pub proof fn lemma_fadd_cong_right(a: Frac, b: Frac, c: Frac)
    requires
        fwf(a),
        fwf(b),
        fwf(c),
        feq(b, c),
    ensures
        feq(fadd(a, b), fadd(a, c)),
{
    lemma_cross_add(a.n, a.d, b.n, b.d, c.n, c.d);
}

/// Regrouping the numerator of `(a + u) - v` around the combined
/// denominator `ud * vd`.
proof fn lemma_regroup_diff(an: int, ad: int, un: int, ud: int, vn: int, vd: int)
    by (nonlinear_arith)
    requires
        ad > 0,
        ud > 0,
        vd > 0,
    ensures
        (an * ud + un * ad) * vd - vn * (ad * ud) == an * (ud * vd) + (un * vd - vn * ud) * ad,
{
}

/// When `u - v == w` as rationals, `(a + u) - v == a + w` as
/// rationals.
pub proof fn lemma_fsub_assoc_cong(a: Frac, u: Frac, v: Frac, w: Frac)
    requires
        fwf(a),
        fwf(u),
        fwf(v),
        fwf(w),
        feq(fsub(u, v), w),
    ensures
        feq(fsub(fadd(a, u), v), fadd(a, w)),
{
    lemma_regroup_diff(a.n, a.d, u.n, u.d, v.n, v.d);
    lemma_pos_mul(u.d, v.d);
    lemma_cross_add(a.n, a.d, u.n * v.d - v.n * u.d, u.d * v.d, w.n, w.d);
    lemma_mul_assoc(a.d, u.d, v.d);
}

/// When `u + v == w` as rationals, `(a + u) + v == a + w` as
/// rationals.
pub proof fn lemma_fadd_assoc_cong(a: Frac, u: Frac, v: Frac, w: Frac)
    requires
        fwf(a),
        fwf(u),
        fwf(v),
        fwf(w),
        feq(fadd(u, v), w),
    ensures
        feq(fadd(fadd(a, u), v), fadd(a, w)),
{
    lemma_regroup_sum(a.n, a.d, u.n, u.d, v.n, v.d);
    lemma_pos_mul(u.d, v.d);
    lemma_cross_add(a.n, a.d, u.n * v.d + v.n * u.d, u.d * v.d, w.n, w.d);
    lemma_mul_assoc(a.d, u.d, v.d);
}

/// Dividing `a` into `k` equal shares and taking all `k` of them gives
/// back `a`.
pub proof fn lemma_scale_div(a: Frac, k: int)
    requires
        fwf(a),
        1 <= k,
    ensures
        feq(fscale(k, fdiv_count(a, k)), a),
{
    assert(feq(fscale(k, fdiv_count(a, k)), a)) by (nonlinear_arith)
        requires
            a.d > 0,
            k >= 1,
    ;
}

/// The sum of a sequence of fractions, left to right.
pub open spec fn fsum(s: Seq<Frac>) -> Frac
    decreases s.len(),
{
    if s.len() == 0 {
        fzero()
    } else {
        fadd(fsum(s.drop_last()), s.last())
    }
}

/// `m` copies of `w`.
pub open spec fn frepeat(w: Frac, m: int) -> Seq<Frac> {
    Seq::new(m as nat, |i: int| w)
}

/// Adding `c` to each of two equal rationals gives equal rationals,
/// stated over the raw cross-products.
proof fn lemma_cross_add_left(an: int, ad: int, bn: int, bd: int, cn: int, cd: int)
    by (nonlinear_arith)
    requires
        ad > 0,
        bd > 0,
        cd > 0,
        an * bd == bn * ad,
    ensures
        (an * cd + cn * ad) * (bd * cd) == (bn * cd + cn * bd) * (ad * cd),
{
}

/// Sums respect rational equality in their left operand.
pub proof fn lemma_fadd_cong_left(a: Frac, b: Frac, c: Frac)
    requires
        fwf(a),
        fwf(b),
        fwf(c),
        feq(a, b),
    ensures
        feq(fadd(a, c), fadd(b, c)),
{
    lemma_cross_add_left(a.n, a.d, b.n, b.d, c.n, c.d);
}

/// `(m - 1)` copies of `w` plus one more make `m` copies, stated over
/// the raw cross-products.
proof fn lemma_cross_scale_step(wn: int, wd: int, m: int)
    by (nonlinear_arith)
    requires
        wd > 0,
    ensures
        ((m - 1) * wn * wd + wn * wd) * wd == (m * wn) * (wd * wd),
{
}

/// The sum of `m` copies of `w` is `m * w`.
pub proof fn lemma_fsum_const(w: Frac, m: int)
    requires
        fwf(w),
        0 <= m,
    ensures
        fwf(fsum(frepeat(w, m))),
        feq(fsum(frepeat(w, m)), fscale(m, w)),
    decreases m,
{
    if m == 0 {
        assert(frepeat(w, 0).len() == 0);
        assert(fsum(frepeat(w, m)) == fzero());
        assert(feq(fsum(frepeat(w, m)), fscale(m, w))) by (nonlinear_arith)
            requires
                m == 0,
                w.d > 0,
                fsum(frepeat(w, m)) == fzero(),
        ;
    } else {
        lemma_fsum_const(w, m - 1);
        assert(frepeat(w, m).len() == m);
        assert(fsum(frepeat(w, m)) == fadd(
            fsum(frepeat(w, m).drop_last()),
            frepeat(w, m).last(),
        ));
        assert(frepeat(w, m).drop_last() =~= frepeat(w, m - 1));
        assert(frepeat(w, m).last() == w);
        let s1 = fsum(frepeat(w, m - 1));
        lemma_fadd_cong_left(s1, fscale(m - 1, w), w);
        lemma_cross_scale_step(w.n, w.d, m);
        assert(feq(fadd(fscale(m - 1, w), w), fscale(m, w)));
        lemma_pos_mul(s1.d, w.d);
        lemma_pos_mul(w.d, w.d);
        lemma_feq_trans(fadd(s1, w), fadd(fscale(m - 1, w), w), fscale(m, w));
    }
}

/// Clamping lands inside the interval: when `lo <= hi`, the clamped
/// value is at least `lo` and at most `hi`, whatever was asked for.
pub proof fn lemma_clamp_in_range(v: Frac, lo: Frac, hi: Frac)
    requires
        fwf(v),
        fwf(lo),
        fwf(hi),
        fle(lo, hi),
    ensures
        fle(lo, fclamp(v, lo, hi)),
        fle(fclamp(v, lo, hi), hi),
{
}

/// `a` as a rational, for an integer `a`.
pub fn rat_of_int(v: i64) -> (r: Rat)
    ensures
        r.wf(),
        r@ == (Frac { n: v as int, d: 1 }),
{
    Rat { num: v as i128, den: 1 }
}

/// Exact sum of two rationals.
pub fn rat_add(a: Rat, b: Rat) -> (r: Rat)
    requires
        a.wf(),
        b.wf(),
        fits(a@.n * b@.d),
        fits(b@.n * a@.d),
        fits(a@.d * b@.d),
    ensures
        r.wf(),
        r@ == fadd(a@, b@),
{
    proof {
        lemma_pos_mul(a.den as int, b.den as int);
    }
    Rat { num: a.num * b.den + b.num * a.den, den: a.den * b.den }
}

/// Exact difference of two rationals.
pub fn rat_sub(a: Rat, b: Rat) -> (r: Rat)
    requires
        a.wf(),
        b.wf(),
        fits(a@.n * b@.d),
        fits(b@.n * a@.d),
        fits(a@.d * b@.d),
    ensures
        r.wf(),
        r@ == fsub(a@, b@),
{
    proof {
        lemma_pos_mul(a.den as int, b.den as int);
    }
    Rat { num: a.num * b.den - b.num * a.den, den: a.den * b.den }
}

/// Exact product of two rationals.
pub fn rat_mul(a: Rat, b: Rat) -> (r: Rat)
    requires
        a.wf(),
        b.wf(),
        fits(a@.n * b@.n),
        fits(a@.d * b@.d),
    ensures
        r.wf(),
        r@ == fmul(a@, b@),
{
    proof {
        lemma_pos_mul(a.den as int, b.den as int);
    }
    Rat { num: a.num * b.num, den: a.den * b.den }
}

/// Exact quotient of two rationals; the divisor must be nonzero.
pub fn rat_div(a: Rat, b: Rat) -> (r: Rat)
    requires
        a.wf(),
        b.wf(),
        b@.n != 0,
        fits(a@.n * b@.d),
        fits(a@.d * b@.n),
    ensures
        r.wf(),
        r@ == fdivq(a@, b@),
{
    if b.num > 0 {
        proof {
            lemma_pos_mul(a.den as int, b.num as int);
        }
        Rat { num: a.num * b.den, den: a.den * b.num }
    } else {
        proof {
            lemma_pos_mul(a.den as int, -(b.num as int));
            assert(a.den as int * (-(b.num as int)) == -(a.den as int * (b.num as int)))
                by (nonlinear_arith);
        }
        Rat { num: -(a.num * b.den), den: -(a.den * b.num) }
    }
}

/// Negation.
pub fn rat_neg(a: Rat) -> (r: Rat)
    requires
        a.wf(),
        fits(a@.n),
    ensures
        r.wf(),
        r@ == fneg(a@),
{
    Rat { num: -a.num, den: a.den }
}

/// Absolute value.
pub fn rat_abs(a: Rat) -> (r: Rat)
    requires
        a.wf(),
        fits(a@.n),
    ensures
        r.wf(),
        r@ == fabs(a@),
{
    if a.num < 0 {
        Rat { num: -a.num, den: a.den }
    } else {
        a
    }
}

/// An equal share of `a` among `k` members.
pub fn rat_div_count(a: Rat, k: usize) -> (r: Rat)
    requires
        a.wf(),
        1 <= k,
        fits(a@.d * k),
    ensures
        r.wf(),
        r@ == fdiv_count(a@, k as int),
{
    proof {
        lemma_pos_mul(a.den as int, k as int);
    }
    Rat { num: a.num, den: a.den * (k as i128) }
}

/// Half of `a`.
pub fn rat_half(a: Rat) -> (r: Rat)
    requires
        a.wf(),
        fits(a@.d),
    ensures
        r.wf(),
        r@ == fhalf(a@),
{
    Rat { num: a.num, den: 2 * a.den }
}

/// The offset of the centre of slot `k` in a run of equal slots of
/// width `w`: `(k + 1/2) * w`.
pub fn rat_slot(w: Rat, k: usize) -> (r: Rat)
    requires
        w.wf(),
        k <= 1000,
        fits((2 * k + 1) * w@.n),
        fits(w@.d),
    ensures
        r.wf(),
        r@ == fslot(w@, k as int),
{
    Rat { num: (2 * (k as i128) + 1) * w.num, den: 2 * w.den }
}

/// `a <= b` as rationals.
pub fn rat_le(a: Rat, b: Rat) -> (r: bool)
    requires
        a.wf(),
        b.wf(),
        fits(a@.n * b@.d),
        fits(b@.n * a@.d),
    ensures
        r == fle(a@, b@),
{
    a.num * b.den <= b.num * a.den
}

/// `a < b` as rationals.
pub fn rat_lt(a: Rat, b: Rat) -> (r: bool)
    requires
        a.wf(),
        b.wf(),
        fits(a@.n * b@.d),
        fits(b@.n * a@.d),
    ensures
        r == flt(a@, b@),
{
    a.num * b.den < b.num * a.den
}

/// `a == b` as rationals.
pub fn rat_eq(a: Rat, b: Rat) -> (r: bool)
    requires
        a.wf(),
        b.wf(),
        fits(a@.n * b@.d),
        fits(b@.n * a@.d),
    ensures
        r == feq(a@, b@),
{
    a.num * b.den == b.num * a.den
}

/// `v` clamped to `[lo, hi]`, the lower bound winning when the bounds
/// cross.
pub fn rat_clamp(v: Rat, lo: Rat, hi: Rat) -> (r: Rat)
    requires
        v.wf(),
        lo.wf(),
        hi.wf(),
        fits(v@.n * lo@.d),
        fits(lo@.n * v@.d),
        fits(v@.n * hi@.d),
        fits(hi@.n * v@.d),
    ensures
        r.wf(),
        r@ == fclamp(v@, lo@, hi@),
{
    if rat_lt(v, lo) {
        lo
    } else if rat_lt(hi, v) {
        hi
    } else {
        v
    }
}

} // verus!
