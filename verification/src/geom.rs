//! Boxes, the window, and the initial layout.
//!
//! A `LayoutBox` is one horizontal strip: its rendered geometry
//! (`width`, `centre`) and the geometry the animator is converging
//! toward (`target_width`, `target_centre`). Boxes live in a sequence
//! ordered by `id`, `id` equal to the index. The window is a rectangle
//! given by its four edges.

use vstd::prelude::*;

use crate::rat::{
    fadd, fdiv_count, feq, fhalf, fle, flt, fscale, fslot, fsub, fwf, fzero, lemma_fadd_assoc_cong,
    lemma_fadd_cong_right, lemma_feq_fle, lemma_fsub_assoc_cong, lemma_scale_div,
    lemma_feq_trans, lemma_fit_mul, lemma_fle_trans, lemma_flt_fle_trans,
    lemma_pos_mul, rat_add, rat_div_count, rat_half, rat_lt, rat_slot, rat_sub, Frac, Rat,
};

verus! {

/// One horizontal strip of the layout.
#[derive(Clone, Copy, Debug)]
pub struct LayoutBox {
    /// Stable 0-based position in the row; equal to the index.
    pub id: usize,
    /// Rendered width.
    pub width: Rat,
    /// Width the animator is converging toward.
    pub target_width: Rat,
    /// Rendered centre, on the horizontal axis.
    pub centre: Rat,
    /// Centre the animator is converging toward.
    pub target_centre: Rat,
}

/// The window rectangle, by its edges. `left < right` and
/// `bottom < top` (the vertical axis points up).
#[derive(Clone, Copy, Debug)]
pub struct WinRect {
    pub left: Rat,
    pub right: Rat,
    pub top: Rat,
    pub bottom: Rat,
}

/// A rendered coordinate one frame works on: magnitude of a screen
/// position, denominator small enough that a full frame of exact
/// arithmetic stays within `i128`.
pub open spec fn coord_bounded(a: Frac) -> bool {
    -100_000_000 <= a.n && a.n <= 100_000_000 && 0 < a.d && a.d <= 100_000
}

/// A window edge: window-sized magnitude, in whole, half or quarter
/// units.
pub open spec fn win_bounded(a: Frac) -> bool {
    -10_000 <= a.n && a.n <= 10_000 && 0 < a.d && a.d <= 4
}

/// Bound that every target and requested size computed in one frame
/// respects.
pub open spec fn wide_bounded(a: Frac) -> bool {
    -10_000_000_000_000_000_000_000_000_000 <= a.n
        && a.n <= 10_000_000_000_000_000_000_000_000_000
        && 0 < a.d && a.d <= 1_000_000_000_000_000_000_000_000
}

/// Bound that a box edge (`centre ± width / 2`) of bounded geometry
/// respects.
pub open spec fn edge_bounded(a: Frac) -> bool {
    -30_000_000_000_000 <= a.n && a.n <= 30_000_000_000_000 && 0 < a.d && a.d <= 20_000_000_000
}

impl LayoutBox {
    /// The rendered geometry is well-formed and small enough for one
    /// frame of exact arithmetic.
    pub open spec fn geom_ok(self) -> bool {
        self.width.wf() && self.centre.wf() && coord_bounded(self.width@)
            && coord_bounded(self.centre@)
    }

    /// The targets are well-formed and within the one-frame bound.
    pub open spec fn targets_ok(self) -> bool {
        self.target_width.wf() && self.target_centre.wf() && wide_bounded(self.target_width@)
            && wide_bounded(self.target_centre@)
    }

    /// Left edge, from the rendered geometry: `centre - width / 2`.
    pub open spec fn left_frac(self) -> Frac {
        fsub(self.centre@, fhalf(self.width@))
    }

    /// Right edge, from the rendered geometry: `centre + width / 2`.
    pub open spec fn right_frac(self) -> Frac {
        fadd(self.centre@, fhalf(self.width@))
    }

    /// Left edge, `centre - width / 2`.
    pub fn left(&self) -> (r: Rat)
        requires
            self.geom_ok(),
        ensures
            r.wf(),
            r@ == self.left_frac(),
            edge_bounded(r@),
    {
        let h = rat_half(self.width);
        proof {
            lemma_fit_mul(self.centre@.n, h@.d, 100_000_000, 200_000);
            lemma_fit_mul(h@.n, self.centre@.d, 100_000_000, 100_000);
            lemma_fit_mul(self.centre@.d, h@.d, 100_000, 200_000);
        }
        rat_sub(self.centre, h)
    }

    /// Right edge, `centre + width / 2`.
    pub fn right(&self) -> (r: Rat)
        requires
            self.geom_ok(),
        ensures
            r.wf(),
            r@ == self.right_frac(),
            edge_bounded(r@),
    {
        let h = rat_half(self.width);
        proof {
            lemma_fit_mul(self.centre@.n, h@.d, 100_000_000, 200_000);
            lemma_fit_mul(h@.n, self.centre@.d, 100_000_000, 100_000);
            lemma_fit_mul(self.centre@.d, h@.d, 100_000, 200_000);
        }
        rat_add(self.centre, h)
    }
}

impl WinRect {
    /// Valid window: edges well-formed, nonempty in both axes.
    pub open spec fn wf(self) -> bool {
        self.left.wf() && self.right.wf() && self.top.wf() && self.bottom.wf()
            && flt(self.left@, self.right@) && flt(self.bottom@, self.top@)
    }

    /// Every edge within the window bound.
    pub open spec fn bounded(self) -> bool {
        win_bounded(self.left@) && win_bounded(self.right@) && win_bounded(self.top@)
            && win_bounded(self.bottom@)
    }

    /// The window width, `right - left`.
    pub open spec fn width_frac(self) -> Frac {
        fsub(self.right@, self.left@)
    }

    /// The window width, `right - left`; positive for a valid window.
    pub fn width(&self) -> (r: Rat)
        requires
            self.wf(),
            self.bounded(),
        ensures
            r.wf(),
            r@ == self.width_frac(),
            flt(fzero(), r@),
            -80_000 <= r@.n <= 80_000,
            0 < r@.d <= 16,
    {
        proof {
            lemma_fit_mul(self.right@.n, self.left@.d, 10_000, 4);
            lemma_fit_mul(self.left@.n, self.right@.d, 10_000, 4);
            lemma_fit_mul(self.left@.d, self.right@.d, 4, 4);
        }
        rat_sub(self.right, self.left)
    }
}

/// Every box's rendered geometry is well-formed and bounded.
pub open spec fn boxes_geom_ok(s: Seq<LayoutBox>) -> bool {
    forall|i: int| 0 <= i < s.len() ==> (#[trigger] s[i]).geom_ok()
}

/// Every box's targets are well-formed and bounded.
pub open spec fn boxes_targets_ok(s: Seq<LayoutBox>) -> bool {
    forall|i: int| 0 <= i < s.len() ==> (#[trigger] s[i]).targets_ok()
}

/// Ids are the indices: 0-based, contiguous, ascending.
pub open spec fn ids_canonical(s: Seq<LayoutBox>) -> bool {
    forall|i: int| 0 <= i < s.len() ==> (#[trigger] s[i]).id == i
}

/// No box is rendered with a negative width.
pub open spec fn widths_nonneg(s: Seq<LayoutBox>) -> bool {
    forall|i: int| 0 <= i < s.len() ==> fle(fzero(), (#[trigger] s[i]).width@)
}

/// The rendered boxes tile the window: the first starts at the left
/// edge, each next one starts where the previous ends, the last ends
/// at the right edge.
pub open spec fn contiguous(s: Seq<LayoutBox>, win: WinRect) -> bool {
    s.len() > 0 && feq(s[0].left_frac(), win.left@) && feq(
        s[s.len() - 1].right_frac(),
        win.right@,
    ) && (forall|i: int|
        0 <= i < s.len() - 1 ==> feq((#[trigger] s[i]).right_frac(), s[i + 1].left_frac()))
}

/// `x` lies strictly inside the rendered extent of `b`.
pub open spec fn in_box(x: Frac, b: LayoutBox) -> bool {
    flt(b.left_frac(), x) && flt(x, b.right_frac())
}

/// Whether `x` lies strictly between the rendered edges of `b`.
pub fn is_in_box(x: Rat, b: &LayoutBox) -> (r: bool)
    requires
        x.wf(),
        coord_bounded(x@),
        b.geom_ok(),
    ensures
        r == in_box(x@, *b),
{
    let l = b.left();
    let rt = b.right();
    proof {
        lemma_fit_mul(x@.n, l@.d, 100_000_000, 20_000_000_000);
        lemma_fit_mul(l@.n, x@.d, 30_000_000_000_000, 100_000);
        lemma_fit_mul(x@.n, rt@.d, 100_000_000, 20_000_000_000);
        lemma_fit_mul(rt@.n, x@.d, 30_000_000_000_000, 100_000);
    }
    rat_lt(l, x) && rat_lt(x, rt)
}

/// The first box at or after position `i` that strictly contains `x`.
pub open spec fn first_hit_from(s: Seq<LayoutBox>, x: Frac, i: int) -> Option<int>
    decreases s.len() - i,
{
    if i < 0 || i >= s.len() {
        Option::None
    } else if in_box(x, s[i]) {
        Option::Some(i)
    } else {
        first_hit_from(s, x, i + 1)
    }
}

/// The first box, in id order, that strictly contains `x`.
pub open spec fn first_hit(s: Seq<LayoutBox>, x: Frac) -> Option<int> {
    first_hit_from(s, x, 0)
}

/// The index of the first box, in id order, whose open interval
/// strictly contains `x`; `None` when no box does.
pub fn get_active_box(boxes: &Vec<LayoutBox>, x: Rat) -> (r: Option<usize>)
    requires
        x.wf(),
        coord_bounded(x@),
        boxes_geom_ok(boxes@),
    ensures
        match r {
            Option::Some(i) => i < boxes@.len() && first_hit(boxes@, x@) == Option::Some(i as int),
            Option::None => first_hit(boxes@, x@) is None,
        },
{
    let n = boxes.len();
    let mut i: usize = 0;
    while i < n
        invariant
            i <= n,
            n == boxes@.len(),
            x.wf(),
            coord_bounded(x@),
            boxes_geom_ok(boxes@),
            first_hit(boxes@, x@) == first_hit_from(boxes@, x@, i as int),
        decreases n - i,
    {
        if is_in_box(x, &boxes[i]) {
            return Option::Some(i);
        }
        i += 1;
    }
    Option::None
}

/// Evenly spaced boxes that fill the window: `n` boxes of width
/// `W / n` (`W` the window width), contiguous from the left edge, each
/// box's rendered geometry equal to its target, ids `0..n` in order.
pub fn initial_boxes(n: usize, win: &WinRect) -> (r: Vec<LayoutBox>)
    requires
        1 <= n <= 100,
        win.wf(),
        win.bounded(),
    ensures
        r@.len() == n as int,
        ids_canonical(r@),
        boxes_geom_ok(r@),
        boxes_targets_ok(r@),
        widths_nonneg(r@),
        contiguous(r@, *win),
        forall|k: int|
            0 <= k < n ==> (#[trigger] r@[k]).width@ == fdiv_count(win.width_frac(), n as int),
        forall|k: int|
            0 <= k < n ==> (#[trigger] r@[k]).centre@ == fadd(
                win.left@,
                fslot(fdiv_count(win.width_frac(), n as int), k),
            ),
        forall|k: int|
            0 <= k < n ==> (#[trigger] r@[k]).target_width == r@[k].width
                && r@[k].target_centre == r@[k].centre,
{
    let w2 = win.width();
    proof {
        lemma_fit_mul(w2@.d, n as int, 16, 100);
    }
    let sw = rat_div_count(w2, n);
    let mut v: Vec<LayoutBox> = Vec::new();
    let mut i: usize = 0;
    while i < n
        invariant
            i <= n,
            1 <= n <= 100,
            win.wf(),
            win.bounded(),
            sw.wf(),
            sw@ == fdiv_count(win.width_frac(), n as int),
            -80_000 <= sw@.n <= 80_000,
            0 < sw@.d <= 1600,
            0 < sw@.n,
            v@.len() == i as int,
            forall|k: int| 0 <= k < i ==> (#[trigger] v@[k]).id == k,
            forall|k: int| 0 <= k < i ==> (#[trigger] v@[k]).width == sw,
            forall|k: int|
                0 <= k < i ==> (#[trigger] v@[k]).centre@ == fadd(win.left@, fslot(sw@, k)),
            forall|k: int|
                0 <= k < i ==> (#[trigger] v@[k]).target_width == v@[k].width
                    && v@[k].target_centre == v@[k].centre,
            forall|k: int| 0 <= k < i ==> (#[trigger] v@[k]).geom_ok() && v@[k].targets_ok(),
        decreases n - i,
    {
        proof {
            lemma_fit_mul(2 * (i as int) + 1, sw@.n, 201, 80_000);
        }
        let off = rat_slot(sw, i);
        proof {
            lemma_fit_mul(win.left@.n, off@.d, 10_000, 3200);
            lemma_fit_mul(off@.n, win.left@.d, 16_080_000, 4);
            lemma_fit_mul(win.left@.d, off@.d, 4, 3200);
        }
        let c = rat_add(win.left, off);
        v.push(LayoutBox { id: i, width: sw, target_width: sw, centre: c, target_centre: c });
        i += 1;
    }
    proof {
        assert forall|k: int| 0 <= k < n - 1 implies feq(
            (#[trigger] v@[k]).right_frac(),
            v@[k + 1].left_frac(),
        ) by {
            lemma_slot_edges(win.left@, sw@, k);
        }
        lemma_slot_edges(win.left@, sw@, 0);
        lemma_scale_div(win.width_frac(), n as int);
        lemma_last_edge(win.left@, win.right@, sw@, n as int);
    }
    v
}

/// When `n` slots of width `sw` make up exactly `wr - wl`, the last
/// slot ends at `wr`.
proof fn lemma_last_edge(wl: Frac, wr: Frac, sw: Frac, n: int)
    requires
        fwf(wl),
        fwf(wr),
        fwf(sw),
        1 <= n,
        feq(fscale(n, sw), fsub(wr, wl)),
    ensures
        feq(fadd(fadd(wl, fslot(sw, n - 1)), fhalf(sw)), wr),
{
    let u = fslot(sw, n - 1);
    let v = fhalf(sw);
    let sc = fscale(n, sw);
    assert(feq(fadd(u, v), sc)) by (nonlinear_arith)
        requires
            sw.d > 0,
            u == fslot(sw, n - 1),
            v == fhalf(sw),
            sc == fscale(n, sw),
    ;
    lemma_fadd_assoc_cong(wl, u, v, sc);
    lemma_pos_mul(wr.d, wl.d);
    lemma_fadd_cong_right(wl, sc, fsub(wr, wl));
    assert(feq(fadd(wl, fsub(wr, wl)), wr)) by (nonlinear_arith)
        requires
            wl.d > 0,
            wr.d > 0,
    ;
    lemma_pos_mul(wl.d, 2 * sw.d);
    lemma_pos_mul(wl.d * (2 * sw.d), 2 * sw.d);
    lemma_pos_mul(wl.d, sw.d);
    lemma_pos_mul(wr.d, wl.d);
    lemma_pos_mul(wl.d, wr.d * wl.d);
    lemma_feq_trans(fadd(fadd(wl, u), v), fadd(wl, sc), fadd(wl, fsub(wr, wl)));
    lemma_feq_trans(fadd(fadd(wl, u), v), fadd(wl, fsub(wr, wl)), wr);
}

/// In a run of equal slots of width `sw` starting at `wl`, the right
/// edge of slot `i` is the left edge of slot `i + 1`, and slot 0
/// starts at `wl`.
proof fn lemma_slot_edges(wl: Frac, sw: Frac, i: int)
    requires
        fwf(wl),
        fwf(sw),
    ensures
        feq(fsub(fadd(wl, fslot(sw, 0)), fhalf(sw)), wl),
        feq(
            fadd(fadd(wl, fslot(sw, i)), fhalf(sw)),
            fsub(fadd(wl, fslot(sw, i + 1)), fhalf(sw)),
        ),
{
    let v = fhalf(sw);
    lemma_pos_mul(wl.d, 2 * sw.d);
    lemma_pos_mul(wl.d * (2 * sw.d), 2 * sw.d);
    lemma_pos_mul(wl.d, sw.d);

    // Slot 0 starts at wl: its left edge offset from wl is zero.
    let u0 = fslot(sw, 0);
    assert(feq(fsub(u0, v), fzero())) by (nonlinear_arith)
        requires
            sw.d > 0,
            u0 == fslot(sw, 0),
            v == fhalf(sw),
    ;
    lemma_fsub_assoc_cong(wl, u0, v, fzero());
    assert(feq(fadd(wl, fzero()), wl));
    lemma_feq_trans(fsub(fadd(wl, u0), v), fadd(wl, fzero()), wl);

    // Slot i ends, and slot i + 1 starts, i + 1 widths from wl.
    let u1 = fslot(sw, i);
    let u2 = fslot(sw, i + 1);
    let sc = fscale(i + 1, sw);
    assert(feq(fadd(u1, v), sc)) by (nonlinear_arith)
        requires
            sw.d > 0,
            u1 == fslot(sw, i),
            v == fhalf(sw),
            sc == fscale(i + 1, sw),
    ;
    assert(feq(fsub(u2, v), sc)) by (nonlinear_arith)
        requires
            sw.d > 0,
            u2 == fslot(sw, i + 1),
            v == fhalf(sw),
            sc == fscale(i + 1, sw),
    ;
    lemma_fadd_assoc_cong(wl, u1, v, sc);
    lemma_fsub_assoc_cong(wl, u2, v, sc);
    lemma_feq_trans(fadd(fadd(wl, u1), v), fadd(wl, sc), fsub(fadd(wl, u2), v));
}

/// Every box's rendered width and centre have positive denominators.
pub open spec fn boxes_rendered_wf(s: Seq<LayoutBox>) -> bool {
    forall|i: int| 0 <= i < s.len() ==> (#[trigger] s[i]).width.wf() && s[i].centre.wf()
}

/// A box's edges are well-formed fractions, and ordered when the width
/// is nonnegative.
proof fn lemma_box_edges(b: LayoutBox)
    requires
        b.width.wf(),
        b.centre.wf(),
    ensures
        fwf(b.left_frac()),
        fwf(b.right_frac()),
        fle(fzero(), b.width@) ==> fle(b.left_frac(), b.right_frac()),
{
    lemma_pos_mul(b.centre@.d, 2 * b.width@.d);
    assert(fle(fzero(), b.width@) ==> fle(b.left_frac(), b.right_frac())) by (nonlinear_arith)
        requires
            b.centre@.d > 0,
            b.width@.d > 0,
    ;
}

/// In a contiguous layout, boxes do not cross: the right edge of an
/// earlier box is at or before the left edge of a later one.
pub proof fn lemma_edges_ordered(s: Seq<LayoutBox>, win: WinRect, i: int, j: int)
    requires
        boxes_rendered_wf(s),
        widths_nonneg(s),
        contiguous(s, win),
        0 <= i < j < s.len(),
    ensures
        fle(s[i].right_frac(), s[j].left_frac()),
    decreases j - i,
{
    lemma_box_edges(s[i]);
    lemma_box_edges(s[j]);
    if j == i + 1 {
        assert(feq(s[i].right_frac(), s[j].left_frac()));
    } else {
        lemma_edges_ordered(s, win, i, j - 1);
        lemma_box_edges(s[j - 1]);
        lemma_fle_trans(s[i].right_frac(), s[j - 1].left_frac(), s[j - 1].right_frac());
        lemma_fle_trans(s[i].right_frac(), s[j - 1].right_frac(), s[j].left_frac());
    }
}

/// A point of the window interior lies strictly inside at most one box
/// of a contiguous layout.
pub proof fn lemma_point_in_unique_box(s: Seq<LayoutBox>, win: WinRect, x: Frac, i: int, j: int)
    requires
        fwf(x),
        boxes_rendered_wf(s),
        widths_nonneg(s),
        contiguous(s, win),
        0 <= i < s.len(),
        0 <= j < s.len(),
        in_box(x, s[i]),
        in_box(x, s[j]),
    ensures
        i == j,
{
    lemma_box_edges(s[i]);
    lemma_box_edges(s[j]);
    if i < j {
        lemma_edges_ordered(s, win, i, j);
        lemma_flt_fle_trans(x, s[i].right_frac(), s[j].left_frac());
    } else if j < i {
        lemma_edges_ordered(s, win, j, i);
        lemma_flt_fle_trans(x, s[j].right_frac(), s[i].left_frac());
    }
}

/// Walking right from a box whose left edge is strictly before `x`,
/// some box strictly contains `x`, provided `x` is strictly before the
/// window's right edge and on no box's right edge.
proof fn lemma_locate(s: Seq<LayoutBox>, win: WinRect, x: Frac, i: int)
    requires
        fwf(x),
        fwf(win.right@),
        boxes_rendered_wf(s),
        contiguous(s, win),
        0 <= i < s.len(),
        flt(s[i].left_frac(), x),
        flt(x, win.right@),
        forall|k: int| 0 <= k < s.len() ==> !feq(x, (#[trigger] s[k]).right_frac()),
    ensures
        exists|k: int| i <= k < s.len() && in_box(x, #[trigger] s[k]),
    decreases s.len() - i,
{
    lemma_box_edges(s[i]);
    if flt(x, s[i].right_frac()) {
        assert(in_box(x, s[i]));
    } else {
        assert(flt(s[i].right_frac(), x));
        if i == s.len() - 1 {
            lemma_feq_fle(s[i].right_frac(), win.right@, x);
            assert(false);
        } else {
            lemma_box_edges(s[i + 1]);
            lemma_feq_fle(s[i].right_frac(), s[i + 1].left_frac(), x);
            lemma_locate(s, win, x, i + 1);
        }
    }
}

/// The active-box choice reads only rendered geometry: two sequences
/// that agree on widths and centres agree on the first hit, walking
/// from position `i`.
proof fn lemma_first_hit_from_same(s1: Seq<LayoutBox>, s2: Seq<LayoutBox>, x: Frac, i: int)
    requires
        s1.len() == s2.len(),
        forall|k: int|
            0 <= k < s1.len() ==> (#[trigger] s2[k]).width == s1[k].width && s2[k].centre
                == s1[k].centre,
    ensures
        first_hit_from(s1, x, i) == first_hit_from(s2, x, i),
    decreases s1.len() - i,
{
    if 0 <= i < s1.len() {
        assert(in_box(x, s1[i]) == in_box(x, s2[i]));
        lemma_first_hit_from_same(s1, s2, x, i + 1);
    }
}

/// The active-box choice reads only rendered geometry: two sequences
/// that agree on widths and centres agree on the first hit.
pub proof fn lemma_first_hit_same_geometry(s1: Seq<LayoutBox>, s2: Seq<LayoutBox>, x: Frac)
    requires
        s1.len() == s2.len(),
        forall|k: int|
            0 <= k < s1.len() ==> (#[trigger] s2[k]).width == s1[k].width && s2[k].centre
                == s1[k].centre,
    ensures
        first_hit(s1, x) == first_hit(s2, x),
{
    lemma_first_hit_from_same(s1, s2, x, 0);
}

/// A point of the window interior that sits on no box boundary lies
/// strictly inside some box of a contiguous layout. Together with
/// `lemma_point_in_unique_box`: exactly one box, boundaries excepted.
pub proof fn lemma_point_in_some_box(s: Seq<LayoutBox>, win: WinRect, x: Frac)
    requires
        fwf(x),
        win.wf(),
        boxes_rendered_wf(s),
        contiguous(s, win),
        flt(win.left@, x),
        flt(x, win.right@),
        forall|k: int| 0 <= k < s.len() ==> !feq(x, (#[trigger] s[k]).right_frac()),
    ensures
        exists|k: int| 0 <= k < s.len() && in_box(x, #[trigger] s[k]),
{
    lemma_box_edges(s[0]);
    lemma_feq_fle(s[0].left_frac(), win.left@, x);
    lemma_locate(s, win, x, 0);
}

} // verus!
