//! The per-frame driver.
//!
//! Each frame: map the pointer's vertical position to a requested
//! width (window top maps to the full window width, window bottom to
//! zero), pick the active box under the pointer, run the layout pass
//! if there is one, then advance every box one animator step. The
//! host environment supplies the window and the pointer and reads the
//! boxes back to draw them; everything in between is here.

use vstd::prelude::*;

use crate::animate::{animate_boxes, is_anim_of};
use crate::geom::{
    boxes_geom_ok, boxes_targets_ok, contiguous, coord_bounded, first_hit, get_active_box,
    ids_canonical, initial_boxes, wide_bounded, widths_nonneg, win_bounded, LayoutBox, WinRect,
};
use crate::layout::{is_layout_of, layout_boxes};
use crate::rat::{
    fadd, fdiv_count, fdivq, feq, fmul, fsub, fzero, lemma_fit_mul, rat_add, rat_div, rat_lt,
    rat_mul, rat_of_int, rat_sub, Frac, Rat,
};

verus! {

/// The whole animation state: the ordered boxes and the last requested
/// active-box size, derived from the pointer's vertical position.
pub struct Model {
    pub boxes: Vec<LayoutBox>,
    pub box_size: Rat,
}

impl Model {
    /// The state a frame update works on: a nonempty row of at most a
    /// hundred boxes, ids in order, all geometry and targets
    /// well-formed and within the one-frame arithmetic bounds.
    pub open spec fn frame_ready(self) -> bool {
        &&& 1 <= self.boxes@.len() <= 100
        &&& ids_canonical(self.boxes@)
        &&& boxes_geom_ok(self.boxes@)
        &&& boxes_targets_ok(self.boxes@)
        &&& self.box_size.wf()
    }
}

/// The linear map sending `[ia, ib]` to `[oa, ob]`:
/// `oa + (v - ia) * (ob - oa) / (ib - ia)`.
pub open spec fn fmap_range(v: Frac, ia: Frac, ib: Frac, oa: Frac, ob: Frac) -> Frac {
    fadd(oa, fdivq(fmul(fsub(v, ia), fsub(ob, oa)), fsub(ib, ia)))
}

/// The linear map sending `[ia, ib]` to `[oa, ob]`, evaluated at `v`.
pub fn map_range(v: Rat, ia: Rat, ib: Rat, oa: Rat, ob: Rat) -> (r: Rat)
    requires
        v.wf(),
        ia.wf(),
        ib.wf(),
        oa.wf(),
        ob.wf(),
        coord_bounded(v@),
        win_bounded(ia@),
        win_bounded(ib@),
        -100_000 <= oa@.n <= 100_000,
        0 < oa@.d <= 100,
        -100_000 <= ob@.n <= 100_000,
        0 < ob@.d <= 100,
        !feq(ia@, ib@),
    ensures
        r.wf(),
        r@ == fmap_range(v@, ia@, ib@, oa@, ob@),
        wide_bounded(r@),
{
    proof {
        lemma_fit_mul(v@.n, ia@.d, 100_000_000, 4);
        lemma_fit_mul(ia@.n, v@.d, 10_000, 100_000);
        lemma_fit_mul(v@.d, ia@.d, 100_000, 4);
    }
    let s = rat_sub(v, ia);
    proof {
        lemma_fit_mul(ob@.n, oa@.d, 100_000, 100);
        lemma_fit_mul(oa@.n, ob@.d, 100_000, 100);
        lemma_fit_mul(ob@.d, oa@.d, 100, 100);
    }
    let t = rat_sub(ob, oa);
    proof {
        lemma_fit_mul(s@.n, t@.n, 1_400_000_000, 20_000_000);
        lemma_fit_mul(s@.d, t@.d, 400_000, 10_000);
    }
    let p = rat_mul(s, t);
    proof {
        lemma_fit_mul(ib@.n, ia@.d, 10_000, 4);
        lemma_fit_mul(ia@.n, ib@.d, 10_000, 4);
        lemma_fit_mul(ib@.d, ia@.d, 4, 4);
    }
    let u = rat_sub(ib, ia);
    proof {
        lemma_fit_mul(p@.n, u@.d, 28_000_000_000_000_000, 16);
        lemma_fit_mul(p@.d, u@.n, 4_000_000_000, 80_000);
    }
    let q = rat_div(p, u);
    proof {
        lemma_fit_mul(oa@.n, q@.d, 100_000, 320_000_000_000_000);
        lemma_fit_mul(q@.n, oa@.d, 448_000_000_000_000_000, 100);
        lemma_fit_mul(oa@.d, q@.d, 100, 320_000_000_000_000);
    }
    rat_add(oa, q)
}

/// `post` is one whole frame over `pre`: when some box strictly
/// contains the pointer, a layout pass with requested size `bs` and
/// pointer `mx` followed by one animator step; when none does, the
/// animator step alone.
pub open spec fn is_frame_of(
    pre: Seq<LayoutBox>,
    post: Seq<LayoutBox>,
    win: WinRect,
    bs: Frac,
    mx: Frac,
) -> bool {
    match first_hit(pre, mx) {
        Option::Some(a) => exists|mid: Seq<LayoutBox>|
            #[trigger] is_layout_of(pre, mid, a, win, bs, mx) && is_anim_of(mid, post),
        Option::None => is_anim_of(pre, post),
    }
}

/// One frame: derive the requested size from the pointer's vertical
/// position (top of the window maps to the window width, bottom to
/// zero), re-lay the boxes out around the box under the pointer if
/// there is one, then advance the animator.
pub fn update_model(m: &mut Model, win: &WinRect, mouse_x: Rat, mouse_y: Rat)
    requires
        old(m).frame_ready(),
        win.wf(),
        win.bounded(),
        mouse_x.wf(),
        coord_bounded(mouse_x@),
        mouse_y.wf(),
        coord_bounded(mouse_y@),
    ensures
        final(m).boxes@.len() == old(m).boxes@.len(),
        final(m).box_size@ == fmap_range(
            mouse_y@,
            win.top@,
            win.bottom@,
            win.width_frac(),
            fzero(),
        ),
        is_frame_of(old(m).boxes@, final(m).boxes@, *win, final(m).box_size@, mouse_x@),
{
    let w2 = win.width();
    let zero = rat_of_int(0);
    let bs = map_range(mouse_y, win.top, win.bottom, w2, zero);
    m.box_size = bs;
    let act = get_active_box(&m.boxes, mouse_x);
    match act {
        Option::Some(a) => {
            let nb = layout_boxes(&m.boxes, a, win, bs, mouse_x);
            let ghost mid: Seq<LayoutBox> = nb@;
            m.boxes = nb;
            animate_boxes(&mut m.boxes);
            proof {
                // The layout output is the frame predicate's
                // intermediate sequence.
                assert(first_hit(old(m).boxes@, mouse_x@) == Option::Some(a as int));
                assert(is_layout_of(
                    old(m).boxes@,
                    mid,
                    first_hit(old(m).boxes@, mouse_x@)->Some_0,
                    *win,
                    bs@,
                    mouse_x@,
                ));
                assert(is_anim_of(mid, m.boxes@));
            }
        },
        Option::None => {
            animate_boxes(&mut m.boxes);
        },
    }
}

/// The state at startup: evenly spaced boxes filling the window, each
/// already at its target, and a zero requested size.
pub fn new_model(n: usize, win: &WinRect) -> (m: Model)
    requires
        1 <= n <= 100,
        win.wf(),
        win.bounded(),
    ensures
        m.frame_ready(),
        m.boxes@.len() == n as int,
        m.box_size@ == fzero(),
        contiguous(m.boxes@, *win),
        widths_nonneg(m.boxes@),
        forall|k: int|
            0 <= k < n ==> (#[trigger] m.boxes@[k]).width@ == fdiv_count(
                win.width_frac(),
                n as int,
            ),
        forall|k: int|
            0 <= k < n ==> (#[trigger] m.boxes@[k]).target_width == m.boxes@[k].width
                && m.boxes@[k].target_centre == m.boxes@[k].centre,
{
    Model { boxes: initial_boxes(n, win), box_size: rat_of_int(0) }
}

/// Whether `x` is a well-formed coordinate within the one-frame
/// bound: what a frame update asks of a pointer position.
pub fn coord_check(x: &Rat) -> (b: bool)
    ensures
        b == (x.wf() && coord_bounded(x@)),
{
    0 < x.den && x.den <= 100_000 && -100_000_000 <= x.num && x.num <= 100_000_000
}

/// Whether one window edge is well-formed and within the window
/// bound.
fn win_edge_check(e: &Rat) -> (b: bool)
    ensures
        b == (e.wf() && win_bounded(e@)),
{
    0 < e.den && e.den <= 4 && -10_000 <= e.num && e.num <= 10_000
}

/// Whether `w` is a valid, bounded window: edges in quarter units at
/// finest, left of right, bottom below top.
pub fn win_check(w: &WinRect) -> (b: bool)
    ensures
        b == (w.wf() && w.bounded()),
{
    if !(win_edge_check(&w.left) && win_edge_check(&w.right) && win_edge_check(&w.top)
        && win_edge_check(&w.bottom)) {
        return false;
    }
    proof {
        lemma_fit_mul(w.left@.n, w.right@.d, 10_000, 4);
        lemma_fit_mul(w.right@.n, w.left@.d, 10_000, 4);
        lemma_fit_mul(w.bottom@.n, w.top@.d, 10_000, 4);
        lemma_fit_mul(w.top@.n, w.bottom@.d, 10_000, 4);
    }
    rat_lt(w.left, w.right) && rat_lt(w.bottom, w.top)
}

/// Whether the model can take a frame update: what `update_model`
/// asks of its state.
pub fn frame_ready_check(m: &Model) -> (b: bool)
    ensures
        b == m.frame_ready(),
{
    let n = m.boxes.len();
    if n < 1 || n > 100 {
        return false;
    }
    if !(0 < m.box_size.den) {
        return false;
    }
    let mut i: usize = 0;
    while i < n
        invariant
            i <= n,
            n == m.boxes@.len(),
            forall|k: int|
                0 <= k < i ==> (#[trigger] m.boxes@[k]).id == k && m.boxes@[k].geom_ok()
                    && m.boxes@[k].targets_ok(),
        decreases n - i,
    {
        let bx = &m.boxes[i];
        if bx.id != i {
            return false;
        }
        if !(0 < bx.width.den && bx.width.den <= 100_000 && -100_000_000 <= bx.width.num
            && bx.width.num <= 100_000_000) {
            return false;
        }
        if !(0 < bx.centre.den && bx.centre.den <= 100_000 && -100_000_000 <= bx.centre.num
            && bx.centre.num <= 100_000_000) {
            return false;
        }
        if !(0 < bx.target_width.den && bx.target_width.den <= 1_000_000_000_000_000_000_000_000
            && -10_000_000_000_000_000_000_000_000_000 <= bx.target_width.num
            && bx.target_width.num <= 10_000_000_000_000_000_000_000_000_000) {
            return false;
        }
        if !(0 < bx.target_centre.den && bx.target_centre.den
            <= 1_000_000_000_000_000_000_000_000
            && -10_000_000_000_000_000_000_000_000_000 <= bx.target_centre.num
            && bx.target_centre.num <= 10_000_000_000_000_000_000_000_000_000) {
            return false;
        }
        i += 1;
    }
    true
}

} // verus!
