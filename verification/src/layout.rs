//! The layout engine.
//!
//! Given the rendered boxes, the window, the pointer position and a
//! requested width, the engine recomputes every box's target geometry:
//! the active box (the one under the pointer) gets the requested width
//! clamped between the equal share `W / n` and half the window, and is
//! centred on the pointer (clamped to the window); the boxes on each
//! side split the space between the window edge and the active box's
//! rendered edge equally, laid out contiguously in id order. Rendered
//! geometry is copied through untouched: only the animator moves it.

use vstd::prelude::*;

use crate::geom::{
    boxes_geom_ok, boxes_rendered_wf, boxes_targets_ok, coord_bounded, wide_bounded, LayoutBox,
    WinRect,
};
use crate::rat::{
    fabs, fadd, fclamp, fdiv_count, feq, fhalf, fle, flt, frepeat, fscale, fslot, fsub, fsum, fwf,
    lemma_clamp_in_range, lemma_feq_trans, lemma_fit_mul, lemma_fsum_const, lemma_pos_mul,
    lemma_scale_div, Frac, Rat,
};
use crate::rat::{rat_abs, rat_add, rat_clamp, rat_div_count, rat_half, rat_slot, rat_sub};

verus! {

/// The equal share: the window width divided by the box count.
pub open spec fn min_width_frac(win: WinRect, n: int) -> Frac {
    fdiv_count(win.width_frac(), n)
}

/// The growth cap: half the window width.
pub open spec fn max_width_frac(win: WinRect) -> Frac {
    fhalf(win.width_frac())
}

/// The active box's new target width: the requested size clamped
/// between the equal share and half the window.
pub open spec fn active_width_frac(win: WinRect, n: int, ts: Frac) -> Frac {
    fclamp(ts, min_width_frac(win, n), max_width_frac(win))
}

/// The active box's new target centre: the pointer, clamped to the
/// window.
pub open spec fn active_centre_frac(win: WinRect, tx: Frac) -> Frac {
    fclamp(tx, win.left@, win.right@)
}

/// The equal share of the space left of the active box among its `a`
/// left neighbours, from the active box's rendered (pre-update) left
/// edge.
pub open spec fn left_width_frac(pre: Seq<LayoutBox>, a: int, win: WinRect) -> Frac {
    fdiv_count(fabs(fsub(pre[a].left_frac(), win.left@)), a)
}

/// The equal share of the space right of the active box among its
/// right neighbours, from the active box's rendered (pre-update) right
/// edge.
pub open spec fn right_width_frac(pre: Seq<LayoutBox>, a: int, win: WinRect) -> Frac {
    fdiv_count(fabs(fsub(win.right@, pre[a].right_frac())), pre.len() - 1 - a)
}

/// Target centre of left neighbour `i`: slots of the equal share laid
/// contiguously from the window's left edge.
pub open spec fn left_centre_frac(pre: Seq<LayoutBox>, a: int, win: WinRect, i: int) -> Frac {
    fadd(win.left@, fslot(left_width_frac(pre, a, win), i))
}

/// Target centre of right neighbour `i`: slots of the equal share laid
/// contiguously from the active box's rendered right edge.
pub open spec fn right_centre_frac(pre: Seq<LayoutBox>, a: int, win: WinRect, i: int) -> Frac {
    fadd(pre[a].right_frac(), fslot(right_width_frac(pre, a, win), i - a - 1))
}

/// `post` is the layout pass over `pre` with active box `a`, requested
/// size `ts` and pointer `tx`: rendered geometry and ids copied, every
/// target rewritten per the active/left/right rules.
pub open spec fn is_layout_of(
    pre: Seq<LayoutBox>,
    post: Seq<LayoutBox>,
    a: int,
    win: WinRect,
    ts: Frac,
    tx: Frac,
) -> bool {
    &&& 0 <= a < pre.len()
    &&& post.len() == pre.len()
    &&& forall|i: int|
        0 <= i < pre.len() ==> (#[trigger] post[i]).id == pre[i].id && post[i].width
            == pre[i].width && post[i].centre == pre[i].centre
    &&& post[a].target_width@ == active_width_frac(win, pre.len() as int, ts)
    &&& post[a].target_centre@ == active_centre_frac(win, tx)
    &&& forall|i: int|
        0 <= i < a ==> (#[trigger] post[i]).target_width@ == left_width_frac(pre, a, win)
            && post[i].target_centre@ == left_centre_frac(pre, a, win, i)
    &&& forall|i: int|
        a < i < pre.len() ==> (#[trigger] post[i]).target_width@ == right_width_frac(pre, a, win)
            && post[i].target_centre@ == right_centre_frac(pre, a, win, i)
}

/// One layout pass: a new sequence with every target rewritten and the
/// rendered geometry copied through.
pub fn layout_boxes(
    boxes: &Vec<LayoutBox>,
    active: usize,
    win: &WinRect,
    target_size: Rat,
    target_x: Rat,
) -> (r: Vec<LayoutBox>)
    requires
        boxes@.len() <= 100,
        active < boxes@.len(),
        win.wf(),
        win.bounded(),
        boxes_geom_ok(boxes@),
        target_size.wf(),
        wide_bounded(target_size@),
        target_x.wf(),
        coord_bounded(target_x@),
    ensures
        r@.len() == boxes@.len(),
        is_layout_of(boxes@, r@, active as int, *win, target_size@, target_x@),
        boxes_geom_ok(r@),
        boxes_targets_ok(r@),
{
    let n = boxes.len();
    let w2 = win.width();
    proof {
        lemma_fit_mul(w2@.d, n as int, 16, 100);
    }
    let minw = rat_div_count(w2, n);
    let maxw = rat_half(w2);
    proof {
        lemma_fit_mul(target_size@.n, minw@.d, 10_000_000_000_000_000_000_000_000_000, 1600);
        lemma_fit_mul(minw@.n, target_size@.d, 80_000, 1_000_000_000_000_000_000_000_000);
        lemma_fit_mul(target_size@.n, maxw@.d, 10_000_000_000_000_000_000_000_000_000, 32);
        lemma_fit_mul(maxw@.n, target_size@.d, 80_000, 1_000_000_000_000_000_000_000_000);
    }
    let atw = rat_clamp(target_size, minw, maxw);
    proof {
        lemma_fit_mul(target_x@.n, win.left@.d, 100_000_000, 4);
        lemma_fit_mul(win.left@.n, target_x@.d, 10_000, 100_000);
        lemma_fit_mul(target_x@.n, win.right@.d, 100_000_000, 4);
        lemma_fit_mul(win.right@.n, target_x@.d, 10_000, 100_000);
    }
    let atc = rat_clamp(target_x, win.left, win.right);

    let ab = boxes[active];
    let a_left = ab.left();
    let a_right = ab.right();

    let lcount: usize = if active >= 1 {
        active
    } else {
        1
    };
    proof {
        lemma_fit_mul(a_left@.n, win.left@.d, 30_000_000_000_000, 4);
        lemma_fit_mul(win.left@.n, a_left@.d, 10_000, 20_000_000_000);
        lemma_fit_mul(a_left@.d, win.left@.d, 20_000_000_000, 4);
    }
    let lspace = rat_abs(rat_sub(a_left, win.left));
    proof {
        lemma_fit_mul(lspace@.d, lcount as int, 80_000_000_000, 100);
    }
    let lw = rat_div_count(lspace, lcount);

    let rcount: usize = if active + 1 < n {
        n - 1 - active
    } else {
        1
    };
    proof {
        lemma_fit_mul(win.right@.n, a_right@.d, 10_000, 20_000_000_000);
        lemma_fit_mul(a_right@.n, win.right@.d, 30_000_000_000_000, 4);
        lemma_fit_mul(win.right@.d, a_right@.d, 4, 20_000_000_000);
    }
    let rspace = rat_abs(rat_sub(win.right, a_right));
    proof {
        lemma_fit_mul(rspace@.d, rcount as int, 80_000_000_000, 100);
    }
    let rw = rat_div_count(rspace, rcount);

    let mut out: Vec<LayoutBox> = Vec::new();
    let mut i: usize = 0;
    while i < n
        invariant
            i <= n,
            n == boxes@.len(),
            n <= 100,
            active < n,
            win.wf(),
            win.bounded(),
            boxes_geom_ok(boxes@),
            target_size.wf(),
            wide_bounded(target_size@),
            target_x.wf(),
            coord_bounded(target_x@),
            atw.wf(),
            atw@ == active_width_frac(*win, n as int, target_size@),
            wide_bounded(atw@),
            atc.wf(),
            atc@ == active_centre_frac(*win, target_x@),
            wide_bounded(atc@),
            a_right.wf(),
            a_right@ == boxes@[active as int].right_frac(),
            -30_000_000_000_000 <= a_right@.n <= 30_000_000_000_000,
            0 < a_right@.d <= 20_000_000_000,
            lw.wf(),
            -320_000_000_000_000 <= lw@.n <= 320_000_000_000_000,
            0 < lw@.d <= 8_000_000_000_000,
            active >= 1 ==> lw@ == left_width_frac(boxes@, active as int, *win),
            rw.wf(),
            -320_000_000_000_000 <= rw@.n <= 320_000_000_000_000,
            0 < rw@.d <= 8_000_000_000_000,
            active + 1 < n ==> rw@ == right_width_frac(boxes@, active as int, *win),
            out@.len() == i as int,
            forall|k: int|
                0 <= k < i ==> (#[trigger] out@[k]).id == boxes@[k].id && out@[k].width
                    == boxes@[k].width && out@[k].centre == boxes@[k].centre,
            forall|k: int|
                0 <= k < i ==> (#[trigger] out@[k]).geom_ok() && out@[k].targets_ok(),
            i > active ==> out@[active as int].target_width == atw && out@[active as int].target_centre
                == atc,
            forall|k: int|
                0 <= k < i && k < active ==> (#[trigger] out@[k]).target_width == lw
                    && out@[k].target_centre@ == fadd(win.left@, fslot(lw@, k)),
            forall|k: int|
                active < k < i ==> (#[trigger] out@[k]).target_width == rw
                    && out@[k].target_centre@ == fadd(a_right@, fslot(rw@, k - active - 1)),
        decreases n - i,
    {
        let b = boxes[i];
        let nb: LayoutBox = if i == active {
            LayoutBox {
                id: b.id,
                width: b.width,
                target_width: atw,
                centre: b.centre,
                target_centre: atc,
            }
        } else if i < active {
            proof {
                lemma_fit_mul(2 * (i as int) + 1, lw@.n, 199, 320_000_000_000_000);
            }
            let off = rat_slot(lw, i);
            proof {
                lemma_fit_mul(win.left@.n, off@.d, 10_000, 16_000_000_000_000);
                lemma_fit_mul(off@.n, win.left@.d, 63_680_000_000_000_000, 4);
                lemma_fit_mul(win.left@.d, off@.d, 4, 16_000_000_000_000);
            }
            let c = rat_add(win.left, off);
            LayoutBox {
                id: b.id,
                width: b.width,
                target_width: lw,
                centre: b.centre,
                target_centre: c,
            }
        } else {
            proof {
                lemma_fit_mul(2 * ((i - active - 1) as int) + 1, rw@.n, 199, 320_000_000_000_000);
            }
            let off = rat_slot(rw, i - active - 1);
            proof {
                lemma_fit_mul(a_right@.n, off@.d, 30_000_000_000_000, 16_000_000_000_000);
                lemma_fit_mul(off@.n, a_right@.d, 63_680_000_000_000_000, 20_000_000_000);
                lemma_fit_mul(a_right@.d, off@.d, 20_000_000_000, 16_000_000_000_000);
            }
            let c = rat_add(a_right, off);
            LayoutBox {
                id: b.id,
                width: b.width,
                target_width: rw,
                centre: b.centre,
                target_centre: c,
            }
        };
        out.push(nb);
        i += 1;
    }
    out
}

/// Clamp law: with at least two boxes, the active box's target width
/// lies between the equal share `W / n` and half the window, whatever
/// size was requested.
pub proof fn lemma_active_width_clamped(win: WinRect, n: int, ts: Frac)
    requires
        win.wf(),
        fwf(ts),
        2 <= n,
    ensures
        fle(min_width_frac(win, n), active_width_frac(win, n, ts)),
        fle(active_width_frac(win, n, ts), max_width_frac(win)),
{
    lemma_pos_mul(win.right@.d, win.left@.d);
    lemma_pos_mul(win.right@.d * win.left@.d, n);
    assert(fle(min_width_frac(win, n), max_width_frac(win))) by (nonlinear_arith)
        requires
            win.left@.d > 0,
            win.right@.d > 0,
            2 <= n,
            flt(win.left@, win.right@),
    ;
    lemma_clamp_in_range(ts, min_width_frac(win, n), max_width_frac(win));
}

/// Left-neighbour widths are all the same equal share and sum to the
/// space between the window's left edge and the active box's rendered
/// (pre-update) left edge; right-neighbour widths sum to the space
/// between its rendered right edge and the window's right edge.
pub proof fn lemma_neighbour_space(
    pre: Seq<LayoutBox>,
    post: Seq<LayoutBox>,
    a: int,
    win: WinRect,
    ts: Frac,
    tx: Frac,
)
    requires
        is_layout_of(pre, post, a, win, ts, tx),
        boxes_rendered_wf(pre),
        win.wf(),
    ensures
        1 <= a && fle(win.left@, pre[a].left_frac()) ==> feq(
            fsum(Seq::new(a as nat, |i: int| post[i].target_width@)),
            fsub(pre[a].left_frac(), win.left@),
        ),
        a + 1 < pre.len() && fle(pre[a].right_frac(), win.right@) ==> feq(
            fsum(Seq::new((pre.len() - 1 - a) as nat, |j: int| post[a + 1 + j].target_width@)),
            fsub(win.right@, pre[a].right_frac()),
        ),
{
    lemma_pos_mul(pre[a].centre@.d, 2 * pre[a].width@.d);
    if 1 <= a && fle(win.left@, pre[a].left_frac()) {
        let la = pre[a].left_frac();
        let sp = fsub(la, win.left@);
        lemma_pos_mul(la.d, win.left@.d);
        assert(sp.n >= 0);
        assert(fabs(sp) == sp);
        let lwf = left_width_frac(pre, a, win);
        lemma_pos_mul(sp.d, a);
        assert(fwf(lwf));
        assert(Seq::new(a as nat, |i: int| post[i].target_width@) =~= frepeat(lwf, a));
        lemma_fsum_const(lwf, a);
        lemma_scale_div(sp, a);
        lemma_feq_trans(
            fsum(frepeat(lwf, a)),
            fscale(a, lwf),
            sp,
        );
    }
    if a + 1 < pre.len() && fle(pre[a].right_frac(), win.right@) {
        let ra = pre[a].right_frac();
        let sp = fsub(win.right@, ra);
        let m = pre.len() - 1 - a;
        lemma_pos_mul(win.right@.d, ra.d);
        assert(sp.n >= 0);
        assert(fabs(sp) == sp);
        let rwf = right_width_frac(pre, a, win);
        lemma_pos_mul(sp.d, m);
        assert(fwf(rwf));
        assert(Seq::new(m as nat, |j: int| post[a + 1 + j].target_width@) =~= frepeat(rwf, m));
        lemma_fsum_const(rwf, m);
        lemma_scale_div(sp, m);
        lemma_feq_trans(
            fsum(frepeat(rwf, m)),
            fscale(m, rwf),
            sp,
        );
    }
}

/// Idempotence: a second layout pass with the same pointer and
/// requested size, over the output of a first pass, leaves every
/// target as the first pass set it — the pass reads only the rendered
/// geometry, which it copies through unchanged.
pub proof fn lemma_layout_idempotent(
    b: Seq<LayoutBox>,
    c: Seq<LayoutBox>,
    d: Seq<LayoutBox>,
    a: int,
    win: WinRect,
    ts: Frac,
    tx: Frac,
)
    requires
        is_layout_of(b, c, a, win, ts, tx),
        is_layout_of(c, d, a, win, ts, tx),
    ensures
        forall|i: int|
            0 <= i < c.len() ==> (#[trigger] d[i]).target_width@ == c[i].target_width@
                && d[i].target_centre@ == c[i].target_centre@,
{
    assert(c[a].left_frac() == b[a].left_frac());
    assert(c[a].right_frac() == b[a].right_frac());
    assert(left_width_frac(c, a, win) == left_width_frac(b, a, win));
    assert(right_width_frac(c, a, win) == right_width_frac(b, a, win));
    assert forall|i: int|
        0 <= i < c.len() implies (#[trigger] d[i]).target_width@ == c[i].target_width@
        && d[i].target_centre@ == c[i].target_centre@ by {
        if i < a {
            assert(left_centre_frac(c, a, win, i) == left_centre_frac(b, a, win, i));
        } else if i > a {
            assert(right_centre_frac(c, a, win, i) == right_centre_frac(b, a, win, i));
        }
    }
}

} // verus!
