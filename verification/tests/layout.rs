use box_layout::animate::{animate_boxes, rat_lerp};
use box_layout::engine::{coord_check, frame_ready_check, map_range, new_model, update_model, win_check, Model};
use box_layout::geom::{get_active_box, initial_boxes, is_in_box, LayoutBox, WinRect};
use box_layout::layout::layout_boxes;
use box_layout::rat::{rat_abs, rat_add, rat_clamp, rat_eq, rat_sub, Rat};

fn q(num: i128, den: i128) -> Rat {
    Rat { num, den }
}

fn qi(num: i128) -> Rat {
    q(num, 1)
}

fn win400() -> WinRect {
    WinRect { left: qi(-200), right: qi(200), top: qi(200), bottom: qi(-200) }
}

fn same(a: Rat, b: Rat) -> bool {
    rat_eq(a, b)
}

#[test]
fn initial_layout_equal_shares() {
    let win = win400();
    let boxes = initial_boxes(4, &win);
    assert_eq!(boxes.len(), 4);
    let expected_centres: [i128; 4] = [-150, -50, 50, 150];
    for (i, b) in boxes.iter().enumerate() {
        assert_eq!(b.id, i);
        assert!(same(b.width, qi(100)));
        assert!(same(b.centre, qi(expected_centres[i])));
        // actual geometry equals the target at startup
        assert_eq!(b.target_width.num, b.width.num);
        assert_eq!(b.target_width.den, b.width.den);
        assert_eq!(b.target_centre.num, b.centre.num);
        assert_eq!(b.target_centre.den, b.centre.den);
    }
    // contiguous cover of [-200, 200]
    assert!(same(boxes[0].left(), qi(-200)));
    for i in 0..3 {
        assert!(same(boxes[i].right(), boxes[i + 1].left()));
    }
    assert!(same(boxes[3].right(), qi(200)));
}

#[test]
fn initial_layout_ten_boxes() {
    let win = win400();
    let boxes = initial_boxes(10, &win);
    assert_eq!(boxes.len(), 10);
    for b in &boxes {
        assert!(same(b.width, qi(40)));
    }
    assert!(same(boxes[0].centre, qi(-180)));
    assert!(same(boxes[9].centre, qi(180)));
}

#[test]
fn point_lies_in_exactly_one_box() {
    let win = win400();
    let boxes = initial_boxes(4, &win);
    let hits: Vec<bool> = boxes.iter().map(|b| is_in_box(qi(-150), b)).collect();
    assert_eq!(hits, vec![true, false, false, false]);
    let hits2: Vec<bool> = boxes.iter().map(|b| is_in_box(qi(75), b)).collect();
    assert_eq!(hits2, vec![false, false, true, false]);
}

#[test]
fn shared_boundary_is_in_no_box() {
    let win = win400();
    let boxes = initial_boxes(4, &win);
    for b in &boxes {
        assert!(!is_in_box(qi(-100), b));
    }
    assert_eq!(get_active_box(&boxes, qi(-100)), None);
}

#[test]
fn active_box_is_first_match() {
    let win = win400();
    let boxes = initial_boxes(4, &win);
    assert_eq!(get_active_box(&boxes, qi(-150)), Some(0));
    assert_eq!(get_active_box(&boxes, qi(199)), Some(3));
    assert_eq!(get_active_box(&boxes, qi(300)), None);
    assert_eq!(get_active_box(&boxes, qi(-200)), None);
}

#[test]
fn clamp_law_width_target() {
    let win = win400();
    let boxes = initial_boxes(4, &win);
    // far above the cap: clamped to half the window
    let big = layout_boxes(&boxes, 1, &win, qi(10_000), qi(-50));
    assert!(same(big[1].target_width, qi(200)));
    // below the equal share: clamped up to W / n
    let small = layout_boxes(&boxes, 1, &win, qi(1), qi(-50));
    assert!(same(small[1].target_width, qi(100)));
    // in range: kept as requested
    let mid = layout_boxes(&boxes, 1, &win, qi(150), qi(-50));
    assert!(same(mid[1].target_width, qi(150)));
}

#[test]
fn pointer_clamped_to_window() {
    let win = win400();
    let boxes = initial_boxes(4, &win);
    let r = layout_boxes(&boxes, 0, &win, qi(150), q(-401, 2));
    assert!(same(r[0].target_centre, qi(-200)));
}

#[test]
fn neighbour_widths_sum_to_remaining_space() {
    let win = win400();
    let boxes = initial_boxes(4, &win);
    let r = layout_boxes(&boxes, 1, &win, qi(150), qi(-50));
    // left of the active box: one neighbour takes active.left - window.left
    let left_space = rat_sub(boxes[1].left(), win.left);
    assert!(same(r[0].target_width, left_space));
    // right of it: two neighbours split window.right - active.right equally
    let right_space = rat_sub(win.right, boxes[1].right());
    let sum = rat_add(r[2].target_width, r[3].target_width);
    assert!(same(sum, right_space));
    assert!(same(r[2].target_width, r[3].target_width));
}

#[test]
fn animator_step_is_exact_contraction() {
    let before = qi(100);
    let target = qi(200);
    let after = rat_lerp(before, target);
    assert!(same(after, qi(110)));
    // |after - target| is exactly 0.9 * |before - target|
    let da = rat_abs(rat_sub(target, after));
    let db = rat_abs(rat_sub(target, before));
    assert!(same(da, qi(90)));
    assert!(same(db, qi(100)));
    // and a value at its target stays put
    assert!(same(rat_lerp(target, target), target));
}

#[test]
fn animator_moves_all_boxes_and_keeps_targets() {
    let win = win400();
    let mut boxes = initial_boxes(4, &win);
    boxes = layout_boxes(&boxes, 0, &win, qi(250), qi(-150));
    let targets: Vec<(Rat, Rat)> =
        boxes.iter().map(|b| (b.target_width, b.target_centre)).collect();
    animate_boxes(&mut boxes);
    for (b, t) in boxes.iter().zip(targets.iter()) {
        assert_eq!(b.target_width.num, t.0.num);
        assert_eq!(b.target_centre.num, t.1.num);
    }
    // box 0: width 100 -> target 200, one step lands at 110
    assert!(same(boxes[0].width, qi(110)));
    // box 0's centre was already at its target
    assert!(same(boxes[0].centre, qi(-150)));
}

#[test]
fn layout_twice_gives_identical_targets() {
    let win = win400();
    let boxes = initial_boxes(4, &win);
    let once = layout_boxes(&boxes, 0, &win, qi(250), qi(-150));
    let twice = layout_boxes(&once, 0, &win, qi(250), qi(-150));
    for (a, b) in once.iter().zip(twice.iter()) {
        assert!(same(a.target_width, b.target_width));
        assert!(same(a.target_centre, b.target_centre));
    }
}

#[test]
fn end_to_end_four_boxes() {
    let win = win400();
    let boxes = initial_boxes(4, &win);
    // pointer at -150, inside box 0's interval (-200, -100)
    assert_eq!(get_active_box(&boxes, qi(-150)), Some(0));
    let r = layout_boxes(&boxes, 0, &win, qi(250), qi(-150));
    // box 0: width clamp(250, 100, 200) = 200, centred on the pointer
    assert!(same(r[0].target_width, qi(200)));
    assert!(same(r[0].target_centre, qi(-150)));
    // boxes 1..3 split (200 - (-100)) = 300 into 100 each, from -100 on
    for i in 1..4 {
        assert!(same(r[i].target_width, qi(100)));
    }
    assert!(same(r[1].target_centre, qi(-50)));
    assert!(same(r[2].target_centre, qi(50)));
    assert!(same(r[3].target_centre, qi(150)));
}

#[test]
fn single_box_takes_whole_window() {
    let win = win400();
    let boxes = initial_boxes(1, &win);
    assert!(same(boxes[0].width, qi(400)));
    // the equal share is the whole window, which outranks the cap
    let r = layout_boxes(&boxes, 0, &win, qi(250), qi(0));
    assert!(same(r[0].target_width, qi(400)));
}

#[test]
fn clamp_prefers_lower_bound_when_bounds_cross() {
    let v = rat_clamp(qi(250), qi(400), qi(200));
    assert!(same(v, qi(400)));
    let w = rat_clamp(qi(500), qi(100), qi(200));
    assert!(same(w, qi(200)));
    let u = rat_clamp(qi(150), qi(100), qi(200));
    assert!(same(u, qi(150)));
}

#[test]
fn map_range_tracks_pointer_height() {
    let win = win400();
    // top of the window asks for the full width, bottom for zero
    let top = map_range(qi(200), win.top, win.bottom, qi(400), qi(0));
    assert!(same(top, qi(400)));
    let bottom = map_range(qi(-200), win.top, win.bottom, qi(400), qi(0));
    assert!(same(bottom, qi(0)));
    let middle = map_range(qi(0), win.top, win.bottom, qi(400), qi(0));
    assert!(same(middle, qi(200)));
}

#[test]
fn update_frame_with_active_box() {
    let win = win400();
    let mut m: Model = new_model(4, &win);
    assert!(frame_ready_check(&m));
    // pointer at (-150, 0): requested size 200, box 0 active
    update_model(&mut m, &win, qi(-150), qi(0));
    assert!(same(m.box_size, qi(200)));
    assert!(same(m.boxes[0].target_width, qi(200)));
    assert!(same(m.boxes[0].target_centre, qi(-150)));
    // one animator step: width 100 -> 110, centre already on target
    assert!(same(m.boxes[0].width, qi(110)));
    assert!(same(m.boxes[0].centre, qi(-150)));
    // neighbours were re-laid out onto their old geometry
    assert!(same(m.boxes[1].target_width, qi(100)));
    assert!(same(m.boxes[1].target_centre, qi(-50)));
}

#[test]
fn update_frame_without_active_box_only_animates() {
    let win = win400();
    let mut m: Model = new_model(4, &win);
    update_model(&mut m, &win, qi(300), qi(0));
    // no box contains x = 300: targets keep their startup values
    for (i, c) in [-150i128, -50, 50, 150].iter().enumerate() {
        assert!(same(m.boxes[i].target_width, qi(100)));
        assert!(same(m.boxes[i].target_centre, qi(*c)));
        // and the animator left settled geometry where it was
        assert!(same(m.boxes[i].width, qi(100)));
        assert!(same(m.boxes[i].centre, qi(*c)));
    }
}

#[test]
fn startup_checks_accept_and_reject() {
    let win = win400();
    assert!(win_check(&win));
    let flat = WinRect { left: qi(-200), right: qi(200), top: qi(5), bottom: qi(5) };
    assert!(!win_check(&flat));
    let inverted = WinRect { left: qi(200), right: qi(-200), top: qi(200), bottom: qi(-200) };
    assert!(!win_check(&inverted));
    assert!(coord_check(&q(-150, 2)));
    assert!(!coord_check(&q(1, 0)));
    assert!(!coord_check(&qi(200_000_000)));
    let m = new_model(10, &win);
    assert!(frame_ready_check(&m));
    let bad = Model { boxes: vec![], box_size: qi(0) };
    assert!(!frame_ready_check(&bad));
}

#[test]
fn box_edges_follow_geometry() {
    let b = LayoutBox {
        id: 0,
        width: qi(100),
        target_width: qi(100),
        centre: qi(-150),
        target_centre: qi(-150),
    };
    assert!(same(b.left(), qi(-200)));
    assert!(same(b.right(), qi(-100)));
}
