use box_layout::rat::{
    rat_abs, rat_add, rat_clamp, rat_div, rat_div_count, rat_eq, rat_half, rat_le, rat_lt,
    rat_mul, rat_neg, rat_of_int, rat_slot, rat_sub, Rat,
};

fn q(num: i128, den: i128) -> Rat {
    Rat { num, den }
}

#[test]
fn exact_field_arithmetic() {
    let half = q(1, 2);
    let third = q(1, 3);
    assert!(rat_eq(rat_add(half, third), q(5, 6)));
    assert!(rat_eq(rat_sub(half, third), q(1, 6)));
    assert!(rat_eq(rat_mul(half, third), q(1, 6)));
    assert!(rat_eq(rat_div(half, third), q(3, 2)));
    // dividing by a negative keeps the denominator positive
    let d = rat_div(half, q(-1, 3));
    assert!(d.den > 0);
    assert!(rat_eq(d, q(-3, 2)));
}

#[test]
fn order_and_equality() {
    assert!(rat_lt(q(1, 3), q(1, 2)));
    assert!(!rat_lt(q(1, 2), q(1, 2)));
    assert!(rat_le(q(1, 2), q(2, 4)));
    assert!(rat_eq(q(2, 4), q(1, 2)));
    assert!(!rat_eq(q(2, 4), q(1, 3)));
}

#[test]
fn signs_halves_and_shares() {
    assert!(rat_eq(rat_neg(q(3, 4)), q(-3, 4)));
    assert!(rat_eq(rat_abs(q(-3, 4)), q(3, 4)));
    assert!(rat_eq(rat_abs(q(3, 4)), q(3, 4)));
    assert!(rat_eq(rat_half(q(5, 1)), q(5, 2)));
    assert!(rat_eq(rat_div_count(q(300, 1), 3), q(100, 1)));
    // the centre of slot 2 in a run of width-100 slots sits 250 in
    assert!(rat_eq(rat_slot(q(100, 1), 2), q(250, 1)));
    assert!(rat_eq(rat_of_int(-7), q(-7, 1)));
}

#[test]
fn clamp_follows_branch_order() {
    let lo = q(100, 1);
    let hi = q(200, 1);
    assert!(rat_eq(rat_clamp(q(50, 1), lo, hi), lo));
    assert!(rat_eq(rat_clamp(q(250, 1), lo, hi), hi));
    assert!(rat_eq(rat_clamp(q(150, 1), lo, hi), q(150, 1)));
}
