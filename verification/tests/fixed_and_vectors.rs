use asteroids::fixed::{
    divide, multiply, remaining, saturating, sqrt, wide_product,
};
use asteroids::{Mat2, Vec2, LIMIT, ONE};

#[test]
fn product_of_whole_numbers_is_exact() {
    assert_eq!(multiply(3 * ONE, 2 * ONE), 6 * ONE);
    assert_eq!(multiply(-3 * ONE, 2 * ONE), -6 * ONE);
    assert_eq!(multiply(ONE / 2, ONE / 2), ONE / 4);
}

#[test]
fn product_rounds_toward_zero() {
    assert_eq!(multiply(1, 500_000), 0);
    assert_eq!(multiply(-1, 500_000), 0);
    assert_eq!(multiply(3, 500_000), 1);
    assert_eq!(multiply(-3, 500_000), -1);
}

#[test]
fn product_saturates() {
    assert_eq!(multiply(LIMIT, 2 * ONE), LIMIT);
    assert_eq!(multiply(LIMIT, -2 * ONE), -LIMIT);
    assert_eq!(multiply(i64::MAX, i64::MAX), LIMIT);
    assert_eq!(multiply(i64::MIN, i64::MAX), -LIMIT);
}

#[test]
fn saturating_clamps_both_ends() {
    assert_eq!(saturating(0), 0);
    assert_eq!(saturating(LIMIT as i128), LIMIT);
    assert_eq!(saturating(LIMIT as i128 + 1), LIMIT);
    assert_eq!(saturating(-(LIMIT as i128) - 1), -LIMIT);
    assert_eq!(saturating(i128::MAX), LIMIT);
    assert_eq!(saturating(i128::MIN), -LIMIT);
}

#[test]
fn division_rounds_toward_zero() {
    assert_eq!(divide(7, 2), 3);
    assert_eq!(divide(-7, 2), -3);
    assert_eq!(divide(-1, 2), 0);
    assert_eq!(remaining(7, 3), 1);
    assert_eq!(remaining(-7, 3), -1);
    assert_eq!(remaining(-6, 3), 0);
}

#[test]
fn square_roots_round_down() {
    assert_eq!(sqrt(0), 0);
    assert_eq!(sqrt(1), 1);
    assert_eq!(sqrt(2), 1);
    assert_eq!(sqrt(3), 1);
    assert_eq!(sqrt(4), 2);
    assert_eq!(sqrt(99), 9);
    assert_eq!(sqrt(1_000_000_000_000), 1_000_000);
    assert_eq!(sqrt(999_999_999_999), 999_999);
    assert_eq!(sqrt(u128::MAX), u64::MAX);
}

#[test]
fn new_vector_saturates_each_coordinate() {
    let v = Vec2::new(LIMIT + 5, -LIMIT - 5);
    assert_eq!(v.x(), LIMIT);
    assert_eq!(v.y(), -LIMIT);
    let w = Vec2::new(3, -4);
    assert_eq!((w.x(), w.y()), (3, -4));
    assert_eq!(Vec2::zero(), Vec2::new(0, 0));
}

#[test]
fn sums_and_differences() {
    let a = Vec2::new(3 * ONE, -4 * ONE);
    let b = Vec2::new(ONE, ONE);
    assert_eq!(a.plus(b), Vec2::new(4 * ONE, -3 * ONE));
    assert_eq!(a.minus(b), Vec2::new(2 * ONE, -5 * ONE));
    assert_eq!(a.negated(), Vec2::new(-3 * ONE, 4 * ONE));
    assert_eq!(a.perpendicular(), Vec2::new(4 * ONE, 3 * ONE));
}

#[test]
fn sums_saturate() {
    let a = Vec2::new(LIMIT, -LIMIT);
    assert_eq!(a.plus(a), a);
    assert_eq!(a.minus(a.negated()), a);
}

#[test]
fn scaling_is_a_fixed_point_product() {
    let a = Vec2::new(3 * ONE, -4 * ONE);
    assert_eq!(a.scaled(2 * ONE), Vec2::new(6 * ONE, -8 * ONE));
    assert_eq!(a.scaled(ONE / 2), Vec2::new(3 * ONE / 2, -2 * ONE));
    assert_eq!(a.scaled(0), Vec2::zero());
}

#[test]
fn inner_product_and_lengths() {
    let a = Vec2::new(3 * ONE, 4 * ONE);
    let b = Vec2::new(-4 * ONE, 3 * ONE);
    assert_eq!(a.dot(b), 0);
    assert_eq!(a.dot(a), 25 * (ONE as i128) * (ONE as i128));
    assert_eq!(a.norm_squared(), 25 * (ONE as u128) * (ONE as u128));
    assert_eq!(a.length(), 5 * ONE);
    let c = Vec2::new(1, 1);
    assert_eq!(c.length(), 1);
    assert_eq!(Vec2::zero().length(), 0);
}

#[test]
fn length_of_the_longest_vector() {
    let a = Vec2::new(LIMIT, LIMIT);
    assert_eq!(a.length(), 1_414_213_562_373);
}

#[test]
fn normalized_has_unit_length() {
    let a = Vec2::new(3 * ONE, 4 * ONE);
    assert_eq!(a.normalized(), Vec2::new(600_000, 800_000));
    let b = Vec2::new(0, -7);
    assert_eq!(b.normalized(), Vec2::new(0, -ONE));
}

#[test]
fn normalized_short_vectors_have_unit_length_too() {
    assert_eq!(Vec2::new(1, 1).normalized(), Vec2::new(707_106, 707_106));
    assert_eq!(Vec2::new(-1, 1).normalized(), Vec2::new(-707_106, 707_106));
    assert_eq!(Vec2::new(1, 0).normalized(), Vec2::new(ONE, 0));
    assert_eq!(Vec2::new(3, -4).normalized(), Vec2::new(600_000, -800_000));
    assert_eq!(Vec2::new(1, 2).normalized(), Vec2::new(447_213, 894_427));
}

#[test]
fn with_length_reaches_the_length_asked_for() {
    let samples = [
        Vec2::new(1, 1),
        Vec2::new(1, -1_000),
        Vec2::new(3 * ONE, 4 * ONE),
        Vec2::new(-7, 123_456_789),
        Vec2::new(LIMIT, -LIMIT),
        Vec2::new(LIMIT, 1),
        Vec2::new(-999, 0),
    ];
    for v in samples {
        for norm in [0, 1, 17, ONE, 2_500_000, 40 * ONE, LIMIT] {
            let w = v.with_length(norm);
            assert!(w.length() <= norm);
            assert!(w.length() >= norm - norm / ONE - 3, "{:?} {}", v, norm);
        }
    }
}

#[test]
fn normalized_zero_stays_zero() {
    assert_eq!(Vec2::zero().normalized(), Vec2::zero());
    assert_eq!(Vec2::zero().with_length(5 * ONE), Vec2::zero());
}

#[test]
fn with_length_never_overshoots() {
    let samples = [
        Vec2::new(1, 1),
        Vec2::new(3 * ONE, 4 * ONE),
        Vec2::new(-7, 123_456_789),
        Vec2::new(LIMIT, -LIMIT),
        Vec2::new(-999, 0),
    ];
    for v in samples {
        for norm in [0, 1, 17, ONE, 40 * ONE, LIMIT] {
            let w = v.with_length(norm);
            assert!(w.norm_squared() <= (norm as u128) * (norm as u128));
        }
    }
}

#[test]
fn with_length_of_a_negative_length_points_back() {
    let a = Vec2::new(3 * ONE, 4 * ONE);
    assert_eq!(a.with_length(-10 * ONE), Vec2::new(-6 * ONE, -8 * ONE));
}

#[test]
fn move_towards_takes_one_step() {
    let from = Vec2::zero();
    let target = Vec2::new(3 * ONE, 4 * ONE);
    assert_eq!(from.move_towards(target, ONE), Vec2::new(600_000, 800_000));
}

#[test]
fn move_towards_decides_reach_exactly() {
    let from = Vec2::zero();
    // the target lies a little more than one millionth away
    assert_eq!(from.move_towards(Vec2::new(1, 1), 2), Vec2::new(1, 1));
    assert_eq!(from.move_towards(Vec2::new(1, 1), 1), Vec2::zero());
    assert_eq!(from.move_towards(Vec2::new(30, 40), 50), Vec2::new(30, 40));
    assert_eq!(from.move_towards(Vec2::new(30, 40), 49), Vec2::new(29, 39));
    assert_eq!(from.move_towards(Vec2::new(30, 40), -50), Vec2::new(-30, -40));
}

#[test]
fn move_towards_stops_at_the_target() {
    let from = Vec2::new(ONE, ONE);
    let target = Vec2::new(4 * ONE, 5 * ONE);
    assert_eq!(from.move_towards(target, 5 * ONE), target);
    assert_eq!(from.move_towards(target, 6 * ONE), target);
    assert_eq!(target.move_towards(target, 0), target);
    assert_eq!(target.move_towards(target, -ONE), target);
}

#[test]
fn matrix_columns_and_product() {
    let m = Mat2::new(Vec2::new(0, ONE), Vec2::new(ONE, 0));
    assert_eq!(m.x_axis(), Vec2::new(0, ONE));
    assert_eq!(m.y_axis(), Vec2::new(ONE, 0));
    assert_eq!(m.mul_vec2(Vec2::new(3 * ONE, 4 * ONE)), Vec2::new(4 * ONE, 3 * ONE));
    let double = Mat2::new(Vec2::new(2 * ONE, 0), Vec2::new(0, 2 * ONE));
    assert_eq!(double.mul_vec2(Vec2::new(3, -5)), Vec2::new(6, -10));
}

#[test]
fn place_scales_turns_and_moves() {
    let m = Mat2::new(Vec2::new(0, ONE), Vec2::new(ONE, 0));
    let placed = m.place(Vec2::new(ONE, 0), 40 * ONE, Vec2::new(100 * ONE, 100 * ONE));
    assert_eq!(placed, Vec2::new(100 * ONE, 140 * ONE));
}

#[test]
fn wide_products_are_exact() {
    assert_eq!(wide_product(LIMIT, LIMIT), (LIMIT as i128) * (LIMIT as i128));
    assert_eq!(wide_product(-3, 7), -21);
    assert_eq!(wide_product(i64::MIN, i64::MIN), (i64::MIN as i128) * (i64::MIN as i128));
}
