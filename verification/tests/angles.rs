use asteroids::{direction_of, polar_vec2, RotationMatrix, Vec2, EIGHTH, ONE, QUARTER, TAU};

#[test]
fn direction_at_the_quarter_turns() {
    assert_eq!(direction_of(0), Vec2::new(ONE, 0));
    assert_eq!(direction_of(QUARTER), Vec2::new(0, ONE));
    assert_eq!(direction_of(2 * QUARTER), Vec2::new(-ONE, 0));
    assert_eq!(direction_of(3 * QUARTER), Vec2::new(0, -ONE));
    assert_eq!(direction_of(TAU), Vec2::new(ONE, 0));
    assert_eq!(direction_of(-QUARTER), Vec2::new(0, -ONE));
    assert_eq!(direction_of(-TAU), Vec2::new(ONE, 0));
}

#[test]
fn direction_at_an_eighth_turn_is_the_diagonal() {
    let d = direction_of(EIGHTH);
    assert!((d.x() - 707_107).abs() <= 2);
    assert!((d.y() - 707_107).abs() <= 2);
}

#[test]
fn direction_follows_sine_and_cosine() {
    let mut angle: i64 = -2 * TAU;
    while angle <= 2 * TAU {
        let d = direction_of(angle);
        let radians = angle as f64 / ONE as f64;
        let cos = radians.cos() * ONE as f64;
        let sin = radians.sin() * ONE as f64;
        assert!((d.x() as f64 - cos).abs() <= 4.0, "cosine of {}", angle);
        assert!((d.y() as f64 - sin).abs() <= 4.0, "sine of {}", angle);
        angle += 1_237;
    }
}

#[test]
fn direction_has_unit_length() {
    let mut angle: i64 = -TAU;
    while angle <= TAU {
        let d = direction_of(angle);
        let n = d.norm_squared();
        let one = (ONE as u128) * (ONE as u128);
        assert!(n <= one);
        assert!(n >= one - 2 * ONE as u128);
        angle += 997;
    }
}

#[test]
fn direction_repeats_every_turn() {
    for angle in [0, 1, 12_345, EIGHTH, QUARTER + 5, 3_000_000, TAU - 1] {
        assert_eq!(direction_of(angle), direction_of(angle + TAU));
        assert_eq!(direction_of(angle), direction_of(angle - 3 * TAU));
    }
}

#[test]
fn direction_of_extreme_angles() {
    for angle in [i64::MAX, i64::MIN, i64::MAX - 1, i64::MIN + 1] {
        let d = direction_of(angle);
        assert!(d.norm_squared() <= (ONE as u128) * (ONE as u128));
    }
}

#[test]
fn polar_vector_along_the_axes() {
    assert_eq!(polar_vec2(2 * ONE, 0), Vec2::new(2 * ONE, 0));
    assert_eq!(polar_vec2(2 * ONE, QUARTER), Vec2::new(0, 2 * ONE));
    assert_eq!(polar_vec2(0, 12_345), Vec2::zero());
    assert_eq!(polar_vec2(-3 * ONE, 0), Vec2::new(-3 * ONE, 0));
}

#[test]
fn rotation_matrix_takes_the_y_axis_to_the_direction() {
    for angle in [0, 100_000, EIGHTH, QUARTER, 2_000_000, -700_000] {
        let m = angle.rotation_matrix();
        let d = direction_of(angle);
        assert_eq!(m.y_axis(), d);
        assert_eq!(m.x_axis(), Vec2::new(-d.y(), d.x()));
        assert_eq!(m.mul_vec2(Vec2::new(0, ONE)), d);
    }
}

#[test]
fn rotation_matrix_at_zero() {
    let m = 0i64.rotation_matrix();
    assert_eq!(m.x_axis(), Vec2::new(0, ONE));
    assert_eq!(m.y_axis(), Vec2::new(ONE, 0));
}
