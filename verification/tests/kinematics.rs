use asteroids::kinematic::{ACCELERATION_RATE, FRICTION};
use asteroids::{Kinematic, KinematicGetters, KinematicMutators, Vec2, LIMIT, ONE};

fn at(x: i64, y: i64) -> Vec2 {
    Vec2::new(x * ONE, y * ONE)
}

fn screen() -> Vec2 {
    at(800, 800)
}

#[test]
fn new_kinematic_holds_its_parts() {
    let k = Kinematic::new(at(1, 2), at(3, 4), at(5, 6));
    assert_eq!(k.position(), at(1, 2));
    assert_eq!(k.velocity(), at(3, 4));
    assert_eq!(k.acceleration(), at(5, 6));
    assert_eq!(k.speed(), 5 * ONE);
    assert_eq!(*k.kinematic(), k);
}

#[test]
fn step_motion_moves_by_the_old_velocity() {
    let mut k = Kinematic::new(at(10, 20), at(1, -2), at(3, 5));
    k.step_motion();
    assert_eq!(k.position(), at(11, 18));
    assert_eq!(k.velocity(), at(4, 3));
    assert_eq!(k.acceleration(), at(3, 5));
    k.step_motion();
    assert_eq!(k.position(), at(15, 21));
    assert_eq!(k.velocity(), at(7, 8));
}

#[test]
fn step_motion_saturates() {
    let mut k = Kinematic::new(Vec2::new(LIMIT, -LIMIT), Vec2::new(7, -7), Vec2::zero());
    k.step_motion();
    assert_eq!(k.position(), Vec2::new(LIMIT, -LIMIT));
}

#[test]
fn cap_speed_cuts_back_a_fast_body() {
    let mut k = Kinematic::new(at(0, 0), at(30, 40), at(0, 0));
    k.cap_speed(25 * ONE);
    assert_eq!(k.velocity(), at(15, 20));
    assert_eq!(k.position(), at(0, 0));
}

#[test]
fn cap_speed_leaves_a_slow_body() {
    let mut k = Kinematic::new(at(0, 0), at(3, 4), at(0, 0));
    k.cap_speed(5 * ONE);
    assert_eq!(k.velocity(), at(3, 4));
    k.cap_speed(50 * ONE);
    assert_eq!(k.velocity(), at(3, 4));
}

#[test]
fn cap_speed_leaves_a_body_at_rest() {
    let mut k = Kinematic::new(at(1, 1), Vec2::zero(), at(2, 2));
    k.cap_speed(0);
    assert_eq!(k.velocity(), Vec2::zero());
    k.cap_speed(-5 * ONE);
    assert_eq!(k.velocity(), Vec2::zero());
    k.cap_speed(40 * ONE);
    assert_eq!(k.velocity(), Vec2::zero());
}

#[test]
fn cap_speed_at_zero_stops_the_body() {
    let mut k = Kinematic::new(at(0, 0), at(3, -4), at(0, 0));
    k.cap_speed(0);
    assert_eq!(k.velocity(), Vec2::zero());
}

#[test]
fn capped_speed_is_never_above_the_cap() {
    let velocities = [
        Vec2::new(1, 1),
        Vec2::new(123_456_789, -987_654_321),
        Vec2::new(LIMIT, LIMIT),
        Vec2::new(-LIMIT, 3),
        Vec2::new(40 * ONE + 1, 0),
        Vec2::new(28_284_272, 28_284_272),
    ];
    for v in velocities {
        for cap in [0, 1, 2, ONE, 40 * ONE, 2_500_000, LIMIT] {
            let mut k = Kinematic::new(Vec2::zero(), v, Vec2::zero());
            k.cap_speed(cap);
            assert!(k.velocity().norm_squared() <= (cap as u128) * (cap as u128));
        }
    }
}

#[test]
fn keep_on_screen_wraps_left_to_right() {
    let mut k = Kinematic::new(at(1, 400), at(-5, 0), Vec2::zero());
    k.keep_on_screen(screen());
    assert_eq!(k.position(), at(800, 400));
    assert_eq!(k.velocity(), at(-5, 0));
}

#[test]
fn keep_on_screen_wraps_right_to_left() {
    let mut k = Kinematic::new(at(799, 400), at(5, 0), Vec2::zero());
    k.keep_on_screen(screen());
    assert_eq!(k.position(), at(0, 400));
}

#[test]
fn keep_on_screen_wraps_top_and_bottom() {
    let mut k = Kinematic::new(at(400, 2), at(0, -3), Vec2::zero());
    k.keep_on_screen(screen());
    assert_eq!(k.position(), at(400, 800));
    let mut k = Kinematic::new(at(400, 798), at(0, 3), Vec2::zero());
    k.keep_on_screen(screen());
    assert_eq!(k.position(), at(400, 0));
}

#[test]
fn keep_on_screen_wraps_each_axis_on_its_own() {
    let mut k = Kinematic::new(at(1, 799), at(-2, 2), Vec2::zero());
    k.keep_on_screen(screen());
    assert_eq!(k.position(), at(800, 0));
}

#[test]
fn keep_on_screen_leaves_a_body_that_stays() {
    let mut k = Kinematic::new(at(400, 400), at(5, -5), Vec2::zero());
    k.keep_on_screen(screen());
    assert_eq!(k.position(), at(400, 400));
    // landing exactly on an edge is not leaving
    let mut k = Kinematic::new(at(5, 795), at(-5, 5), Vec2::zero());
    k.keep_on_screen(screen());
    assert_eq!(k.position(), at(5, 795));
}

#[test]
fn wrapping_keeps_a_body_on_screen() {
    let speeds = [-799, -400, -1, 0, 1, 400, 799];
    for px in [0, 1, 400, 799, 800] {
        for py in [0, 400, 800] {
            for vx in speeds {
                for vy in speeds {
                    let mut k = Kinematic::new(at(px, py), at(vx, vy), Vec2::zero());
                    k.keep_on_screen(screen());
                    k.step_motion();
                    let p = k.position();
                    assert!(0 <= p.x() && p.x() <= 800 * ONE, "{:?}", (px, py, vx, vy));
                    assert!(0 <= p.y() && p.y() <= 800 * ONE, "{:?}", (px, py, vx, vy));
                }
            }
        }
    }
}

#[test]
fn friction_takes_a_fiftieth() {
    assert_eq!(FRICTION, ONE / 50);
    let mut k = Kinematic::new(at(7, 7), at(100, -50), at(200, 0));
    k.step_friction();
    assert_eq!(k.velocity(), at(98, -49));
    assert_eq!(k.acceleration(), at(196, 0));
    assert_eq!(k.position(), at(7, 7));
}

#[test]
fn friction_rounds_its_share_down() {
    let mut k = Kinematic::new(Vec2::zero(), Vec2::new(149, -99), Vec2::new(50, 49));
    k.step_friction();
    assert_eq!(k.velocity(), Vec2::new(147, -98));
    assert_eq!(k.acceleration(), Vec2::new(49, 49));
}

#[test]
fn friction_slows_but_never_stops() {
    let mut k = Kinematic::new(Vec2::zero(), at(40, -3), at(0, 1));
    let mut last = k.velocity().norm_squared();
    for _ in 0..2_000 {
        k.step_friction();
        let now = k.velocity().norm_squared();
        assert!(now <= last);
        assert!(now > 0);
        if k.velocity().x().abs() >= 50 || k.velocity().y().abs() >= 50 {
            assert!(now < last);
        }
        last = now;
    }
    assert!(k.velocity().x().abs() < 50);
    assert!(k.velocity().y().abs() < 50);
    assert!(k.acceleration().y() > 0);
}

#[test]
fn friction_leaves_rest_at_rest() {
    let mut k = Kinematic::new(at(1, 1), Vec2::zero(), Vec2::zero());
    k.step_friction();
    assert_eq!(k.velocity(), Vec2::zero());
    assert_eq!(k.acceleration(), Vec2::zero());
}

#[test]
fn acceleration_moves_toward_its_target() {
    assert_eq!(ACCELERATION_RATE, ONE / 100);
    let mut k = Kinematic::new(Vec2::zero(), Vec2::zero(), Vec2::zero());
    k.apply_acceleration(Vec2::new(120_000, 160_000));
    assert_eq!(k.acceleration(), Vec2::new(6_000, 8_000));
    k.apply_acceleration(Vec2::new(120_000, 160_000));
    assert_eq!(k.acceleration(), Vec2::new(12_000, 16_000));
}

#[test]
fn acceleration_reaches_its_target() {
    let target = Vec2::new(3_000, 4_000);
    let mut k = Kinematic::new(Vec2::zero(), Vec2::zero(), Vec2::zero());
    k.apply_acceleration(target);
    assert_eq!(k.acceleration(), target);
    k.apply_acceleration(target);
    assert_eq!(k.acceleration(), target);
}

#[test]
fn mutable_access_reaches_the_parts() {
    let mut k = Kinematic::new(at(1, 2), at(3, 4), at(5, 6));
    *k.position_mut() = at(9, 9);
    *k.velocity_mut() = at(8, 8);
    *k.acceleration_mut() = at(7, 7);
    assert_eq!(k.position(), at(9, 9));
    assert_eq!(k.velocity(), at(8, 8));
    assert_eq!(k.acceleration(), at(7, 7));
    let copy = k;
    assert_eq!(*k.kinematic_mut(), copy);
}

#[test]
fn one_frame_in_the_order_of_the_rules() {
    // cap, wrap, step, friction: a body at the right edge moving fast
    let mut k = Kinematic::new(at(790, 400), at(60, 80), Vec2::zero());
    k.cap_speed(50 * ONE);
    assert_eq!(k.velocity(), at(30, 40));
    k.keep_on_screen(screen());
    assert_eq!(k.position(), at(0, 400));
    k.step_motion();
    assert_eq!(k.position(), at(30, 440));
    k.step_friction();
    assert_eq!(k.velocity(), Vec2::new(29_400_000, 39_200_000));
    assert_eq!(k.position(), at(30, 440));
}

#[test]
fn friction_decays_geometrically() {
    let start = 40 * ONE;
    let mut k = Kinematic::new(Vec2::zero(), Vec2::new(start, -start / 3), Vec2::zero());
    for n in 1..=600 {
        k.step_friction();
        let share = 0.98f64.powi(n);
        let x = k.velocity().x() as f64;
        assert!(x >= share * start as f64 - 0.001, "step {}", n);
        assert!(x <= share * start as f64 + 49.001, "step {}", n);
        let y = -k.velocity().y() as f64;
        assert!(y >= share * (start / 3) as f64 - 0.001);
        assert!(y <= share * (start / 3) as f64 + 49.001);
    }
    for _ in 0..400 {
        k.step_friction();
    }
    assert!(k.velocity().x() < 50 && k.velocity().x() > 0);
    let rest = k.velocity();
    k.step_friction();
    assert_eq!(k.velocity(), rest);
}
