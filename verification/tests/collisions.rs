use asteroids::{
    collision_pass, collision_pass_at_speeds, detect, merge_and_cull, random_in_range, resolve,
    step_all, Asteroid, Bullet, KinematicGetters, Vec2, LIMIT, ONE,
};

fn at(x: i64, y: i64) -> Vec2 {
    Vec2::new(x * ONE, y * ONE)
}

fn rock(x: i64, y: i64, size: i64) -> Asteroid {
    Asteroid::new(at(x, y), at(1, 0), size * ONE, 0, 30_000)
}

fn shot(x: i64, y: i64) -> Bullet {
    Bullet::new(at(x, y), at(0, -5), 30)
}

#[test]
fn one_bullet_splits_one_asteroid() {
    let mut asteroids = vec![Asteroid::new(at(100, 100), at(0, 0), 40 * ONE, 0, 0)];
    let mut bullets = vec![Bullet::new(at(100, 100), at(0, -5), 60)];
    let speeds = vec![5 * ONE];
    let pairs = collision_pass_at_speeds(&mut asteroids, &mut bullets, &speeds);
    assert_eq!(pairs, vec![(0, 0)]);
    assert!(bullets.is_empty());
    assert_eq!(asteroids.len(), 2);
    assert_eq!(asteroids[0].size(), 20 * ONE);
    assert_eq!(asteroids[1].size(), 20 * ONE);
    assert_eq!(asteroids[0].position(), at(100, 100));
    assert_eq!(asteroids[1].position(), at(100, 100));
    assert_eq!(asteroids[0].velocity(), at(5, 0));
    assert_eq!(asteroids[1].velocity(), at(-5, 0));
    assert!(asteroids[0].is_alive() && asteroids[1].is_alive());
}

#[test]
fn a_random_pass_splits_at_a_speed_within_range() {
    for _ in 0..50 {
        let mut asteroids = vec![Asteroid::new(at(100, 100), at(0, 0), 40 * ONE, 0, 0)];
        let mut bullets = vec![Bullet::new(at(100, 100), at(0, -5), 60)];
        let pairs = collision_pass(&mut asteroids, &mut bullets);
        assert_eq!(pairs, vec![(0, 0)]);
        assert!(bullets.is_empty());
        assert_eq!(asteroids.len(), 2);
        let v = asteroids[0].velocity();
        assert_eq!(v.y(), 0);
        assert!(v.x() >= Asteroid::MIN_SPEED && v.x() <= Asteroid::MAX_SPEED);
        assert_eq!(asteroids[1].velocity(), v.negated());
        assert_eq!(asteroids[0].size(), 20 * ONE);
        assert_eq!(asteroids[1].position(), at(100, 100));
    }
}

#[test]
fn a_miss_changes_nothing() {
    let mut asteroids = vec![rock(100, 100, 40)];
    let mut bullets = vec![shot(300, 300)];
    let before = (asteroids.clone(), bullets.clone());
    let pairs = collision_pass(&mut asteroids, &mut bullets);
    assert!(pairs.is_empty());
    assert_eq!((asteroids, bullets), before);
}

#[test]
fn an_empty_field_stays_empty() {
    let mut asteroids: Vec<Asteroid> = Vec::new();
    let mut bullets: Vec<Bullet> = Vec::new();
    assert!(collision_pass(&mut asteroids, &mut bullets).is_empty());
    assert!(asteroids.is_empty() && bullets.is_empty());
    let mut rocks = vec![rock(1, 1, 40)];
    assert!(collision_pass(&mut rocks, &mut bullets).is_empty());
    assert_eq!(rocks.len(), 1);
}

#[test]
fn detection_pairs_each_asteroid_with_its_first_bullet() {
    let asteroids = vec![rock(100, 100, 40), rock(500, 500, 40), rock(300, 300, 40)];
    let bullets = vec![shot(700, 700), shot(300, 300), shot(100, 100), shot(101, 101)];
    assert_eq!(detect(&asteroids, &bullets), vec![(0, 2), (2, 1)]);
}

#[test]
fn detection_changes_nothing() {
    let asteroids = vec![rock(100, 100, 40)];
    let bullets = vec![shot(100, 100)];
    let before = (asteroids.clone(), bullets.clone());
    let _ = detect(&asteroids, &bullets);
    assert_eq!((asteroids, bullets), before);
}

#[test]
fn an_asteroid_is_struck_once_a_frame() {
    let mut asteroids = vec![rock(100, 100, 40)];
    let mut bullets = vec![shot(100, 100), shot(105, 105)];
    let pairs = collision_pass_at_speeds(&mut asteroids, &mut bullets, &vec![ONE]);
    assert_eq!(pairs, vec![(0, 0)]);
    assert_eq!(asteroids.len(), 2);
    assert_eq!(bullets, vec![shot(105, 105)]);
}

#[test]
fn a_bullet_strikes_once_a_frame() {
    let mut asteroids = vec![rock(100, 100, 40), rock(105, 105, 40)];
    let mut bullets = vec![shot(102, 102)];
    let pairs = collision_pass_at_speeds(&mut asteroids, &mut bullets, &vec![ONE]);
    assert_eq!(pairs, vec![(0, 0)]);
    assert!(bullets.is_empty());
    assert_eq!(asteroids.len(), 3);
    assert_eq!(asteroids[0], rock(105, 105, 40));
    assert_eq!(asteroids[1].size(), 20 * ONE);
    assert_eq!(asteroids[1].position(), at(100, 100));
}

#[test]
fn a_second_bullet_goes_to_the_next_asteroid() {
    let mut asteroids = vec![rock(100, 100, 40), rock(105, 105, 40)];
    let mut bullets = vec![shot(102, 102), shot(103, 103)];
    let speeds = vec![ONE, 2 * ONE];
    let pairs = collision_pass_at_speeds(&mut asteroids, &mut bullets, &speeds);
    assert_eq!(pairs, vec![(0, 0), (1, 1)]);
    assert!(bullets.is_empty());
    assert_eq!(asteroids.len(), 4);
    assert_eq!(asteroids[0].velocity(), at(1, 0));
    assert_eq!(asteroids[1].velocity(), at(-1, 0));
    assert_eq!(asteroids[2].velocity(), at(2, 0));
    assert_eq!(asteroids[3].velocity(), at(-2, 0));
    assert_eq!(asteroids[2].position(), at(105, 105));
}

#[test]
fn small_asteroids_leave_no_children() {
    let mut asteroids = vec![rock(100, 100, 15)];
    let mut bullets = vec![shot(100, 100)];
    let pairs = collision_pass_at_speeds(&mut asteroids, &mut bullets, &vec![ONE]);
    assert_eq!(pairs, vec![(0, 0)]);
    assert!(asteroids.is_empty());
    assert!(bullets.is_empty());
}

#[test]
fn the_least_asteroid_that_splits() {
    let mut asteroids = vec![rock(100, 100, 20)];
    let mut bullets = vec![shot(100, 100)];
    collision_pass_at_speeds(&mut asteroids, &mut bullets, &vec![ONE]);
    assert_eq!(asteroids.len(), 2);
    assert_eq!(asteroids[0].size(), Asteroid::MIN_SIZE);
    // its children cannot split again
    let mut bullets = vec![shot(100, 100)];
    let pairs = collision_pass_at_speeds(&mut asteroids, &mut bullets, &vec![ONE]);
    assert_eq!(pairs, vec![(0, 0)]);
    assert_eq!(asteroids.len(), 1);
    assert_eq!(asteroids[0].velocity(), at(-1, 0));
}

#[test]
fn splitting_ends_after_three_generations() {
    let mut asteroids = vec![Asteroid::new(at(100, 100), at(0, 0), Asteroid::MAX_SIZE, 0, 0)];
    let mut counts = Vec::new();
    for _ in 0..40 {
        let mut bullets: Vec<Bullet> = asteroids.iter().map(|_| shot(100, 100)).collect();
        collision_pass(&mut asteroids, &mut bullets);
        assert!(bullets.is_empty());
        counts.push(asteroids.len());
        if asteroids.is_empty() {
            break;
        }
    }
    assert_eq!(counts, vec![2, 4, 8, 0]);
}

#[test]
fn dead_bodies_take_no_part() {
    let mut struck = rock(100, 100, 40);
    struck.set_collided();
    let mut spent = shot(300, 300);
    spent.set_collided();
    let old = Bullet::new(at(300, 300), at(0, -5), 0);
    let asteroids = vec![struck, rock(100, 100, 5), rock(300, 300, 40)];
    let bullets = vec![shot(100, 100), spent, old, shot(300, 300)];
    assert_eq!(detect(&asteroids, &bullets), vec![(2, 3)]);
}

#[test]
fn culling_removes_the_dead_and_keeps_the_order() {
    let mut struck = rock(1, 1, 40);
    struck.set_collided();
    let mut spent = shot(2, 2);
    spent.set_collided();
    let mut asteroids = vec![rock(10, 10, 40), struck, rock(20, 20, 9), rock(30, 30, 10)];
    let mut bullets = vec![shot(1, 1), spent, Bullet::new(at(3, 3), at(0, 0), 0), shot(4, 4)];
    let children = vec![rock(40, 40, 20), rock(50, 50, 5)];
    merge_and_cull(&mut asteroids, &mut bullets, children);
    assert_eq!(asteroids, vec![rock(10, 10, 40), rock(30, 30, 10), rock(40, 40, 20)]);
    assert_eq!(bullets, vec![shot(1, 1), shot(4, 4)]);
}

#[test]
fn resolving_marks_the_pair_and_stages_children() {
    let mut asteroids = vec![rock(100, 100, 40), rock(300, 300, 40)];
    let mut bullets = vec![shot(0, 0), shot(300, 300)];
    let children = resolve(&mut asteroids, &mut bullets, &vec![(1, 1)], &vec![2 * ONE]);
    assert!(!asteroids[0].has_collided());
    assert!(asteroids[1].has_collided());
    assert!(!bullets[0].has_collided());
    assert!(bullets[1].has_collided());
    assert_eq!(asteroids.len(), 2);
    assert_eq!(children.len(), 2);
    assert_eq!(children[0].velocity(), at(2, 0));
    assert_eq!(children[1].velocity(), at(-2, 0));
    assert_eq!(children[0].position(), at(300, 300));
    assert_eq!(children[0].size(), 20 * ONE);
    assert_eq!(children[0].rotation_speed(), 20_000);
}

#[test]
fn resolving_never_strikes_twice() {
    let mut asteroids = vec![rock(100, 100, 40)];
    let mut bullets = vec![shot(100, 100), shot(100, 100)];
    let pairs = vec![(0, 0), (0, 1), (0, 0)];
    let children = resolve(&mut asteroids, &mut bullets, &pairs, &vec![ONE, ONE, ONE]);
    assert_eq!(children.len(), 2);
    assert!(bullets[0].has_collided());
    assert!(!bullets[1].has_collided());
}

#[test]
fn resolving_passes_over_pairs_that_name_nothing() {
    let mut asteroids = vec![rock(100, 100, 40)];
    let mut bullets = vec![shot(100, 100)];
    let before = (asteroids.clone(), bullets.clone());
    let children = resolve(&mut asteroids, &mut bullets, &vec![(1, 0), (0, 1), (7, 7)], &vec![]);
    assert!(children.is_empty());
    assert_eq!((asteroids, bullets), before);
}

#[test]
fn missing_speeds_fall_back_to_the_least_speed() {
    let mut asteroids = vec![rock(100, 100, 40)];
    let mut bullets = vec![shot(100, 100)];
    let children = resolve(&mut asteroids, &mut bullets, &vec![(0, 0)], &vec![]);
    assert_eq!(children[0].velocity(), Vec2::new(Asteroid::MIN_SPEED, 0));
}

#[test]
fn stepping_moves_every_body() {
    let screen = at(800, 800);
    let mut asteroids = vec![rock(100, 100, 40), rock(200, 200, 40)];
    let mut bullets = vec![shot(50, 50), Bullet::new(at(9, 9), at(1, 1), 1)];
    step_all(&mut asteroids, &mut bullets, screen);
    assert_eq!(asteroids[0].position(), at(101, 100));
    assert_eq!(asteroids[1].position(), at(201, 200));
    assert_eq!(asteroids[0].orientation(), 30_000);
    assert_eq!(bullets[0].position(), at(50, 45));
    assert_eq!(bullets[0].frames_left(), 29);
    assert_eq!(bullets[1].position(), at(10, 10));
    assert!(!bullets[1].is_alive());
    let mut expected = rock(100, 100, 40);
    expected.step(screen);
    assert_eq!(asteroids[0], expected);
}

#[test]
fn random_numbers_stay_in_range() {
    for _ in 0..2_000 {
        let r = random_in_range(-5, 5);
        assert!((-5..=5).contains(&r));
        let r = random_in_range(7 * ONE, 3 * ONE);
        assert!((3 * ONE..=7 * ONE).contains(&r));
        assert_eq!(random_in_range(42, 42), 42);
        let r = random_in_range(i64::MIN, i64::MAX);
        assert!((-LIMIT..=LIMIT).contains(&r));
    }
}

#[test]
fn random_numbers_vary() {
    let draws: Vec<i64> = (0..200).map(|_| random_in_range(0, 1_000 * ONE)).collect();
    assert!(draws.iter().any(|&r| r != 0));
    assert!(draws.iter().any(|&r| r != 1_000 * ONE));
    assert!(draws.iter().any(|&r| r != draws[0]));
    assert!(draws.iter().any(|&r| r < 500 * ONE));
    assert!(draws.iter().any(|&r| r > 500 * ONE));
}
