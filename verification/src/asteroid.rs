//! Asteroids: spinning hexagons that drift at constant velocity and split
//! in two when a bullet strikes them.

use vstd::prelude::*;
use crate::angle::{
    direction, lemma_direction_unit, polar, polar_vec2, rotation, RotationMatrix, TAU,
};
use crate::fixed::{
    lemma_quotient_bounds, magnitude, multiply, product, saturate, saturating, LIMIT, ONE,
};
use crate::kinematic::{
    lemma_frame_stays_on_screen, Kinematic, KinematicGetters, KinematicMutators, Motion,
};
use crate::polygon::{inside, is_point_in_polygon, lemma_outside_bounds_is_outside, values};
use crate::random::{between, random_in_range};
use crate::vector::{
    lemma_fine_length, lemma_saturated_shorter, lemma_scaled_shorter, lemma_turned_shorter,
    lemma_with_length_bound, lemma_with_length_reaches, Mat2, Matrix, Vec2, Vector,
};

verus! {

/// Half the height of the unit hexagon: the square root of 3, halved.
pub const FRAC_SQRT3_2: i64 = 866_025;

/// The size nearest to `size` that an asteroid can have: at least one
/// millionth and at most `LIMIT`.
pub open spec fn positive(size: int) -> int {
    if size < 1 {
        1
    } else if size > LIMIT {
        LIMIT as int
    } else {
        size
    }
}

/// The mathematical value of an [`Asteroid`].
pub struct AsteroidState {
    pub motion: Motion,
    pub size: int,
    pub orientation: int,
    pub rotation_speed: int,
    pub has_collided: bool,
}

/// The corners of the hexagon of radius `ONE` about the origin.
pub open spec fn unit_hexagon() -> Seq<Vector> {
    seq![
        Vector { x: ONE as int, y: 0 },
        Vector { x: 500_000, y: FRAC_SQRT3_2 as int },
        Vector { x: -500_000, y: FRAC_SQRT3_2 as int },
        Vector { x: -(ONE as int), y: 0 },
        Vector { x: -500_000, y: -(FRAC_SQRT3_2 as int) },
        Vector { x: 500_000, y: -(FRAC_SQRT3_2 as int) },
    ]
}

/// The velocity of the first child of an asteroid struck by a bullet of
/// velocity `bullet_velocity`: of length `speed` up to rounding, a
/// quarter turn from the bullet's path. A bullet at rest has no path; the
/// child then leaves along the x axis.
pub open spec fn split_velocity(bullet_velocity: Vector, speed: int) -> Vector {
    if bullet_velocity.is_zero() {
        (Vector { x: speed, y: 0 }).saturated()
    } else {
        bullet_velocity.perpendicular().with_length(speed).saturated()
    }
}

impl AsteroidState {
    /// Too small to live on: below `MIN_SIZE`.
    pub open spec fn is_too_small(self) -> bool {
        self.size < Asteroid::MIN_SIZE
    }

    /// Neither struck nor too small.
    pub open spec fn is_alive(self) -> bool {
        !self.has_collided && self.size >= Asteroid::MIN_SIZE
    }

    /// The size is positive and finite, as that of every asteroid is.
    pub open spec fn has_size(self) -> bool {
        1 <= self.size <= LIMIT
    }

    /// The size of each child: the share `CHILD_SIZE_FACTOR` of the size,
    /// and never less than one millionth.
    pub open spec fn child_size(self) -> int {
        positive(product(self.size, Asteroid::CHILD_SIZE_FACTOR as int))
    }

    /// Whether a child of this asteroid would be large enough to live.
    pub open spec fn can_split(self) -> bool {
        self.child_size() >= Asteroid::MIN_SIZE
    }

    /// The child that leaves this asteroid at `velocity`: at the same
    /// place and orientation, smaller, spinning slower, not yet struck.
    pub open spec fn child(self, velocity: Vector) -> AsteroidState {
        AsteroidState {
            motion: Motion {
                position: self.motion.position,
                velocity: velocity,
                acceleration: Vector { x: 0, y: 0 },
            },
            size: self.child_size(),
            orientation: self.orientation,
            rotation_speed: saturate(
                product(self.rotation_speed, Asteroid::CHILD_ROTATION_SPEED_FACTOR as int),
            ),
            has_collided: false,
        }
    }

    /// The corners of the asteroid, in order around it.
    pub open spec fn outline(self) -> Seq<Vector> {
        Seq::new(
            6,
            |i: int|
                rotation(self.orientation).place(
                    unit_hexagon()[i],
                    self.size,
                    self.motion.position,
                ),
        )
    }

    /// Whether `point` lies inside the asteroid.
    pub open spec fn contains(self, point: Vector) -> bool {
        inside(point, self.outline())
    }

    /// The asteroid after it is marked as struck.
    pub open spec fn struck(self) -> AsteroidState {
        AsteroidState { has_collided: true, ..self }
    }

    /// The asteroid turned by its rotation speed: the orientation plus
    /// the rotation speed, saturated.
    pub open spec fn rotated(self) -> AsteroidState {
        AsteroidState { orientation: saturate(self.orientation + self.rotation_speed), ..self }
    }

    /// The asteroid one frame later on a screen of the size `screen`.
    pub open spec fn stepped(self, screen: Vector) -> AsteroidState {
        AsteroidState {
            motion: self.motion.capped(Asteroid::MAX_SPEED as int).kept_on_screen(
                screen,
            ).stepped(),
            ..self.rotated()
        }
    }

    /// Whether this is an asteroid that `Asteroid::random` may return for
    /// a screen of the size `screen`.
    pub open spec fn is_spawn(self, screen: Vector) -> bool {
        &&& between(self.size, Asteroid::MIN_SIZE as int, Asteroid::MAX_SIZE as int)
        &&& between(self.motion.position.x, 0, screen.x)
        &&& between(self.motion.position.y, 0, screen.y)
        &&& exists|speed: int, angle: int|
            between(speed, Asteroid::MIN_SPEED as int, Asteroid::MAX_SPEED as int) && between(
                angle,
                0,
                TAU as int,
            ) && self.motion.velocity == #[trigger] polar(speed, angle).saturated()
        &&& self.motion.acceleration.is_zero()
        &&& between(self.orientation, 0, TAU as int)
        &&& between(
            self.rotation_speed,
            Asteroid::MIN_ROTATION_SPEED as int,
            Asteroid::MAX_ROTATION_SPEED as int,
        )
        &&& !self.has_collided
    }
}

/// Every corner of an asteroid lies within its size of its position.
///
/// The corner `i` is the position plus an offset that is no longer than
/// the size: the unit hexagon reaches no further than `ONE`, and neither
/// scaling nor turning lengthens it.
pub proof fn lemma_corners_within_size(a: AsteroidState, i: int)
    requires
        0 <= i < 6,
        a.has_size(),
    ensures
        ({
            let offset = rotation(a.orientation).apply(unit_hexagon()[i].scaled(a.size));
            &&& offset.norm_squared() <= a.size * a.size
            &&& magnitude(offset.x) <= a.size
            &&& magnitude(offset.y) <= a.size
            &&& a.outline()[i] == offset.plus(a.motion.position).saturated()
        }),
{
    let unit = unit_hexagon()[i];
    assert(unit.x == ONE && unit.y == 0 || unit.x == -ONE && unit.y == 0 || magnitude(unit.x)
        == 500_000 && magnitude(unit.y) == FRAC_SQRT3_2) by {
        if i == 0 {
            assert(unit == Vector { x: ONE as int, y: 0 });
        } else if i == 1 {
            assert(unit == Vector { x: 500_000, y: FRAC_SQRT3_2 as int });
        } else if i == 2 {
            assert(unit == Vector { x: -500_000, y: FRAC_SQRT3_2 as int });
        } else if i == 3 {
            assert(unit == Vector { x: -(ONE as int), y: 0 });
        } else if i == 4 {
            assert(unit == Vector { x: -500_000, y: -(FRAC_SQRT3_2 as int) });
        } else {
            assert(unit == Vector { x: 500_000, y: -(FRAC_SQRT3_2 as int) });
        }
    }
    let ux = unit.x;
    let uy = unit.y;
    assert(ux * ux + uy * uy <= 1_000_000_000_000) by (nonlinear_arith)
        requires
            ux == 1_000_000 && uy == 0 || ux == -1_000_000 && uy == 0 || magnitude(ux) == 500_000
                && magnitude(uy) == 866_025,
    ;
    assert(ONE * ONE == 1_000_000_000_000) by (nonlinear_arith);
    let scaled = unit.scaled(a.size);
    lemma_scaled_shorter(unit, a.size);
    lemma_direction_unit(a.orientation);
    let d = direction(a.orientation);
    lemma_turned_shorter(d, scaled);
    let offset = rotation(a.orientation).apply(scaled);
    assert(rotation(a.orientation) == Matrix { x_axis: d.perpendicular(), y_axis: d });
    let n = offset.norm_squared();
    let size = a.size;
    assert(0 <= offset.x * offset.x && 0 <= offset.y * offset.y) by (nonlinear_arith);
    if magnitude(offset.x) > size {
        assert(offset.x * offset.x > size * size) by (nonlinear_arith)
            requires
                magnitude(offset.x) > size,
                size >= 0,
        ;
    }
    if magnitude(offset.y) > size {
        assert(offset.y * offset.y > size * size) by (nonlinear_arith)
            requires
                magnitude(offset.y) > size,
                size >= 0,
        ;
    }
}

/// A point inside an asteroid is within the asteroid's size of its
/// position along each axis, wherever the asteroid is far enough from
/// the ends of the range for none of its corners to saturate.
pub proof fn lemma_inside_is_near(a: AsteroidState, point: Vector)
    requires
        a.has_size(),
        a.contains(point),
        magnitude(a.motion.position.x) + a.size <= LIMIT,
        magnitude(a.motion.position.y) + a.size <= LIMIT,
    ensures
        magnitude(point.x - a.motion.position.x) <= a.size,
        magnitude(point.y - a.motion.position.y) <= a.size,
{
    let outline = a.outline();
    let position = a.motion.position;
    assert forall|i: int| 0 <= i < outline.len() implies magnitude(
        (#[trigger] outline[i]).x - position.x,
    ) <= a.size && magnitude(outline[i].y - position.y) <= a.size by {
        lemma_corners_within_size(a, i);
    }
    if point.x - position.x > a.size || point.x - position.x < -a.size || point.y - position.y
        > a.size || point.y - position.y < -a.size {
        lemma_outside_bounds_is_outside(point, outline);
    }
}

/// A child has half the size of its parent, rounded down, and is smaller
/// than its parent unless that has the least size there is.
pub proof fn lemma_child_size(a: AsteroidState)
    ensures
        2 <= a.size <= LIMIT ==> a.child_size() == a.size / 2,
        a.size < 2 ==> a.child_size() == 1,
        a.size >= 2 ==> a.child_size() < a.size,
        1 <= a.child_size() <= LIMIT,
        a.size >= 0 ==> a.child_size() <= positive(a.size / 2),
{
    let size = a.size;
    lemma_quotient_bounds(size * 500_000, ONE as int);
    if size >= 0 {
        vstd::arithmetic::div_mod::lemma_div_multiples_vanish_quotient(500_000, size, 2);
        assert(500_000 * size == size * 500_000) by (nonlinear_arith);
        assert(product(size, 500_000) == size / 2);
    } else {
        assert(size * 500_000 < 0) by (nonlinear_arith)
            requires
                size < 0,
        ;
    }
}

/// Splitting conserves what it should.
///
/// Both children of an asteroid have the size of a child and lie where
/// the parent lies. Their velocities are exact opposites. They are no
/// longer than `speed` and shorter by less than one part in a million and
/// two millionths, however slow the bullet was. And they are
/// perpendicular to the bullet's velocity up to rounding: their inner
/// product with it is at most one unit of the last place for each
/// coordinate of the bullet's velocity.
pub proof fn lemma_split_conservation(parent: AsteroidState, bullet_velocity: Vector, speed: int)
    requires
        bullet_velocity.is_finite(),
        0 <= speed <= LIMIT,
    ensures
        ({
            let velocity = split_velocity(bullet_velocity, speed);
            let first = parent.child(velocity);
            let second = parent.child(velocity.negated());
            &&& first.size == parent.child_size()
            &&& second.size == parent.child_size()
            &&& first.motion.position == parent.motion.position
            &&& second.motion.position == parent.motion.position
            &&& second.motion.velocity == first.motion.velocity.negated()
            &&& first.motion.velocity.norm_squared() <= speed * speed
            &&& (first.motion.velocity.norm_squared() + 4 * speed + 2) * (ONE as int * ONE as int)
                > (speed * speed) * ((ONE - 1) * (ONE - 1))
            &&& magnitude(first.motion.velocity.dot(bullet_velocity)) <= magnitude(
                bullet_velocity.x,
            ) + magnitude(bullet_velocity.y)
        }),
{
    let b = bullet_velocity;
    let velocity = split_velocity(b, speed);
    if b.is_zero() {
        assert(velocity == Vector { x: speed, y: 0 });
        assert(velocity.dot(b) == 0) by (nonlinear_arith)
            requires
                b.x == 0,
                b.y == 0,
                velocity.dot(b) == velocity.x * b.x + velocity.y * b.y,
        ;
        assert(velocity.norm_squared() == speed * speed) by (nonlinear_arith)
            requires
                velocity.x == speed,
                velocity.y == 0,
                velocity.norm_squared() == velocity.x * velocity.x + velocity.y * velocity.y,
        ;
        let nn = speed * speed;
        assert((nn + 4 * speed + 2) * (ONE as int * ONE as int) > nn * ((ONE - 1) * (ONE - 1)))
            by (nonlinear_arith)
            requires
                0 <= nn,
                0 <= speed,
                ONE == 1_000_000,
        ;
    } else {
        let p = b.perpendicular();
        let w = p.with_length(speed);
        lemma_with_length_bound(p, speed);
        lemma_with_length_reaches(p, speed);
        lemma_saturated_shorter(w);
        lemma_fine_length(p);
        let l = p.fine_length();
        let fine = speed * ONE;
        lemma_quotient_bounds(p.x * speed * ONE, l);
        lemma_quotient_bounds(p.y * speed * ONE, l);
        assert(p.x * speed * ONE == (-b.y) * fine && p.y * speed * ONE == b.x * fine)
            by (nonlinear_arith)
            requires
                p.x == -b.y,
                p.y == b.x,
                fine == speed * ONE,
        ;
        lemma_perpendicular(b.x, b.y, fine, l, w.x, w.y);
        assert(w.dot(b) == b.x * w.x + b.y * w.y) by (nonlinear_arith)
            requires
                w.dot(b) == w.x * b.x + w.y * b.y,
        ;
    }
}

/// The inner product of `(bx, by)` with the rounded quotients of
/// `(-by * s, bx * s)` by `l` is small.
proof fn lemma_perpendicular(bx: int, by: int, s: int, l: int, vx: int, vy: int)
    requires
        l >= 1,
        magnitude((-by) * s - vx * l) < l,
        magnitude(bx * s - vy * l) < l,
    ensures
        magnitude(bx * vx + by * vy) <= magnitude(bx) + magnitude(by),
{
    let ex = (-by) * s - vx * l;
    let ey = bx * s - vy * l;
    let d = bx * vx + by * vy;
    assert(bx * ex == -((bx * by) * s) - (bx * vx) * l) by (nonlinear_arith)
        requires
            ex == (-by) * s - vx * l,
    ;
    assert(by * ey == (bx * by) * s - (by * vy) * l) by (nonlinear_arith)
        requires
            ey == bx * s - vy * l,
    ;
    assert(d * l == (bx * vx) * l + (by * vy) * l) by (nonlinear_arith)
        requires
            d == bx * vx + by * vy,
    ;
    assert(d * l == -(bx * ex) - by * ey);
    let mx = magnitude(bx);
    let my = magnitude(by);
    assert(magnitude(bx * ex) <= mx * (l - 1)) by (nonlinear_arith)
        requires
            mx == magnitude(bx),
            magnitude(ex) <= l - 1,
    ;
    assert(magnitude(by * ey) <= my * (l - 1)) by (nonlinear_arith)
        requires
            my == magnitude(by),
            magnitude(ey) <= l - 1,
    ;
    let bound = mx + my;
    assert(magnitude(d * l) <= bound * (l - 1)) by (nonlinear_arith)
        requires
            d * l == -(bx * ex) - by * ey,
            magnitude(bx * ex) <= mx * (l - 1),
            magnitude(by * ey) <= my * (l - 1),
            bound == mx + my,
    ;
    if magnitude(d) > bound {
        assert(magnitude(d * l) > bound * (l - 1)) by (nonlinear_arith)
            requires
                magnitude(d) >= bound + 1,
                bound >= 0,
                l >= 1,
        ;
    }
}

/// The size of a descendant `n` generations below an asteroid of the
/// size `size`.
pub open spec fn generation_size(size: int, n: nat) -> int
    decreases n,
{
    if n == 0 {
        size
    } else {
        positive(product(generation_size(size, (n - 1) as nat), Asteroid::CHILD_SIZE_FACTOR as int))
    }
}

/// `LIMIT` halved `n` times.
pub open spec fn halved_limit(n: nat) -> int
    decreases n,
{
    if n == 0 {
        LIMIT as int
    } else {
        halved_limit((n - 1) as nat) / 2
    }
}

/// Every chain of splits ends.
///
/// A child that is spawned is large enough to live and smaller than its
/// parent; and whatever the size of an asteroid, its descendants of the
/// seventeenth generation, and of every later one, cannot split again.
pub proof fn lemma_splitting_ends(a: AsteroidState, n: nat)
    ensures
        a.can_split() ==> Asteroid::MIN_SIZE <= a.child_size() < a.size,
        generation_size(a.size, n + 1) <= positive(halved_limit(n)),
        n >= 17 ==> !(AsteroidState { size: generation_size(a.size, n), ..a }).can_split(),
    decreases n,
{
    lemma_child_size(a);
    let size = generation_size(a.size, n);
    let here = AsteroidState { size: size, ..a };
    lemma_child_size(here);
    assert(generation_size(a.size, n + 1) == here.child_size());
    if n > 0 {
        lemma_splitting_ends(a, (n - 1) as nat);
        assert(size <= positive(halved_limit((n - 1) as nat)));
        lemma_halved_limit_bounds((n - 1) as nat);
        if size >= 0 {
            assert(size / 2 <= halved_limit((n - 1) as nat) / 2);
        }
    }
    if n >= 17 {
        lemma_halved_limit_small(n);
    }
}

/// An asteroid no larger than `MAX_SIZE` splits through three
/// generations at most: its descendants of the third cannot split again.
pub proof fn lemma_spawned_asteroids_split_thrice(a: AsteroidState)
    requires
        a.size <= Asteroid::MAX_SIZE,
    ensures
        !(AsteroidState { size: generation_size(a.size, 3), ..a }).can_split(),
{
    reveal_with_fuel(generation_size, 4);
    let first = AsteroidState { size: generation_size(a.size, 1), ..a };
    let second = AsteroidState { size: generation_size(a.size, 2), ..a };
    let third = AsteroidState { size: generation_size(a.size, 3), ..a };
    lemma_child_size(a);
    lemma_child_size(first);
    lemma_child_size(second);
    lemma_child_size(third);
    assert(first.size == a.child_size());
    assert(second.size == first.child_size());
    assert(third.size == second.child_size());
}

/// Halving never leaves the range.
proof fn lemma_halved_limit_bounds(n: nat)
    ensures
        0 <= halved_limit(n) <= LIMIT,
        n > 0 ==> halved_limit(n) <= halved_limit((n - 1) as nat),
    decreases n,
{
    if n > 0 {
        lemma_halved_limit_bounds((n - 1) as nat);
    }
}

/// Seventeen halvings bring `LIMIT` below the least size of a live
/// asteroid.
proof fn lemma_halved_limit_small(n: nat)
    requires
        n >= 17,
    ensures
        halved_limit(n) < Asteroid::MIN_SIZE,
    decreases n,
{
    if n == 17 {
        assert(halved_limit(17) == 7_629_394) by {
            reveal_with_fuel(halved_limit, 18);
        }
    } else {
        lemma_halved_limit_small((n - 1) as nat);
        lemma_halved_limit_bounds(n);
    }
}

/// The size of an asteroid: positive and finite.
#[derive(Clone, Copy, Debug, PartialEq, Eq, Structural)]
pub struct Size {
    millionths: i64,
}

impl View for Size {
    type V = int;

    closed spec fn view(&self) -> int {
        self.millionths as int
    }
}

impl Size {
    /// What holds of every `Size`.
    #[verifier::type_invariant]
    pub open spec fn well_formed(self) -> bool {
        1 <= self@ <= LIMIT
    }

    /// The size nearest to `size`: a size below one millionth is taken
    /// as one millionth, one above `LIMIT` as `LIMIT`.
    pub fn new(size: i64) -> (r: Size)
        ensures
            r@ == positive(size as int),
    {
        if size < 1 {
            Size { millionths: 1 }
        } else if size > LIMIT {
            Size { millionths: LIMIT }
        } else {
            Size { millionths: size }
        }
    }

    /// The size, in millionths.
    pub fn get(&self) -> (size: i64)
        ensures
            size == self@,
            1 <= size <= LIMIT,
    {
        proof {
            use_type_invariant(self);
        }
        self.millionths
    }
}

/// A hexagonal asteroid.
#[derive(Clone, Copy, Debug, PartialEq, Eq, Structural)]
pub struct Asteroid {
    kinematic: Kinematic,
    size: Size,
    orientation: i64,
    rotation_speed: i64,
    has_collided: bool,
}

impl View for Asteroid {
    type V = AsteroidState;

    closed spec fn view(&self) -> AsteroidState {
        AsteroidState {
            motion: self.kinematic@,
            size: self.size@,
            orientation: self.orientation as int,
            rotation_speed: self.rotation_speed as int,
            has_collided: self.has_collided,
        }
    }
}

impl Asteroid {
    pub const MIN_SPEED: i64 = 1_000_000;

    pub const MAX_SPEED: i64 = 2_500_000;

    pub const MIN_ROTATION_SPEED: i64 = 25_000;

    pub const MAX_ROTATION_SPEED: i64 = 50_000;

    pub const MIN_SIZE: i64 = 10_000_000;

    pub const MAX_SIZE: i64 = 80_000_000;

    /// The share of its parent's size that a child has.
    pub const CHILD_SIZE_FACTOR: i64 = 500_000;

    /// The share of its parent's rotation speed that a child has.
    pub const CHILD_ROTATION_SPEED_FACTOR: i64 = 666_667;

    /// An asteroid at rest in its acceleration, not yet struck. A size
    /// below one millionth is taken as one millionth.
    pub fn new(
        position: Vec2,
        velocity: Vec2,
        size: i64,
        orientation: i64,
        rotation_speed: i64,
    ) -> (a: Asteroid)
        ensures
            a@ == (AsteroidState {
                motion: Motion {
                    position: position@,
                    velocity: velocity@,
                    acceleration: Vector { x: 0, y: 0 },
                },
                size: positive(size as int),
                orientation: orientation as int,
                rotation_speed: rotation_speed as int,
                has_collided: false,
            }),
            a@.has_size(),
    {
        Asteroid {
            kinematic: Kinematic::new(position, velocity, Vec2::zero()),
            size: Size::new(size),
            orientation,
            rotation_speed,
            has_collided: false,
        }
    }

    /// `count` random asteroids for a screen of the size `screen`.
    pub fn many_random(count: usize, screen: Vec2) -> (asteroids: Vec<Asteroid>)
        ensures
            asteroids@.len() == count,
            forall|i: int| 0 <= i < count ==> (#[trigger] asteroids@[i])@.is_spawn(screen@),
    {
        let mut asteroids: Vec<Asteroid> = Vec::new();
        let mut made: usize = 0;
        while made < count
            invariant
                made <= count,
                asteroids@.len() == made,
                forall|i: int| 0 <= i < made ==> (#[trigger] asteroids@[i])@.is_spawn(screen@),
            decreases count - made,
        {
            asteroids.push(Asteroid::random(screen));
            made += 1;
        }
        asteroids
    }

    /// A random asteroid: anywhere on a screen of the size `screen`, with
    /// size, speed and rotation speed each within its range and heading
    /// and orientation anywhere in a turn.
    pub fn random(screen: Vec2) -> (a: Asteroid)
        ensures
            a@.is_spawn(screen@),
    {
        let size: i64 = random_in_range(Self::MIN_SIZE, Self::MAX_SIZE);
        let position: Vec2 = Vec2::new(
            random_in_range(0, screen.x()),
            random_in_range(0, screen.y()),
        );
        let speed: i64 = random_in_range(Self::MIN_SPEED, Self::MAX_SPEED);
        let angle: i64 = random_in_range(0, TAU);
        let velocity: Vec2 = polar_vec2(speed, angle);
        let orientation: i64 = random_in_range(0, TAU);
        let rotation_speed: i64 = random_in_range(
            Self::MIN_ROTATION_SPEED,
            Self::MAX_ROTATION_SPEED,
        );
        assert(velocity@ == polar(speed as int, angle as int).saturated());
        Asteroid::new(position, velocity, size, orientation, rotation_speed)
    }

    /// The child that leaves this asteroid at `velocity`.
    pub fn create_child(&self, velocity: Vec2) -> (child: Asteroid)
        ensures
            child@ == self@.child(velocity@),
    {
        Asteroid {
            kinematic: Kinematic::new(self.position(), velocity, Vec2::zero()),
            size: Size::new(multiply(self.size.get(), Self::CHILD_SIZE_FACTOR)),
            orientation: self.orientation,
            rotation_speed: multiply(self.rotation_speed, Self::CHILD_ROTATION_SPEED_FACTOR),
            has_collided: false,
        }
    }

    /// The size, which is positive.
    pub fn size(&self) -> (size: i64)
        ensures
            size == self@.size,
            self@.has_size(),
    {
        self.size.get()
    }

    pub fn orientation(&self) -> (orientation: i64)
        ensures
            orientation == self@.orientation,
    {
        self.orientation
    }

    pub fn rotation_speed(&self) -> (rotation_speed: i64)
        ensures
            rotation_speed == self@.rotation_speed,
    {
        self.rotation_speed
    }

    pub fn is_too_small(&self) -> (r: bool)
        ensures
            r == self@.is_too_small(),
    {
        self.size.get() < Self::MIN_SIZE
    }

    pub fn has_collided(&self) -> (r: bool)
        ensures
            r == self@.has_collided,
    {
        self.has_collided
    }

    pub fn is_alive(&self) -> (r: bool)
        ensures
            r == self@.is_alive(),
    {
        !self.has_collided && self.size.get() >= Self::MIN_SIZE
    }

    /// Whether a child of this asteroid would be large enough to live.
    pub fn can_split(&self) -> (r: bool)
        ensures
            r == self@.can_split(),
    {
        multiply(self.size.get(), Self::CHILD_SIZE_FACTOR) >= Self::MIN_SIZE
    }

    /// The corners of the hexagon of radius `ONE` about the origin.
    pub fn unit_vertices() -> (corners: [Vec2; 6])
        ensures
            values(corners@) == unit_hexagon(),
    {
        let corners: [Vec2; 6] = [
            Vec2::new(ONE, 0),
            Vec2::new(500_000, FRAC_SQRT3_2),
            Vec2::new(-500_000, FRAC_SQRT3_2),
            Vec2::new(-ONE, 0),
            Vec2::new(-500_000, -FRAC_SQRT3_2),
            Vec2::new(500_000, -FRAC_SQRT3_2),
        ];
        assert(values(corners@) =~= unit_hexagon());
        corners
    }

    /// The corners of the asteroid, in order around it: those of the
    /// unit hexagon, scaled by the size, turned by the orientation and
    /// moved to the position.
    pub fn vertices(&self) -> (corners: [Vec2; 6])
        ensures
            values(corners@) == self@.outline(),
    {
        let rotation: Mat2 = self.orientation.rotation_matrix();
        let position: Vec2 = self.position();
        let scale: i64 = self.size.get();
        let unit: [Vec2; 6] = Self::unit_vertices();
        let corners: [Vec2; 6] = [
            rotation.place(unit[0], scale, position),
            rotation.place(unit[1], scale, position),
            rotation.place(unit[2], scale, position),
            rotation.place(unit[3], scale, position),
            rotation.place(unit[4], scale, position),
            rotation.place(unit[5], scale, position),
        ];
        proof {
            let shape = values(unit@);
            assert(shape[0] == unit@[0]@ && shape[1] == unit@[1]@ && shape[2] == unit@[2]@
                && shape[3] == unit@[3]@ && shape[4] == unit@[4]@ && shape[5] == unit@[5]@);
            assert(values(corners@) =~= self@.outline());
        }
        corners
    }

    /// Whether `point` lies inside the asteroid.
    pub fn is_point_inside(&self, point: Vec2) -> (r: bool)
        ensures
            r == self@.contains(point@),
    {
        let corners: [Vec2; 6] = self.vertices();
        is_point_in_polygon(point, corners.as_slice())
    }

    /// The two children of this asteroid when a bullet of velocity
    /// `bullet_velocity` strikes it: they leave at a random speed, in
    /// opposite directions, a quarter turn from the bullet's path.
    pub fn split(&self, bullet_velocity: Vec2) -> (children: [Asteroid; 2])
        ensures
            exists|speed: int|
                between(speed, Self::MIN_SPEED as int, Self::MAX_SPEED as int) && children@[0]@
                    == self@.child(#[trigger] split_velocity(bullet_velocity@, speed))
                    && children@[1]@ == self@.child(
                    split_velocity(bullet_velocity@, speed).negated(),
                ),
    {
        let speed: i64 = random_in_range(Self::MIN_SPEED, Self::MAX_SPEED);
        self.split_at_speed(bullet_velocity, speed)
    }

    /// The two children of this asteroid when a bullet of velocity
    /// `bullet_velocity` strikes it and they leave at `speed`.
    pub fn split_at_speed(&self, bullet_velocity: Vec2, speed: i64) -> (children: [Asteroid; 2])
        ensures
            children@[0]@ == self@.child(split_velocity(bullet_velocity@, speed as int)),
            children@[1]@ == self@.child(
                split_velocity(bullet_velocity@, speed as int).negated(),
            ),
    {
        let velocity: Vec2 = if bullet_velocity.x() == 0 && bullet_velocity.y() == 0 {
            Vec2::new(speed, 0)
        } else {
            bullet_velocity.perpendicular().with_length(speed)
        };
        [self.create_child(velocity), self.create_child(velocity.negated())]
    }

    /// Marks the asteroid as struck.
    pub fn set_collided(&mut self)
        ensures
            final(self)@ == old(self)@.struck(),
    {
        self.has_collided = true;
    }

    /// Moves the asteroid one frame on, on a screen of the size `screen`:
    /// turns it, caps its speed, keeps it on screen and moves it. On a
    /// screen wider and higher than `MAX_SPEED`, an asteroid that is on
    /// the screen stays on it.
    pub fn step(&mut self, screen: Vec2)
        ensures
            final(self)@ == old(self)@.stepped(screen@),
            old(self)@.motion.is_finite(),
            final(self)@.motion.is_finite(),
            old(self)@.motion.on_screen(screen@) && Self::MAX_SPEED < screen@.x && Self::MAX_SPEED
                < screen@.y ==> final(self)@.motion.on_screen(screen@),
    {
        self.rotate();
        self.cap_speed(Self::MAX_SPEED);
        self.keep_on_screen(screen);
        self.step_motion();
        proof {
            use_type_invariant(screen);
            if old(self)@.motion.on_screen(screen@) && Self::MAX_SPEED < screen@.x
                && Self::MAX_SPEED < screen@.y {
                lemma_frame_stays_on_screen(
                    old(self)@.motion,
                    Self::MAX_SPEED as int,
                    screen@,
                );
            }
        }
    }

    /// Turns the asteroid by its rotation speed. The orientation is not
    /// kept within a turn; directions repeat every turn.
    pub fn rotate(&mut self)
        ensures
            final(self)@ == old(self)@.rotated(),
    {
        self.orientation = saturating(self.orientation as i128 + self.rotation_speed as i128);
    }
}

impl KinematicGetters for Asteroid {
    open spec fn motion(&self) -> Motion {
        self@.motion
    }

    fn kinematic(&self) -> (k: &Kinematic) {
        &self.kinematic
    }
}

impl KinematicMutators for Asteroid {
    open spec fn same_besides_motion(&self, other: &Self) -> bool {
        other@ == (AsteroidState { motion: other@.motion, ..self@ })
    }

    fn kinematic_mut(&mut self) -> (k: &mut Kinematic) {
        &mut self.kinematic
    }
}

} // verus!
