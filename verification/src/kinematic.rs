//! The motion shared by every body: position, velocity and acceleration,
//! and the rules that advance them once per frame.

use vstd::prelude::*;
use vstd::arithmetic::power::pow;
use crate::fixed::{magnitude, product, LIMIT, ONE};
use crate::vector::{
    lemma_saturated_shorter, lemma_with_length_bound, lemma_with_length_reaches, Vec2, Vector,
};

verus! {

/// How far the acceleration moves toward its target in one call.
pub const ACCELERATION_RATE: i64 = 10_000;

/// The share of velocity and acceleration that friction removes per call.
pub const FRICTION: i64 = 20_000;

/// The mathematical value of a [`Kinematic`].
pub struct Motion {
    pub position: Vector,
    pub velocity: Vector,
    pub acceleration: Vector,
}

/// A coordinate after friction: what is left when the share `FRICTION`
/// of it, rounded toward zero, is taken away.
pub open spec fn decayed(x: int) -> int {
    x + product(x, -(FRICTION as int))
}

/// One coordinate of a position kept on a screen of the given extent: a
/// body about to leave past the extent re-enters at 0, one about to leave
/// below 0 re-enters at the extent, any other stays.
pub open spec fn wrapped(position: int, velocity: int, extent: int) -> int {
    let next = position + velocity;
    if next > extent {
        0
    } else if next < 0 {
        extent
    } else {
        position
    }
}

impl Vector {
    /// Both coordinates after friction.
    pub open spec fn decayed(self) -> Vector {
        Vector { x: decayed(self.x), y: decayed(self.y) }
    }
}

impl Motion {
    /// Position, velocity and acceleration are all finite.
    pub open spec fn is_finite(self) -> bool {
        self.position.is_finite() && self.velocity.is_finite() && self.acceleration.is_finite()
    }

    /// The body lies on a screen of the size `screen`, edges included.
    pub open spec fn on_screen(self, screen: Vector) -> bool {
        0 <= self.position.x <= screen.x && 0 <= self.position.y <= screen.y
    }

    /// The acceleration moved one step toward `target`.
    pub open spec fn accelerated(self, target: Vector) -> Motion {
        Motion {
            acceleration: self.acceleration.moved_towards(
                target,
                ACCELERATION_RATE as int,
            ).saturated(),
            ..self
        }
    }

    /// Whether the speed is above `max_speed`. A body at rest is never
    /// too fast.
    pub open spec fn exceeds(self, max_speed: int) -> bool {
        !self.velocity.is_zero() && (max_speed < 0 || self.velocity.norm_squared() > max_speed
            * max_speed)
    }

    /// The velocity cut back to `max_speed` if it is above it.
    pub open spec fn capped(self, max_speed: int) -> Motion {
        if self.exceeds(max_speed) {
            Motion { velocity: self.velocity.with_length(max_speed).saturated(), ..self }
        } else {
            self
        }
    }

    /// The position moved to the opposite edge of the screen along each
    /// axis on which the next step would leave it.
    pub open spec fn kept_on_screen(self, screen: Vector) -> Motion {
        Motion {
            position: Vector {
                x: wrapped(self.position.x, self.velocity.x, screen.x),
                y: wrapped(self.position.y, self.velocity.y, screen.y),
            },
            ..self
        }
    }

    /// One step of Euler's method: the position advanced by the velocity
    /// it had, the velocity by the acceleration.
    pub open spec fn stepped(self) -> Motion {
        Motion {
            position: self.position.plus(self.velocity).saturated(),
            velocity: self.velocity.plus(self.acceleration).saturated(),
            acceleration: self.acceleration,
        }
    }

    /// Velocity and acceleration after friction.
    pub open spec fn slowed(self) -> Motion {
        Motion {
            position: self.position,
            velocity: self.velocity.decayed(),
            acceleration: self.acceleration.decayed(),
        }
    }

    /// The motion after friction has been applied `n` times.
    pub open spec fn slowed_times(self, n: nat) -> Motion
        decreases n,
    {
        if n == 0 {
            self
        } else {
            self.slowed_times((n - 1) as nat).slowed()
        }
    }
}

/// Friction takes a fiftieth of a coordinate's magnitude, rounded down,
/// and so keeps its sign, never lengthens it, and never brings it to zero.
pub proof fn lemma_decayed(x: int)
    ensures
        magnitude(decayed(x)) == magnitude(x) - magnitude(x) / 50,
        x >= 0 ==> decayed(x) >= 0,
        x <= 0 ==> decayed(x) <= 0,
        magnitude(decayed(x)) <= magnitude(x),
        magnitude(x) >= 50 ==> magnitude(decayed(x)) < magnitude(x),
        magnitude(x) < 50 ==> decayed(x) == x,
        x != 0 ==> decayed(x) != 0,
{
    let m = magnitude(x);
    vstd::arithmetic::div_mod::lemma_div_multiples_vanish_quotient(20_000, m, 50);
    assert(20_000 * m == m * 20_000) by (nonlinear_arith);
    assert((20_000 * m) / 1_000_000 == m / 50);
    if x >= 0 {
        assert(x * (-(FRICTION as int)) == -(20_000 * m)) by (nonlinear_arith)
            requires
                m == x,
                FRICTION == 20_000,
        ;
        assert(product(x, -(FRICTION as int)) == -(m / 50));
    } else {
        assert(x * (-(FRICTION as int)) == 20_000 * m) by (nonlinear_arith)
            requires
                m == -x,
                FRICTION == 20_000,
        ;
        assert(product(x, -(FRICTION as int)) == m / 50);
    }
}

/// Friction never lengthens a vector, shortens it while a coordinate is
/// large enough to lose anything, and never stops it.
pub proof fn lemma_friction_shortens(v: Vector)
    ensures
        v.decayed().norm_squared() <= v.norm_squared(),
        magnitude(v.x) >= 50 || magnitude(v.y) >= 50 ==> v.decayed().norm_squared()
            < v.norm_squared(),
        !v.is_zero() ==> !v.decayed().is_zero(),
        v.is_finite() ==> v.decayed().is_finite(),
{
    lemma_decayed(v.x);
    lemma_decayed(v.y);
    let d = v.decayed();
    lemma_square_order(d.x, v.x);
    lemma_square_order(d.y, v.y);
}

/// Squares follow magnitudes.
proof fn lemma_square_order(a: int, b: int)
    requires
        magnitude(a) <= magnitude(b),
    ensures
        a * a <= b * b,
        magnitude(a) < magnitude(b) ==> a * a < b * b,
{
    let p = magnitude(a);
    let q = magnitude(b);
    assert(a * a == p * p && b * b == q * q) by (nonlinear_arith)
        requires
            p == magnitude(a),
            q == magnitude(b),
    ;
    assert(p * p <= q * q && (p < q ==> p * p < q * q)) by (nonlinear_arith)
        requires
            0 <= p <= q,
    ;
}

/// Repeated friction brings the velocity toward rest without reaching it.
///
/// Applied `n` times to a motion whose velocity is not zero, friction
/// leaves a velocity that is not zero and no longer than before; each
/// coordinate has lost at least `n` millionths, or has come below the 50
/// millionths under which a fiftieth rounds to nothing. The same holds of
/// the acceleration.
pub proof fn lemma_friction_converges(m: Motion, n: nat)
    ensures
        m.slowed_times(n).position == m.position,
        m.slowed_times(n).velocity.norm_squared() <= m.velocity.norm_squared(),
        m.slowed_times(n).acceleration.norm_squared() <= m.acceleration.norm_squared(),
        !m.velocity.is_zero() ==> !m.slowed_times(n).velocity.is_zero(),
        !m.acceleration.is_zero() ==> !m.slowed_times(n).acceleration.is_zero(),
        settles(m.slowed_times(n).velocity, m.velocity, n),
        settles(m.slowed_times(n).acceleration, m.acceleration, n),
        n > 0 ==> m.slowed_times(n).velocity.norm_squared() <= m.slowed_times(
            (n - 1) as nat,
        ).velocity.norm_squared(),
    decreases n,
{
    if n > 0 {
        let before = m.slowed_times((n - 1) as nat);
        lemma_friction_converges(m, (n - 1) as nat);
        lemma_friction_shortens(before.velocity);
        lemma_friction_shortens(before.acceleration);
        lemma_decayed(before.velocity.x);
        lemma_decayed(before.velocity.y);
        lemma_decayed(before.acceleration.x);
        lemma_decayed(before.acceleration.y);
    }
}

/// Whether the coordinate `now` is what `n` applications of friction may
/// leave of the coordinate `start`: its magnitude is at least the share
/// `(49/50)^n` of the magnitude of `start`, and what it has above 49
/// millionths is at most that share of what `start` had above them.
pub open spec fn decays(now: int, start: int, n: nat) -> bool {
    &&& pow(50, n) * magnitude(now) >= pow(49, n) * magnitude(start)
    &&& pow(50, n) * (magnitude(now) - 49) <= pow(49, n) * (magnitude(start) - 49)
}

/// Friction decays velocity and acceleration geometrically.
///
/// After friction has been applied `n` times, each coordinate of the
/// velocity and of the acceleration has the share `0.98^n` of its first
/// magnitude, up to rounding: at least that share, and at most that share
/// and 49 millionths. So every coordinate comes below 50 millionths, and
/// there it stays as it is.
pub proof fn lemma_friction_decays_geometrically(m: Motion, n: nat)
    ensures
        decays(m.slowed_times(n).velocity.x, m.velocity.x, n),
        decays(m.slowed_times(n).velocity.y, m.velocity.y, n),
        decays(m.slowed_times(n).acceleration.x, m.acceleration.x, n),
        decays(m.slowed_times(n).acceleration.y, m.acceleration.y, n),
        n >= magnitude(m.velocity.x) ==> magnitude(m.slowed_times(n).velocity.x) < 50,
        n >= magnitude(m.velocity.y) ==> magnitude(m.slowed_times(n).velocity.y) < 50,
    decreases n,
{
    reveal(pow);
    lemma_friction_converges(m, n);
    if n > 0 {
        let before = m.slowed_times((n - 1) as nat);
        let after = m.slowed_times(n);
        lemma_friction_decays_geometrically(m, (n - 1) as nat);
        lemma_decay_step(after.velocity.x, before.velocity.x, m.velocity.x, (n - 1) as nat);
        lemma_decay_step(after.velocity.y, before.velocity.y, m.velocity.y, (n - 1) as nat);
        lemma_decay_step(
            after.acceleration.x,
            before.acceleration.x,
            m.acceleration.x,
            (n - 1) as nat,
        );
        lemma_decay_step(
            after.acceleration.y,
            before.acceleration.y,
            m.acceleration.y,
            (n - 1) as nat,
        );
    }
}

/// One more application of friction keeps the geometric decay.
proof fn lemma_decay_step(after: int, before: int, start: int, n: nat)
    requires
        after == decayed(before),
        decays(before, start, n),
    ensures
        decays(after, start, n + 1),
{
    reveal(pow);
    lemma_decayed(before);
    let a = magnitude(after);
    let b = magnitude(before);
    let s = magnitude(start);
    let p = pow(50, n);
    let q = pow(49, n);
    vstd::arithmetic::power::lemma_pow_positive(50, n);
    vstd::arithmetic::power::lemma_pow_positive(49, n);
    assert(pow(50, (n + 1) as nat) == 50 * p);
    assert(pow(49, (n + 1) as nat) == 49 * q);
    assert(50 * a >= 49 * b);
    assert(50 * (a - 49) <= 49 * (b - 49));
    assert((50 * p) * a >= (49 * q) * s) by (nonlinear_arith)
        requires
            50 * a >= 49 * b,
            p * b >= q * s,
            p > 0,
    ;
    assert((50 * p) * (a - 49) <= (49 * q) * (s - 49)) by (nonlinear_arith)
        requires
            50 * (a - 49) <= 49 * (b - 49),
            p * (b - 49) <= q * (s - 49),
            p > 0,
    ;
}

/// Each coordinate of `now` has come from that of `start` by at least
/// `n` millionths toward zero, or has come below 50 millionths.
pub open spec fn settles(now: Vector, start: Vector, n: nat) -> bool {
    &&& magnitude(now.x) <= magnitude(start.x)
    &&& magnitude(now.y) <= magnitude(start.y)
    &&& magnitude(now.x) < 50 || magnitude(now.x) <= magnitude(start.x) - n
    &&& magnitude(now.y) < 50 || magnitude(now.y) <= magnitude(start.y) - n
}

/// After the speed is capped at a non-negative `max_speed`, it is at most
/// `max_speed`; and a speed that was cut back is `max_speed` up to
/// rounding, short of it by less than one part in a million and two
/// millionths.
pub proof fn lemma_capped_speed(m: Motion, max_speed: int)
    requires
        m.is_finite(),
        0 <= max_speed,
    ensures
        m.capped(max_speed).velocity.norm_squared() <= max_speed * max_speed,
        m.capped(max_speed).is_finite(),
        m.exceeds(max_speed) ==> (m.capped(max_speed).velocity.norm_squared() + 4 * max_speed
            + 2) * (ONE as int * ONE as int) > (max_speed * max_speed) * ((ONE - 1) * (ONE - 1)),
{
    if m.exceeds(max_speed) {
        lemma_with_length_bound(m.velocity, max_speed);
        lemma_with_length_reaches(m.velocity, max_speed);
        lemma_saturated_shorter(m.velocity.with_length(max_speed));
    } else {
        assert(m.velocity.is_zero() ==> m.velocity.norm_squared() == 0);
        assert(0 <= max_speed * max_speed) by (nonlinear_arith);
    }
}

/// A body on the screen that moves less than the screen's size per step
/// is still on the screen after it is kept on screen and stepped.
pub proof fn lemma_wrap_keeps_on_screen(m: Motion, screen: Vector)
    requires
        screen.is_finite(),
        m.on_screen(screen),
        m.velocity.norm_squared() < screen.x * screen.x,
        m.velocity.norm_squared() < screen.y * screen.y,
    ensures
        m.kept_on_screen(screen).stepped().on_screen(screen),
{
    let v = m.velocity;
    assert(0 <= v.x * v.x && 0 <= v.y * v.y) by (nonlinear_arith);
    lemma_below_square(v.x, screen.x);
    lemma_below_square(v.y, screen.y);
}

/// Capping before wrapping keeps a body on the screen.
///
/// A body on the screen whose speed is capped below the screen's size,
/// and that is then kept on screen and stepped, is still on the screen.
pub proof fn lemma_frame_stays_on_screen(m: Motion, max_speed: int, screen: Vector)
    requires
        m.is_finite(),
        screen.is_finite(),
        m.on_screen(screen),
        0 <= max_speed < screen.x,
        max_speed < screen.y,
    ensures
        m.capped(max_speed).kept_on_screen(screen).stepped().on_screen(screen),
{
    lemma_capped_speed(m, max_speed);
    assert(max_speed * max_speed < screen.x * screen.x) by (nonlinear_arith)
        requires
            0 <= max_speed < screen.x,
    ;
    assert(max_speed * max_speed < screen.y * screen.y) by (nonlinear_arith)
        requires
            0 <= max_speed < screen.y,
    ;
    lemma_wrap_keeps_on_screen(m.capped(max_speed), screen);
}

/// A number whose square is below the square of a non-negative bound is
/// below the bound in magnitude.
proof fn lemma_below_square(a: int, bound: int)
    requires
        0 <= bound,
        a * a < bound * bound,
    ensures
        magnitude(a) < bound,
{
    let p = magnitude(a);
    assert(a * a == p * p) by (nonlinear_arith)
        requires
            p == magnitude(a),
    ;
    if p >= bound {
        assert(p * p >= bound * bound) by (nonlinear_arith)
            requires
                p >= bound,
                bound >= 0,
        ;
    }
}

/// Position, velocity and acceleration of one body.
#[derive(Clone, Copy, Debug, PartialEq, Eq, Structural)]
pub struct Kinematic {
    position: Vec2,
    velocity: Vec2,
    acceleration: Vec2,
}

impl View for Kinematic {
    type V = Motion;

    closed spec fn view(&self) -> Motion {
        Motion {
            position: self.position@,
            velocity: self.velocity@,
            acceleration: self.acceleration@,
        }
    }
}

/// Read access to the motion of anything that holds a [`Kinematic`].
pub trait KinematicGetters {
    /// The motion of this body.
    spec fn motion(&self) -> Motion;

    fn kinematic(&self) -> (k: &Kinematic)
        ensures
            k@ == self.motion(),
    ;

    fn position(&self) -> (p: Vec2)
        ensures
            p@ == self.motion().position,
    {
        self.kinematic().position
    }

    fn velocity(&self) -> (v: Vec2)
        ensures
            v@ == self.motion().velocity,
    {
        self.kinematic().velocity
    }

    /// The length of the velocity, rounded down.
    fn speed(&self) -> (s: i64)
        ensures
            s == self.motion().velocity.length(),
            0 <= s <= 2 * LIMIT,
    {
        self.kinematic().velocity.length()
    }

    fn acceleration(&self) -> (a: Vec2)
        ensures
            a@ == self.motion().acceleration,
    {
        self.kinematic().acceleration
    }
}

/// Write access to the motion of anything that holds a [`Kinematic`], and
/// with it the rules of motion.
pub trait KinematicMutators: KinematicGetters {
    /// Whether `other` differs from this body in its motion at most.
    spec fn same_besides_motion(&self, other: &Self) -> bool;

    fn kinematic_mut(&mut self) -> (k: &mut Kinematic)
        ensures
            k@ == old(self).motion(),
            final(self).motion() == final(k)@,
            old(self).same_besides_motion(final(self)),
    ;

    fn position_mut(&mut self) -> (p: &mut Vec2)
        ensures
            p@ == old(self).motion().position,
            final(self).motion() == (Motion { position: final(p)@, ..old(self).motion() }),
            old(self).same_besides_motion(final(self)),
    {
        &mut self.kinematic_mut().position
    }

    fn velocity_mut(&mut self) -> (v: &mut Vec2)
        ensures
            v@ == old(self).motion().velocity,
            final(self).motion() == (Motion { velocity: final(v)@, ..old(self).motion() }),
            old(self).same_besides_motion(final(self)),
    {
        &mut self.kinematic_mut().velocity
    }

    fn acceleration_mut(&mut self) -> (a: &mut Vec2)
        ensures
            a@ == old(self).motion().acceleration,
            final(self).motion() == (Motion { acceleration: final(a)@, ..old(self).motion() }),
            old(self).same_besides_motion(final(self)),
    {
        &mut self.kinematic_mut().acceleration
    }

    /// Cuts the speed back to `max_speed` if it is above it.
    fn cap_speed(&mut self, max_speed: i64)
        ensures
            final(self).motion() == old(self).motion().capped(max_speed as int),
            old(self).motion().is_finite(),
            final(self).motion().is_finite(),
            0 <= max_speed ==> final(self).motion().velocity.norm_squared() <= max_speed
                * max_speed,
            old(self).same_besides_motion(final(self)),
    {
        self.kinematic_mut().cap_speed(max_speed);
    }

    /// Moves the body to the opposite edge of the screen along each axis
    /// on which its next step would leave the screen.
    fn keep_on_screen(&mut self, screen: Vec2)
        ensures
            final(self).motion() == old(self).motion().kept_on_screen(screen@),
            old(self).motion().is_finite(),
            final(self).motion().is_finite(),
            old(self).same_besides_motion(final(self)),
    {
        self.kinematic_mut().keep_on_screen(screen);
    }

    /// Advances position and velocity by one step.
    fn step_motion(&mut self)
        ensures
            final(self).motion() == old(self).motion().stepped(),
            old(self).motion().is_finite(),
            final(self).motion().is_finite(),
            old(self).same_besides_motion(final(self)),
    {
        self.kinematic_mut().step_motion();
    }

    /// Lets friction act on velocity and acceleration.
    fn step_friction(&mut self)
        ensures
            final(self).motion() == old(self).motion().slowed(),
            old(self).motion().is_finite(),
            final(self).motion().is_finite(),
            old(self).same_besides_motion(final(self)),
    {
        self.kinematic_mut().step_friction();
    }

    /// Moves the acceleration one step toward `acceleration`.
    fn apply_acceleration(&mut self, acceleration: Vec2)
        ensures
            final(self).motion() == old(self).motion().accelerated(acceleration@),
            old(self).motion().is_finite(),
            final(self).motion().is_finite(),
            old(self).same_besides_motion(final(self)),
    {
        self.kinematic_mut().apply_acceleration(acceleration);
    }
}

impl Kinematic {
    pub fn new(position: Vec2, velocity: Vec2, acceleration: Vec2) -> (k: Kinematic)
        ensures
            k@ == (Motion {
                position: position@,
                velocity: velocity@,
                acceleration: acceleration@,
            }),
    {
        Kinematic { position, velocity, acceleration }
    }

}

impl KinematicGetters for Kinematic {
    open spec fn motion(&self) -> Motion {
        self@
    }

    fn kinematic(&self) -> (k: &Kinematic) {
        self
    }

    fn position(&self) -> (p: Vec2) {
        self.position
    }

    fn velocity(&self) -> (v: Vec2) {
        self.velocity
    }

    fn acceleration(&self) -> (a: Vec2) {
        self.acceleration
    }
}

impl KinematicMutators for Kinematic {
    open spec fn same_besides_motion(&self, other: &Self) -> bool {
        true
    }

    fn kinematic_mut(&mut self) -> (k: &mut Kinematic) {
        self
    }
}

impl Kinematic {
    /// Moves the acceleration one step of `ACCELERATION_RATE` toward
    /// `acceleration`.
    pub fn apply_acceleration(&mut self, acceleration: Vec2)
        ensures
            final(self)@ == old(self)@.accelerated(acceleration@),
            old(self)@.is_finite(),
            final(self)@.is_finite(),
    {
        proof {
            use_type_invariant(self.position);
            use_type_invariant(self.velocity);
            use_type_invariant(self.acceleration);
        }
        self.acceleration = self.acceleration.move_towards(acceleration, ACCELERATION_RATE);
    }

    /// Cuts the speed back to `max_speed` if it is above it. A body at
    /// rest stays at rest.
    pub fn cap_speed(&mut self, max_speed: i64)
        ensures
            final(self)@ == old(self)@.capped(max_speed as int),
            old(self)@.is_finite(),
            final(self)@.is_finite(),
            0 <= max_speed ==> final(self)@.velocity.norm_squared() <= max_speed * max_speed,
    {
        proof {
            use_type_invariant(self.position);
            use_type_invariant(self.velocity);
            use_type_invariant(self.acceleration);
            if 0 <= max_speed {
                lemma_capped_speed(self@, max_speed as int);
            }
        }
        let velocity: Vec2 = self.velocity;
        if velocity.x() == 0 && velocity.y() == 0 {
            return ;
        }
        let exceeds: bool = if max_speed < 0 {
            true
        } else {
            assert(0 <= max_speed as int * max_speed as int
                <= 0x4000_0000_0000_0000_0000_0000_0000_0000) by (nonlinear_arith)
                requires
                    0 <= max_speed as int <= 0x8000_0000_0000_0000,
            ;
            velocity.norm_squared() > (max_speed as u128) * (max_speed as u128)
        };
        if exceeds {
            self.velocity = velocity.with_length(max_speed);
        }
    }

    /// Looks one step ahead and, along each axis on which the body would
    /// leave a screen of the size `screen`, moves it to the opposite edge.
    pub fn keep_on_screen(&mut self, screen: Vec2)
        ensures
            final(self)@ == old(self)@.kept_on_screen(screen@),
            old(self)@.is_finite(),
            final(self)@.is_finite(),
    {
        proof {
            use_type_invariant(self.position);
            use_type_invariant(self.velocity);
            use_type_invariant(self.acceleration);
        }
        let next_x: i64 = self.position.x() + self.velocity.x();
        let next_y: i64 = self.position.y() + self.velocity.y();
        let mut x: i64 = self.position.x();
        let mut y: i64 = self.position.y();
        if next_x < 0 {
            x = screen.x();
        }
        if next_x > screen.x() {
            x = 0;
        }
        if next_y < 0 {
            y = screen.y();
        }
        if next_y > screen.y() {
            y = 0;
        }
        self.position = Vec2::new(x, y);
    }

    /// Advances the position by the velocity, then the velocity by the
    /// acceleration.
    pub fn step_motion(&mut self)
        ensures
            final(self)@ == old(self)@.stepped(),
            old(self)@.is_finite(),
            final(self)@.is_finite(),
    {
        proof {
            use_type_invariant(self.position);
            use_type_invariant(self.velocity);
            use_type_invariant(self.acceleration);
        }
        let next_position: Vec2 = self.position.plus(self.velocity);
        let next_velocity: Vec2 = self.velocity.plus(self.acceleration);
        self.position = next_position;
        self.velocity = next_velocity;
    }

    /// Takes the share `FRICTION` from velocity and acceleration.
    pub fn step_friction(&mut self)
        ensures
            final(self)@ == old(self)@.slowed(),
            old(self)@.is_finite(),
            final(self)@.is_finite(),
    {
        proof {
            use_type_invariant(self.position);
            use_type_invariant(self.velocity);
            use_type_invariant(self.acceleration);
            lemma_decayed(self@.velocity.x);
            lemma_decayed(self@.velocity.y);
            lemma_decayed(self@.acceleration.x);
            lemma_decayed(self@.acceleration.y);
        }
        self.acceleration = self.acceleration.plus(self.acceleration.scaled(-FRICTION));
        self.velocity = self.velocity.plus(self.velocity.scaled(-FRICTION));
    }
}

} // verus!
