//! The player's ship: a triangle that turns and thrusts on input.

use vstd::prelude::*;
use crate::angle::{direction, polar, polar_vec2, rotation, RotationMatrix, TAU};
use crate::fixed::{divide, quotient, remainder, remaining, saturating};
use crate::kinematic::{
    lemma_frame_stays_on_screen, Kinematic, KinematicGetters, KinematicMutators, Motion,
};
use crate::polygon::values;
use crate::vector::{Mat2, Vec2, Vector};

verus! {

/// The mathematical value of a [`Player`].
pub struct PlayerState {
    pub motion: Motion,
    pub has_collided: bool,
    pub lives: nat,
    pub orientation: int,
}

/// The middle of a screen of the size `screen`.
pub open spec fn origin(screen: Vector) -> Vector {
    Vector { x: quotient(screen.x, 2), y: quotient(screen.y, 2) }
}

/// The corners of the ship when it lies at the origin and faces up the
/// y axis; the first is its nose.
pub open spec fn ship() -> Seq<Vector> {
    seq![
        Vector { x: 0, y: Player::SIZE as int },
        Vector { x: -8_000_000, y: -5_000_000 },
        Vector { x: 8_000_000, y: -5_000_000 },
    ]
}

/// The angle `orientation` after the turns asked for, kept within one
/// turn of zero.
pub open spec fn turned(orientation: int, left: bool, right: bool) -> int {
    let after_left = if left {
        orientation - Player::ROTATION_DELTA
    } else {
        orientation
    };
    let after_right = if right {
        after_left + Player::ROTATION_DELTA
    } else {
        after_left
    };
    remainder(after_right, TAU as int)
}

impl PlayerState {
    /// The ship at rest in the middle of the screen, facing along the
    /// x axis, with three lives.
    pub open spec fn initial(screen: Vector) -> PlayerState {
        PlayerState {
            motion: Motion {
                position: origin(screen),
                velocity: Vector { x: 0, y: 0 },
                acceleration: Vector { x: 0, y: 0 },
            },
            has_collided: false,
            lives: 3,
            orientation: 0,
        }
    }

    /// Where the corner `corner` of the ship lies.
    pub open spec fn place(self, corner: Vector) -> Vector {
        rotation(self.orientation).apply(corner).saturated().plus(
            self.motion.position,
        ).saturated()
    }

    /// The corners of the ship, nose first.
    pub open spec fn outline(self) -> Seq<Vector> {
        Seq::new(3, |i: int| self.place(ship()[i]))
    }

    /// The ship after the input of one frame: turned left or right, and,
    /// under thrust, its acceleration moved toward `THRUST` along the way
    /// it then faces.
    pub open spec fn steered(self, left: bool, right: bool, up: bool) -> PlayerState {
        let orientation = turned(self.orientation, left, right);
        PlayerState {
            orientation: orientation,
            motion: if up {
                self.motion.accelerated(polar(Player::THRUST as int, orientation).saturated())
            } else {
                self.motion
            },
            ..self
        }
    }

    /// The ship one frame later on a screen of the size `screen`.
    pub open spec fn stepped(self, screen: Vector) -> PlayerState {
        PlayerState {
            motion: self.motion.capped(Player::MAX_SPEED as int).kept_on_screen(
                screen,
            ).stepped().slowed(),
            ..self
        }
    }
}

/// The ship's nose points the way its thrust pushes: it lies `SIZE` from
/// the ship's position in the direction of its orientation.
pub proof fn lemma_nose_points_forward(player: PlayerState)
    ensures
        rotation(player.orientation).apply(ship()[0]) == polar(
            Player::SIZE as int,
            player.orientation,
        ),
        player.outline()[0] == polar(Player::SIZE as int, player.orientation).saturated().plus(
            player.motion.position,
        ).saturated(),
{
    let d = direction(player.orientation);
    let size = Player::SIZE as int;
    assert((-d.y) * 0 + d.x * size == d.x * size) by (nonlinear_arith);
    assert(d.x * 0 + d.y * size == d.y * size) by (nonlinear_arith);
}

/// The middle of a screen of the size `screen_dimensions`.
pub fn screen_origin(screen_dimensions: Vec2) -> (middle: Vec2)
    ensures
        middle@ == origin(screen_dimensions@),
{
    proof {
        crate::fixed::lemma_quotient_bounds(screen_dimensions@.x, 2);
        crate::fixed::lemma_quotient_bounds(screen_dimensions@.y, 2);
    }
    Vec2::new(
        saturating(divide(screen_dimensions.x() as i128, 2)),
        saturating(divide(screen_dimensions.y() as i128, 2)),
    )
}

/// The player's ship.
#[derive(Clone, Copy, Debug, PartialEq, Eq, Structural)]
pub struct Player {
    kinematic: Kinematic,
    has_collided: bool,
    lives: usize,
    orientation: i64,
}

impl View for Player {
    type V = PlayerState;

    closed spec fn view(&self) -> PlayerState {
        PlayerState {
            motion: self.kinematic@,
            has_collided: self.has_collided,
            lives: self.lives as nat,
            orientation: self.orientation as int,
        }
    }
}

impl Player {
    pub const SIZE: i64 = 20_000_000;

    /// The angle of one turn, in radians.
    pub const ROTATION_DELTA: i64 = 100_000;

    pub const THRUST: i64 = 200_000;

    pub const MAX_SPEED: i64 = 40_000_000;

    /// A ship at rest in the middle of a screen of the size `screen`.
    pub fn default(screen: Vec2) -> (player: Player)
        ensures
            player@ == PlayerState::initial(screen@),
    {
        Player {
            kinematic: Kinematic::new(screen_origin(screen), Vec2::zero(), Vec2::zero()),
            lives: 3,
            orientation: 0,
            has_collided: false,
        }
    }

    pub fn has_collided(&self) -> (r: bool)
        ensures
            r == self@.has_collided,
    {
        self.has_collided
    }

    /// The angle the ship faces.
    pub fn orientation(&self) -> (orientation: i64)
        ensures
            orientation == self@.orientation,
    {
        self.orientation
    }

    /// The lives the ship has left.
    pub fn lives(&self) -> (lives: usize)
        ensures
            lives == self@.lives,
    {
        self.lives
    }

    /// The corners of the ship when it lies at the origin and faces up
    /// the y axis, nose first.
    pub fn unit_vertices() -> (corners: [Vec2; 3])
        ensures
            values(corners@) == ship(),
    {
        let corners: [Vec2; 3] = [
            Vec2::new(0, Self::SIZE),
            Vec2::new(-8_000_000, -5_000_000),
            Vec2::new(8_000_000, -5_000_000),
        ];
        assert(values(corners@) =~= ship());
        corners
    }

    /// The corners of the ship, nose first: those of the ship at the
    /// origin, turned by the orientation and moved to the position.
    pub fn vertices(&self) -> (corners: [Vec2; 3])
        ensures
            values(corners@) == self@.outline(),
    {
        let rotation: Mat2 = self.orientation.rotation_matrix();
        let position: Vec2 = self.kinematic.position();
        let unit: [Vec2; 3] = Self::unit_vertices();
        let corners: [Vec2; 3] = [
            rotation.mul_vec2(unit[0]).plus(position),
            rotation.mul_vec2(unit[1]).plus(position),
            rotation.mul_vec2(unit[2]).plus(position),
        ];
        proof {
            let shape = values(unit@);
            assert(shape[0] == unit@[0]@ && shape[1] == unit@[1]@ && shape[2] == unit@[2]@);
            assert(values(corners@) =~= self@.outline());
        }
        corners
    }

    /// The nose of the ship. It lies `SIZE` from the ship's position, the
    /// way the ship faces.
    pub fn front_vertex(&self) -> (nose: Vec2)
        ensures
            nose@ == self@.outline()[0],
            nose@ == polar(Self::SIZE as int, self@.orientation).saturated().plus(
                self@.motion.position,
            ).saturated(),
    {
        proof {
            lemma_nose_points_forward(self@);
        }
        let rotation: Mat2 = self.orientation.rotation_matrix();
        let position: Vec2 = self.kinematic.position();
        rotation.mul_vec2(Vec2::new(0, Self::SIZE)).plus(position)
    }

    /// Marks the ship as struck.
    pub fn destroy(&mut self)
        ensures
            final(self)@ == (PlayerState { has_collided: true, ..old(self)@ }),
    {
        self.has_collided = true;
    }

    /// Takes the input of one frame: `left` and `right` turn the ship by
    /// `ROTATION_DELTA` each, `up` thrusts along the way it then faces.
    pub fn handle_input(&mut self, left: bool, right: bool, up: bool)
        ensures
            final(self)@ == old(self)@.steered(left, right, up),
    {
        let mut angle: i128 = self.orientation as i128;
        if left {
            angle = angle - Self::ROTATION_DELTA as i128;
        }
        if right {
            angle = angle + Self::ROTATION_DELTA as i128;
        }
        self.orientation = remaining(angle, TAU as i128) as i64;
        if up {
            let thrust: Vec2 = polar_vec2(Self::THRUST, self.orientation);
            self.apply_acceleration(thrust)
        }
    }

    /// Moves the ship one frame on, on a screen of the size `screen`:
    /// caps its speed, keeps it on screen, moves it and lets friction act.
    /// On a screen wider and higher than `MAX_SPEED`, a ship that is on
    /// the screen stays on it.
    pub fn step(&mut self, screen: Vec2)
        ensures
            final(self)@ == old(self)@.stepped(screen@),
            old(self)@.motion.is_finite(),
            final(self)@.motion.is_finite(),
            old(self)@.motion.on_screen(screen@) && Self::MAX_SPEED < screen@.x && Self::MAX_SPEED
                < screen@.y ==> final(self)@.motion.on_screen(screen@),
    {
        self.cap_speed(Self::MAX_SPEED);
        self.keep_on_screen(screen);
        self.step_motion();
        self.step_friction();
        proof {
            use_type_invariant(screen);
            if old(self)@.motion.on_screen(screen@) && Self::MAX_SPEED < screen@.x
                && Self::MAX_SPEED < screen@.y {
                lemma_frame_stays_on_screen(
                    old(self)@.motion,
                    Self::MAX_SPEED as int,
                    screen@,
                );
            }
        }
    }
}

impl KinematicGetters for Player {
    open spec fn motion(&self) -> Motion {
        self@.motion
    }

    fn kinematic(&self) -> (k: &Kinematic) {
        &self.kinematic
    }
}

impl KinematicMutators for Player {
    open spec fn same_besides_motion(&self, other: &Self) -> bool {
        other@ == (PlayerState { motion: other@.motion, ..self@ })
    }

    fn kinematic_mut(&mut self) -> (k: &mut Kinematic) {
        &mut self.kinematic
    }
}

} // verus!
