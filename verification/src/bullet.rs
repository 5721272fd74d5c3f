//! Bullets: points that leave the ship's nose the way it faces and
//! disappear after a fixed number of frames.

use vstd::prelude::*;
use crate::angle::{polar, polar_vec2};
use crate::kinematic::{
    lemma_wrap_keeps_on_screen, Kinematic, KinematicGetters, KinematicMutators, Motion,
};
use crate::player::Player;
use crate::vector::{Vec2, Vector};

verus! {

/// The mathematical value of a [`Bullet`].
pub struct BulletState {
    pub motion: Motion,
    pub frames_left: nat,
    pub has_collided: bool,
}

impl BulletState {
    /// Out of frames.
    pub open spec fn is_too_old(self) -> bool {
        self.frames_left == 0
    }

    /// Neither spent on an asteroid nor out of frames.
    pub open spec fn is_alive(self) -> bool {
        !self.has_collided && self.frames_left > 0
    }

    /// The bullet after it is marked as spent.
    pub open spec fn struck(self) -> BulletState {
        BulletState { has_collided: true, ..self }
    }

    /// The bullet one frame later on a screen of the size `screen`: kept
    /// on screen, then moved, and one frame older; its count of frames
    /// stops at zero.
    pub open spec fn stepped(self, screen: Vector) -> BulletState {
        BulletState {
            motion: self.motion.kept_on_screen(screen).stepped(),
            frames_left: if self.frames_left > 0 {
                (self.frames_left - 1) as nat
            } else {
                0
            },
            has_collided: self.has_collided,
        }
    }

    /// The bullet `n` frames later.
    pub open spec fn stepped_times(self, screen: Vector, n: nat) -> BulletState
        decreases n,
    {
        if n == 0 {
            self
        } else {
            self.stepped_times(screen, (n - 1) as nat).stepped(screen)
        }
    }

    /// The bullet that a ship fires: from its nose `nose`, along its
    /// orientation, as much faster than `SPEED` as the ship moves.
    pub open spec fn fired(nose: Vector, speed: int, orientation: int) -> BulletState {
        BulletState {
            motion: Motion {
                position: nose,
                velocity: polar(Bullet::SPEED + speed, orientation).saturated(),
                acceleration: Vector { x: 0, y: 0 },
            },
            frames_left: Bullet::FRAMES_ALIVE as nat,
            has_collided: false,
        }
    }
}

/// A bullet lives exactly as many frames as it is given.
///
/// A bullet with `frames_left` frames that strikes nothing is alive after
/// `n` steps if and only if `n` is less than `frames_left`: it is alive
/// through every earlier step, not alive after step `frames_left`, and
/// never alive again after that. After `n` steps it has `frames_left - n`
/// frames, or none.
pub proof fn lemma_bullet_expiry(bullet: BulletState, screen: Vector, n: nat)
    ensures
        bullet.stepped_times(screen, n).has_collided == bullet.has_collided,
        bullet.stepped_times(screen, n).frames_left == if n < bullet.frames_left {
            (bullet.frames_left - n) as nat
        } else {
            0
        },
        !bullet.has_collided ==> (bullet.stepped_times(screen, n).is_alive() <==> n
            < bullet.frames_left),
    decreases n,
{
    if n > 0 {
        lemma_bullet_expiry(bullet, screen, (n - 1) as nat);
    }
}

/// A bullet.
#[derive(Clone, Copy, Debug, PartialEq, Eq, Structural)]
pub struct Bullet {
    kinematic: Kinematic,
    frames_left: usize,
    has_collided: bool,
}

impl View for Bullet {
    type V = BulletState;

    closed spec fn view(&self) -> BulletState {
        BulletState {
            motion: self.kinematic@,
            frames_left: self.frames_left as nat,
            has_collided: self.has_collided,
        }
    }
}

impl Bullet {
    pub const SIZE: i64 = 2_000_000;

    pub const SPEED: i64 = 10_000_000;

    pub const FRAMES_ALIVE: usize = 60;

    /// A bullet at `position` that moves at `velocity` and has
    /// `frames_left` frames to live.
    pub fn new(position: Vec2, velocity: Vec2, frames_left: usize) -> (bullet: Bullet)
        ensures
            bullet@ == (BulletState {
                motion: Motion {
                    position: position@,
                    velocity: velocity@,
                    acceleration: Vector { x: 0, y: 0 },
                },
                frames_left: frames_left as nat,
                has_collided: false,
            }),
    {
        Bullet {
            kinematic: Kinematic::new(position, velocity, Vec2::zero()),
            frames_left,
            has_collided: false,
        }
    }

    /// No bullets.
    pub fn many_new() -> (bullets: Vec<Bullet>)
        ensures
            bullets@.len() == 0,
    {
        Vec::new()
    }

    /// The bullet that `player` fires.
    pub fn from(player: &Player) -> (bullet: Bullet)
        ensures
            bullet@ == BulletState::fired(
                player@.outline()[0],
                player@.motion.velocity.length(),
                player@.orientation,
            ),
    {
        let player_front: Vec2 = player.front_vertex();
        let velocity: Vec2 = polar_vec2(Self::SPEED + player.speed(), player.orientation());
        Bullet {
            kinematic: Kinematic::new(player_front, velocity, Vec2::zero()),
            frames_left: Self::FRAMES_ALIVE,
            has_collided: false,
        }
    }

    /// The frames the bullet has left.
    pub fn frames_left(&self) -> (frames: usize)
        ensures
            frames == self@.frames_left,
    {
        self.frames_left
    }

    pub fn is_too_old(&self) -> (r: bool)
        ensures
            r == self@.is_too_old(),
    {
        self.frames_left == 0
    }

    pub fn has_collided(&self) -> (r: bool)
        ensures
            r == self@.has_collided,
    {
        self.has_collided
    }

    pub fn is_alive(&self) -> (r: bool)
        ensures
            r == self@.is_alive(),
    {
        !self.has_collided && self.frames_left > 0
    }

    /// Marks the bullet as spent.
    pub fn set_collided(&mut self)
        ensures
            final(self)@ == old(self)@.struck(),
    {
        self.has_collided = true;
    }

    /// Moves the bullet one frame on, on a screen of the size `screen`:
    /// keeps it on screen, moves it and ages it by one frame. A bullet on
    /// the screen that moves less than the screen's size per frame stays
    /// on the screen.
    pub fn step(&mut self, screen: Vec2)
        ensures
            final(self)@ == old(self)@.stepped(screen@),
            old(self)@.motion.is_finite(),
            final(self)@.motion.is_finite(),
            old(self)@.motion.on_screen(screen@) && old(self)@.motion.velocity.norm_squared()
                < screen@.x * screen@.x && old(self)@.motion.velocity.norm_squared() < screen@.y
                * screen@.y ==> final(self)@.motion.on_screen(screen@),
    {
        self.keep_on_screen(screen);
        self.step_motion();
        self.frames_left = self.frames_left.saturating_sub(1);
        proof {
            use_type_invariant(screen);
            if old(self)@.motion.on_screen(screen@) && old(self)@.motion.velocity.norm_squared()
                < screen@.x * screen@.x && old(self)@.motion.velocity.norm_squared() < screen@.y
                * screen@.y {
                lemma_wrap_keeps_on_screen(old(self)@.motion, screen@);
            }
        }
    }
}

impl KinematicGetters for Bullet {
    open spec fn motion(&self) -> Motion {
        self@.motion
    }

    fn kinematic(&self) -> (k: &Kinematic) {
        &self.kinematic
    }
}

impl KinematicMutators for Bullet {
    open spec fn same_besides_motion(&self, other: &Self) -> bool {
        other@ == (BulletState { motion: other@.motion, ..self@ })
    }

    fn kinematic_mut(&mut self) -> (k: &mut Kinematic) {
        &mut self.kinematic
    }
}

} // verus!
