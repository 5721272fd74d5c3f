//! A deterministic asteroid field on a wrap-around screen: fixed-point
//! kinematics, an even-odd point-in-polygon test, and the per-frame
//! protocol that spawns, splits, expires and culls its bodies.
//!
//! Every quantity is a fixed-point integer (see [`fixed`]), so a frame is
//! the same on every machine and each rule of motion is stated exactly.

use vstd::prelude::*;

pub mod angle;
pub mod asteroid;
pub mod bullet;
pub mod collision;
pub mod fixed;
pub mod kinematic;
pub mod player;
pub mod polygon;
pub mod random;
pub mod vector;

pub use crate::angle::{direction_of, polar_vec2, RotationMatrix, EIGHTH, QUARTER, TAU};
pub use crate::asteroid::{Asteroid, Size, FRAC_SQRT3_2};
pub use crate::bullet::Bullet;
pub use crate::collision::{
    collision_pass, collision_pass_at_speeds, detect, merge_and_cull, resolve, step_all,
};
pub use crate::fixed::{LIMIT, ONE};
pub use crate::kinematic::{Kinematic, KinematicGetters, KinematicMutators};
pub use crate::player::{screen_origin, Player};
pub use crate::polygon::is_point_in_polygon;
pub use crate::random::random_in_range;
pub use crate::vector::{Mat2, Vec2};

verus! {

/// The width of the game's window, in whole pixels.
pub const SCREEN_WIDTH: usize = 800;

/// The height of the game's window, in whole pixels.
pub const SCREEN_HEIGHT: usize = 800;

} // verus!
