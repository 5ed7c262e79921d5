//! The simulation's parameters: the arena and physics constants, fixed for a
//! run, and the gravity vector, which may change between ticks.
use vstd::prelude::*;
use crate::arith::{COORD_LIMIT, PPM};

verus! {

/// Parameters of a run. Lengths are in the caller's length unit; the four
/// fractions are in parts per million.
#[derive(Clone, Copy, Debug, PartialEq, Eq, Structural)]
pub struct Config {
    /// Arena extent along x.
    pub width: u32,
    /// Arena extent along y.
    pub height: u32,
    /// Upper bound on the radius of a randomly created ball.
    pub max_radius: i64,
    /// Upper bound on the velocity components of a randomly created ball.
    pub max_velocity: i64,
    /// Population size used when none is given.
    pub ball_count: usize,
    /// Fraction of velocity lost to drag on every tick, below one.
    pub air_resistance: u32,
    /// Fraction of velocity lost on a wall bounce.
    pub damping_wall: u32,
    /// Fraction of velocity lost on a ball-to-ball collision.
    pub damping_ball: u32,
    /// Contact tolerance `t`. Detection counts two balls as touching when the
    /// squared centre distance times `1 + t` is at most the squared sum of
    /// the radii, so a larger `t` makes detection stricter. Resolution
    /// separates balls that are closer than the sum of the radii times `1 + t`,
    /// so there a larger `t` widens the contact distance.
    pub collision_tolerance: u32,
}

impl Config {
    /// The arena fits the coordinate range and every fraction is in range.
    pub open spec fn is_valid(&self) -> bool {
        &&& 0 < self.width <= COORD_LIMIT
        &&& 0 < self.height <= COORD_LIMIT
        &&& self.air_resistance < PPM
        &&& self.damping_wall <= PPM
        &&& self.damping_ball <= PPM
        &&& self.collision_tolerance <= PPM
    }

    /// Random construction can place a ball of any allowed radius inside the arena.
    pub open spec fn can_spawn(&self) -> bool {
        &&& self.is_valid()
        &&& 5 < self.max_radius
        &&& 2 * self.max_radius < self.width
        &&& 2 * self.max_radius < self.height
        &&& 0 < self.max_velocity <= COORD_LIMIT
    }
}

/// The gravity vector, added to the velocity of every ball that stayed inside
/// the arena during a tick.
#[derive(Clone, Copy, Debug, PartialEq, Eq, Structural)]
pub struct Gravity {
    pub x: i64,
    pub y: i64,
}

impl Gravity {
    pub open spec fn is_valid(&self) -> bool {
        &&& -COORD_LIMIT <= self.x <= COORD_LIMIT
        &&& -COORD_LIMIT <= self.y <= COORD_LIMIT
    }

    /// No gravity.
    pub fn zero() -> (r: Gravity)
        ensures
            r.x == 0 && r.y == 0,
    {
        Gravity { x: 0, y: 0 }
    }
}

} // verus!
