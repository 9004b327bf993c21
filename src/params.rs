use vstd::prelude::*;
use crate::vector::Vec2;

verus! {

/// Largest world width or height, in position units.
pub const MAX_COORD: i64 = 0x100_0000_0000;

/// Largest speed, in position units per second.
pub const MAX_SPEED: i64 = 0x10_0000;

/// Largest perception or separation radius, in position units.
pub const MAX_RADIUS: i64 = 0x400_0000_0000;

/// Largest steering weight, per second.
pub const MAX_WEIGHT: i64 = 0x1_0000;

/// Largest elapsed time of one tick, in milliseconds.
pub const MAX_ELAPSED_MS: i64 = 0x100_0000;

/// The simulated rectangle `[0, width] x [0, height]`.
#[derive(Clone, Copy, PartialEq, Eq, Structural, Debug)]
pub struct Bounds {
    pub width: i64,
    pub height: i64,
}

impl Bounds {
    pub open spec fn wf(&self) -> bool {
        0 < self.width <= MAX_COORD && 0 < self.height <= MAX_COORD
    }

    pub open spec fn contains(&self, p: Vec2) -> bool {
        0 <= p.x <= self.width && 0 <= p.y <= self.height
    }
}

/// The externally tuned configuration read by every tick.
#[derive(Clone, Copy, PartialEq, Eq, Structural, Debug)]
pub struct Factors {
    /// Units per second.
    pub speed: i64,
    pub perception_radius: i64,
    pub separation_radius: i64,
    /// Weights are per second: a weight `w` over `dt` seconds adds `w * dt`
    /// unit headings to the current heading before renormalisation.
    pub cohesion_weight: i64,
    pub alignment_weight: i64,
    pub separation_weight: i64,
    /// When false, headings are never changed.
    pub flocking_enabled: bool,
    pub goal_position: Option<Vec2>,
    pub goal_weight: i64,
}

pub open spec fn clamp(v: int, lo: int, hi: int) -> int {
    if v < lo { lo } else if v > hi { hi } else { v }
}

pub open spec fn clamp_point(p: Vec2, b: Bounds) -> Vec2 {
    Vec2 { x: clamp(p.x as int, 0, b.width as int) as i64, y: clamp(p.y as int, 0, b.height as int) as i64 }
}

impl Factors {
    /// Every value within its representable range and the goal inside the world.
    pub open spec fn valid(&self, b: Bounds) -> bool {
        &&& 0 <= self.speed <= MAX_SPEED
        &&& 0 <= self.perception_radius <= MAX_RADIUS
        &&& 0 <= self.separation_radius <= MAX_RADIUS
        &&& 0 <= self.cohesion_weight <= MAX_WEIGHT
        &&& 0 <= self.alignment_weight <= MAX_WEIGHT
        &&& 0 <= self.separation_weight <= MAX_WEIGHT
        &&& 0 <= self.goal_weight <= MAX_WEIGHT
        &&& (self.goal_position matches Some(g) ==> b.contains(g))
    }

    /// What steering needs: weights within range and a goal within the largest world.
    pub open spec fn steering_ok(&self) -> bool {
        &&& 0 <= self.cohesion_weight <= MAX_WEIGHT
        &&& 0 <= self.alignment_weight <= MAX_WEIGHT
        &&& 0 <= self.separation_weight <= MAX_WEIGHT
        &&& 0 <= self.goal_weight <= MAX_WEIGHT
        &&& (self.goal_position matches Some(g) ==> 0 <= g.x <= MAX_COORD && 0 <= g.y <= MAX_COORD)
    }

    pub open spec fn clamped_spec(&self, b: Bounds) -> Factors {
        Factors {
            speed: clamp(self.speed as int, 0, MAX_SPEED as int) as i64,
            perception_radius: clamp(self.perception_radius as int, 0, MAX_RADIUS as int) as i64,
            separation_radius: clamp(self.separation_radius as int, 0, MAX_RADIUS as int) as i64,
            cohesion_weight: clamp(self.cohesion_weight as int, 0, MAX_WEIGHT as int) as i64,
            alignment_weight: clamp(self.alignment_weight as int, 0, MAX_WEIGHT as int) as i64,
            separation_weight: clamp(self.separation_weight as int, 0, MAX_WEIGHT as int) as i64,
            flocking_enabled: self.flocking_enabled,
            goal_position: match self.goal_position {
                Some(g) => Some(clamp_point(g, b)),
                None => None,
            },
            goal_weight: clamp(self.goal_weight as int, 0, MAX_WEIGHT as int) as i64,
        }
    }

    /// The nearest valid parameter set: negative values become zero, values
    /// beyond their range become its maximum, and a goal outside the world
    /// moves to the nearest point inside it. The radii are not reordered.
    pub fn clamped(&self, b: Bounds) -> (r: Factors)
        requires
            b.wf(),
        ensures
            r == self.clamped_spec(b),
            r.valid(b),
            self.valid(b) ==> r == *self,
    {
        Factors {
            speed: clamp_i64(self.speed, 0, MAX_SPEED),
            perception_radius: clamp_i64(self.perception_radius, 0, MAX_RADIUS),
            separation_radius: clamp_i64(self.separation_radius, 0, MAX_RADIUS),
            cohesion_weight: clamp_i64(self.cohesion_weight, 0, MAX_WEIGHT),
            alignment_weight: clamp_i64(self.alignment_weight, 0, MAX_WEIGHT),
            separation_weight: clamp_i64(self.separation_weight, 0, MAX_WEIGHT),
            flocking_enabled: self.flocking_enabled,
            goal_position: match self.goal_position {
                Some(g) => Some(
                    Vec2 { x: clamp_i64(g.x, 0, b.width), y: clamp_i64(g.y, 0, b.height) },
                ),
                None => None,
            },
            goal_weight: clamp_i64(self.goal_weight, 0, MAX_WEIGHT),
        }
    }
}

impl Default for Factors {
    /// A moderate flock: speed and radii in position units, no goal.
    fn default() -> (r: Factors)
        ensures
            r == (Factors {
                speed: 100,
                perception_radius: 100,
                separation_radius: 30,
                cohesion_weight: 10,
                alignment_weight: 20,
                separation_weight: 30,
                flocking_enabled: true,
                goal_position: None,
                goal_weight: 40,
            }),
    {
        Factors {
            speed: 100,
            perception_radius: 100,
            separation_radius: 30,
            cohesion_weight: 10,
            alignment_weight: 20,
            separation_weight: 30,
            flocking_enabled: true,
            goal_position: None,
            goal_weight: 40,
        }
    }
}

pub fn clamp_i64(v: i64, lo: i64, hi: i64) -> (r: i64)
    requires
        lo <= hi,
    ensures
        r == clamp(v as int, lo as int, hi as int),
{
    if v < lo {
        lo
    } else if v > hi {
        hi
    } else {
        v
    }
}

/// Elapsed time in milliseconds, clamped to `[0, MAX_ELAPSED_MS]`.
pub open spec fn elapsed_spec(ms: i64) -> i64 {
    clamp(ms as int, 0, MAX_ELAPSED_MS as int) as i64
}

} // verus!
