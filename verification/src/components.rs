//! Per-agent state: position, velocity, and acceleration, each a 2D vector
//! of fixed-point world units.

use vstd::prelude::*;

verus! {

/// A 2D vector with integer (fixed-point) coordinates.
#[derive(Clone, Copy, PartialEq, Eq, Structural, Debug)]
pub struct Vec2 {
    pub x: i64,
    pub y: i64,
}

impl Vec2 {
    /// Squared Euclidean length.
    pub open spec fn norm2(self) -> int {
        self.x * self.x + self.y * self.y
    }

    pub fn new(x: i64, y: i64) -> (r: Vec2)
        ensures
            r == (Vec2 { x, y }),
    {
        Vec2 { x, y }
    }

    pub fn zero() -> (r: Vec2)
        ensures
            r == (Vec2 { x: 0i64, y: 0i64 }),
    {
        Vec2 { x: 0, y: 0 }
    }
}

/// Squared Euclidean distance between two points, on raw (unwrapped)
/// coordinates: neighbors across the world seam are measured far apart,
/// which is the simulation's documented topology approximation.
pub open spec fn dist2(p: Vec2, q: Vec2) -> int {
    (q.x - p.x) * (q.x - p.x) + (q.y - p.y) * (q.y - p.y)
}

/// An agent's position; each coordinate lies in `[0, world dimension)`
/// between frames.
#[derive(Clone, Copy, PartialEq, Eq, Structural, Debug)]
pub struct Pos(pub Vec2);

/// An agent's velocity; its magnitude is at most the speed limit between
/// frames.
#[derive(Clone, Copy, PartialEq, Eq, Structural, Debug)]
pub struct Vel(pub Vec2);

/// An agent's acceleration; fully overwritten by each flocking pass, never
/// accumulated across frames.
#[derive(Clone, Copy, PartialEq, Eq, Structural, Debug)]
pub struct Acc(pub Vec2);

} // verus!
