//! The grid coordinate type shared by every component of the core.
//!
//! A `GridLocation` is a pair of signed integers; it is the only position
//! representation game logic ever uses. No floating point participates in
//! the logic — continuous rendered positions live in the camera module as
//! fixed-point values.

use vstd::prelude::*;

verus! {

/// An integer lattice position `(x, y)`.
#[derive(Clone, Copy, PartialEq, Eq, Structural, Hash, Debug)]
pub struct GridLocation(pub i32, pub i32);

impl GridLocation {
    /// Component-wise addition of two coordinates.
    pub fn add(self, rhs: GridLocation) -> (r: GridLocation)
        requires
            i32::MIN <= self.0 + rhs.0 <= i32::MAX,
            i32::MIN <= self.1 + rhs.1 <= i32::MAX,
        ensures
            r.0 == self.0 + rhs.0,
            r.1 == self.1 + rhs.1,
    {
        GridLocation(self.0 + rhs.0, self.1 + rhs.1)
    }
}

/// The designated player-spawn coordinate.
pub open spec fn spawn_coord() -> GridLocation {
    GridLocation(2i32, -2i32)
}

/// The coordinate where the player spawns; the terrain generator never
/// places a wall here.
pub fn player_start() -> (r: GridLocation)
    ensures
        r == spawn_coord(),
{
    GridLocation(2, -2)
}

} // verus!
