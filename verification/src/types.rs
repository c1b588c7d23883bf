//! Identifiers and grid positions shared by the whole library.

use vstd::prelude::*;

verus! {

/// Identifies an economic agent. The library never creates or retires agents;
/// it only refers to them.
#[derive(Clone, Copy, Debug, PartialEq, Eq, Structural, PartialOrd, Ord, Hash)]
pub struct SoulID(pub u64);

/// Identifies a kind of commodity.
#[derive(Clone, Copy, Debug, PartialEq, Eq, Structural, PartialOrd, Ord, Hash)]
pub struct ItemID(pub u64);

/// Identifies a building.
#[derive(Clone, Copy, Debug, PartialEq, Eq, Structural, PartialOrd, Ord, Hash)]
pub struct BuildingID(pub u64);

/// A position on the integer grid on which orders are anchored.
#[derive(Clone, Copy, Debug, PartialEq, Eq, Structural, Hash)]
pub struct Vec2 {
    pub x: i32,
    pub y: i32,
}

/// Squared Euclidean distance between two grid points.
pub open spec fn dist2(a: Vec2, b: Vec2) -> int {
    (a.x - b.x) * (a.x - b.x) + (a.y - b.y) * (a.y - b.y)
}

impl Vec2 {
    /// The origin.
    pub fn zero() -> (p: Vec2)
        ensures
            p == (Vec2 { x: 0, y: 0 }),
    {
        Vec2 { x: 0, y: 0 }
    }

    /// The unit step along the first axis.
    pub fn unit_x() -> (p: Vec2)
        ensures
            p == (Vec2 { x: 1, y: 0 }),
    {
        Vec2 { x: 1, y: 0 }
    }

    /// The unit step along the second axis.
    pub fn unit_y() -> (p: Vec2)
        ensures
            p == (Vec2 { x: 0, y: 1 }),
    {
        Vec2 { x: 0, y: 1 }
    }

    /// Squared Euclidean distance from `self` to `rhs`. The result is exact:
    /// it never wraps, whatever the coordinates.
    pub fn distance2(self, rhs: Vec2) -> (d: u128)
        ensures
            d == dist2(self, rhs),
    {
        let dx: i128 = self.x as i128 - rhs.x as i128;
        let dy: i128 = self.y as i128 - rhs.y as i128;
        assert(0 <= dx * dx <= 0x1_0000_0000_0000_0000) by (nonlinear_arith)
            requires
                -0x1_0000_0000 <= dx <= 0x1_0000_0000,
        ;
        assert(0 <= dy * dy <= 0x1_0000_0000_0000_0000) by (nonlinear_arith)
            requires
                -0x1_0000_0000 <= dy <= 0x1_0000_0000,
        ;
        let d: i128 = dx * dx + dy * dy;
        d as u128
    }
}

/// The grid point with the given coordinates.
pub fn vec2(x: i32, y: i32) -> (p: Vec2)
    ensures
        p == (Vec2 { x, y }),
{
    Vec2 { x, y }
}

} // verus!
