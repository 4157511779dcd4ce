//! The viewer: a position in the world and the direction it faces.
//!
//! Positions and directions are 16.16 fixed point: the integer `ONE` stands
//! for one world unit, and a grid cell is 100 units wide.

use vstd::prelude::*;

verus! {

/// The fixed-point representation of 1.
pub const ONE: i32 = 65536;

/// World units per grid cell.
pub const CELL_UNITS: i64 = 100;

/// Brings a component into `[-ONE, ONE]`.
pub open spec fn clamp_unit(v: int) -> int {
    if v < -(ONE as int) {
        -(ONE as int)
    } else if v > ONE as int {
        ONE as int
    } else {
        v
    }
}

/// A direction in the plane: the cosine and the sine of an angle in fixed
/// point, each within `[-ONE, ONE]`.
#[derive(Clone, Copy, Debug)]
pub struct Direction {
    cos: i32,
    sin: i32,
}

impl Direction {
    #[verifier::type_invariant]
    spec fn inv(self) -> bool {
        &&& -(ONE as int) <= self.cos <= ONE as int
        &&& -(ONE as int) <= self.sin <= ONE as int
    }

    /// The component along the x axis.
    pub closed spec fn dx(self) -> int {
        self.cos as int
    }

    /// The component along the y axis.
    pub closed spec fn dy(self) -> int {
        self.sin as int
    }

    /// Both components lie within `[-ONE, ONE]`.
    pub open spec fn bounded(self) -> bool {
        &&& -(ONE as int) <= self.dx() <= ONE as int
        &&& -(ONE as int) <= self.dy() <= ONE as int
    }

    /// The direction with the given components; a component outside
    /// `[-ONE, ONE]` is brought to the nearer end.
    pub fn new(cos: i32, sin: i32) -> (d: Self)
        ensures
            d.dx() == clamp_unit(cos as int),
            d.dy() == clamp_unit(sin as int),
            d.bounded(),
    {
        let c = if cos < -ONE {
            -ONE
        } else if cos > ONE {
            ONE
        } else {
            cos
        };
        let s = if sin < -ONE {
            -ONE
        } else if sin > ONE {
            ONE
        } else {
            sin
        };
        Direction { cos: c, sin: s }
    }

    /// The x component.
    pub fn cos(&self) -> (c: i32)
        ensures
            c == self.dx(),
            self.bounded(),
    {
        proof {
            use_type_invariant(self);
        }
        self.cos
    }

    /// The y component.
    pub fn sin(&self) -> (s: i32)
        ensures
            s == self.dy(),
            self.bounded(),
    {
        proof {
            use_type_invariant(self);
        }
        self.sin
    }
}

/// Where the viewer stands and which way it looks.
#[derive(Clone, Copy, Debug)]
pub struct Player {
    /// Position along x, in fixed-point world units.
    pub x: i64,
    /// Position along y, in fixed-point world units.
    pub y: i64,
    /// The direction of the centre of the view.
    pub heading: Direction,
}

} // verus!
