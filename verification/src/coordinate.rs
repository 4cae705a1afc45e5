use crate::direction::Direction;
use vstd::prelude::*;
use vstd::std_specs::convert::FromSpecImpl;
use vstd::std_specs::ops::{AddSpecImpl, MulSpecImpl, SubSpecImpl};

verus! {

/// A cell position, or a displacement between two cells. Values may lie
/// outside any grid: they are range-checked before they index one.
#[derive(Debug, Copy, Clone, PartialEq, Eq, Structural)]
pub struct Coordinate {
    pub x: i32,
    pub y: i32,
}

/// `v` is representable as an `i32`.
pub open spec fn fits_i32(v: int) -> bool {
    i32::MIN <= v <= i32::MAX
}

impl Coordinate {
    /// The unit step in `dir`.
    pub open spec fn unit(dir: Direction) -> Coordinate {
        Coordinate { x: dir.dx() as i32, y: dir.dy() as i32 }
    }

    /// Subtracts `other` in place.
    pub fn sub_assign(&mut self, other: Coordinate)
        requires
            fits_i32(old(self).x - other.x),
            fits_i32(old(self).y - other.y),
        ensures
            final(self).x == old(self).x - other.x,
            final(self).y == old(self).y - other.y,
    {
        self.x = self.x - other.x;
        self.y = self.y - other.y;
    }
}

impl core::ops::Add for Coordinate {
    type Output = Coordinate;

    fn add(self, other: Coordinate) -> (sum: Coordinate) {
        Coordinate { x: self.x + other.x, y: self.y + other.y }
    }
}

impl AddSpecImpl for Coordinate {
    open spec fn obeys_add_spec() -> bool {
        true
    }

    open spec fn add_req(self, other: Coordinate) -> bool {
        fits_i32(self.x + other.x) && fits_i32(self.y + other.y)
    }

    open spec fn add_spec(self, other: Coordinate) -> Coordinate {
        Coordinate { x: (self.x + other.x) as i32, y: (self.y + other.y) as i32 }
    }
}

impl core::ops::Sub for Coordinate {
    type Output = Coordinate;

    fn sub(self, other: Coordinate) -> (difference: Coordinate) {
        Coordinate { x: self.x - other.x, y: self.y - other.y }
    }
}

impl SubSpecImpl for Coordinate {
    open spec fn obeys_sub_spec() -> bool {
        true
    }

    open spec fn sub_req(self, other: Coordinate) -> bool {
        fits_i32(self.x - other.x) && fits_i32(self.y - other.y)
    }

    open spec fn sub_spec(self, other: Coordinate) -> Coordinate {
        Coordinate { x: (self.x - other.x) as i32, y: (self.y - other.y) as i32 }
    }
}

impl core::ops::Mul<i32> for Coordinate {
    type Output = Coordinate;

    fn mul(self, factor: i32) -> (product: Coordinate) {
        let x = self.x * factor;
        let y = self.y * factor;
        Coordinate { x, y }
    }
}

impl MulSpecImpl<i32> for Coordinate {
    open spec fn obeys_mul_spec() -> bool {
        true
    }

    open spec fn mul_req(self, factor: i32) -> bool {
        fits_i32(self.x * factor) && fits_i32(self.y * factor)
    }

    open spec fn mul_spec(self, factor: i32) -> Coordinate {
        Coordinate { x: (self.x * factor) as i32, y: (self.y * factor) as i32 }
    }
}

impl From<Direction> for Coordinate {
    fn from(dir: Direction) -> (step: Coordinate) {
        match dir {
            Direction::Up => Coordinate { x: 0, y: -1 },
            Direction::Down => Coordinate { x: 0, y: 1 },
            Direction::Right => Coordinate { x: 1, y: 0 },
            Direction::Left => Coordinate { x: -1, y: 0 },
        }
    }
}

impl FromSpecImpl<Direction> for Coordinate {
    open spec fn obeys_from_spec() -> bool {
        true
    }

    open spec fn from_spec(dir: Direction) -> Coordinate {
        Coordinate::unit(dir)
    }
}

} // verus!
