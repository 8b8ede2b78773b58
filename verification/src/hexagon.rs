//! Axis-aligned rectangles and the parity test of the hexagonal grid.

use vstd::prelude::*;
use crate::physics::{Point, COORD_LIMIT};

verus! {

/// A rectangle given by its centre and its size.
#[derive(Clone, Copy, PartialEq, Eq, Structural, Debug)]
pub struct Rectangle {
    pub position: Point,
    pub size: Point,
}

impl Rectangle {
    /// The least `x` of the rectangle.
    pub open spec fn left(self) -> int {
        self.position.x - self.size.x / 2
    }

    /// The bound that every `x` of the rectangle stays under.
    pub open spec fn right(self) -> int {
        self.position.x + self.size.x / 2
    }

    /// The least `y` of the rectangle.
    pub open spec fn bottom(self) -> int {
        self.position.y - self.size.y / 2
    }

    /// The bound that every `y` of the rectangle stays under.
    pub open spec fn top(self) -> int {
        self.position.y + self.size.y / 2
    }

    /// The rectangle holds at least one point and lies within the coordinate limit.
    pub open spec fn wf(self) -> bool {
        &&& self.size.x >= 2
        &&& self.size.y >= 2
        &&& -COORD_LIMIT <= self.left()
        &&& self.right() <= COORD_LIMIT
        &&& -COORD_LIMIT <= self.bottom()
        &&& self.top() <= COORD_LIMIT
    }

    /// Whether `point` lies in the rectangle; the right and top edges are outside.
    pub open spec fn contains(self, point: Point) -> bool {
        &&& self.left() <= point.x < self.right()
        &&& self.bottom() <= point.y < self.top()
    }

    /// Whether the rectangle is usable, decided at run time.
    pub fn is_wf(&self) -> (ok: bool)
        ensures
            ok == self.wf(),
    {
        if self.size.x < 2 || self.size.y < 2 {
            return false;
        }
        let half_x: i64 = self.size.x / 2;
        let half_y: i64 = self.size.y / 2;
        if self.position.x < -COORD_LIMIT || self.position.x > COORD_LIMIT {
            return false;
        }
        if self.position.y < -COORD_LIMIT || self.position.y > COORD_LIMIT {
            return false;
        }
        if half_x > COORD_LIMIT || half_y > COORD_LIMIT {
            return false;
        }
        self.position.x - half_x >= -COORD_LIMIT && self.position.x + half_x <= COORD_LIMIT
            && self.position.y - half_y >= -COORD_LIMIT && self.position.y + half_y
            <= COORD_LIMIT
    }
}

/// Whether `value` is a multiple of two; a negative value counts like its magnitude.
pub fn is_even(value: i32) -> (even: bool)
    ensures
        even == (value as int % 2 == 0),
{
    value % 2 == 0
}

} // verus!
