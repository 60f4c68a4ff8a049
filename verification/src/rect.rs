//! An axis-aligned rectangle over grid coordinates, used by the level
//! builders to place and connect rooms.

use vstd::prelude::*;

use crate::components::Position;

verus! {

/// A rectangle spanning columns x1..=x2 and rows y1..=y2 of the grid; the
/// carved interior of a room excludes its x1 column and y1 row.
#[derive(PartialEq, Eq, Structural, Copy, Clone, Debug)]
pub struct Rect {
    pub x1: i32,
    pub y1: i32,
    pub x2: i32,
    pub y2: i32,
}

impl Rect {
    /// Build a rectangle from a corner and a width and height.
    pub fn with_size(x: i32, y: i32, w: i32, h: i32) -> (r: Rect)
        requires
            i32::MIN <= x + w <= i32::MAX,
            i32::MIN <= y + h <= i32::MAX,
        ensures
            r.x1 == x,
            r.y1 == y,
            r.x2 == x + w,
            r.y2 == y + h,
    {
        Rect { x1: x, y1: y, x2: x + w, y2: y + h }
    }

    pub open spec fn spec_intersect(self, other: Rect) -> bool {
        &&& self.x1 <= other.x2
        &&& self.x2 >= other.x1
        &&& self.y1 <= other.y2
        &&& self.y2 >= other.y1
    }

    /// True iff this rectangle overlaps (or touches) the other.
    pub fn intersect(&self, other: &Rect) -> (r: bool)
        ensures
            r == self.spec_intersect(*other),
    {
        self.x1 <= other.x2 && self.x2 >= other.x1 && self.y1 <= other.y2 && self.y2 >= other.y1
    }

    pub open spec fn spec_center(self) -> Position {
        Position { x: ((self.x1 + self.x2) / 2) as i32, y: ((self.y1 + self.y2) / 2) as i32 }
    }

    /// The centre cell of the rectangle.
    pub fn center(&self) -> (c: Position)
        requires
            0 <= self.x1,
            0 <= self.y1,
            self.x1 + self.x2 <= i32::MAX,
            self.y1 + self.y2 <= i32::MAX,
            0 <= self.x2,
            0 <= self.y2,
        ensures
            c == self.spec_center(),
    {
        Position { x: (self.x1 + self.x2) / 2, y: (self.y1 + self.y2) / 2 }
    }

    /// The width of the rectangle.
    pub fn width(&self) -> (w: i32)
        requires
            i32::MIN < self.x2 - self.x1 <= i32::MAX,
        ensures
            w == if self.x2 >= self.x1 {
                self.x2 - self.x1
            } else {
                self.x1 - self.x2
            },
    {
        if self.x2 >= self.x1 {
            self.x2 - self.x1
        } else {
            self.x1 - self.x2
        }
    }

    /// The height of the rectangle.
    pub fn height(&self) -> (h: i32)
        requires
            i32::MIN < self.y2 - self.y1 <= i32::MAX,
        ensures
            h == if self.y2 >= self.y1 {
                self.y2 - self.y1
            } else {
                self.y1 - self.y2
            },
    {
        if self.y2 >= self.y1 {
            self.y2 - self.y1
        } else {
            self.y1 - self.y2
        }
    }
}

} // verus!
