//! Integer geometry in the logical coordinate space.

use vstd::prelude::*;

verus! {

/// The `i32` closest to `v`.
pub open spec fn saturate(v: int) -> i32 {
    if v < i32::MIN {
        i32::MIN
    } else if v > i32::MAX {
        i32::MAX
    } else {
        v as i32
    }
}

fn saturate_i64(v: i64) -> (r: i32)
    ensures
        r == saturate(v as int),
{
    if v < -2147483648 {
        i32::MIN
    } else if v > 2147483647 {
        i32::MAX
    } else {
        v as i32
    }
}

/// A position.
#[derive(Debug, Clone, Copy, PartialEq, Eq, Structural)]
pub struct Point {
    pub x: i32,
    pub y: i32,
}

/// An extent.
#[derive(Debug, Clone, Copy, PartialEq, Eq, Structural)]
pub struct Size {
    pub w: i32,
    pub h: i32,
}

/// An area: its upper left corner and its extent.
#[derive(Debug, Clone, Copy, PartialEq, Eq, Structural)]
pub struct Rectangle {
    pub loc: Point,
    pub size: Size,
}

impl Point {
    /// The coordinate-wise sum; a coordinate out of range ends at the nearest bound.
    pub open spec fn plus(self, other: Point) -> Point {
        Point { x: saturate(self.x + other.x), y: saturate(self.y + other.y) }
    }

    /// The coordinate-wise difference; a coordinate out of range ends at the nearest bound.
    pub open spec fn minus(self, other: Point) -> Point {
        Point { x: saturate(self.x - other.x), y: saturate(self.y - other.y) }
    }

    /// Adds two positions, saturating each coordinate.
    pub fn saturating_add(self, other: Point) -> (r: Point)
        ensures
            r == self.plus(other),
    {
        Point {
            x: saturate_i64(self.x as i64 + other.x as i64),
            y: saturate_i64(self.y as i64 + other.y as i64),
        }
    }

    /// Subtracts `other`, saturating each coordinate.
    pub fn saturating_sub(self, other: Point) -> (r: Point)
        ensures
            r == self.minus(other),
    {
        Point {
            x: saturate_i64(self.x as i64 - other.x as i64),
            y: saturate_i64(self.y as i64 - other.y as i64),
        }
    }
}

impl Rectangle {
    /// The same extent, moved by `offset`.
    pub open spec fn moved(self, offset: Point) -> Rectangle {
        Rectangle { loc: self.loc.plus(offset), size: self.size }
    }

    /// Moves the area by `offset`, saturating each coordinate.
    pub fn translate(self, offset: Point) -> (r: Rectangle)
        ensures
            r == self.moved(offset),
    {
        Rectangle { loc: self.loc.saturating_add(offset), size: self.size }
    }
}

/// How far apart two numbers are.
pub open spec fn distance(a: int, b: int) -> int {
    if a <= b {
        b - a
    } else {
        a - b
    }
}

/// A sum of positions is the position closest to the true sum, in each coordinate: no
/// other coordinate comes nearer. In particular it is the true sum where that is in range.
pub proof fn law_a_sum_is_the_closest_position(a: Point, b: Point, v: i32)
    ensures
        distance(a.plus(b).x as int, a.x + b.x) <= distance(v as int, a.x + b.x),
        distance(a.plus(b).y as int, a.y + b.y) <= distance(v as int, a.y + b.y),
        i32::MIN <= a.x + b.x <= i32::MAX ==> a.plus(b).x == a.x + b.x,
        i32::MIN <= a.y + b.y <= i32::MAX ==> a.plus(b).y == a.y + b.y,
{
}

/// A difference of positions is the position closest to the true difference, in each
/// coordinate. In particular it is the true difference where that is in range.
pub proof fn law_a_difference_is_the_closest_position(a: Point, b: Point, v: i32)
    ensures
        distance(a.minus(b).x as int, a.x - b.x) <= distance(v as int, a.x - b.x),
        distance(a.minus(b).y as int, a.y - b.y) <= distance(v as int, a.y - b.y),
        i32::MIN <= a.x - b.x <= i32::MAX ==> a.minus(b).x == a.x - b.x,
        i32::MIN <= a.y - b.y <= i32::MAX ==> a.minus(b).y == a.y - b.y,
{
}

/// An area that is moved keeps its extent, and its corner goes by the offset, as far as the
/// coordinates reach.
pub proof fn law_a_moved_area_keeps_its_extent(area: Rectangle, offset: Point, v: i32)
    ensures
        area.moved(offset).size.w == area.size.w,
        area.moved(offset).size.h == area.size.h,
        distance(area.moved(offset).loc.x as int, area.loc.x + offset.x) <= distance(
            v as int,
            area.loc.x + offset.x,
        ),
        distance(area.moved(offset).loc.y as int, area.loc.y + offset.y) <= distance(
            v as int,
            area.loc.y + offset.y,
        ),
{
}

/// Taking an offset away again gives the position back, where the sum was in range.
pub proof fn law_a_difference_undoes_a_sum(a: Point, b: Point)
    requires
        i32::MIN <= a.x + b.x <= i32::MAX,
        i32::MIN <= a.y + b.y <= i32::MAX,
    ensures
        a.plus(b).minus(b) == a,
{
}

} // verus!
