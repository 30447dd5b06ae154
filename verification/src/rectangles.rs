//! Axis-aligned integer rectangles with inclusive corners: the
//! document-position identity that retrieval matching compares.

use vstd::prelude::*;

verus! {

/// A point on the page; a coordinate is `None` until it has been assigned.
#[derive(Debug, Clone, Copy)]
pub struct Point {
    pub x: Option<u32>,
    pub y: Option<u32>,
}

impl Point {
    /// A point with both coordinates still unassigned.
    pub fn new() -> (p: Point)
        ensures
            p.x is None,
            p.y is None,
    {
        Point { x: None, y: None }
    }

    /// The x coordinate; the point must have been assigned one.
    pub fn get_x(&self) -> (r: u32)
        requires
            self.x is Some,
        ensures
            r == self.x->0,
    {
        match self.x {
            Some(v) => v,
            None => unreached(),
        }
    }

    /// The y coordinate; the point must have been assigned one.
    pub fn get_y(&self) -> (r: u32)
        requires
            self.y is Some,
        ensures
            r == self.y->0,
    {
        match self.y {
            Some(v) => v,
            None => unreached(),
        }
    }
}

/// An axis-aligned rectangle given by its minimum and maximum corners,
/// both inclusive: a rectangle whose corners coincide has width 1.
#[derive(Debug, Clone, Copy)]
pub struct Rectangle {
    pub min: Point,
    pub max: Point,
}

/// Both corners of the rectangle have been fully assigned.
pub open spec fn rect_complete(r: Rectangle) -> bool {
    r.min.x is Some && r.min.y is Some && r.max.x is Some && r.max.y is Some
}

/// A fully assigned rectangle whose corners are ordered and whose inclusive
/// extents fit in `u32`.
pub open spec fn rect_wf(r: Rectangle) -> bool {
    &&& rect_complete(r)
    &&& r.min.x->0 <= r.max.x->0
    &&& r.min.y->0 <= r.max.y->0
    &&& r.max.x->0 - r.min.x->0 < u32::MAX
    &&& r.max.y->0 - r.min.y->0 < u32::MAX
}

/// The inclusive width of a fully assigned rectangle.
pub open spec fn spec_width(r: Rectangle) -> int {
    r.max.x->0 - r.min.x->0 + 1
}

/// The inclusive height of a fully assigned rectangle.
pub open spec fn spec_height(r: Rectangle) -> int {
    r.max.y->0 - r.min.y->0 + 1
}

impl Rectangle {
    /// A rectangle with all four coordinates unassigned.
    pub fn new() -> (r: Rectangle)
        ensures
            r.min.x is None,
            r.min.y is None,
            r.max.x is None,
            r.max.y is None,
    {
        Rectangle { min: Point::new(), max: Point::new() }
    }

    /// The number of columns the rectangle covers, both corners included.
    pub fn width(&self) -> (w: u32)
        requires
            rect_wf(*self),
        ensures
            w == spec_width(*self),
            w >= 1,
    {
        self.max.get_x() - self.min.get_x() + 1
    }

    /// The number of rows the rectangle covers, both corners included.
    pub fn height(&self) -> (h: u32)
        requires
            rect_wf(*self),
        ensures
            h == spec_height(*self),
            h >= 1,
    {
        self.max.get_y() - self.min.get_y() + 1
    }

    /// The area covered, in cells.
    pub fn area(&self) -> (a: u32)
        requires
            rect_wf(*self),
            spec_width(*self) * spec_height(*self) <= u32::MAX,
        ensures
            a == spec_width(*self) * spec_height(*self),
    {
        self.width() * self.height()
    }

    /// Whether the maximum corner lies strictly beyond the minimum corner
    /// on both axes.
    pub fn is_ok(&self) -> (b: bool)
        requires
            rect_complete(*self),
        ensures
            b == (self.max.x->0 > self.min.x->0 && self.max.y->0 > self.min.y->0),
    {
        self.max.get_x() > self.min.get_x() && self.max.get_y() > self.min.get_y()
    }

    /// Assign the minimum corner. If the maximum corner is already assigned,
    /// it must lie strictly beyond the new minimum on both axes.
    pub fn set_min(&mut self, x: u32, y: u32)
        requires
            old(self).max.x is Some && old(self).max.y is Some ==> old(self).max.x->0 > x
                && old(self).max.y->0 > y,
        ensures
            final(self).min.x == Some(x),
            final(self).min.y == Some(y),
            final(self).max == old(self).max,
    {
        self.min.x = Some(x);
        self.min.y = Some(y);
    }

    /// Assign the maximum corner. If the minimum corner is already assigned,
    /// the new maximum must lie strictly beyond it on both axes.
    pub fn set_max(&mut self, x: u32, y: u32)
        requires
            old(self).min.x is Some && old(self).min.y is Some ==> old(self).min.x->0 < x
                && old(self).min.y->0 < y,
        ensures
            final(self).max.x == Some(x),
            final(self).max.y == Some(y),
            final(self).min == old(self).min,
    {
        self.max.x = Some(x);
        self.max.y = Some(y);
    }

    /// Assign the maximum corner from the minimum corner and an inclusive
    /// size; both extents must be at least 1 and must not run past `u32`.
    pub fn set_size(&mut self, w: u32, h: u32)
        requires
            old(self).min.x is Some,
            old(self).min.y is Some,
            w >= 1,
            h >= 1,
            old(self).min.x->0 + w - 1 <= u32::MAX,
            old(self).min.y->0 + h - 1 <= u32::MAX,
        ensures
            final(self).min == old(self).min,
            final(self).max.x == Some((old(self).min.x->0 + w - 1) as u32),
            final(self).max.y == Some((old(self).min.y->0 + h - 1) as u32),
            rect_wf(*final(self)),
            spec_width(*final(self)) == w,
            spec_height(*final(self)) == h,
    {
        self.max.x = Some(self.min.get_x() + (w - 1));
        self.max.y = Some(self.min.get_y() + (h - 1));
    }
}

} // verus!
