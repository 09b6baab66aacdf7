//! Points, handles and contours of a glyph outline.
//!
//! Coordinates are a type parameter `C`: the algorithms of this crate move
//! points and handles around but never compute with their coordinates.

use vstd::prelude::*;

verus! {

/// The kind of segment that ends at a point. A contour whose first point is
/// a `Move` is open; any other contour is closed.
#[derive(Clone, Copy, Debug, PartialEq, Eq, Structural)]
pub enum PointType {
    Undefined,
    Move,
    Curve,
    QCurve,
    QClose,
    Line,
    OffCurve,
}

/// A bezier control handle attached to a point.
#[derive(Clone, Copy, Debug, PartialEq)]
pub enum Handle<C> {
    /// The handle coincides with its point.
    Colocated,
    /// The handle stands at an explicit position.
    At(C, C),
}

/// An anchor point with its outgoing handle `a` and incoming handle `b`.
#[derive(Clone, Copy, Debug, PartialEq)]
pub struct Point<C> {
    pub x: C,
    pub y: C,
    pub a: Handle<C>,
    pub b: Handle<C>,
    pub ptype: PointType,
}

/// An ordered list of points, with the procedural operation attached to it.
#[derive(Clone, Debug, PartialEq)]
pub struct Contour<C, O> {
    pub points: Vec<Point<C>>,
    pub operation: Option<O>,
}

/// `p` with its type replaced by `t`.
pub open spec fn with_type<C>(p: Point<C>, t: PointType) -> Point<C> {
    Point { ptype: t, ..p }
}

/// A non-empty point list whose first point is not a `Move` is closed: a
/// segment joins its last point back to its first.
pub open spec fn is_closed<C>(pts: Seq<Point<C>>) -> bool {
    pts.len() > 0 && pts[0].ptype != PointType::Move
}

/// A non-empty point list whose first point is a `Move` is open.
pub open spec fn is_open<C>(pts: Seq<Point<C>>) -> bool {
    pts.len() > 0 && pts[0].ptype == PointType::Move
}

/// The point at `(x, y)` of type `t` with both handles colocated.
pub open spec fn point_at<C>(x: C, y: C, t: PointType) -> Point<C> {
    Point { x, y, a: Handle::Colocated, b: Handle::Colocated, ptype: t }
}

impl<C: Copy> Point<C> {
    /// A point at `(x, y)` of type `ptype`, both handles colocated.
    pub fn from_x_y_type(x: C, y: C, ptype: PointType) -> (r: Point<C>)
        ensures
            r == point_at(x, y, ptype),
    {
        Point { x, y, a: Handle::Colocated, b: Handle::Colocated, ptype }
    }
}

} // verus!
