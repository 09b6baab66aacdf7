//! Splicing a subdivided curve segment back into its contour.
//!
//! Segment `s` of a contour runs from point `s - 1` to point `s`; segment
//! `len` of a closed contour wraps from the last point to point 0. Splitting
//! it at some parameter yields new handles for its two endpoints and a new
//! anchor point between them: a `Split`. The arithmetic of the split itself
//! is done by the caller.

use crate::model::{Contour, Handle, Point, is_closed};
use vstd::prelude::*;

verus! {

/// A segment split in two: the first endpoint's new outgoing handle, the new
/// anchor point, and the second endpoint's new incoming handle.
#[derive(Clone, Copy, Debug, PartialEq)]
pub struct Split<C> {
    pub first_a: Handle<C>,
    pub point: Point<C>,
    pub second_b: Handle<C>,
}

/// Segment `s` exists in `pts`: it joins two points of an open or closed
/// contour, or wraps around a closed one.
pub open spec fn valid_segment<C>(pts: Seq<Point<C>>, s: int) -> bool {
    &&& pts.len() >= 2
    &&& 1 <= s <= pts.len()
    &&& s == pts.len() ==> is_closed(pts)
}

/// The index of the second endpoint of segment `s`.
pub open spec fn second_index(len: int, s: int) -> int {
    if s == len {
        0
    } else {
        s
    }
}

/// The points of `pts` after splicing `sp` into segment `s`: the first
/// endpoint takes the new outgoing handle, the second the new incoming
/// handle, and the new point stands between them (at the end, where the
/// segment wraps).
pub open spec fn spliced<C>(pts: Seq<Point<C>>, s: int, sp: Split<C>) -> Seq<Point<C>> {
    let f = s - 1;
    let g = second_index(pts.len() as int, s);
    let first = Point { a: sp.first_a, ..pts[f] };
    let second = Point { b: sp.second_b, ..pts[g] };
    let updated = pts.update(f, first).update(g, second);
    if s == pts.len() {
        updated.push(sp.point)
    } else {
        updated.insert(s, sp.point)
    }
}

/// The two endpoints of segment `seg_idx`, in segment order.
pub fn segment_endpoints<C: Copy, O>(contour: &Contour<C, O>, seg_idx: usize) -> (r: (
    Point<C>,
    Point<C>,
))
    requires
        valid_segment(contour.points@, seg_idx as int),
    ensures
        r.0 == contour.points@[seg_idx - 1],
        r.1 == contour.points@[second_index(contour.points@.len() as int, seg_idx as int)],
{
    let first = contour.points[seg_idx - 1];
    let second = if seg_idx == contour.points.len() {
        contour.points[0]
    } else {
        contour.points[seg_idx]
    };
    (first, second)
}

/// Inserts a new point into segment `seg_idx`: the two endpoints are taken
/// out of the contour, given the split's handles, and put back with the new
/// point between them. Where the split could not be made (`None`, a
/// degenerate segment) the contour is left as it is.
pub fn insert_split<C: Copy, O>(contour: &mut Contour<C, O>, seg_idx: usize, split: Option<Split<C>>)
    requires
        valid_segment(old(contour).points@, seg_idx as int),
    ensures
        final(contour).operation == old(contour).operation,
        split.is_none() ==> final(contour).points@ == old(contour).points@,
        split.is_some() ==> final(contour).points@ == spliced(
            old(contour).points@,
            seg_idx as int,
            split.unwrap(),
        ),
{
    if let Some(sp) = split {
        let ghost pts = contour.points@;
        let mut first = contour.points.remove(seg_idx - 1);
        let wraps = seg_idx - 1 == contour.points.len();
        let mut second = if wraps {
            contour.points.remove(0)
        } else {
            contour.points.remove(seg_idx - 1)
        };
        first.a = sp.first_a;
        second.b = sp.second_b;
        if wraps {
            contour.points.insert(0, second);
            contour.points.push(first);
            contour.points.push(sp.point);
        } else {
            contour.points.insert(seg_idx - 1, second);
            contour.points.insert(seg_idx - 1, sp.point);
            contour.points.insert(seg_idx - 1, first);
        }
        proof {
            assert(contour.points@ =~= spliced(pts, seg_idx as int, sp));
        }
    }
}

} // verus!
