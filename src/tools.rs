//! Editing tools and the decisions they make on mouse input.
//!
//! Hit-testing against the canvas is the caller's work: a tool is handed what
//! was under the pointer, as indices into the outline.

use crate::editor::Editor;
use crate::merge::{refs_valid, remap_pair, shift_index};
use crate::model::{Contour, Handle, Point, PointType, point_at};
use crate::subdivide::{Split, insert_split, spliced, valid_segment};
use vstd::prelude::*;

verus! {

/// The tools of the editor.
#[derive(Debug, Clone, Copy, PartialEq, Eq, Structural)]
pub enum ToolEnum {
    Pan,
    Pen,
    Select,
    Zoom,
    Measure,
    VWS,
}

/// What the mouse did.
#[derive(Debug, Clone, Copy, PartialEq, Eq, Structural)]
pub enum MouseEventType {
    Pressed,
    DoubleClick,
    Released,
    Moved,
}

/// The pen tool: draws contours point by point, inserts points on curves and
/// joins open contours.
#[derive(Debug, Clone, Copy, PartialEq, Eq, Structural)]
pub struct Pen {}

/// The pattern-along-path tool: attaches a pattern operation to a contour.
#[derive(Debug, Clone, Copy, PartialEq, Eq, Structural)]
pub struct PAP {}

/// The zoom tool.
#[derive(Debug, Clone, Copy, PartialEq, Eq, Structural)]
pub struct Zoom {}

/// The pan tool: remembers where the drag that moves the view last was.
#[derive(Debug, Clone, Copy, PartialEq)]
pub struct Pan<C> {
    pub last_position: Option<(C, C)>,
}

/// A tool with its state.
#[derive(Debug, Clone, Copy, PartialEq)]
pub enum Tool<C> {
    Pan(Pan<C>),
    Pen(Pen),
    Select,
    Zoom(Zoom),
    Measure,
}

/// A fresh tool of kind `tool`. Variable-width stroking has no tool of its
/// own yet and pans.
pub fn tool_enum_to_tool<C>(tool: ToolEnum) -> (r: Tool<C>)
    ensures
        r == (match tool {
            ToolEnum::Pan => Tool::Pan(Pan::<C> { last_position: None }),
            ToolEnum::Pen => Tool::Pen(Pen {}),
            ToolEnum::Select => Tool::Select,
            ToolEnum::Zoom => Tool::Zoom(Zoom {}),
            ToolEnum::Measure => Tool::Measure,
            ToolEnum::VWS => Tool::Pan(Pan::<C> { last_position: None }),
        }),
{
    match tool {
        ToolEnum::Pan => Tool::Pan(Pan::new()),
        ToolEnum::Pen => Tool::Pen(Pen::new()),
        ToolEnum::Select => Tool::Select,
        ToolEnum::Zoom => Tool::Zoom(Zoom::new()),
        ToolEnum::Measure => Tool::Measure,
        ToolEnum::VWS => Tool::Pan(Pan::new()),
    }
}

impl<C> Pan<C> {
    pub fn new() -> (r: Self)
        ensures
            r.last_position.is_none(),
    {
        Pan { last_position: None }
    }

    /// A press starts a drag at `position`.
    pub fn mouse_pressed(&mut self, position: (C, C))
        ensures
            final(self).last_position == Some(position),
    {
        self.last_position = Some(position);
    }

    /// A release ends the drag.
    pub fn mouse_released(&mut self)
        ensures
            final(self).last_position.is_none(),
    {
        self.last_position = None;
    }
}

impl Zoom {
    pub fn new() -> (r: Self)
        ensures
            r == (Zoom {}),
    {
        Zoom {}
    }
}

/// Point `pi` is the last point of contour `ci`.
pub open spec fn is_end<C, O>(o: Seq<Contour<C, O>>, ci: int, pi: int) -> bool {
    0 <= ci < o.len() && o[ci].points@.len() > 0 && pi == o[ci].points@.len() - 1
}

/// Whether the press joins the active contour's end to the start of the
/// clicked contour: both are open, the active point ends its contour and the
/// clicked point starts another one.
pub open spec fn press_merges<C, O>(e: Editor<C, O>, clicked: Option<(usize, usize)>) -> bool {
    &&& e.contour_idx.is_some()
    &&& e.point_idx.is_some()
    &&& clicked.is_some()
    &&& ({
        let c = e.contour_idx.unwrap() as int;
        let p = e.point_idx.unwrap() as int;
        let t = clicked.unwrap().0 as int;
        &&& t != c
        &&& t < e.outline@.len()
        &&& is_end(e.outline@, c, p)
        &&& clicked.unwrap().1 == 0
        &&& e.outline@[t].points@.len() > 0
        &&& e.outline@[c].points@[0].ptype == PointType::Move
        &&& e.outline@[t].points@[0].ptype == PointType::Move
    })
}

/// Whether the press continues the active contour from its last point.
pub open spec fn press_extends<C, O>(e: Editor<C, O>) -> bool {
    &&& e.contour_idx.is_some()
    &&& e.point_idx.is_some()
    &&& is_end(e.outline@, e.contour_idx.unwrap() as int, e.point_idx.unwrap() as int)
}

/// The references that a press relies on are in range.
pub open spec fn press_inputs_valid<C, O>(
    e: Editor<C, O>,
    clicked: Option<(usize, usize)>,
    on_curve: Option<(usize, usize, Option<Split<C>>)>,
) -> bool {
    &&& refs_valid(e)
    &&& clicked.is_some() ==> clicked.unwrap().0 < e.outline@.len()
    &&& on_curve.is_some() ==> ({
        let (ci, s, _sp) = on_curve.unwrap();
        ci < e.outline@.len() && valid_segment(e.outline@[ci as int].points@, s as int)
    })
}

/// Pushes `p` onto contour `ci`.
fn push_point<C: Copy, O>(outline: &mut Vec<Contour<C, O>>, ci: usize, p: Point<C>)
    requires
        ci < old(outline)@.len(),
    ensures
        final(outline)@.len() == old(outline)@.len(),
        forall|i: int|
            0 <= i < final(outline)@.len() && i != ci ==> #[trigger] final(outline)@[i] == old(
                outline,
            )@[i],
        final(outline)@[ci as int].points@ == old(outline)@[ci as int].points@.push(p),
        final(outline)@[ci as int].operation == old(outline)@[ci as int].operation,
{
    let mut c = outline.remove(ci);
    c.points.push(p);
    outline.insert(ci, c);
    assert forall|i: int|
        0 <= i < outline@.len() && i != ci implies #[trigger] outline@[i] == old(outline)@[i] by {}
}

impl Pen {
    pub fn new() -> (r: Self)
        ensures
            r == (Pen {}),
    {
        Pen {}
    }

    /// Whether a press on `clicked` joins the active contour to the clicked
    /// one (see `press_merges`).
    pub fn joins_contours<C, O>(&self, v: &Editor<C, O>, clicked: Option<(usize, usize)>) -> (r:
        bool)
        requires
            refs_valid(*v),
            clicked.is_some() ==> clicked.unwrap().0 < v.outline@.len(),
        ensures
            r == press_merges(*v, clicked),
    {
        if let (Some(c), Some(p), Some((t, tp))) = (v.contour_idx, v.point_idx, clicked) {
            let n = v.outline[c].points.len();
            t != c && n > 0 && p == n - 1 && tp == 0 && v.outline[t].points.len() > 0
                && v.outline[c].points[0].ptype == PointType::Move && v.outline[t].points[0].ptype
                == PointType::Move
        } else {
            false
        }
    }

    /// The point to highlight while hovering `hovered`: the start of the
    /// contour that a press there would join to the active one.
    pub fn merge_preview<C: Copy, O>(&self, v: &Editor<C, O>, hovered: Option<(usize, usize)>) -> (r:
        Option<Point<C>>)
        requires
            refs_valid(*v),
            hovered.is_some() ==> hovered.unwrap().0 < v.outline@.len(),
        ensures
            press_merges(*v, hovered) ==> r == Some(v.outline@[hovered.unwrap().0 as int].points@[0]),
            !press_merges(*v, hovered) ==> r.is_none(),
    {
        if self.joins_contours(v, hovered) {
            let t = hovered.unwrap().0;
            Some(v.outline[t].points[0])
        } else {
            None
        }
    }

    /// Handles a press at `pos`. `clicked` is the point under the pointer, if
    /// any; `on_curve` the segment of a contour under the pointer, if any,
    /// with the split of that segment at the pointer (`None` where the
    /// segment cannot be split). In order of precedence the press
    /// - joins the active open contour, through a new point at `pos`, to the
    ///   clicked open contour, where the active point ends its contour and the
    ///   clicked point starts the other;
    /// - inserts the split's point into the segment under the pointer;
    /// - continues the active contour with a new point at `pos`, where the
    ///   active point is its last;
    /// - or starts a new contour at `pos`, open when `shift` is held.
    pub fn mouse_pressed<C: Copy, O: Clone>(
        &self,
        v: &mut Editor<C, O>,
        pos: (C, C),
        shift: bool,
        clicked: Option<(usize, usize)>,
        on_curve: Option<(usize, usize, Option<Split<C>>)>,
    )
        requires
            press_inputs_valid(*old(v), clicked, on_curve),
            old(v).outline@.len() < usize::MAX,
            forall|i: int|
                0 <= i < old(v).outline@.len() ==> #[trigger] old(v).outline@[i].points@.len()
                    < usize::MAX / 2,
        ensures
            final(v).clipboard == old(v).clipboard,
            press_merges(*old(v), clicked) ==> ({
                let c = old(v).contour_idx.unwrap() as int;
                let t = clicked.unwrap().0 as int;
                let o = old(v).outline@;
                let m = shift_index(c, t);
                &&& final(v).outline@.len() == o.len() - 1
                &&& forall|i: int|
                    0 <= i < final(v).outline@.len() && i != m ==> #[trigger] final(v).outline@[i]
                        == o[if i < t {
                        i
                    } else {
                        i + 1
                    }]
                &&& final(v).outline@[m].points@ == o[c].points@.push(
                    point_at(pos.0, pos.1, PointType::Curve),
                ) + o[t].points@
                &&& final(v).outline@[m].operation == o[c].operation
                &&& final(v).selected@ == old(v).selected@.map_values(
                    |q: (usize, usize)| remap_pair(q, t, c, o[c].points@.len() as int + 1),
                )
                &&& final(v).point_idx == old(v).point_idx
                &&& final(v).contour_idx == Some(shift_index(c, t) as usize)
            }),
            !press_merges(*old(v), clicked) && on_curve.is_some() ==> ({
                let (ci, s, sp) = on_curve.unwrap();
                &&& final(v).outline@.len() == old(v).outline@.len()
                &&& forall|i: int|
                    0 <= i < final(v).outline@.len() && i != ci ==> #[trigger] final(v).outline@[i]
                        == old(v).outline@[i]
                &&& final(v).outline@[ci as int].operation == old(v).outline@[ci as int].operation
                &&& sp.is_none() ==> final(v).outline@[ci as int].points@ == old(
                    v,
                ).outline@[ci as int].points@
                &&& sp.is_some() ==> final(v).outline@[ci as int].points@ == spliced(
                    old(v).outline@[ci as int].points@,
                    s as int,
                    sp.unwrap(),
                )
                &&& final(v).contour_idx == old(v).contour_idx
                &&& final(v).point_idx == old(v).point_idx
                &&& final(v).selected@ == old(v).selected@
            }),
            !press_merges(*old(v), clicked) && on_curve.is_none() && press_extends(*old(v))
                ==> ({
                let c = old(v).contour_idx.unwrap() as int;
                &&& final(v).outline@.len() == old(v).outline@.len()
                &&& forall|i: int|
                    0 <= i < final(v).outline@.len() && i != c ==> #[trigger] final(v).outline@[i]
                        == old(v).outline@[i]
                &&& final(v).outline@[c].points@ == old(v).outline@[c].points@.push(
                    point_at(pos.0, pos.1, PointType::Curve),
                )
                &&& final(v).outline@[c].operation == old(v).outline@[c].operation
                &&& final(v).contour_idx == old(v).contour_idx
                &&& final(v).point_idx == Some(old(v).outline@[c].points@.len() as usize)
                &&& final(v).selected@ == old(v).selected@
            }),
            !press_merges(*old(v), clicked) && on_curve.is_none() && !press_extends(*old(v))
                ==> ({
                let n = old(v).outline@.len();
                &&& final(v).outline@.len() == n + 1
                &&& final(v).outline@.subrange(0, n as int) == old(v).outline@
                &&& final(v).outline@[n as int].points@ == seq![
                    point_at(
                        pos.0,
                        pos.1,
                        if shift {
                            PointType::Move
                        } else {
                            PointType::Curve
                        },
                    ),
                ]
                &&& final(v).outline@[n as int].operation.is_none()
                &&& final(v).contour_idx == Some(n as usize)
                &&& final(v).point_idx == Some(0usize)
                &&& final(v).selected@ == old(v).selected@
            }),
    {
        if self.joins_contours(v, clicked) {
            let c = v.contour_idx.unwrap();
            let t = clicked.unwrap().0;
            let ghost before = *v;
            push_point(
                &mut v.outline,
                c,
                Point::from_x_y_type(pos.0, pos.1, PointType::Curve),
            );
            let ghost grown = v.outline@;
            v.merge_contours(t, c);
            proof {
                let m = shift_index(c as int, t as int);
                assert forall|i: int|
                    0 <= i < v.outline@.len() && i != m implies #[trigger] v.outline@[i]
                        == before.outline@[if i < t {
                        i
                    } else {
                        i + 1
                    }] by {
                    assert(v.outline@[i] == grown[if i < t {
                        i
                    } else {
                        i + 1
                    }]);
                }
            }
            return ;
        }
        if let Some((ci, s, sp)) = on_curve {
            let mut contour = v.outline.remove(ci);
            insert_split(&mut contour, s, sp);
            v.outline.insert(ci, contour);
            return ;
        }
        if let (Some(c), Some(p)) = (v.contour_idx, v.point_idx) {
            if p + 1 == v.outline[c].points.len() {
                push_point(
                    &mut v.outline,
                    c,
                    Point::from_x_y_type(pos.0, pos.1, PointType::Curve),
                );
                v.point_idx = Some(v.outline[c].points.len() - 1);
                return ;
            }
        }
        let ptype = if shift {
            PointType::Move
        } else {
            PointType::Curve
        };
        let mut points: Vec<Point<C>> = Vec::new();
        points.push(Point::from_x_y_type(pos.0, pos.1, ptype));
        v.outline.push(Contour { points, operation: None });
        v.contour_idx = Some(v.outline.len() - 1);
        v.point_idx = Some(0);
    }

    /// Ends a press: the active contour's last point becomes a curve point
    /// where its outgoing handle was drawn out and it does not start an open
    /// contour.
    pub fn mouse_released<C: Copy, O>(&self, v: &mut Editor<C, O>)
        requires
            old(v).contour_idx.is_some() ==> old(v).contour_idx.unwrap() < old(v).outline@.len(),
        ensures
            final(v).contour_idx == old(v).contour_idx,
            final(v).point_idx == old(v).point_idx,
            final(v).selected@ == old(v).selected@,
            final(v).clipboard == old(v).clipboard,
            final(v).outline@.len() == old(v).outline@.len(),
            forall|i: int|
                0 <= i < old(v).outline@.len() && Some(i as usize) != old(v).contour_idx
                    ==> #[trigger] final(v).outline@[i] == old(v).outline@[i],
            old(v).contour_idx.is_some() ==> ({
                let c = old(v).contour_idx.unwrap() as int;
                let pts = old(v).outline@[c].points@;
                &&& final(v).outline@[c].operation == old(v).outline@[c].operation
                &&& final(v).outline@[c].points@ == if pts.len() > 0 && pts.last().a
                    != Handle::<C>::Colocated && pts.last().ptype != PointType::Move {
                    pts.update(pts.len() - 1, Point { ptype: PointType::Curve, ..pts.last() })
                } else {
                    pts
                }
            }),
    {
        if let Some(idx) = v.contour_idx {
            let mut contour = v.outline.remove(idx);
            let n = contour.points.len();
            if n > 0 {
                let mut last = contour.points[n - 1];
                let drawn = match last.a {
                    Handle::Colocated => false,
                    Handle::At(_, _) => true,
                };
                if drawn && last.ptype != PointType::Move {
                    last.ptype = PointType::Curve;
                    contour.points.set(n - 1, last);
                }
            }
            v.outline.insert(idx, contour);
            assert forall|i: int|
                0 <= i < old(v).outline@.len() && Some(i as usize) != old(v).contour_idx
                    implies #[trigger] v.outline@[i] == old(v).outline@[i] by {}
        }
    }
}

impl PAP {
    pub fn new() -> (r: Self)
        ensures
            r == (PAP {}),
    {
        PAP {}
    }

    /// Handles a press on the point `clicked` (if any): the contour and point
    /// for which a pattern is to be asked, which is the clicked one where its
    /// contour carries no operation yet.
    pub fn mouse_pressed<C, O>(&self, v: &Editor<C, O>, clicked: Option<(usize, usize)>) -> (r:
        Option<(usize, usize)>)
        requires
            clicked.is_some() ==> clicked.unwrap().0 < v.outline@.len(),
        ensures
            r == (if clicked.is_some() && v.outline@[clicked.unwrap().0 as int].operation.is_none() {
                clicked
            } else {
                None
            }),
    {
        match clicked {
            Some((ci, pi)) => {
                if v.outline[ci].operation.is_none() {
                    Some((ci, pi))
                } else {
                    None
                }
            },
            None => None,
        }
    }

    /// Attaches the pattern operation `op` to contour `ci` and makes point
    /// `pi` of it the active point.
    pub fn attach_pattern<C, O>(&self, v: &mut Editor<C, O>, ci: usize, pi: usize, op: O)
        requires
            ci < old(v).outline@.len(),
        ensures
            final(v).contour_idx == Some(ci),
            final(v).point_idx == Some(pi),
            final(v).selected@ == old(v).selected@,
            final(v).clipboard == old(v).clipboard,
            final(v).outline@.len() == old(v).outline@.len(),
            forall|i: int|
                0 <= i < final(v).outline@.len() && i != ci ==> #[trigger] final(v).outline@[i]
                    == old(v).outline@[i],
            final(v).outline@[ci as int].points@ == old(v).outline@[ci as int].points@,
            final(v).outline@[ci as int].operation == Some(op),
    {
        v.contour_idx = Some(ci);
        v.point_idx = Some(pi);
        let mut contour = v.outline.remove(ci);
        contour.operation = Some(op);
        v.outline.insert(ci, contour);
        assert forall|i: int|
            0 <= i < v.outline@.len() && i != ci implies #[trigger] v.outline@[i] == old(
                v,
            ).outline@[i] by {}
    }
}

} // verus!
