use glif_outline::model::{Contour, Handle, Point, PointType};
use glif_outline::partition::partition;

type Op = Vec<(usize, usize)>;

fn pt(x: f32, ptype: PointType) -> Point<f32> {
    Point { x, y: 0.0, a: Handle::Colocated, b: Handle::Colocated, ptype }
}

fn contour(points: Vec<Point<f32>>) -> Contour<f32, Op> {
    Contour { points, operation: None }
}

fn project(_c: &Contour<f32, Op>, b: usize, e: usize) -> Option<Op> {
    Some(vec![(b, e)])
}

fn combine(x: Option<Op>, y: Option<Op>) -> Option<Op> {
    let mut r = x.unwrap_or_default();
    r.extend(y.unwrap_or_default());
    Some(r)
}

#[test]
fn wrap_seam_joins_last_and_first_runs() {
    let (a, b, c, d) = (
        pt(0.0, PointType::Curve),
        pt(1.0, PointType::Line),
        pt(2.0, PointType::Curve),
        pt(3.0, PointType::Line),
    );
    let src = contour(vec![a, b, c, d]);
    let r = partition(&src, &vec![true, false, true, true], &project, &combine);
    assert_eq!(r.len(), 1);
    let mut c_move = c;
    c_move.ptype = PointType::Move;
    assert_eq!(r[0].points, vec![c_move, d, a]);
    assert_eq!(r[0].operation, Some(vec![(2, 4), (0, 1)]));
}

#[test]
fn open_contour_keeps_kept_points_in_order() {
    let pts = vec![
        pt(0.0, PointType::Move),
        pt(1.0, PointType::Curve),
        pt(2.0, PointType::Line),
        pt(3.0, PointType::Curve),
        pt(4.0, PointType::Line),
    ];
    let src = contour(pts.clone());
    let keep = vec![true, false, true, true, false];
    let r = partition(&src, &keep, &project, &combine);
    assert_eq!(r.len(), 2);
    assert_eq!(r[0].points, vec![pts[0]]);
    let mut first = pts[2];
    first.ptype = PointType::Move;
    assert_eq!(r[1].points, vec![first, pts[3]]);
    assert_eq!(r[0].operation, Some(vec![(0, 1)]));
    assert_eq!(r[1].operation, Some(vec![(2, 4)]));
    let xs: Vec<f32> = r.iter().flat_map(|c| c.points.iter().map(|p| p.x)).collect();
    assert_eq!(xs, vec![0.0, 2.0, 3.0]);
}

#[test]
fn keeping_everything_changes_nothing() {
    let pts = vec![pt(0.0, PointType::Curve), pt(1.0, PointType::Line), pt(2.0, PointType::Curve)];
    let src = contour(pts.clone());
    let r = partition(&src, &vec![true, true, true], &project, &combine);
    assert_eq!(r.len(), 1);
    assert_eq!(r[0].points, pts);
    assert_eq!(r[0].operation, Some(vec![(0, 3)]));
}

#[test]
fn dropping_everything_leaves_no_fragment() {
    let src = contour(vec![pt(0.0, PointType::Curve), pt(1.0, PointType::Line)]);
    let r = partition(&src, &vec![false, false], &project, &combine);
    assert!(r.is_empty());
}

#[test]
fn empty_contour_leaves_no_fragment() {
    let src = contour(vec![]);
    let r = partition(&src, &vec![], &project, &combine);
    assert!(r.is_empty());
}

#[test]
fn closed_contour_with_first_point_dropped_moves_last_run_to_front() {
    let pts = vec![
        pt(0.0, PointType::Curve),
        pt(1.0, PointType::Line),
        pt(2.0, PointType::Curve),
        pt(3.0, PointType::Line),
        pt(4.0, PointType::Curve),
    ];
    let src = contour(pts.clone());
    let r = partition(&src, &vec![false, true, false, true, true], &project, &combine);
    assert_eq!(r.len(), 2);
    let mut a = pts[3];
    a.ptype = PointType::Move;
    assert_eq!(r[0].points, vec![a, pts[4]]);
    assert_eq!(r[0].operation, Some(vec![(3, 5), (0, 0)]));
    let mut b = pts[1];
    b.ptype = PointType::Move;
    assert_eq!(r[1].points, vec![b]);
    assert_eq!(r[1].operation, Some(vec![(1, 2)]));
}

#[test]
fn closed_contour_with_last_point_dropped_keeps_one_fragment() {
    let pts = vec![pt(0.0, PointType::Curve), pt(1.0, PointType::Line), pt(2.0, PointType::Curve)];
    let src = contour(pts.clone());
    let r = partition(&src, &vec![true, true, false], &project, &combine);
    assert_eq!(r.len(), 1);
    let mut a = pts[0];
    a.ptype = PointType::Move;
    assert_eq!(r[0].points, vec![a, pts[1]]);
    assert_eq!(r[0].operation, Some(vec![(3, 3), (0, 2)]));
}
