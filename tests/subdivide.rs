use glif_outline::model::{Contour, Handle, Point, PointType};
use glif_outline::subdivide::{insert_split, segment_endpoints, Split};
use MFEKmath::{Bezier, Primitive, Vector};

fn pt(x: f32, y: f32, ptype: PointType) -> Point<f32> {
    Point { x, y, a: Handle::Colocated, b: Handle::Colocated, ptype }
}

fn resolve(p: &Point<f32>, h: Handle<f32>) -> Vector {
    match h {
        Handle::Colocated => Vector { x: p.x as f64, y: p.y as f64 },
        Handle::At(x, y) => Vector { x: x as f64, y: y as f64 },
    }
}

fn split_at(p: &Point<f32>, q: &Point<f32>, t: f64) -> Option<Split<f32>> {
    let bez = Bezier::from_points(
        Vector { x: p.x as f64, y: p.y as f64 },
        resolve(p, p.a),
        resolve(q, q.b),
        Vector { x: q.x as f64, y: q.y as f64 },
    );
    let (first, second) = bez.subdivide(t)?;
    let (a, b) = (first.to_control_points(), second.to_control_points());
    let at = |v: Vector| Handle::At(v.x as f32, v.y as f32);
    Some(Split {
        first_a: at(a[1]),
        point: Point { x: a[3].x as f32, y: a[3].y as f32, a: at(b[1]), b: at(a[2]), ptype: PointType::Curve },
        second_b: at(b[2]),
    })
}

fn marker(x: f32) -> Point<f32> {
    pt(x, 99.0, PointType::Curve)
}

fn sample_split() -> Split<f32> {
    Split { first_a: Handle::At(1.0, 1.0), point: marker(7.0), second_b: Handle::At(2.0, 2.0) }
}

#[test]
fn straight_segment_split_in_the_middle() {
    let mut c: Contour<f32, ()> = Contour {
        points: vec![pt(0.0, 0.0, PointType::Move), pt(10.0, 0.0, PointType::Line)],
        operation: None,
    };
    let (p, q) = segment_endpoints(&c, 1);
    let split = split_at(&p, &q, 0.5);
    insert_split(&mut c, 1, split);
    assert_eq!(c.points.len(), 3);
    let mid = c.points[1];
    assert_eq!((mid.x, mid.y), (5.0, 0.0));
    assert_eq!(mid.ptype, PointType::Curve);
    for p in &c.points {
        for h in [p.a, p.b] {
            if let Handle::At(_, y) = h {
                assert_eq!(y, 0.0);
            }
        }
    }
    assert_eq!(c.points[0].a, Handle::At(0.0, 0.0));
    assert_eq!(mid.b, Handle::At(2.5, 0.0));
    assert_eq!(mid.a, Handle::At(7.5, 0.0));
    assert_eq!(c.points[2].b, Handle::At(10.0, 0.0));
    assert_eq!((c.points[0].x, c.points[2].x), (0.0, 10.0));
}

#[test]
fn split_at_an_end_is_refused() {
    let p = pt(0.0, 0.0, PointType::Move);
    let q = pt(10.0, 0.0, PointType::Line);
    assert!(split_at(&p, &q, 0.0).is_none());
    let mut c: Contour<f32, ()> = Contour { points: vec![p, q], operation: None };
    insert_split(&mut c, 1, None);
    assert_eq!(c.points, vec![p, q]);
}

#[test]
fn inner_segment_takes_the_new_point() {
    let pts = vec![pt(0.0, 0.0, PointType::Move), pt(1.0, 0.0, PointType::Line), pt(2.0, 0.0, PointType::Line)];
    let mut c: Contour<f32, u8> = Contour { points: pts.clone(), operation: Some(3) };
    insert_split(&mut c, 2, Some(sample_split()));
    let mut first = pts[1];
    first.a = Handle::At(1.0, 1.0);
    let mut second = pts[2];
    second.b = Handle::At(2.0, 2.0);
    assert_eq!(c.points, vec![pts[0], first, marker(7.0), second]);
    assert_eq!(c.operation, Some(3));
}

#[test]
fn wrapping_segment_appends_the_new_point() {
    let pts = vec![pt(0.0, 0.0, PointType::Curve), pt(1.0, 0.0, PointType::Line), pt(2.0, 0.0, PointType::Line)];
    let mut c: Contour<f32, u8> = Contour { points: pts.clone(), operation: None };
    let (p, q) = segment_endpoints(&c, 3);
    assert_eq!((p, q), (pts[2], pts[0]));
    insert_split(&mut c, 3, Some(sample_split()));
    let mut first = pts[2];
    first.a = Handle::At(1.0, 1.0);
    let mut second = pts[0];
    second.b = Handle::At(2.0, 2.0);
    assert_eq!(c.points, vec![second, pts[1], first, marker(7.0)]);
}
