use glif_outline::editor::Editor;
use glif_outline::model::{Contour, Handle, Point, PointType};

fn pt(x: f32, ptype: PointType) -> Point<f32> {
    Point { x, y: 0.0, a: Handle::Colocated, b: Handle::Colocated, ptype }
}

fn open(xs: &[f32], op: Option<u8>) -> Contour<f32, u8> {
    let mut points: Vec<Point<f32>> = xs.iter().map(|x| pt(*x, PointType::Line)).collect();
    points[0].ptype = PointType::Move;
    Contour { points, operation: op }
}

#[test]
fn merge_appends_source_after_target() {
    let outline = vec![open(&[0.0, 1.0], Some(1)), open(&[5.0, 6.0, 7.0], Some(2)), open(&[9.0], None)];
    let mut e = Editor {
        outline: outline.clone(),
        contour_idx: Some(2),
        point_idx: Some(0),
        selected: vec![(1, 2), (0, 1), (2, 0)],
        clipboard: None,
    };
    e.merge_contours(0, 1);
    assert_eq!(e.outline.len(), 2);
    let mut expected = outline[1].points.clone();
    expected.extend(outline[0].points.iter().cloned());
    assert_eq!(e.outline[0].points, expected);
    assert_eq!(e.outline[0].operation, Some(2));
    assert_eq!(e.outline[1], outline[2]);
    assert_eq!(e.selected, vec![(0, 2), (0, 4), (1, 0)]);
    assert_eq!(e.contour_idx, Some(1));
    assert_eq!(e.point_idx, Some(0));
}

#[test]
fn merge_moves_cursor_from_source() {
    let outline = vec![open(&[0.0, 1.0], None), open(&[5.0, 6.0], None)];
    let mut e = Editor { outline, contour_idx: Some(1), point_idx: Some(1), selected: vec![], clipboard: None };
    e.merge_contours(1, 0);
    assert_eq!(e.outline.len(), 1);
    let xs: Vec<f32> = e.outline[0].points.iter().map(|p| p.x).collect();
    assert_eq!(xs, vec![0.0, 1.0, 5.0, 6.0]);
    assert_eq!(e.contour_idx, Some(0));
    assert_eq!(e.point_idx, Some(3));
}
