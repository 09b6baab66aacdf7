use glif_outline::editor::{Clipboard, Editor};
use glif_outline::model::{Contour, Handle, Point, PointType};

type Op = Vec<(usize, usize)>;

fn pt(x: f32, y: f32, ptype: PointType) -> Point<f32> {
    Point { x, y, a: Handle::Colocated, b: Handle::At(x - 1.0, y), ptype }
}

fn project(_c: &Contour<f32, Op>, b: usize, e: usize) -> Option<Op> {
    Some(vec![(b, e)])
}

fn combine(x: Option<Op>, y: Option<Op>) -> Option<Op> {
    let mut r = x.unwrap_or_default();
    r.extend(y.unwrap_or_default());
    Some(r)
}

fn editor(outline: Vec<Contour<f32, Op>>, selected: Vec<(usize, usize)>) -> Editor<f32, Op> {
    Editor { outline, contour_idx: Some(0), point_idx: Some(0), selected, clipboard: None }
}

fn square() -> Contour<f32, Op> {
    Contour {
        points: vec![
            pt(0.0, 0.0, PointType::Line),
            pt(10.0, 0.0, PointType::Line),
            pt(10.0, 10.0, PointType::Line),
            pt(0.0, 10.0, PointType::Line),
        ],
        operation: None,
    }
}

fn stroke() -> Contour<f32, Op> {
    Contour {
        points: vec![pt(0.0, 20.0, PointType::Move), pt(5.0, 25.0, PointType::Curve), pt(9.0, 20.0, PointType::Line)],
        operation: None,
    }
}

#[test]
fn copy_then_paste_single_point() {
    let mut e = editor(vec![square(), stroke()], vec![(0, 1)]);
    e.copy_selection(&project, &combine);
    assert_eq!(e.outline, vec![square(), stroke()]);
    assert_eq!(e.selected, vec![(0, 1)]);
    e.paste_selection((0.0, 0.0));
    assert_eq!(e.outline.len(), 3);
    let mut p = square().points[1];
    p.ptype = PointType::Move;
    assert_eq!(e.outline[2].points, vec![p]);
    assert_eq!(e.outline[2].operation, Some(vec![(1, 2)]));
    assert_eq!(e.selected, vec![(2, 0)]);
    assert_eq!(e.contour_idx, None);
    assert_eq!(e.point_idx, None);
}

#[test]
fn copy_builds_a_detached_clipboard() {
    let mut e = editor(vec![square(), stroke()], vec![(0, 0), (0, 1), (1, 2)]);
    e.copy_selection(&project, &combine);
    let clip: Clipboard<f32, Op> = e.clipboard.clone().unwrap();
    assert_eq!(clip.name, "");
    assert!(clip.visible);
    assert_eq!(clip.outline.len(), 2);
    let mut a = square().points[0];
    a.ptype = PointType::Move;
    assert_eq!(clip.outline[0].points, vec![a, square().points[1]]);
    let mut c = stroke().points[2];
    c.ptype = PointType::Move;
    assert_eq!(clip.outline[1].points, vec![c]);
    assert_eq!(clip.outline[1].operation, Some(vec![(2, 3)]));
    assert_eq!(e.contour_idx, Some(0));
}

#[test]
fn paste_twice_appends_twice() {
    let mut e = editor(vec![square()], vec![(0, 2)]);
    e.copy_selection(&project, &combine);
    e.paste_selection((0.0, 0.0));
    e.paste_selection((0.0, 0.0));
    assert_eq!(e.outline.len(), 3);
    assert_eq!(e.outline[1], e.outline[2]);
    assert_eq!(e.selected, vec![(2, 0)]);
}

#[test]
fn paste_without_clipboard_changes_nothing() {
    let mut e = editor(vec![square()], vec![(0, 2)]);
    let before = e.clone();
    e.paste_selection((1.0, 1.0));
    assert_eq!(e, before);
}

#[test]
fn delete_across_the_seam() {
    let mut e = editor(vec![square(), stroke()], vec![(0, 1), (1, 1)]);
    e.delete_selection(&project, &combine);
    assert_eq!(e.outline.len(), 3);
    let sq = square().points;
    let mut c = sq[2];
    c.ptype = PointType::Move;
    assert_eq!(e.outline[0].points, vec![c, sq[3], sq[0]]);
    assert_eq!(e.outline[0].operation, Some(vec![(2, 4), (0, 1)]));
    let st = stroke().points;
    assert_eq!(e.outline[1].points, vec![st[0]]);
    let mut last = st[2];
    last.ptype = PointType::Move;
    assert_eq!(e.outline[2].points, vec![last]);
    assert!(e.selected.is_empty());
    assert_eq!(e.contour_idx, None);
    assert_eq!(e.point_idx, None);
}

#[test]
fn delete_nothing_keeps_every_point() {
    let mut e = editor(vec![square(), stroke()], vec![]);
    e.delete_selection(&project, &combine);
    assert_eq!(e.outline.len(), 2);
    assert_eq!(e.outline[0].points, square().points);
    assert_eq!(e.outline[1].points, stroke().points);
}

#[test]
fn delete_whole_contour_removes_it() {
    let mut e = editor(vec![stroke(), square()], vec![(0, 0), (0, 1), (0, 2)]);
    e.delete_selection(&project, &combine);
    assert_eq!(e.outline.len(), 1);
    assert_eq!(e.outline[0].points, square().points);
}

#[test]
fn selection_lookup() {
    let e = editor(vec![square()], vec![(0, 2), (0, 3)]);
    assert!(e.is_point_selected(0, 3));
    assert!(!e.is_point_selected(0, 1));
}
