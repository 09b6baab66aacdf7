use glif_outline::editor::Editor;
use glif_outline::model::{Contour, Handle, Point, PointType};
use glif_outline::subdivide::Split;
use glif_outline::tools::{tool_enum_to_tool, MouseEventType, Pan, Pen, Tool, ToolEnum, Zoom, PAP};

fn pt(x: f32, ptype: PointType) -> Point<f32> {
    Point { x, y: 0.0, a: Handle::Colocated, b: Handle::Colocated, ptype }
}

fn open(xs: &[f32]) -> Contour<f32, u8> {
    let mut points: Vec<Point<f32>> = xs.iter().map(|x| pt(*x, PointType::Line)).collect();
    points[0].ptype = PointType::Move;
    Contour { points, operation: None }
}

fn editor(outline: Vec<Contour<f32, u8>>, c: Option<usize>, p: Option<usize>) -> Editor<f32, u8> {
    Editor { outline, contour_idx: c, point_idx: p, selected: vec![], clipboard: None }
}

#[test]
fn tools_are_plain_values() {
    assert_eq!(Pen::new(), Pen {});
    assert_eq!(PAP::new(), PAP {});
    assert_eq!(Zoom::new(), Zoom {});
    assert_ne!(ToolEnum::Pen, ToolEnum::Zoom);
    assert_ne!(MouseEventType::Pressed, MouseEventType::Released);
}

#[test]
fn pen_press_on_nothing_starts_a_contour() {
    let mut e = editor(vec![], None, None);
    Pen::new().mouse_pressed(&mut e, (3.0, 4.0), false, None, None);
    assert_eq!(e.outline.len(), 1);
    assert_eq!(e.outline[0].points, vec![Point { x: 3.0, y: 4.0, a: Handle::Colocated, b: Handle::Colocated, ptype: PointType::Curve }]);
    assert_eq!((e.contour_idx, e.point_idx), (Some(0), Some(0)));
    Pen::new().mouse_pressed(&mut e, (1.0, 1.0), true, None, None);
    assert_eq!(e.outline.len(), 1);
    assert_eq!(e.outline[0].points.len(), 2);
    assert_eq!(e.point_idx, Some(1));
}

#[test]
fn pen_press_with_shift_starts_an_open_contour() {
    let mut e = editor(vec![open(&[0.0, 1.0])], Some(0), Some(0));
    Pen::new().mouse_pressed(&mut e, (8.0, 8.0), true, None, None);
    assert_eq!(e.outline.len(), 2);
    assert_eq!(e.outline[1].points[0].ptype, PointType::Move);
    assert_eq!((e.contour_idx, e.point_idx), (Some(1), Some(0)));
}

#[test]
fn pen_press_on_start_of_other_contour_merges() {
    let mut e = editor(vec![open(&[0.0, 1.0]), open(&[5.0, 6.0])], Some(0), Some(1));
    Pen::new().mouse_pressed(&mut e, (5.0, 0.0), false, Some((1, 0)), None);
    assert_eq!(e.outline.len(), 1);
    let xs: Vec<f32> = e.outline[0].points.iter().map(|p| p.x).collect();
    assert_eq!(xs, vec![0.0, 1.0, 5.0, 5.0, 6.0]);
    assert_eq!(e.outline[0].points[2].ptype, PointType::Curve);
    assert_eq!(e.contour_idx, Some(0));
}

#[test]
fn pen_press_on_curve_inserts_split_point() {
    let mut e = editor(vec![open(&[0.0, 10.0])], None, None);
    let split = Split {
        first_a: Handle::At(1.0, 0.0),
        point: pt(5.0, PointType::Curve),
        second_b: Handle::At(9.0, 0.0),
    };
    Pen::new().mouse_pressed(&mut e, (5.0, 0.0), false, None, Some((0, 1, Some(split))));
    let xs: Vec<f32> = e.outline[0].points.iter().map(|p| p.x).collect();
    assert_eq!(xs, vec![0.0, 5.0, 10.0]);
    assert_eq!(e.outline[0].points[0].a, Handle::At(1.0, 0.0));
    assert_eq!(e.outline[0].points[2].b, Handle::At(9.0, 0.0));
    assert_eq!(e.contour_idx, None);
}

#[test]
fn pen_release_turns_dragged_point_into_curve() {
    let mut c = open(&[0.0, 1.0]);
    c.points[1].a = Handle::At(2.0, 2.0);
    let mut e = editor(vec![c], Some(0), Some(1));
    Pen::new().mouse_released(&mut e);
    assert_eq!(e.outline[0].points[1].ptype, PointType::Curve);

    let mut e = editor(vec![open(&[0.0, 1.0])], Some(0), Some(1));
    Pen::new().mouse_released(&mut e);
    assert_eq!(e.outline[0].points[1].ptype, PointType::Line);
}

#[test]
fn pap_asks_for_pattern_only_on_bare_contour() {
    let mut e = editor(vec![open(&[0.0, 1.0])], None, None);
    assert_eq!(PAP::new().mouse_pressed(&e, Some((0, 1))), Some((0, 1)));
    assert_eq!(PAP::new().mouse_pressed(&e, None), None);
    PAP::new().attach_pattern(&mut e, 0, 1, 7);
    assert_eq!(e.outline[0].operation, Some(7));
    assert_eq!((e.contour_idx, e.point_idx), (Some(0), Some(1)));
    assert_eq!(PAP::new().mouse_pressed(&e, Some((0, 1))), None);
}

#[test]
fn pen_previews_the_contour_it_would_join() {
    let e = editor(vec![open(&[0.0, 1.0]), open(&[5.0, 6.0])], Some(0), Some(1));
    let pen = Pen::new();
    assert!(pen.joins_contours(&e, Some((1, 0))));
    assert_eq!(pen.merge_preview(&e, Some((1, 0))), Some(e.outline[1].points[0]));
    assert!(!pen.joins_contours(&e, Some((1, 1))));
    assert_eq!(pen.merge_preview(&e, Some((1, 1))), None);
    assert_eq!(pen.merge_preview(&e, None), None);
    let e = editor(vec![open(&[0.0, 1.0]), open(&[5.0, 6.0])], Some(0), Some(0));
    assert!(!pen.joins_contours(&e, Some((1, 0))));
}

#[test]
fn tool_kinds_map_to_fresh_tools() {
    assert_eq!(tool_enum_to_tool::<f32>(ToolEnum::Pen), Tool::Pen(Pen {}));
    assert_eq!(tool_enum_to_tool::<f32>(ToolEnum::Zoom), Tool::Zoom(Zoom {}));
    assert_eq!(tool_enum_to_tool::<f32>(ToolEnum::Select), Tool::Select);
    assert_eq!(tool_enum_to_tool::<f32>(ToolEnum::Measure), Tool::Measure);
    assert_eq!(tool_enum_to_tool::<f32>(ToolEnum::VWS), Tool::Pan(Pan { last_position: None }));
    assert_eq!(tool_enum_to_tool::<f32>(ToolEnum::Pan), Tool::Pan(Pan::new()));
}

#[test]
fn pan_remembers_the_drag_start() {
    let mut pan: Pan<f32> = Pan::new();
    assert_eq!(pan.last_position, None);
    pan.mouse_pressed((3.0, 4.0));
    assert_eq!(pan.last_position, Some((3.0, 4.0)));
    pan.mouse_released();
    assert_eq!(pan.last_position, None);
}
