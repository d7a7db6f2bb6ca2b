use eps_writer::bounds::Bounds;
use eps_writer::position::{Position, Vec2};
use eps_writer::shape::Shape;

fn add_all(positions: &[(i32, i32)]) -> Bounds {
    let mut b = Bounds::new();
    for &(x, y) in positions {
        b.add_position(Position::new(x, y));
    }
    b
}

#[test]
fn position_component_ops() {
    let a = Position::new(3, -7);
    let b = Position::new(-2, 9);
    assert_eq!(a.min(&b), Position::new(-2, -7));
    assert_eq!(a.max(&b), Position::new(3, 9));
    let (mn, mx) = a.min_max(&(b, b));
    assert_eq!(mn, Position::new(-2, -7));
    assert_eq!(mx, Position::new(3, 9));
    assert_eq!(a.add(&b), Position::new(1, 2));
    assert_eq!(Position::origin(), Position::new(0, 0));
}

#[test]
fn bounds_starts_unbounded() {
    let b = Bounds::new();
    assert!(!b.is_bounded());
    assert_eq!(b.min(), None);
    assert_eq!(b.max(), None);
}

#[test]
fn bounds_single_position_is_degenerate() {
    let b = add_all(&[(5, -3)]);
    assert!(b.is_bounded());
    assert_eq!(b.min(), Some(Position::new(5, -3)));
    assert_eq!(b.max(), Some(Position::new(5, -3)));
    assert_eq!(b.width(), 0);
    assert_eq!(b.height(), 0);
}

#[test]
fn bounds_accumulation_order_does_not_matter() {
    let ps = [(5, -3), (-2, 7), (0, 0), (5, 7), (-2, -3)];
    let forward = add_all(&ps);
    let mut reversed: Vec<(i32, i32)> = ps.to_vec();
    reversed.reverse();
    let backward = add_all(&reversed);
    assert_eq!(forward.min(), backward.min());
    assert_eq!(forward.max(), backward.max());
    assert_eq!(forward.min(), Some(Position::new(-2, -3)));
    assert_eq!(forward.max(), Some(Position::new(5, 7)));
}

#[test]
fn bounds_corners_bound_every_position() {
    let ps = [(4, 1), (-9, 12), (3, -8), (0, 0)];
    let b = add_all(&ps);
    let mn = b.min().unwrap();
    let mx = b.max().unwrap();
    for &(x, y) in &ps {
        assert!(mn.x <= x && x <= mx.x);
        assert!(mn.y <= y && y <= mx.y);
    }
    assert_eq!(b.min_x(), -9);
    assert_eq!(b.min_y(), -8);
    assert_eq!(b.max_x(), 4);
    assert_eq!(b.max_y(), 12);
    assert_eq!(b.width(), 13);
    assert_eq!(b.height(), 20);
}

#[test]
fn extend_equals_sequential_accumulation() {
    let first = [(1, 2), (3, -4)];
    let second = [(7, 0), (-5, 6)];
    let mut merged = add_all(&first);
    merged.extend(add_all(&second));
    let mut both: Vec<(i32, i32)> = first.to_vec();
    both.extend_from_slice(&second);
    let sequential = add_all(&both);
    assert_eq!(merged.min(), sequential.min());
    assert_eq!(merged.max(), sequential.max());
}

#[test]
fn extend_with_unbounded_is_noop() {
    let mut b = add_all(&[(1, 1), (2, 2)]);
    b.extend(Bounds::new());
    assert_eq!(b.min(), Some(Position::new(1, 1)));
    assert_eq!(b.max(), Some(Position::new(2, 2)));
}

#[test]
fn transform_translates_then_scales() {
    // One unit is 10000 subunits: translate by (1, 1), scale by (2, 2).
    let mut shape = Shape::Line(Position::new(0, 0), Position::new(10000, 10000));
    shape.transform(Vec2::new(10000, 10000), Vec2::new(20000, 20000));
    match shape {
        Shape::Line(a, b) => {
            assert_eq!(a, Position::new(20000, 20000));
            assert_eq!(b, Position::new(40000, 40000));
        }
        _ => panic!("variant changed"),
    }
}

#[test]
fn transform_order_is_not_scale_then_translate() {
    // (1 + 1) * 2 = 4 units, not 1 * 2 + 1 = 3 units.
    let mut shape = Shape::Point(Position::new(10000, 10000), 100);
    shape.transform(Vec2::new(10000, 10000), Vec2::new(20000, 20000));
    match shape {
        Shape::Point(p, radius) => {
            assert_eq!(p, Position::new(40000, 40000));
            assert_eq!(radius, 100);
        }
        _ => panic!("variant changed"),
    }
}

#[test]
fn transform_then_bounds_maps_the_corners() {
    // a = (1, 2), b = (3, 4); translate (1, 1); scale (2, -1).
    let mut shape = Shape::Line(Position::new(10000, 20000), Position::new(30000, 40000));
    let before = shape.bounds();
    assert_eq!(before.min(), Some(Position::new(10000, 20000)));
    assert_eq!(before.max(), Some(Position::new(30000, 40000)));
    shape.transform(Vec2::new(10000, 10000), Vec2::new(20000, -10000));
    let after = shape.bounds();
    // Corners mapped: (1,2) -> (4,-3), (3,4) -> (8,-5); re-reduced.
    assert_eq!(after.min(), Some(Position::new(40000, -50000)));
    assert_eq!(after.max(), Some(Position::new(80000, -30000)));
}

#[test]
fn lines_batch_bounds_cover_both_endpoints() {
    let shape = Shape::Lines(vec![
        (Position::new(0, 0), Position::new(10, -10)),
        (Position::new(-5, 3), Position::new(2, 2)),
    ]);
    let b = shape.bounds();
    assert_eq!(b.min(), Some(Position::new(-5, -10)));
    assert_eq!(b.max(), Some(Position::new(10, 3)));
}

#[test]
fn document_bounds_aggregate_every_shape() {
    let mut doc = eps_writer::EpsDocument::new();
    doc.add_shape(Shape::Point(Position::new(10, 20), 1));
    doc.add_shape(Shape::SetRGB(100, 100, 100));
    doc.add_shape(Shape::Line(Position::new(-30, 5), Position::new(7, 40)));
    let b = doc.get_bounds();
    assert_eq!(b.min(), Some(Position::new(-30, 5)));
    assert_eq!(b.max(), Some(Position::new(10, 40)));
}

#[test]
fn document_transform_reaches_every_shape() {
    let mut doc = eps_writer::EpsDocument::new();
    doc.add_shape(Shape::Point(Position::new(10000, 0), 50));
    doc.add_shape(Shape::PolyLine(vec![
        Position::new(0, 0),
        Position::new(0, 10000),
    ]));
    // Translate by (1, 1), scale by (3, 3).
    doc.transform(Vec2::new(10000, 10000), Vec2::new(30000, 30000));
    let b = doc.get_bounds();
    assert_eq!(b.min(), Some(Position::new(30000, 30000)));
    assert_eq!(b.max(), Some(Position::new(60000, 60000)));
}

#[test]
fn setrgb_has_no_geometry() {
    let shape = Shape::SetRGB(100, 0, 0);
    assert!(!shape.bounds().is_bounded());
    assert!(shape.positions().is_empty());
}
