use eps_writer::document::EpsDocument;
use eps_writer::fixed::{append_fp2, append_fp4, append_i64, whole_units};
use eps_writer::position::Position;
use eps_writer::shape::Shape;

fn fp4(v: i64) -> String {
    let mut s = String::new();
    append_fp4(&mut s, v);
    s
}

fn fp2(v: i64) -> String {
    let mut s = String::new();
    append_fp2(&mut s, v);
    s
}

fn body_of(shape: &Shape) -> String {
    let mut s = String::new();
    shape.write_eps(&mut s);
    s
}

fn count_sub(haystack: &str, needle: &str) -> usize {
    haystack.match_indices(needle).count()
}

#[test]
fn fixed_point_formatting_is_exact() {
    assert_eq!(fp4(0), "0.0000");
    assert_eq!(fp4(2500), "0.2500");
    assert_eq!(fp4(10000), "1.0000");
    assert_eq!(fp4(-12500), "-1.2500");
    assert_eq!(fp4(123456789), "12345.6789");
    assert_eq!(fp4(-5), "-0.0005");
    assert_eq!(fp2(100), "1.00");
    assert_eq!(fp2(0), "0.00");
    assert_eq!(fp2(-7), "-0.07");
    assert_eq!(fp2(250), "2.50");
}

#[test]
fn signed_integers_format_exactly() {
    let mut s = String::new();
    append_i64(&mut s, -1200);
    s.push(' ');
    append_i64(&mut s, 0);
    s.push(' ');
    append_i64(&mut s, 987);
    assert_eq!(s, "-1200 0 987");
}

#[test]
fn whole_units_truncates_toward_zero() {
    assert_eq!(whole_units(19999), 1);
    assert_eq!(whole_units(-19999), -1);
    assert_eq!(whole_units(10000), 1);
    assert_eq!(whole_units(-10000), -1);
    assert_eq!(whole_units(9999), 0);
    assert_eq!(whole_units(-9999), 0);
}

#[test]
fn setrgb_body_uses_two_decimals() {
    let body = body_of(&Shape::SetRGB(100, 0, 25));
    assert_eq!(body, "1.00 0.00 0.25 setrgbcolor\n");
}

#[test]
fn point_body_is_one_filled_arc() {
    let body = body_of(&Shape::Point(Position::new(5000, 5000), 2500));
    assert_eq!(body, "newpath 0.5000 0.5000 0.2500 0 360 arc fill\n");
}

#[test]
fn line_body_is_one_stroked_path() {
    let body = body_of(&Shape::Line(Position::new(0, 0), Position::new(10000, 0)));
    assert_eq!(body, "newpath 0.0000 0.0000 moveto 1.0000 0.0000 lineto stroke\n");
}

#[test]
fn polyline_with_too_few_positions_is_empty() {
    assert_eq!(body_of(&Shape::PolyLine(vec![])), "");
    assert_eq!(body_of(&Shape::PolyLine(vec![Position::new(1, 2)])), "");
}

#[test]
fn polyline_emits_one_moveto_then_linetos_then_stroke() {
    let body = body_of(&Shape::PolyLine(vec![
        Position::new(0, 0),
        Position::new(10000, 0),
        Position::new(10000, 10000),
    ]));
    assert_eq!(
        body,
        "newpath 0.0000 0.0000 moveto 1.0000 0.0000 lineto 1.0000 1.0000 lineto stroke\n"
    );
    assert_eq!(count_sub(&body, "moveto"), 1);
    assert_eq!(count_sub(&body, "lineto"), 2);
    assert_eq!(count_sub(&body, "stroke"), 1);
}

#[test]
fn points_cluster_defines_one_procedure_and_invokes_it_per_position() {
    let body = body_of(&Shape::Points(
        vec![Position::new(0, 0), Position::new(10000, 10000)],
        2500,
    ));
    assert_eq!(count_sub(&body, "/p {"), 1);
    assert_eq!(count_sub(&body, " p\n"), 2);
    assert!(body.contains("newpath x y 0.2500 0 360 arc fill"));
    assert!(body.contains("0.0000 0.0000 p\n"));
    assert!(body.contains("1.0000 1.0000 p\n"));
}

#[test]
fn lines_batch_defines_one_procedure_and_invokes_it_per_segment() {
    let body = body_of(&Shape::Lines(vec![
        (Position::new(0, 0), Position::new(10000, 10000)),
        (Position::new(10000, 0), Position::new(0, 10000)),
    ]));
    assert_eq!(count_sub(&body, "/l {"), 1);
    assert_eq!(count_sub(&body, " l\n"), 2);
    assert!(body.contains("0.0000 0.0000 1.0000 1.0000 l\n"));
    assert!(body.contains("1.0000 0.0000 0.0000 1.0000 l\n"));
}

#[test]
fn unit_square_document_uses_minimum_canvas() {
    // Four unit-square edges and a centered point, serialized with a
    // 100-unit minimum canvas: the canvas is 100 wide and high, so the
    // padding is 10 units per side and the stroke width is
    // 1.2 * 100 / 1000 = 0.12.
    let mut doc = EpsDocument::new();
    doc.add_shape(Shape::Line(Position::new(0, 0), Position::new(10000, 0)));
    doc.add_shape(Shape::Line(Position::new(10000, 0), Position::new(10000, 10000)));
    doc.add_shape(Shape::Line(Position::new(10000, 10000), Position::new(0, 10000)));
    doc.add_shape(Shape::Line(Position::new(0, 10000), Position::new(0, 0)));
    doc.add_shape(Shape::Point(Position::new(5000, 5000), 2500));
    let eps = doc.write_eps(1_000_000, 1_000_000);
    assert!(eps.contains("%%BoundingBox: -10 -10 11 11\n"));
    assert!(eps.contains("%%HiResBoundingBox: -10.0000 -10.0000 11.0000 11.0000\n"));
    assert!(eps.contains("\n0.1200 setlinewidth\n"));
    assert!(eps.starts_with("%%!PS-Adobe-3.0 EPSF-3.0\n"));
    assert!(eps.ends_with("%%EOF\n"));
    assert!(eps.contains("newpath 0.5000 0.5000 0.2500 0 360 arc fill\n"));
    // Bodies appear in insertion order.
    let first = eps.find("newpath 0.0000 0.0000 moveto 1.0000 0.0000 lineto stroke").unwrap();
    let last = eps.find("newpath 0.5000 0.5000 0.2500 0 360 arc fill").unwrap();
    assert!(first < last);
}

#[test]
fn color_only_document_falls_back_to_centered_canvas() {
    // No geometric shape: serialization must not fail, and the canvas is
    // the supplied 100 x 100 minimum centered at the origin.
    let mut doc = EpsDocument::new();
    doc.add_shape(Shape::SetRGB(100, 0, 0));
    let eps = doc.write_eps(1_000_000, 1_000_000);
    assert!(eps.contains("%%BoundingBox: -60 -60 60 60\n"));
    assert!(eps.contains("%%HiResBoundingBox: -60.0000 -60.0000 60.0000 60.0000\n"));
    assert!(eps.contains("\n0.1200 setlinewidth\n"));
    assert!(eps.contains("1.00 0.00 0.00 setrgbcolor\n"));
    assert!(eps.ends_with("%%EOF\n"));
}

#[test]
fn empty_document_serializes_to_a_degenerate_canvas() {
    let doc = EpsDocument::new();
    let eps = doc.write_eps(0, 0);
    let expected = "%%!PS-Adobe-3.0 EPSF-3.0\n\
        %%Creator: eps_writer\n\
        %%DocumentData: Clean7Bit\n\
        %%Origin: 0 0\n\
        %%BoundingBox: 0 0 0 0\n\
        %%HiResBoundingBox: 0.0000 0.0000 0.0000 0.0000\n\
        %%LanguageLevel: 2\n\
        %%Pages: 1\n\
        %%Page: 1 1\n\
        \n\
        0.0000 setlinewidth\n\
        %%EOF\n";
    assert_eq!(eps, expected);
}

#[test]
fn header_elements_appear_in_order() {
    let doc = EpsDocument::new();
    let eps = doc.write_eps(1_000_000, 1_000_000);
    let keys = [
        "%%!PS-Adobe-3.0 EPSF-3.0",
        "%%Creator:",
        "%%DocumentData: Clean7Bit",
        "%%Origin: 0 0",
        "%%BoundingBox:",
        "%%HiResBoundingBox:",
        "%%LanguageLevel: 2",
        "%%Pages: 1",
        "%%Page: 1 1",
        "setlinewidth",
        "%%EOF",
    ];
    let mut at = 0;
    for key in keys {
        let found = eps[at..].find(key);
        assert!(found.is_some(), "missing {key}");
        at += found.unwrap() + key.len();
    }
}
