use rasterizer::application::Application;
use rasterizer::application::RunError;
use rasterizer::color::Color;
use rasterizer::print_visitor::PrintShapeVisitor;
use rasterizer::shapes::shape::Shape;
use rasterizer::shapes::shape::ShapeValue;
use rasterizer::textfmt::i32_to_string;
use rasterizer::textfmt::i64_to_string;
use rasterizer::textfmt::u32_to_string;
use rasterizer::textfmt::u8_to_hex;
use rasterizer::textfmt::u8_to_string;
use rasterizer::factory::ShapeFactory;

const WHITE: Color = Color { r: 255, g: 255, b: 255, a: 255 };
const BLACK: Color = Color { r: 0, g: 0, b: 0, a: 255 };
const RED: Color = Color { r: 255, g: 0, b: 0, a: 255 };

fn message(e: &RunError) -> String {
    e.message().clone()
}

fn run_err(input: &str) -> RunError {
    match Application::run(input) {
        Ok(_) => panic!("expected an error"),
        Err(e) => e,
    }
}

#[test]
fn white_canvas_with_black_circle_and_red_fill() {
    let input = "2\nCANVAS 10 10 #FFFFFF 255\nCIRCLE 5 5 3 #000000 255 #FF0000 255";
    let v = match Application::run(input) {
        Ok(v) => v,
        Err(e) => panic!("run failed: {}", e.message()),
    };
    assert_eq!(v.width(), 10);
    assert_eq!(v.height(), 10);
    let outline = [
        (5, 8), (5, 2), (8, 5), (2, 5),
        (6, 8), (4, 8), (6, 2), (4, 2),
        (8, 6), (2, 6), (8, 4), (2, 4),
        (7, 7), (3, 7), (7, 3), (3, 3),
    ];
    let interior = [
        (4, 3), (5, 3), (6, 3),
        (3, 4), (4, 4), (5, 4), (6, 4), (7, 4),
        (3, 5), (4, 5), (5, 5), (6, 5), (7, 5),
        (3, 6), (4, 6), (5, 6), (6, 6), (7, 6),
        (4, 7), (5, 7), (6, 7),
    ];
    for y in 0..10 {
        for x in 0..10 {
            let expected = if outline.contains(&(x, y)) {
                BLACK
            } else if interior.contains(&(x, y)) {
                RED
            } else {
                WHITE
            };
            assert_eq!(v.pixel_at(x, y), Some(expected), "at ({}, {})", x, y);
        }
    }
}

#[test]
fn one_by_one_rectangle_paints_a_single_outline_pixel() {
    let input = "2\nCANVAS 3 3 #FFFFFF 255\nRECTANGLE 0 0 1 1 #00FF00 255 #0000FF 255";
    let v = match Application::run(input) {
        Ok(v) => v,
        Err(e) => panic!("run failed: {}", e.message()),
    };
    let green = Color { r: 0, g: 255, b: 0, a: 255 };
    for y in 0..3 {
        for x in 0..3 {
            let expected = if (x, y) == (0, 0) { green } else { WHITE };
            assert_eq!(v.pixel_at(x, y), Some(expected));
        }
    }
}

#[test]
fn malformed_square_aborts_the_run() {
    let input = "2\nCANVAS 4 4 #FFFFFF 255\nSQUARE 0 0 2 #000000 255 #FF0000";
    let err = run_err(input);
    assert!(matches!(err, RunError::Shape(_)));
    assert_eq!(message(&err), "Square's fill color does not seem to have a alpha");
}

#[test]
fn empty_input_is_rejected() {
    let err = run_err("");
    assert_eq!(message(&err), "Input file does not have at least one line");
}

#[test]
fn non_numeric_count_is_rejected() {
    let err = run_err("many\nCANVAS 2 2 #FFFFFF 255");
    assert_eq!(message(&err), "First line of: invalid digit found in string");
}

#[test]
fn too_few_lines_for_the_declared_count() {
    let err = run_err("2\nCANVAS 2 2 #FFFFFF 255");
    assert_eq!(message(&err), "Error while parsing line: No more lines to parse");
}

#[test]
fn extra_lines_beyond_the_count_are_ignored() {
    let input = "1\nCANVAS 2 2 #00FF00 255\nnot a shape at all";
    let v = match Application::run(input) {
        Ok(v) => v,
        Err(e) => panic!("run failed: {}", e.message()),
    };
    let green = Color { r: 0, g: 255, b: 0, a: 255 };
    assert_eq!(v.pixel_at(1, 1), Some(green));
}

#[test]
fn plot_only_shapes_before_a_canvas_are_silently_clipped() {
    let input = "2\nLINE 0 0 1 1 #000000 255\nCANVAS 2 2 #FFFFFF 255";
    let v = match Application::run(input) {
        Ok(v) => v,
        Err(e) => panic!("run failed: {}", e.message()),
    };
    for y in 0..2 {
        for x in 0..2 {
            assert_eq!(v.pixel_at(x, y), Some(WHITE));
        }
    }
}

#[test]
fn carriage_returns_before_newlines_are_stripped() {
    let input = "1\r\nCANVAS 2 2 #FF0000 255\r\n";
    let v = match Application::run(input) {
        Ok(v) => v,
        Err(e) => panic!("run failed: {}", e.message()),
    };
    assert_eq!(v.pixel_at(0, 0), Some(RED));
}

#[test]
fn circle_center_off_canvas_halts_the_run() {
    // the geometry error of the fill seed propagates unrecovered: the
    // run returns it and hands no buffer out
    let input = "2\nCANVAS 4 4 #FFFFFF 255\nCIRCLE -3 -3 5 #000000 255 #FF0000 255";
    let err = run_err(input);
    assert!(matches!(err, RunError::Draw(_)));
    assert_eq!(message(&err), "Coordinates (-3, -3) are outside canvas");
}

#[test]
fn geometry_error_halts_before_later_shapes_are_drawn() {
    let input = "3\nCANVAS 4 4 #FFFFFF 255\nCIRCLE -3 -3 5 #000000 255 #FF0000 255\nCANVAS 2 2 #00FF00 255";
    let err = run_err(input);
    assert_eq!(message(&err), "Coordinates (-3, -3) are outside canvas");
}

#[test]
fn fillable_shape_before_a_canvas_halts_the_run() {
    // with no canvas yet the buffer is zero-sized, so the circle's fill
    // seed lies outside it and the run halts with that geometry error
    let input = "2\nCIRCLE 1 1 1 #000000 255 #FF0000 255\nCANVAS 2 2 #FFFFFF 255";
    let err = run_err(input);
    assert!(matches!(err, RunError::Draw(_)));
    assert_eq!(message(&err), "Coordinates (1, 1) are outside canvas");
}

#[test]
fn oversized_canvas_halts_the_run() {
    let input = "1\nCANVAS 4294967295 4294967295 #FFFFFF 255";
    let err = run_err(input);
    assert!(matches!(err, RunError::Draw(_)));
    assert_eq!(message(&err), "Canvas is too large");
}

#[test]
fn polygon_centroid_carries_the_accumulator_bias() {
    // the centroid accumulator starts at (-1, -1), so a single-vertex
    // polygon at (3, 3) seeds its fill at (2, 2)
    let input = "2\nCANVAS 5 5 #FFFFFF 255\nPOLYGON 1 3 3 #000000 255 #FF0000 255";
    let v = match Application::run(input) {
        Ok(v) => v,
        Err(e) => panic!("run failed: {}", e.message()),
    };
    for y in 0..5 {
        for x in 0..5 {
            let expected = if (x, y) == (3, 3) { BLACK } else { RED };
            assert_eq!(v.pixel_at(x, y), Some(expected), "at ({}, {})", x, y);
        }
    }
}

#[test]
fn decimal_and_hex_text_forms() {
    assert_eq!(u32_to_string(0), "0");
    assert_eq!(u32_to_string(407), "407");
    assert_eq!(u32_to_string(4294967295), "4294967295");
    assert_eq!(u8_to_string(255), "255");
    assert_eq!(i32_to_string(-45), "-45");
    assert_eq!(i32_to_string(-2147483648), "-2147483648");
    assert_eq!(i64_to_string(7), "7");
    assert_eq!(u8_to_hex(255), "FF");
    assert_eq!(u8_to_hex(5), "5");
    assert_eq!(u8_to_hex(16), "10");
}

#[test]
fn print_visitor_dumps_each_shape_line() {
    let mut printer = PrintShapeVisitor::new();
    let canvas = ShapeFactory::parse_shape(&"CANVAS 2 3 #FF0000 10".to_string()).unwrap();
    canvas.accept(&mut printer).unwrap();
    assert_eq!(printer.get_output(), "Canvas height: 2 wirth: 3 color: #FF00 10\n");

    let mut printer = PrintShapeVisitor::new();
    let line = ShapeFactory::parse_shape(&"LINE -1 2 3 4 #0102FF 255".to_string()).unwrap();
    line.accept(&mut printer).unwrap();
    assert_eq!(
        printer.get_output(),
        "Line p0: (-1, 2) p1: (3, 4) color: #12FF 255\n"
    );
}

#[test]
fn print_visitor_joins_polygon_points() {
    let mut printer = PrintShapeVisitor::new();
    let polygon =
        ShapeFactory::parse_shape(&"POLYGON 3 0 0 4 0 2 3 #000000 255 #FF0000 255".to_string())
            .unwrap();
    polygon.accept(&mut printer).unwrap();
    assert_eq!(
        printer.get_output(),
        "Polygon points: (0, 0), (4, 0), (2, 3) outline color: #000 255 fill color: #FF00 255\n"
    );
}

#[test]
fn double_dispatch_reaches_the_rasterizer() {
    let mut v = rasterizer::raster::DrawShapeVisitor::new();
    let canvas = ShapeFactory::parse_shape(&"CANVAS 2 2 #0000FF 255".to_string()).unwrap();
    match &canvas {
        ShapeValue::Canvas(c) => {
            c.accept(&mut v).unwrap();
        }
        _ => panic!("expected a canvas"),
    }
    let blue = Color { r: 0, g: 0, b: 255, a: 255 };
    assert_eq!(v.pixel_at(0, 0), Some(blue));
}
