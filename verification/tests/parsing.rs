use rasterizer::color::Color;
use rasterizer::factory::ShapeFactory;
use rasterizer::point::Point;
use rasterizer::shapes::shape::ShapeValue;

fn parse(line: &str) -> Result<ShapeValue, rasterizer::errors::GenericError> {
    ShapeFactory::parse_shape(&line.to_string())
}

#[test]
fn parses_canvas_line() {
    let shape = parse("CANVAS 10 20 #FFFFFF 255").unwrap();
    match shape {
        ShapeValue::Canvas(c) => {
            assert_eq!(c.height, 10);
            assert_eq!(c.width, 20);
            assert_eq!(c.color, Color { r: 255, g: 255, b: 255, a: 255 });
        }
        _ => panic!("expected a canvas"),
    }
}

#[test]
fn parses_line_with_negative_coordinates() {
    let shape = parse("LINE -3 4 5 -6 #0A1B2C 17").unwrap();
    match shape {
        ShapeValue::Line(l) => {
            assert_eq!(l.p0, Point { x: -3, y: 4 });
            assert_eq!(l.p1, Point { x: 5, y: -6 });
            assert_eq!(l.color, Color { r: 10, g: 27, b: 44, a: 17 });
        }
        _ => panic!("expected a line"),
    }
}

#[test]
fn parses_square_rectangle_circle() {
    match parse("SQUARE 1 2 3 #000000 255 #FF0000 255").unwrap() {
        ShapeValue::Square(s) => {
            assert_eq!(s.top_left, Point { x: 1, y: 2 });
            assert_eq!(s.side, 3);
        }
        _ => panic!("expected a square"),
    }
    match parse("RECTANGLE 1 2 3 4 #000000 255 #FF0000 255").unwrap() {
        ShapeValue::Rectangle(r) => {
            assert_eq!(r.height, 3);
            assert_eq!(r.width, 4);
        }
        _ => panic!("expected a rectangle"),
    }
    match parse("CIRCLE 5 5 3 #000000 255 #FF0000 255").unwrap() {
        ShapeValue::Circle(c) => {
            assert_eq!(c.center, Point { x: 5, y: 5 });
            assert_eq!(c.radius, 3);
        }
        _ => panic!("expected a circle"),
    }
}

#[test]
fn parses_triangle_diamond_polygon() {
    match parse("TRIANGLE 0 0 4 0 2 3 #000000 255 #FF0000 255").unwrap() {
        ShapeValue::Triangle(t) => {
            assert_eq!(t.p0, Point { x: 0, y: 0 });
            assert_eq!(t.p1, Point { x: 4, y: 0 });
            assert_eq!(t.p2, Point { x: 2, y: 3 });
        }
        _ => panic!("expected a triangle"),
    }
    match parse("DIAMOND 5 5 4 6 #000000 255 #FF0000 255").unwrap() {
        ShapeValue::Diamond(d) => {
            assert_eq!(d.horizontal_diagonal, 4);
            assert_eq!(d.vertical_diagonal, 6);
        }
        _ => panic!("expected a diamond"),
    }
    match parse("POLYGON 3 0 0 4 0 2 3 #000000 255 #FF0000 255").unwrap() {
        ShapeValue::Polygon(p) => {
            assert_eq!(p.points.len(), 3);
            assert_eq!(p.points[2], Point { x: 2, y: 3 });
        }
        _ => panic!("expected a polygon"),
    }
}

#[test]
fn rejects_unknown_keyword_with_the_whole_line() {
    let err = parse("TRAPEZOID 1 2 3").unwrap_err();
    assert_eq!(err.message(), "Invalid line format: TRAPEZOID 1 2 3");
}

#[test]
fn rejects_blank_line() {
    let err = parse("   ").unwrap_err();
    assert_eq!(err.message(), "Line:     could not be split by whitespaces");
}

#[test]
fn reports_missing_attribute() {
    let err = parse("CANVAS 10").unwrap_err();
    assert_eq!(err.message(), "Canvas does not seem to have a width");
}

#[test]
fn reports_invalid_digit() {
    let err = parse("CANVAS ten 20 #FFFFFF 255").unwrap_err();
    assert_eq!(
        err.message(),
        "Could not convert Canvas's height to u32: invalid digit found in string"
    );
}

#[test]
fn reports_overflow() {
    let err = parse("CANVAS 99999999999999999999 20 #FFFFFF 255").unwrap_err();
    assert_eq!(
        err.message(),
        "Could not convert Canvas's height to u32: number too large to fit in target type"
    );
}

#[test]
fn reports_bad_hex_color() {
    let err = parse("CANVAS 10 20 #GGGGGG 255").unwrap_err();
    assert_eq!(
        err.message(),
        "Could not parse Canvas's color hex representation #GGGGGG: invalid digit found in string"
    );
}

#[test]
fn square_missing_fill_alpha_is_a_format_error() {
    // the fill color's hex token is present but its alpha byte is not
    let err = parse("SQUARE 0 0 2 #000000 255 #FF0000").unwrap_err();
    assert_eq!(err.message(), "Square's fill color does not seem to have a alpha");
}

#[test]
fn leading_plus_sign_is_accepted() {
    match parse("LINE +1 +2 +3 +4 #000000 255").unwrap() {
        ShapeValue::Line(l) => {
            assert_eq!(l.p0, Point { x: 1, y: 2 });
            assert_eq!(l.p1, Point { x: 3, y: 4 });
        }
        _ => panic!("expected a line"),
    }
}

#[test]
fn alpha_larger_than_a_byte_is_rejected() {
    let err = parse("CANVAS 10 20 #FFFFFF 256").unwrap_err();
    assert_eq!(
        err.message(),
        "Could not convert Canvas's color's alpha to u8: number too large to fit in target type"
    );
}
