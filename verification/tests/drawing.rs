use rasterizer::color::Color;
use rasterizer::fill::flood_fill;
use rasterizer::point::Point;
use rasterizer::raster::DrawShapeVisitor;
use rasterizer::shapes::canvas::Canvas;
use rasterizer::shapes::circle::Circle;
use rasterizer::shapes::diamond::Diamond;
use rasterizer::shapes::line::Line;
use rasterizer::shapes::polygon::Polygon;
use rasterizer::shapes::rectangle::Rectangle;
use rasterizer::shapes::square::Square;
use rasterizer::shapes::triangle::Triangle;

const WHITE: Color = Color { r: 255, g: 255, b: 255, a: 255 };
const BLACK: Color = Color { r: 0, g: 0, b: 0, a: 255 };
const RED: Color = Color { r: 255, g: 0, b: 0, a: 255 };

fn canvas(width: u32, height: u32) -> DrawShapeVisitor {
    let mut v = DrawShapeVisitor::new();
    v.rasterize_canvas(&Canvas::new(height, width, WHITE)).unwrap();
    v
}

fn dump(v: &DrawShapeVisitor) -> Vec<Color> {
    let mut pixels = Vec::new();
    for y in 0..v.height() {
        for x in 0..v.width() {
            pixels.push(v.pixel_at(x, y).unwrap());
        }
    }
    pixels
}

#[test]
fn fresh_rasterizer_has_a_zero_sized_buffer() {
    let v = DrawShapeVisitor::new();
    assert_eq!(v.width(), 0);
    assert_eq!(v.height(), 0);
    assert_eq!(v.pixel_at(0, 0), None);
}

#[test]
fn canvas_sets_dimensions_and_background() {
    let v = canvas(4, 3);
    assert_eq!(v.width(), 4);
    assert_eq!(v.height(), 3);
    for y in 0..3 {
        for x in 0..4 {
            assert_eq!(v.pixel_at(x, y), Some(WHITE));
        }
    }
}

#[test]
fn canvas_replaces_previous_drawing() {
    let mut v = canvas(3, 3);
    v.rasterize_line(&Line::new(Point::new(0, 0), Point::new(2, 2), BLACK)).unwrap();
    v.rasterize_canvas(&Canvas::new(3, 3, RED)).unwrap();
    for y in 0..3 {
        for x in 0..3 {
            assert_eq!(v.pixel_at(x, y), Some(RED));
        }
    }
}

#[test]
fn degenerate_line_plots_exactly_one_pixel() {
    let mut v = canvas(5, 5);
    v.rasterize_line(&Line::new(Point::new(2, 2), Point::new(2, 2), BLACK)).unwrap();
    for y in 0..5 {
        for x in 0..5 {
            let expected = if (x, y) == (2, 2) { BLACK } else { WHITE };
            assert_eq!(v.pixel_at(x, y), Some(expected));
        }
    }
}

#[test]
fn shallow_line_plots_the_expected_pixels() {
    let mut v = canvas(5, 2);
    v.rasterize_line(&Line::new(Point::new(0, 0), Point::new(4, 1), BLACK)).unwrap();
    let on = [(0, 0), (1, 0), (2, 1), (3, 1), (4, 1)];
    for y in 0..2 {
        for x in 0..5 {
            let expected = if on.contains(&(x as i32, y as i32)) { BLACK } else { WHITE };
            assert_eq!(v.pixel_at(x, y), Some(expected), "at ({}, {})", x, y);
        }
    }
}

#[test]
fn horizontal_line_is_symmetric() {
    let mut a = canvas(6, 3);
    let mut b = canvas(6, 3);
    a.rasterize_line(&Line::new(Point::new(1, 1), Point::new(4, 1), BLACK)).unwrap();
    b.rasterize_line(&Line::new(Point::new(4, 1), Point::new(1, 1), BLACK)).unwrap();
    assert_eq!(dump(&a), dump(&b));
}

#[test]
fn vertical_line_is_symmetric() {
    let mut a = canvas(3, 6);
    let mut b = canvas(3, 6);
    a.rasterize_line(&Line::new(Point::new(1, 0), Point::new(1, 5), BLACK)).unwrap();
    b.rasterize_line(&Line::new(Point::new(1, 5), Point::new(1, 0), BLACK)).unwrap();
    assert_eq!(dump(&a), dump(&b));
}

#[test]
fn diagonal_line_is_symmetric() {
    let mut a = canvas(5, 5);
    let mut b = canvas(5, 5);
    a.rasterize_line(&Line::new(Point::new(0, 4), Point::new(4, 0), BLACK)).unwrap();
    b.rasterize_line(&Line::new(Point::new(4, 0), Point::new(0, 4), BLACK)).unwrap();
    assert_eq!(dump(&a), dump(&b));
}

#[test]
fn line_is_clipped_at_the_canvas_edge() {
    let mut v = canvas(3, 3);
    v.rasterize_line(&Line::new(Point::new(-2, 1), Point::new(5, 1), BLACK)).unwrap();
    for y in 0..3 {
        for x in 0..3 {
            let expected = if y == 1 { BLACK } else { WHITE };
            assert_eq!(v.pixel_at(x, y), Some(expected));
        }
    }
}

#[test]
fn one_by_one_rectangle_is_all_border() {
    let mut v = canvas(3, 3);
    let green = Color { r: 0, g: 255, b: 0, a: 255 };
    let blue = Color { r: 0, g: 0, b: 255, a: 255 };
    v.rasterize_rectangle(&Rectangle::new(Point::new(0, 0), 1, 1, green, blue)).unwrap();
    assert_eq!(v.pixel_at(0, 0), Some(green));
    assert_eq!(v.pixel_at(1, 0), Some(WHITE));
    assert_eq!(v.pixel_at(0, 1), Some(WHITE));
}

#[test]
fn rectangle_has_a_one_pixel_border_and_filled_interior() {
    let mut v = canvas(6, 5);
    v.rasterize_rectangle(&Rectangle::new(Point::new(1, 1), 3, 4, BLACK, RED)).unwrap();
    for y in 0..5i32 {
        for x in 0..6i32 {
            let inside = (1..5).contains(&x) && (1..4).contains(&y);
            let border = inside && (x == 1 || x == 4 || y == 1 || y == 3);
            let expected = if border {
                BLACK
            } else if inside {
                RED
            } else {
                WHITE
            };
            assert_eq!(v.pixel_at(x as u32, y as u32), Some(expected), "at ({}, {})", x, y);
        }
    }
}

#[test]
fn square_draws_like_the_equal_sided_rectangle() {
    let mut a = canvas(6, 6);
    let mut b = canvas(6, 6);
    a.rasterize_square(&Square::new(Point::new(1, 1), 4, BLACK, RED)).unwrap();
    b.rasterize_rectangle(&Rectangle::new(Point::new(1, 1), 4, 4, BLACK, RED)).unwrap();
    assert_eq!(dump(&a), dump(&b));
}

#[test]
fn triangle_draws_like_its_three_vertex_polygon() {
    let mut a = canvas(8, 8);
    let mut b = canvas(8, 8);
    let (p0, p1, p2) = (Point::new(1, 1), Point::new(6, 1), Point::new(3, 6));
    a.rasterize_triangle(&Triangle::new(p0, p1, p2, BLACK, RED)).unwrap();
    b.rasterize_polygon(&Polygon::new(vec![p0, p1, p2], BLACK, RED)).unwrap();
    assert_eq!(dump(&a), dump(&b));
}

#[test]
fn diamond_draws_like_its_four_vertex_polygon() {
    let mut a = canvas(9, 9);
    let mut b = canvas(9, 9);
    a.rasterize_diamond(&Diamond::new(Point::new(4, 4), 6, 6, BLACK, RED)).unwrap();
    let vertices = vec![
        Point::new(1, 4),
        Point::new(4, 1),
        Point::new(7, 4),
        Point::new(4, 7),
    ];
    b.rasterize_polygon(&Polygon::new(vertices, BLACK, RED)).unwrap();
    assert_eq!(dump(&a), dump(&b));
}

#[test]
fn polygon_without_vertices_is_rejected() {
    let mut v = canvas(3, 3);
    let before = dump(&v);
    let err = v.rasterize_polygon(&Polygon::new(vec![], BLACK, RED)).unwrap_err();
    assert_eq!(err.message(), "Polygon has no points");
    assert_eq!(dump(&v), before);
}

#[test]
fn flood_fill_rejects_a_seed_outside_the_canvas() {
    let mut v = canvas(10, 10);
    let before = dump(&v);
    let err = flood_fill(&mut v.image, -1, -1, BLACK, RED).unwrap_err();
    assert_eq!(err.message(), "Coordinates (-1, -1) are outside canvas");
    assert_eq!(dump(&v), before);
}

#[test]
fn flood_fill_is_idempotent_on_a_filled_region() {
    let mut v = canvas(6, 6);
    v.rasterize_rectangle(&Rectangle::new(Point::new(0, 0), 6, 6, BLACK, WHITE)).unwrap();
    flood_fill(&mut v.image, 3, 3, BLACK, RED).unwrap();
    let once = dump(&v);
    flood_fill(&mut v.image, 3, 3, BLACK, RED).unwrap();
    assert_eq!(dump(&v), once);
}

#[test]
fn flood_fill_leaks_through_a_boundary_gap() {
    // an outline broken by clipping does not stop the fill: it paints the
    // whole reachable region up to the canvas edges
    let mut v = canvas(4, 4);
    v.rasterize_line(&Line::new(Point::new(0, 2), Point::new(2, 2), BLACK)).unwrap();
    flood_fill(&mut v.image, 0, 0, BLACK, RED).unwrap();
    for y in 0..4 {
        for x in 0..4 {
            let expected = if y == 2 && x <= 2 { BLACK } else { RED };
            assert_eq!(v.pixel_at(x, y), Some(expected), "at ({}, {})", x, y);
        }
    }
}

#[test]
fn fill_matching_compares_rgb_only() {
    // the boundary's alpha differs from the stop color's, yet it still
    // stops the fill: only the red, green and blue channels are compared
    let mut v = canvas(5, 5);
    let translucent_black = Color { r: 0, g: 0, b: 0, a: 7 };
    v.rasterize_rectangle(&Rectangle::new(Point::new(0, 0), 5, 5, translucent_black, WHITE))
        .unwrap();
    flood_fill(&mut v.image, 2, 2, BLACK, RED).unwrap();
    assert_eq!(v.pixel_at(0, 0), Some(translucent_black));
    assert_eq!(v.pixel_at(2, 2), Some(RED));
    assert_eq!(v.pixel_at(1, 1), Some(RED));
}

#[test]
fn raw_bytes_are_row_major_rgba() {
    let mut v = canvas(2, 2);
    v.rasterize_line(&Line::new(Point::new(1, 0), Point::new(1, 0), RED)).unwrap();
    let bytes = v.raw_bytes();
    assert_eq!(bytes.len(), 16);
    assert_eq!(&bytes[0..4], &[255, 255, 255, 255]);
    assert_eq!(&bytes[4..8], &[255, 0, 0, 255]);
}
