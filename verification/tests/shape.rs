use ada::shape::{
    draw_line2d, draw_rect2d_filled, Ellipse2D, Line2D, Polygon2D, Rectangle2D, Shape,
};
use ada::{Canvas, Color};

const WHITE: [u8; 4] = [255, 255, 255, 255];

#[test]
fn test_shape_is_filled_flags() {
    assert!(!Shape::Line(Line2D::new(0, 0, 1, 1)).is_filled());
    assert!(Shape::Rectangle(Rectangle2D::new(0, 0, 2, 2, true)).is_filled());
    assert!(!Shape::Rectangle(Rectangle2D::new(0, 0, 2, 2, false)).is_filled());
    assert!(Shape::Ellipse(Ellipse2D::new(0, 0, 2, 2, true)).is_filled());
    let xi: [i32; 4] = [0, 4, 4, 0];
    let yi: [i32; 4] = [0, 0, 4, 4];
    assert!(!Shape::Polygon(Polygon2D::new(&xi, &yi)).is_filled());
}

#[test]
fn test_canvas_draw_dispatches_line() {
    let mut via_shape = Canvas::new(10, 10, vec![0u8; 4 * 10 * 10]).unwrap();
    let mut direct = Canvas::new(10, 10, vec![0u8; 4 * 10 * 10]).unwrap();
    let white = Color::rgb(255, 255, 255);

    via_shape.draw(&Shape::Line(Line2D::new(1, 1, 8, 4)), &white);
    draw_line2d(1, 1, 8, 4, &mut direct, &white);

    assert_eq!(via_shape.buffer(), direct.buffer());
}

#[test]
fn test_canvas_draw_dispatches_filled_rect() {
    let mut via_shape = Canvas::new(10, 10, vec![0u8; 4 * 10 * 10]).unwrap();
    let mut direct = Canvas::new(10, 10, vec![0u8; 4 * 10 * 10]).unwrap();
    let white = Color::rgb(255, 255, 255);

    via_shape.draw(&Shape::Rectangle(Rectangle2D::new(2, 2, 4, 3, true)), &white);
    draw_rect2d_filled(2, 2, 4, 3, &mut direct, &white);

    assert_eq!(via_shape.buffer(), direct.buffer());
    assert_eq!(via_shape.get_color(3, 3), WHITE);
}

#[test]
fn test_canvas_draw_stroked_ellipse() {
    let mut canvas = Canvas::new(21, 21, vec![0u8; 4 * 21 * 21]).unwrap();
    let white = Color::rgb(255, 255, 255);

    canvas.draw(&Shape::Ellipse(Ellipse2D::new(10, 10, 6, 6, false)), &white);

    assert_eq!(canvas.get_color(16, 10), WHITE);
    assert_eq!(canvas.get_color(10, 10), [0, 0, 0, 0]);
}

#[test]
fn test_canvas_draw_polygon() {
    let mut canvas = Canvas::new(16, 16, vec![0u8; 4 * 16 * 16]).unwrap();
    let white = Color::rgb(255, 255, 255);
    let xi: [i32; 5] = [2, 12, 12, 2, 7];
    let yi: [i32; 5] = [2, 2, 12, 12, 7];

    canvas.draw(&Shape::Polygon(Polygon2D::new(&xi, &yi)), &white);

    assert_eq!(canvas.get_color(2, 2), WHITE);
    assert_eq!(canvas.get_color(12, 12), WHITE);
}
