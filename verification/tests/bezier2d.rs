use ada::shape::{draw_cubic_bezier2d, draw_quadratic_bezier2d, CubicBezier2D, QuadraticBezier2D};
use ada::{Canvas, Color};

const WHITE: [u8; 4] = [255, 255, 255, 255];

#[test]
fn test_quadratic_new() {
    let q = QuadraticBezier2D::new((1, 2), (3, 4), (5, 6));
    assert_eq!(q.start, (1, 2));
    assert_eq!(q.end, (3, 4));
    assert_eq!(q.control, (5, 6));
}

#[test]
fn test_cubic_new() {
    let c = CubicBezier2D::new((1, 2), (3, 4), (5, 6), (7, 8));
    assert_eq!(c.start, (1, 2));
    assert_eq!(c.end, (3, 4));
    assert_eq!(c.control_a, (5, 6));
    assert_eq!(c.control_b, (7, 8));
}

#[test]
fn test_quadratic_degenerate_line_exact() {
    let mut canvas = Canvas::new(12, 3, vec![0u8; 4 * 12 * 3]).unwrap();

    // control on the chord: the curve is the straight segment from 0 to 8
    draw_quadratic_bezier2d((0, 1), (8, 1), (4, 1), &mut canvas, &Color::rgb(255, 255, 255));

    for x in 0..9 {
        assert_eq!(canvas.get_color(x, 1), WHITE);
    }
    assert_eq!(canvas.get_color(9, 1), [0, 0, 0, 0]);
    assert_eq!(canvas.get_color(0, 0), [0, 0, 0, 0]);
}

#[test]
fn test_quadratic_endpoints_colored() {
    let mut canvas = Canvas::new(64, 64, vec![0u8; 4 * 64 * 64]).unwrap();

    draw_quadratic_bezier2d((5, 50), (60, 8), (10, 10), &mut canvas, &Color::rgb(255, 255, 255));

    assert_eq!(canvas.get_color(5, 50), WHITE);
    assert_eq!(canvas.get_color(60, 8), WHITE);
}

#[test]
fn test_cubic_endpoints_colored() {
    let mut canvas = Canvas::new(64, 64, vec![0u8; 4 * 64 * 64]).unwrap();

    draw_cubic_bezier2d((3, 3), (60, 50), (40, 2), (10, 60), &mut canvas, &Color::rgb(255, 255, 255));

    assert_eq!(canvas.get_color(3, 3), WHITE);
    assert_eq!(canvas.get_color(60, 50), WHITE);
}

#[test]
fn test_cubic_degenerate_point() {
    let mut canvas = Canvas::new(8, 8, vec![0u8; 4 * 8 * 8]).unwrap();

    // all four control points coincide: only that pixel is plotted
    draw_cubic_bezier2d((4, 4), (4, 4), (4, 4), (4, 4), &mut canvas, &Color::rgb(255, 255, 255));

    for y in 0..8 {
        for x in 0..8 {
            let expected = if (x, y) == (4, 4) { WHITE } else { [0, 0, 0, 0] };
            assert_eq!(canvas.get_color(x, y), expected);
        }
    }
}
