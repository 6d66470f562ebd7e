use ada::shape::{draw_line2d, Line2D};
use ada::{Canvas, Color};

const WIDTH: usize = 10;
const HEIGHT: usize = 10;
const WHITE: [u8; 4] = [255, 255, 255, 255];

#[test]
fn test_line_new() {
    let l = Line2D::new(0, 0, 10, 10);
    assert_eq!(l.x1, 0);
    assert_eq!(l.y1, 0);
    assert_eq!(l.x2, 10);
    assert_eq!(l.y2, 10);
}

#[test]
fn test_line_slope_less_than_one() {
    let buffer = vec![0u8; 4 * WIDTH * HEIGHT];
    let mut canvas = Canvas::new(WIDTH, HEIGHT, buffer).unwrap();

    draw_line2d(0, 0, 4, 2, &mut canvas, &Color::rgb(255, 255, 255));

    assert_eq!(canvas.get_color(0, 0), WHITE);
    assert_eq!(canvas.get_color(1, 0), WHITE);
    assert_eq!(canvas.get_color(2, 1), WHITE);
    assert_eq!(canvas.get_color(3, 1), WHITE);
    assert_eq!(canvas.get_color(4, 2), WHITE);
}

#[test]
fn test_line_slope_one() {
    let buffer = vec![0u8; 4 * WIDTH * HEIGHT];
    let mut canvas = Canvas::new(WIDTH, HEIGHT, buffer).unwrap();

    draw_line2d(0, 0, 4, 4, &mut canvas, &Color::rgb(255, 255, 255));

    assert_eq!(canvas.get_color(0, 0), WHITE);
    assert_eq!(canvas.get_color(1, 1), WHITE);
    assert_eq!(canvas.get_color(2, 2), WHITE);
    assert_eq!(canvas.get_color(3, 3), WHITE);
    assert_eq!(canvas.get_color(4, 4), WHITE);
}

#[test]
fn test_line_slope_greater_than_one() {
    let buffer = vec![0u8; 4 * WIDTH * HEIGHT];
    let mut canvas = Canvas::new(WIDTH, HEIGHT, buffer).unwrap();

    draw_line2d(0, 0, 2, 4, &mut canvas, &Color::rgb(255, 255, 255));

    assert_eq!(canvas.get_color(0, 0), WHITE);
    assert_eq!(canvas.get_color(0, 1), WHITE);
    assert_eq!(canvas.get_color(1, 2), WHITE);
    assert_eq!(canvas.get_color(1, 3), WHITE);
    assert_eq!(canvas.get_color(2, 4), WHITE);
}

#[test]
fn test_line_slope_infinite() {
    let buffer = vec![0u8; 4 * WIDTH * HEIGHT];
    let mut canvas = Canvas::new(WIDTH, HEIGHT, buffer).unwrap();

    draw_line2d(0, 0, 0, 4, &mut canvas, &Color::rgb(255, 255, 255));

    assert_eq!(canvas.get_color(0, 0), WHITE);
    assert_eq!(canvas.get_color(0, 1), WHITE);
    assert_eq!(canvas.get_color(0, 2), WHITE);
    assert_eq!(canvas.get_color(0, 3), WHITE);
    assert_eq!(canvas.get_color(0, 4), WHITE);
}

#[test]
fn test_line_slope_zero() {
    let buffer = vec![0u8; 4 * WIDTH * HEIGHT];
    let mut canvas = Canvas::new(WIDTH, HEIGHT, buffer).unwrap();

    draw_line2d(0, 0, 4, 0, &mut canvas, &Color::rgb(255, 255, 255));

    assert_eq!(canvas.get_color(0, 0), WHITE);
    assert_eq!(canvas.get_color(1, 0), WHITE);
    assert_eq!(canvas.get_color(2, 0), WHITE);
    assert_eq!(canvas.get_color(3, 0), WHITE);
    assert_eq!(canvas.get_color(4, 0), WHITE);
}

#[test]
fn test_line_point_reorder() {
    let buffer = vec![0u8; 4 * WIDTH * HEIGHT];
    let mut canvas = Canvas::new(WIDTH, HEIGHT, buffer).unwrap();

    draw_line2d(4, 2, 0, 0, &mut canvas, &Color::rgb(255, 255, 255));

    assert_eq!(canvas.get_color(0, 0), WHITE);
    assert_eq!(canvas.get_color(1, 0), WHITE);
    assert_eq!(canvas.get_color(2, 1), WHITE);
    assert_eq!(canvas.get_color(3, 1), WHITE);
    assert_eq!(canvas.get_color(4, 2), WHITE);
}

#[test]
fn test_line_colors_both_endpoints() {
    let buffer = vec![0u8; 4 * WIDTH * HEIGHT];
    let mut canvas = Canvas::new(WIDTH, HEIGHT, buffer).unwrap();

    draw_line2d(3, 4, 7, 6, &mut canvas, &Color::rgb(255, 255, 255));

    assert_eq!(canvas.get_color(3, 4), WHITE);
    assert_eq!(canvas.get_color(7, 6), WHITE);
}

#[test]
fn test_line_direction_symmetry() {
    let mut forward = Canvas::new(WIDTH, HEIGHT, vec![0u8; 4 * WIDTH * HEIGHT]).unwrap();
    let mut backward = Canvas::new(WIDTH, HEIGHT, vec![0u8; 4 * WIDTH * HEIGHT]).unwrap();
    let white = Color::rgb(255, 255, 255);

    draw_line2d(1, 2, 8, 5, &mut forward, &white);
    draw_line2d(8, 5, 1, 2, &mut backward, &white);

    assert_eq!(forward.buffer(), backward.buffer());
}

#[test]
fn test_line_single_point() {
    let buffer = vec![0u8; 4 * WIDTH * HEIGHT];
    let mut canvas = Canvas::new(WIDTH, HEIGHT, buffer).unwrap();

    draw_line2d(5, 5, 5, 5, &mut canvas, &Color::rgb(255, 255, 255));

    assert_eq!(canvas.get_color(5, 5), WHITE);
    assert_eq!(canvas.get_color(4, 5), [0, 0, 0, 0]);
    assert_eq!(canvas.get_color(6, 5), [0, 0, 0, 0]);
}

#[test]
fn test_line_clipped_outside() {
    let before = vec![7u8; 4 * WIDTH * HEIGHT];
    let mut canvas = Canvas::new(WIDTH, HEIGHT, before.clone()).unwrap();

    draw_line2d(20, 20, 25, 29, &mut canvas, &Color::rgb(255, 255, 255));

    assert_eq!(canvas.buffer().as_slice(), before.as_slice());
}
