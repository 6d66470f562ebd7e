use ada::shape::{draw_rect2d, draw_rect2d_filled, Rectangle2D};
use ada::{Canvas, Color};

const WHITE: [u8; 4] = [255, 255, 255, 255];

#[test]
fn test_rectangle_new() {
    let r = Rectangle2D::new(1, 2, 3, 4, true);
    assert_eq!(r.x, 1);
    assert_eq!(r.y, 2);
    assert_eq!(r.width, 3);
    assert_eq!(r.height, 4);
    assert!(r.is_filled);
}

#[test]
fn test_rect_outline() {
    let mut canvas = Canvas::new(12, 12, vec![0u8; 4 * 12 * 12]).unwrap();

    draw_rect2d(2, 3, 6, 5, &mut canvas, &Color::rgb(255, 255, 255));

    // the four edges, corners included
    for x in 2..9 {
        assert_eq!(canvas.get_color(x, 3), WHITE);
        assert_eq!(canvas.get_color(x, 8), WHITE);
    }
    for y in 3..9 {
        assert_eq!(canvas.get_color(2, y), WHITE);
        assert_eq!(canvas.get_color(8, y), WHITE);
    }
    // the interior stays untouched
    assert_eq!(canvas.get_color(4, 5), [0, 0, 0, 0]);
}

#[test]
fn test_rect_filled_covers_area() {
    let mut canvas = Canvas::new(12, 12, vec![0u8; 4 * 12 * 12]).unwrap();

    draw_rect2d_filled(2, 3, 6, 5, &mut canvas, &Color::rgb(255, 255, 255));

    for x in 0..12 {
        for y in 0..12 {
            let inside = 2 <= x && x < 8 && 3 <= y && y < 8;
            let expected = if inside { WHITE } else { [0, 0, 0, 0] };
            assert_eq!(canvas.get_color(x, y), expected);
        }
    }
}

#[test]
fn test_rect_filled_zero_extent_is_noop() {
    let before = vec![4u8; 4 * 6 * 6];
    let mut canvas = Canvas::new(6, 6, before.clone()).unwrap();

    draw_rect2d_filled(2, 2, 0, 3, &mut canvas, &Color::rgb(255, 255, 255));
    draw_rect2d_filled(2, 2, 3, 0, &mut canvas, &Color::rgb(255, 255, 255));

    assert_eq!(canvas.buffer().as_slice(), before.as_slice());
}

#[test]
fn test_rect_clipped_at_edge() {
    let mut canvas = Canvas::new(6, 6, vec![0u8; 4 * 6 * 6]).unwrap();

    draw_rect2d(4, 4, 5, 5, &mut canvas, &Color::rgb(255, 255, 255));

    assert_eq!(canvas.get_color(4, 4), WHITE);
    assert_eq!(canvas.get_color(5, 4), WHITE);
    assert_eq!(canvas.get_color(4, 5), WHITE);
    assert_eq!(canvas.get_color(0, 0), [0, 0, 0, 0]);
}
