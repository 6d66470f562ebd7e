use ada::shape::{draw_ellipse2d, draw_ellipse2d_filled};
use ada::{Canvas, Color};

const WHITE: [u8; 4] = [255, 255, 255, 255];

fn white_pixels(canvas: &Canvas, w: i32, h: i32) -> Vec<(i32, i32)> {
    let mut out = Vec::new();
    for y in 0..h {
        for x in 0..w {
            if canvas.get_color(x, y) == WHITE {
                out.push((x, y));
            }
        }
    }
    out
}

#[test]
fn test_circle_radius_three_exact_pixels() {
    let mut canvas = Canvas::new(11, 11, vec![0u8; 4 * 11 * 11]).unwrap();

    draw_ellipse2d(5, 5, 3, 3, &mut canvas, &Color::rgb(255, 255, 255));

    // the octant offsets of the midpoint walk for radius 3, reflected eight ways
    let octant = [(0, 3), (1, 3), (2, 2)];
    let mut expected: Vec<(i32, i32)> = Vec::new();
    for &(x, y) in octant.iter() {
        for &(u, v) in [
            (x, y),
            (y, x),
            (-y, x),
            (-x, y),
            (-x, -y),
            (-y, -x),
            (y, -x),
            (x, -y),
        ]
        .iter()
        {
            if !expected.contains(&(5 + u, 5 + v)) {
                expected.push((5 + u, 5 + v));
            }
        }
    }
    expected.sort();
    let mut got = white_pixels(&canvas, 11, 11);
    got.sort();
    assert_eq!(got, expected);
}

#[test]
fn test_circle_eightfold_symmetry() {
    let mut canvas = Canvas::new(21, 21, vec![0u8; 4 * 21 * 21]).unwrap();

    draw_ellipse2d(10, 10, 7, 7, &mut canvas, &Color::rgb(255, 255, 255));

    let plotted = white_pixels(&canvas, 21, 21);
    assert!(!plotted.is_empty());
    for &(px, py) in plotted.iter() {
        let (u, v) = (px - 10, py - 10);
        for &(a, b) in [
            (-u, v),
            (u, -v),
            (-u, -v),
            (v, u),
            (-v, u),
            (v, -u),
            (-v, -u),
        ]
        .iter()
        {
            assert!(plotted.contains(&(10 + a, 10 + b)));
        }
    }
}

#[test]
fn test_circle_cardinal_points() {
    let mut canvas = Canvas::new(21, 21, vec![0u8; 4 * 21 * 21]).unwrap();

    draw_ellipse2d(10, 10, 6, 6, &mut canvas, &Color::rgb(255, 255, 255));

    assert_eq!(canvas.get_color(10, 16), WHITE);
    assert_eq!(canvas.get_color(10, 4), WHITE);
    assert_eq!(canvas.get_color(16, 10), WHITE);
    assert_eq!(canvas.get_color(4, 10), WHITE);
    assert_eq!(canvas.get_color(10, 10), [0, 0, 0, 0]);
}

#[test]
fn test_ellipse_extreme_points() {
    let mut canvas = Canvas::new(31, 21, vec![0u8; 4 * 31 * 21]).unwrap();

    draw_ellipse2d(15, 10, 9, 5, &mut canvas, &Color::rgb(255, 255, 255));

    assert_eq!(canvas.get_color(6, 10), WHITE);
    assert_eq!(canvas.get_color(24, 10), WHITE);
    assert_eq!(canvas.get_color(15, 5), WHITE);
    assert_eq!(canvas.get_color(15, 15), WHITE);
    assert_eq!(canvas.get_color(15, 10), [0, 0, 0, 0]);
}

#[test]
fn test_circle_filled_is_solid() {
    let mut canvas = Canvas::new(17, 17, vec![0u8; 4 * 17 * 17]).unwrap();

    draw_ellipse2d_filled(8, 8, 5, 5, &mut canvas, &Color::rgb(255, 255, 255));

    // every pixel strictly inside the circle is colored
    for y in 0..17i32 {
        for x in 0..17i32 {
            let (dx, dy) = (x - 8, y - 8);
            if dx * dx + dy * dy < 5 * 5 {
                assert_eq!(canvas.get_color(x, y), WHITE);
            }
        }
    }
    assert_eq!(canvas.get_color(0, 0), [0, 0, 0, 0]);
}

#[test]
fn test_ellipse_filled_covers_axes() {
    let mut canvas = Canvas::new(31, 21, vec![0u8; 4 * 31 * 21]).unwrap();

    draw_ellipse2d_filled(15, 10, 9, 5, &mut canvas, &Color::rgb(255, 255, 255));

    for x in 7..24 {
        assert_eq!(canvas.get_color(x, 10), WHITE);
    }
    for y in 6..15 {
        assert_eq!(canvas.get_color(15, y), WHITE);
    }
}

#[test]
fn test_circle_negative_radius_is_noop() {
    let before = vec![2u8; 4 * 9 * 9];
    let mut canvas = Canvas::new(9, 9, before.clone()).unwrap();

    draw_ellipse2d(4, 4, -3, -3, &mut canvas, &Color::rgb(255, 255, 255));

    assert_eq!(canvas.buffer().as_slice(), before.as_slice());
}
