use ada::shape::{create_convex_hull, draw_polygon2d, draw_polygon2d_filled};
use ada::{Canvas, Color};

const WIDTH: usize = 400;
const HEIGHT: usize = 400;
const WHITE: [u8; 4] = [255, 255, 255, 255];

#[test]
fn test_polygon_correct_convex_hull() {
    let buffer = vec![0u8; 4 * WIDTH * HEIGHT];
    let mut canvas = Canvas::new(WIDTH, HEIGHT, buffer).unwrap();

    let xi: [i32; 10] = [127, 243, 62, 110, 93, 193, 135, 70, 258, 248];
    let yi: [i32; 10] = [320, 15, 162, 54, 311, 314, 290, 10, 163, 155];

    draw_polygon2d(&xi, &yi, &mut canvas, &Color::rgb(255, 255, 255));

    assert_eq!(canvas.get_color(70, 10), WHITE);
    assert_eq!(canvas.get_color(243, 15), WHITE);
    assert_eq!(canvas.get_color(258, 163), WHITE);
    assert_eq!(canvas.get_color(193, 314), WHITE);
    assert_eq!(canvas.get_color(127, 320), WHITE);
    assert_eq!(canvas.get_color(93, 311), WHITE);
    assert_eq!(canvas.get_color(62, 162), WHITE);
}

#[test]
fn test_convex_hull_vertex_order() {
    let xi: [i32; 10] = [127, 243, 62, 110, 93, 193, 135, 70, 258, 248];
    let yi: [i32; 10] = [320, 15, 162, 54, 311, 314, 290, 10, 163, 155];

    let hull = create_convex_hull(&xi, &yi);
    let points: Vec<(i32, i32)> = hull.iter().map(|&i| (xi[i], yi[i])).collect();
    assert_eq!(
        points,
        vec![
            (70, 10),
            (243, 15),
            (258, 163),
            (193, 314),
            (127, 320),
            (93, 311),
            (62, 162),
        ]
    );
}

#[test]
fn test_polygon_mismatched_lengths_is_noop() {
    let before = vec![5u8; 4 * 16 * 16];
    let mut canvas = Canvas::new(16, 16, before.clone()).unwrap();

    let xi: [i32; 3] = [1, 5, 9];
    let yi: [i32; 2] = [1, 5];
    draw_polygon2d(&xi, &yi, &mut canvas, &Color::rgb(255, 255, 255));

    assert_eq!(canvas.buffer().as_slice(), before.as_slice());
}

#[test]
fn test_polygon_too_few_points_is_noop() {
    let before = vec![0u8; 4 * 16 * 16];
    let mut canvas = Canvas::new(16, 16, before.clone()).unwrap();

    let xi: [i32; 2] = [1, 9];
    let yi: [i32; 2] = [1, 9];
    draw_polygon2d(&xi, &yi, &mut canvas, &Color::rgb(255, 255, 255));

    assert_eq!(canvas.buffer().as_slice(), before.as_slice());
}

#[test]
fn test_polygon_square_hull() {
    let mut canvas = Canvas::new(16, 16, vec![0u8; 4 * 16 * 16]).unwrap();

    // four corners and an interior point: the hull is the square
    let xi: [i32; 5] = [2, 12, 12, 2, 7];
    let yi: [i32; 5] = [2, 2, 12, 12, 7];
    draw_polygon2d(&xi, &yi, &mut canvas, &Color::rgb(255, 255, 255));

    for t in 2..13 {
        assert_eq!(canvas.get_color(t, 2), WHITE);
        assert_eq!(canvas.get_color(t, 12), WHITE);
        assert_eq!(canvas.get_color(2, t), WHITE);
        assert_eq!(canvas.get_color(12, t), WHITE);
    }
    // the interior point is not on the hull outline
    assert_eq!(canvas.get_color(7, 7), [0, 0, 0, 0]);
}

#[test]
fn test_polygon_filled_is_reserved_noop() {
    let before = vec![1u8; 4 * 16 * 16];
    let mut canvas = Canvas::new(16, 16, before.clone()).unwrap();

    let xi: [i32; 4] = [2, 12, 12, 2];
    let yi: [i32; 4] = [2, 2, 12, 12];
    draw_polygon2d_filled(&xi, &yi, &mut canvas, &Color::rgb(255, 255, 255));

    assert_eq!(canvas.buffer().as_slice(), before.as_slice());
}
