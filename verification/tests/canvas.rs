use ada::errors::unsupported_error;
use ada::{Canvas, Color, Error};

const WHITE: [u8; 4] = [255, 255, 255, 255];

#[test]
fn test_canvas_rejects_small_buffer() {
    let buffer = vec![0u8; 4 * 8 * 8 - 1];
    let r = Canvas::new(8, 8, buffer);
    assert!(matches!(r, Err(Error::Unsupported(_))));
}

#[test]
fn test_canvas_accepts_exact_buffer() {
    let buffer = vec![0u8; 4 * 8 * 8];
    let r = Canvas::new(8, 8, buffer);
    assert!(r.is_ok());
}

#[test]
fn test_canvas_rejects_empty_buffer() {
    let r = Canvas::new(2, 3, Vec::new());
    assert!(matches!(r, Err(Error::Unsupported(_))));
}

#[test]
fn test_draw_point_out_of_bounds_is_noop() {
    let before = vec![9u8; 4 * 5 * 4];
    let mut canvas = Canvas::new(5, 4, before.clone()).unwrap();
    let white = Color::rgb(255, 255, 255);

    canvas.draw_point(-1, 0, &white);
    canvas.draw_point(0, -1, &white);
    canvas.draw_point(5, 0, &white);
    canvas.draw_point(0, 4, &white);
    canvas.draw_point(i32::MIN, i32::MAX, &white);

    assert_eq!(canvas.buffer().as_slice(), before.as_slice());
}

#[test]
fn test_draw_point_writes_four_bytes() {
    let mut canvas = Canvas::new(3, 3, vec![0u8; 4 * 3 * 3]).unwrap();
    let color = Color::new(1, 2, 3, 4);

    canvas.draw_point(2, 1, &color);

    assert_eq!(canvas.get_color(2, 1), [1, 2, 3, 4]);
    assert_eq!(canvas.get_color(1, 1), [0, 0, 0, 0]);
    let offset = (1 * 3 + 2) * 4;
    assert_eq!(&canvas.buffer()[offset..offset + 4], &[1, 2, 3, 4]);
}

#[test]
fn test_clear_fills_every_pixel() {
    let mut canvas = Canvas::new(4, 3, vec![0u8; 4 * 4 * 3]).unwrap();
    let color = Color::new(10, 20, 30, 40);

    canvas.clear(&color);

    for x in 0..4 {
        for y in 0..3 {
            assert_eq!(canvas.get_color(x, y), [10, 20, 30, 40]);
        }
    }
}

#[test]
fn test_clear_twice_equals_clear_once() {
    let mut once = Canvas::new(6, 5, vec![3u8; 4 * 6 * 5]).unwrap();
    let mut twice = Canvas::new(6, 5, vec![3u8; 4 * 6 * 5]).unwrap();
    let color = Color::rgb(17, 34, 51);

    once.clear(&color);
    twice.clear(&color);
    twice.clear(&color);

    assert_eq!(once.buffer(), twice.buffer());
}

#[test]
fn test_clear_leaves_extra_bytes() {
    let mut buffer = vec![0u8; 4 * 2 * 2 + 3];
    buffer[16] = 101;
    buffer[17] = 102;
    buffer[18] = 103;
    let mut canvas = Canvas::new(2, 2, buffer).unwrap();

    canvas.clear(&Color::rgb(255, 255, 255));

    assert_eq!(&canvas.buffer()[16..19], &[101, 102, 103]);
    assert_eq!(canvas.get_color(1, 1), WHITE);
}

#[test]
fn test_color_new_and_rgb() {
    let c = Color::new(1, 2, 3, 4);
    assert_eq!(c.r, 1);
    assert_eq!(c.g, 2);
    assert_eq!(c.b, 3);
    assert_eq!(c.a, 4);

    let o = Color::rgb(9, 8, 7);
    assert_eq!(o.a, 255);
    assert_eq!(o.r, 9);
    assert_eq!(o.g, 8);
    assert_eq!(o.b, 7);
}

#[test]
fn test_unsupported_error_builds_err() {
    let r: Result<(), Error> = unsupported_error("nothing doing");
    assert_eq!(r, Err(Error::Unsupported("nothing doing")));
}
