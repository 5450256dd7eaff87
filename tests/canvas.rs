use ray_tracer::canvas::Canvas;

type Color = (f64, f64, f64);

const BLACK: Color = (0.0, 0.0, 0.0);

fn color(red: f64, green: f64, blue: f64) -> Color {
    (red, green, blue)
}

#[test]
fn canvas_creating_a_canvas() {
    let c = Canvas::new(10, 20, BLACK);

    assert_eq!(c.width(), 10);
    assert_eq!(c.height(), 20);

    for col in 0..c.width() {
        for row in 0..c.height() {
            assert_eq!(c.get(col, row), BLACK);
        }
    }
}

#[test]
fn canvas_writing_pixels_to_a_canvas() {
    let mut c = Canvas::new(10, 20, BLACK);
    let red = color(1.0, 0.0, 0.0);

    c.set(2, 3, red);

    assert_eq!(c.get(2, 3), red);
}

#[test]
fn writing_a_pixel_leaves_the_others() {
    let mut c = Canvas::new(3, 4, BLACK);
    c.set(2, 3, color(0.0, 0.5, 1.0));
    c.set(0, 1, color(1.5, -0.5, 0.0));
    for col in 0..3 {
        for row in 0..4 {
            let expected = match (col, row) {
                (2, 3) => color(0.0, 0.5, 1.0),
                (0, 1) => color(1.5, -0.5, 0.0),
                _ => BLACK,
            };
            assert_eq!(c.get(col, row), expected);
        }
    }
}

#[test]
fn rows_and_columns_are_not_confused() {
    let mut c = Canvas::new(5, 2, 0u32);
    c.set(1, 0, 7);
    assert_eq!(c.get(1, 0), 7);
    assert_eq!(c.get(0, 1), 0);
    c.set(0, 1, 9);
    assert_eq!(c.get(1, 0), 7);
    assert_eq!(c.get(0, 1), 9);
}

#[test]
fn a_canvas_from_a_function_holds_its_value_at_every_pixel() {
    let c = Canvas::from_fn(7, 3, |col: usize, row: usize| col * 100 + row);
    assert_eq!(c.width(), 7);
    assert_eq!(c.height(), 3);
    for col in 0..7 {
        for row in 0..3 {
            assert_eq!(c.get(col, row), col * 100 + row);
        }
    }
}

#[test]
fn an_empty_canvas() {
    let c = Canvas::new(0, 5, BLACK);
    assert_eq!(c.width(), 0);
    assert_eq!(c.height(), 5);
    let d = Canvas::from_fn(4, 0, |_c: usize, _r: usize| BLACK);
    assert_eq!(d.width(), 4);
    assert_eq!(d.height(), 0);
}
