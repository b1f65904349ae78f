use farba::{point_in_triangle, Canvas, Color, RGBAColor};

fn white() -> RGBAColor {
    RGBAColor::from_rgb(255, 255, 255)
}

fn black() -> RGBAColor {
    RGBAColor::from_rgb(0, 0, 0)
}

fn count(canvas: &Canvas, p: u32) -> usize {
    canvas.get_pixels().iter().filter(|&&q| q == p).count()
}

#[test]
fn new_canvas_is_zeroed() {
    let canvas = Canvas::new(7, 5);
    assert_eq!(canvas.get_width(), 7);
    assert_eq!(canvas.get_height(), 5);
    assert_eq!(canvas.get_pixels().len(), 35);
    assert!(canvas.get_pixels().iter().all(|&p| p == 0));
}

#[test]
fn fill_sets_every_pixel() {
    let mut canvas = Canvas::new(13, 9);
    canvas.fill(RGBAColor::from_rgba(1, 2, 3, 4));
    let p = RGBAColor::from_rgba(1, 2, 3, 4).pack();
    for y in 0..9 {
        for x in 0..13 {
            assert_eq!(*canvas.get_pixel(x, y), p);
        }
    }
    assert_eq!(count(&canvas, p), 13 * 9);
}

#[test]
fn rect_and_fill_scenario() {
    let mut canvas = Canvas::new(400, 400);
    canvas.fill(white());
    canvas.rect(80, 80, 30, 80, black());
    assert_eq!(*canvas.get_pixel(85, 100), black().pack());
    assert_eq!(*canvas.get_pixel(0, 0), white().pack());
}

#[test]
fn rect_inside_changes_exactly_its_area() {
    let mut canvas = Canvas::new(50, 40);
    canvas.fill(white());
    canvas.rect(10, 5, 7, 3, black());
    assert_eq!(count(&canvas, black().pack()), 21);
    for y in 0..40 {
        for x in 0..50 {
            let inside = (10..17).contains(&x) && (5..8).contains(&y);
            let expected = if inside { black() } else { white() };
            assert_eq!(*canvas.get_pixel(x, y), expected.pack());
        }
    }
}

#[test]
fn rect_negative_extent_and_clipping() {
    let mut canvas = Canvas::new(20, 20);
    canvas.rect(2, 3, -5, -6, 7u32);
    // Mirrored: x in [-2, 2], y in [-2, 3], clipped to the canvas.
    assert_eq!(count(&canvas, 7), 3 * 4);
    assert_eq!(*canvas.get_pixel(2, 3), 7);
    assert_eq!(*canvas.get_pixel(0, 0), 7);
    assert_eq!(*canvas.get_pixel(3, 3), 0);
    assert_eq!(*canvas.get_pixel(2, 4), 0);
}

#[test]
fn rect_zero_or_off_canvas_draws_nothing() {
    let mut canvas = Canvas::new(20, 20);
    canvas.rect(5, 5, 0, 5, 7u32);
    canvas.rect(25, 5, 5, 5, 7u32);
    canvas.rect(-10, 5, 5, 5, 7u32);
    assert_eq!(count(&canvas, 7), 0);
}

#[test]
fn circle_scenario() {
    let mut canvas = Canvas::new(400, 400);
    let c = RGBAColor::from_rgb(255, 0, 0);
    canvas.circle(200, 200, 180, c.clone());
    assert_eq!(*canvas.get_pixel(200, 200), c.pack());
    assert_eq!(*canvas.get_pixel(0, 0), 0);
}

#[test]
fn circle_excludes_its_boundary() {
    let mut canvas = Canvas::new(30, 30);
    canvas.circle(10, 10, 5, 9u32);
    assert_eq!(*canvas.get_pixel(10, 10), 9);
    assert_eq!(*canvas.get_pixel(6, 10), 9);
    assert_eq!(*canvas.get_pixel(5, 10), 0);
    assert_eq!(*canvas.get_pixel(15, 10), 0);
    assert_eq!(*canvas.get_pixel(10, 5), 0);
    assert_eq!(*canvas.get_pixel(14, 10), 9);
    // dx = 3, dy = 4: exactly on the circle.
    assert_eq!(*canvas.get_pixel(13, 14), 0);
    let mut n: usize = 0;
    for y in 0..30 {
        for x in 0..30 {
            let (dx, dy) = (10 - x, 10 - y);
            if dx * dx + dy * dy < 25 {
                n += 1;
                assert_eq!(*canvas.get_pixel(x, y), 9);
            } else {
                assert_eq!(*canvas.get_pixel(x, y), 0);
            }
        }
    }
    assert_eq!(count(&canvas, 9), n);
}

#[test]
fn circle_negative_radius_is_the_same_disc() {
    let mut a = Canvas::new(30, 30);
    let mut b = Canvas::new(30, 30);
    a.circle(12, 14, 6, 3u32);
    b.circle(12, 14, -6, 3u32);
    assert_eq!(a.get_pixels(), b.get_pixels());
}

#[test]
fn circle_clipped_at_the_edge() {
    let mut canvas = Canvas::new(10, 10);
    canvas.circle(0, 0, 3, 1u32);
    assert_eq!(*canvas.get_pixel(0, 0), 1);
    assert_eq!(*canvas.get_pixel(2, 2), 1);
    assert_eq!(*canvas.get_pixel(3, 0), 0);
    assert_eq!(count(&canvas, 1), 9);
}

#[test]
fn circle_zero_radius_draws_nothing() {
    let mut canvas = Canvas::new(10, 10);
    canvas.circle(5, 5, 0, 1u32);
    assert_eq!(count(&canvas, 1), 0);
}

#[test]
fn triangle_scenario() {
    let mut canvas = Canvas::new(400, 400);
    let c = RGBAColor::from_rgb(0, 255, 0);
    canvas.triangle(100, 300, 200, 100, 300, 300, c.clone());
    assert_eq!(*canvas.get_pixel(200, 250), c.pack());
    assert_eq!(*canvas.get_pixel(10, 10), 0);
}

#[test]
fn triangle_other_winding_draws_only_edges() {
    let mut canvas = Canvas::new(400, 400);
    canvas.triangle(100, 300, 300, 300, 200, 100, 5u32);
    assert_eq!(*canvas.get_pixel(200, 250), 0);
}

#[test]
fn triangle_pixels_match_the_edge_test() {
    let mut canvas = Canvas::new(40, 40);
    let (x1, y1, x2, y2, x3, y3) = (5, 30, 20, 2, 35, 30);
    canvas.triangle(x1, y1, x2, y2, x3, y3, 4u32);
    for y in 0..40 {
        for x in 0..40 {
            let in_box = (5..=35).contains(&x) && (2..=30).contains(&y);
            let drawn = in_box && point_in_triangle(x1, y1, x2, y2, x3, y3, x, y);
            assert_eq!(*canvas.get_pixel(x, y) == 4, drawn);
        }
    }
    // The vertices are on the edges, and drawn.
    assert_eq!(*canvas.get_pixel(5, 30), 4);
    assert_eq!(*canvas.get_pixel(20, 2), 4);
    assert_eq!(*canvas.get_pixel(35, 30), 4);
}

#[test]
fn triangle_off_canvas_draws_nothing() {
    let mut canvas = Canvas::new(40, 40);
    canvas.triangle(-30, 10, -20, 0, -10, 10, 4u32);
    assert_eq!(count(&canvas, 4), 0);
}

#[test]
fn point_in_triangle_values() {
    assert!(point_in_triangle(100, 300, 200, 100, 300, 300, 200, 250));
    assert!(!point_in_triangle(100, 300, 200, 100, 300, 300, 10, 10));
    assert!(!point_in_triangle(100, 300, 300, 300, 200, 100, 200, 250));
    // On an edge.
    assert!(point_in_triangle(100, 300, 200, 100, 300, 300, 200, 300));
    // Far coordinates do not overflow.
    assert!(point_in_triangle(i32::MIN, i32::MAX, 0, i32::MIN, i32::MAX, i32::MAX, 0, 0));
}

#[test]
fn set_pixel_in_and_out_of_bounds() {
    let mut canvas = Canvas::new(4, 3);
    canvas.set_pixel(1, 2, 8u32);
    canvas.set_pixel(-1, 0, 9u32);
    canvas.set_pixel(4, 0, 9u32);
    canvas.set_pixel(0, 3, 9u32);
    canvas.set_pixel(0, -1, 9u32);
    assert_eq!(*canvas.get_pixel(1, 2), 8);
    assert_eq!(canvas.get_pixels()[4 * 2 + 1], 8);
    assert_eq!(count(&canvas, 8), 1);
    assert_eq!(count(&canvas, 9), 0);
}

#[test]
fn set_pixel_unchecked_writes_packed_color() {
    let mut canvas = Canvas::new(4, 3);
    canvas.set_pixel_unchecked(3, 1, RGBAColor::from_rgba(1, 0, 0, 0));
    assert_eq!(canvas.get_pixels()[7], 1);
}

#[test]
fn in_bounds_and_index() {
    let canvas = Canvas::new(4, 3);
    assert!(canvas.in_bounds(0, 0));
    assert!(canvas.in_bounds(3, 2));
    assert!(!canvas.in_bounds(4, 2));
    assert!(!canvas.in_bounds(3, 3));
    assert!(!canvas.in_bounds(-1, 0));
    assert_eq!(canvas.get_index(3, 2), 11);
    assert_eq!(canvas.get_index(1, 1), 5);
}

#[test]
fn pixel_mut_and_slices() {
    let mut canvas = Canvas::new(3, 2);
    *canvas.get_pixel_mut(2, 1) = 42;
    assert_eq!(*canvas.get_pixel(2, 1), 42);
    canvas.get_pixels_mut()[0] = 7;
    assert_eq!(*canvas.get_pixel(0, 0), 7);
    let v = canvas.take();
    assert_eq!(v, vec![7, 0, 0, 0, 0, 42]);
}

#[test]
fn data_is_rgba_bytes() {
    let mut canvas = Canvas::new(2, 1);
    canvas.set_pixel(0, 0, RGBAColor::from_rgba(1, 2, 3, 4));
    canvas.set_pixel(1, 0, RGBAColor::from_rgba(5, 6, 7, 8));
    assert_eq!(canvas.get_data(), vec![1, 2, 3, 4, 5, 6, 7, 8]);
}
