use pixel_renderer::drawing::line::{BresenhamLine, Line, WuLine};
use pixel_renderer::drawing::{Color, Pixel};

fn white() -> Color {
    Color::opaque(255, 255, 255)
}

fn endpoints_and_count(a: (i32, i32), b: (i32, i32)) {
    let pixels = BresenhamLine::pixels(a, b, white());
    let dx = (b.0 as i64 - a.0 as i64).abs();
    let dy = (b.1 as i64 - a.1 as i64).abs();
    let expected = if dx > dy { dx } else { dy } + 1;
    assert_eq!(pixels.len() as i64, expected);
    let first = pixels[0];
    assert_eq!((first.x, first.y), a);
    let last = pixels[pixels.len() - 1];
    assert_eq!((last.x, last.y), b);
    for p in &pixels {
        assert_eq!(p.color.a, 255);
    }
}

#[test]
fn bresenham_reaches_target_exactly() {
    endpoints_and_count((0, 0), (10, 3));
    endpoints_and_count((0, 0), (3, 10));
    endpoints_and_count((5, 5), (-7, 2));
    endpoints_and_count((5, 5), (2, -7));
    endpoints_and_count((-3, -4), (-3, 9));
    endpoints_and_count((-3, -4), (11, -4));
    endpoints_and_count((0, 0), (9, 9));
    endpoints_and_count((0, 0), (-9, 9));
    endpoints_and_count((100, 200), (100, 200));
}

#[test]
fn bresenham_degenerate_single_point() {
    let pixels = BresenhamLine::pixels((4, -2), (4, -2), white());
    assert_eq!(pixels.len(), 1);
    assert_eq!((pixels[0].x, pixels[0].y), (4, -2));
}

#[test]
fn bresenham_unit_steps() {
    let pixels = BresenhamLine::pixels((0, 0), (7, 5), white());
    for w in pixels.windows(2) {
        assert!((w[1].x - w[0].x).abs() <= 1);
        assert!((w[1].y - w[0].y).abs() <= 1);
    }
}

#[test]
fn bresenham_exact_flat_line() {
    // slope 1/2: the y offset rounds half up
    let pixels = BresenhamLine::pixels((0, 0), (4, 2), white());
    let coords: Vec<(i32, i32)> = pixels.iter().map(|p| (p.x, p.y)).collect();
    assert_eq!(coords, vec![(0, 0), (1, 1), (2, 1), (3, 2), (4, 2)]);
}

#[test]
fn wu_horizontal_interior_coverage_sums_to_one() {
    let pixels = WuLine::pixels((0, 5), (10, 5), white());
    // four endpoint pixels, then two per interior column
    assert_eq!(pixels.len(), 4 + 2 * 9);
    for k in 0..9 {
        let hi = pixels[4 + 2 * k];
        let lo = pixels[5 + 2 * k];
        assert_eq!(hi.x, lo.x);
        assert_eq!(lo.y, hi.y + 1);
        assert_eq!(hi.color.a as u32 + lo.color.a as u32, 255);
        assert_eq!(hi.color.a, 255);
        assert_eq!(lo.color.a, 0);
    }
}

#[test]
fn wu_vertical_interior_coverage_sums_to_one() {
    let pixels = WuLine::pixels((5, 0), (5, 10), white());
    assert_eq!(pixels.len(), 4 + 2 * 9);
    for k in 0..9 {
        let hi = pixels[4 + 2 * k];
        let lo = pixels[5 + 2 * k];
        assert_eq!(hi.y, lo.y);
        assert_eq!(lo.x, hi.x + 1);
        assert_eq!(hi.color.a as u32 + lo.color.a as u32, 255);
    }
}

#[test]
fn wu_endpoint_pixels_carry_half_coverage() {
    let pixels = WuLine::pixels((0, 0), (8, 4), white());
    assert_eq!(pixels[0].color.a, 128);
    assert_eq!(pixels[1].color.a, 0);
    assert_eq!(pixels[2].color.a, 128);
    assert_eq!(pixels[3].color.a, 0);
    assert_eq!((pixels[0].x, pixels[0].y), (0, 0));
    assert_eq!((pixels[2].x, pixels[2].y), (8, 4));
}

#[test]
fn wu_diagonal_interior_split() {
    // slope 1/2: odd columns sit exactly between two rows
    let pixels = WuLine::pixels((0, 0), (4, 2), white());
    // column 1: intercept 0.5 -> both pixels near half coverage
    let hi = pixels[4];
    let lo = pixels[5];
    assert_eq!((hi.x, hi.y), (1, 0));
    assert_eq!((lo.x, lo.y), (1, 1));
    assert_eq!(hi.color.a, 128);
    assert_eq!(lo.color.a, 128);
    // column 2: intercept exactly 1 -> full pixel on the line
    let hi2 = pixels[6];
    let lo2 = pixels[7];
    assert_eq!((hi2.x, hi2.y), (2, 1));
    assert_eq!(hi2.color.a, 255);
    assert_eq!(lo2.color.a, 0);
}

#[test]
fn wu_zero_length_segment_emits_nothing() {
    let pixels = WuLine::pixels((3, 3), (3, 3), white());
    assert_eq!(pixels.len(), 0);
}

#[test]
fn wu_carries_color_channels() {
    let c = Color::new(10, 20, 30, 255);
    let pixels = WuLine::pixels((0, 0), (5, 0), c);
    for p in &pixels {
        assert_eq!(p.color.r, 10);
        assert_eq!(p.color.g, 20);
        assert_eq!(p.color.b, 30);
    }
}

#[test]
fn wu_quantization_wraps_near_full_coverage() {
    // the 8-bit quantization maps a fraction to round(256 * f) truncated to
    // a byte, so a fraction just below 1 wraps to 0 instead of saturating
    let pixels = WuLine::pixels((0, 0), (1000, 1), white());
    // column 999: fractional intercept 999/1000; round(256 * 0.999) = 256,
    // truncated to 0 -- and the complementary fraction rounds to 0 as well
    let hi = pixels[4 + 2 * 998];
    let lo = pixels[5 + 2 * 998];
    assert_eq!((hi.x, lo.x), (999, 999));
    assert_eq!(hi.color.a, 0);
    assert_eq!(lo.color.a, 0);
}

#[test]
fn shapes_wrap_pixels() {
    let pixels = vec![Pixel { x: 1, y: 2, color: Color::opaque(9, 9, 9) }];
    let shape = pixel_renderer::drawing::Shape2D::from_pixels(pixels);
    let back = shape.pixels();
    assert_eq!(back.len(), 1);
    assert_eq!(back[0].x, 1);
    assert_eq!(back[0].y, 2);
}
