use pixel_renderer::drawing::circle::{BresenhamCircle, Circle};
use pixel_renderer::drawing::Color;

fn rounded_distance(c: (i32, i32), p: (i32, i32)) -> i64 {
    let dx = (p.0 - c.0) as f64;
    let dy = (p.1 - c.1) as f64;
    (dx * dx + dy * dy).sqrt().round() as i64
}

#[test]
fn circle_pixels_lie_on_the_ring() {
    let center = (20, 20);
    let r = 10;
    let gen = BresenhamCircle::new(center, r, Color::opaque(255, 0, 0));
    let pixels = gen.pixels();
    assert!(pixels.len() > 0);
    for p in &pixels {
        let d = rounded_distance(center, (p.x, p.y));
        assert!(r as i64 - 1 <= d && d <= r as i64 + 1, "pixel ({}, {}) off ring: {}", p.x, p.y, d);
    }
}

#[test]
fn circle_covers_all_eight_octant_extremes() {
    let center = (0, 0);
    let r = 5;
    let pixels = BresenhamCircle::new(center, r, Color::opaque(9, 9, 9)).pixels();
    let coords: Vec<(i32, i32)> = pixels.iter().map(|p| (p.x, p.y)).collect();
    assert!(coords.contains(&(0, 5)));
    assert!(coords.contains(&(0, -5)));
    assert!(coords.contains(&(5, 0)));
    assert!(coords.contains(&(-5, 0)));
}

#[test]
fn circle_radius_zero_emits_center_copies() {
    let pixels = BresenhamCircle::new((7, -3), 0, Color::opaque(1, 1, 1)).pixels();
    assert!(pixels.len() > 0);
    for p in &pixels {
        assert_eq!((p.x, p.y), (7, -3));
    }
}

#[test]
fn circle_generator_is_one_shot() {
    let mut gen = BresenhamCircle::new((0, 0), 2, Color::opaque(1, 1, 1));
    let mut count = 0;
    while let Some(_) = gen.next() {
        count += 1;
    }
    assert!(count > 0);
    // exhausted: stays exhausted
    assert!(gen.next().is_none());
    assert!(gen.next().is_none());
}

#[test]
fn circle_first_step_emission_order() {
    // first next() emits the top symmetric point, then the buffered seven in
    // reverse construction order
    let c = (100, 100);
    let r = 4;
    let pixels = BresenhamCircle::new(c, r, Color::opaque(1, 1, 1)).pixels();
    assert_eq!((pixels[0].x, pixels[0].y), (c.0 + 0, c.1 + r));
    assert_eq!((pixels[1].x, pixels[1].y), (c.0 - r, c.1 - 0));
    assert_eq!((pixels[2].x, pixels[2].y), (c.0 + r, c.1 - 0));
    assert_eq!((pixels[3].x, pixels[3].y), (c.0 - r, c.1 + 0));
    assert_eq!((pixels[4].x, pixels[4].y), (c.0 + r, c.1 + 0));
    assert_eq!((pixels[5].x, pixels[5].y), (c.0 - 0, c.1 - r));
    assert_eq!((pixels[6].x, pixels[6].y), (c.0 + 0, c.1 - r));
    assert_eq!((pixels[7].x, pixels[7].y), (c.0 - 0, c.1 + r));
}
