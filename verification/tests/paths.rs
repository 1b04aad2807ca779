use pixel_renderer::drawing::line::{BresenhamLine, Line, LineBuilder, WuLine};
use pixel_renderer::drawing::{Color, Pixel};

fn coords(v: &[Pixel]) -> Vec<(i32, i32, u8)> {
    v.iter().map(|p| (p.x, p.y, p.color.a)).collect()
}

#[test]
fn closed_triangle_equals_three_segments() {
    let a = (0, 0);
    let b = (10, 2);
    let c = (4, 9);
    let color = Color::opaque(255, 255, 255);
    let shape = LineBuilder::<BresenhamLine>::new().from(a).to(b).to(c).close().shape();
    let got = shape.pixels();
    let mut expected = BresenhamLine::pixels(a, b, color);
    expected.extend(BresenhamLine::pixels(b, c, color));
    expected.extend(BresenhamLine::pixels(c, a, color));
    assert_eq!(coords(&got), coords(&expected));
}

#[test]
fn closed_triangle_equals_three_segments_wu() {
    let a = (130, 400);
    let b = (160, 305);
    let c = (190, 400);
    let color = Color::opaque(255, 255, 255);
    let shape = LineBuilder::<WuLine>::new().from(a).to(b).to(c).close().shape();
    let got = shape.pixels();
    let mut expected = WuLine::pixels(a, b, color);
    expected.extend(WuLine::pixels(b, c, color));
    expected.extend(WuLine::pixels(c, a, color));
    assert_eq!(coords(&got), coords(&expected));
}

#[test]
fn from_transition_draws_no_segment() {
    // two disjoint subpaths: the move between them must not produce pixels
    let color = Color::opaque(255, 255, 255);
    let shape = LineBuilder::<BresenhamLine>::new()
        .from((0, 0))
        .to((5, 0))
        .from((100, 100))
        .to((105, 100))
        .shape();
    let got = shape.pixels();
    let mut expected = BresenhamLine::pixels((0, 0), (5, 0), color);
    expected.extend(BresenhamLine::pixels((100, 100), (105, 100), color));
    assert_eq!(coords(&got), coords(&expected));
    // nothing between the two clusters
    for p in &got {
        assert!(p.x <= 5 || p.x >= 100);
    }
}

#[test]
fn close_returns_to_current_subpath_origin() {
    let color = Color::opaque(1, 2, 3);
    let shape = LineBuilder::<BresenhamLine>::new()
        .color(color)
        .from((0, 0))
        .to((3, 0))
        .from((10, 10))
        .to((13, 10))
        .close()
        .shape();
    let got = shape.pixels();
    let mut expected = BresenhamLine::pixels((0, 0), (3, 0), color);
    expected.extend(BresenhamLine::pixels((10, 10), (13, 10), color));
    // close draws back to (10, 10), the second subpath's origin
    expected.extend(BresenhamLine::pixels((13, 10), (10, 10), color));
    assert_eq!(coords(&got), coords(&expected));
}

#[test]
fn builder_color_reaches_every_segment() {
    let color = Color::new(40, 50, 60, 255);
    let shape = LineBuilder::<BresenhamLine>::new().color(color).from((0, 0)).to((4, 4)).shape();
    for p in shape.pixels() {
        assert_eq!(p.color.r, 40);
        assert_eq!(p.color.g, 50);
        assert_eq!(p.color.b, 60);
    }
}

#[test]
fn close_on_already_closed_path_adds_degenerate_segment() {
    // closing twice: the duplicate zero-length closing segment emits one
    // aliased pixel (Bresenham's degenerate case)
    let color = Color::opaque(255, 255, 255);
    let once = LineBuilder::<BresenhamLine>::new().from((0, 0)).to((2, 0)).close();
    let twice = once.close();
    let got = twice.shape().pixels();
    let mut expected = BresenhamLine::pixels((0, 0), (2, 0), color);
    expected.extend(BresenhamLine::pixels((2, 0), (0, 0), color));
    expected.extend(BresenhamLine::pixels((0, 0), (0, 0), color));
    assert_eq!(coords(&got), coords(&expected));
}
