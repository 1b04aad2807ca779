use pixel_renderer::camera::Camera;
use pixel_renderer::drawing::{Color, Pixel, Shape2D};
use pixel_renderer::renderer::renderer_3d::{rasterize_triangle, RasterPoint, VertexAttribute};
use pixel_renderer::renderer::drawifier::Drawifier;
use pixel_renderer::renderer::Renderer;

const ONE: i64 = 65536;

fn attr(r: u8, g: u8, b: u8) -> VertexAttribute {
    VertexAttribute { color: Color::opaque(r, g, b) }
}

fn fresh_depth(w: u32, h: u32) -> Vec<i64> {
    vec![i64::MAX; (w * h) as usize]
}

fn fill(
    p0: RasterPoint,
    p1: RasterPoint,
    p2: RasterPoint,
    a: VertexAttribute,
    w: u32,
    h: u32,
    depth: &mut Vec<i64>,
) -> Vec<Pixel> {
    let mut pix = Vec::new();
    rasterize_triangle(&p0, &p1, &p2, a, a, a, w, h, depth, &mut pix);
    pix
}

#[test]
fn perspective_matrix_entries_for_the_default_camera() {
    // default camera at 512x512: canvas is 35/100 on both sides, near 1/10,
    // far 10; all entries in fixed point with 16 fraction bits
    let m = pixel_renderer::renderer::renderer_3d::perspective_matrix(&Camera::default(), 512, 512);
    // 2 * near / canvas_width = (2/10) / (35/100) = 4/7
    assert_eq!(m.x_axis.x, (4 * 65536) / 7);
    assert_eq!(m.y_axis.y, (4 * 65536) / 7);
    // -(far + near) / (far - near) = -101/99, floored
    assert_eq!(m.z_axis.z, -66860);
    assert_eq!(m.z_axis.w, -65536);
    // -2 * far * near / (far - near) = -2/9.9, floored
    assert_eq!(m.w_axis.z, -13240);
    assert_eq!(m.w_axis.w, 0);
}

#[test]
fn filled_pixel_count_approximates_triangle_area() {
    let w = 200;
    let h = 200;
    let mut depth = fresh_depth(w, h);
    let p0 = RasterPoint { x: 10, y: 10, z: ONE };
    let p1 = RasterPoint { x: 110, y: 10, z: ONE };
    let p2 = RasterPoint { x: 10, y: 110, z: ONE };
    let pix = fill(p0, p1, p2, attr(200, 0, 0), w, h, &mut depth);
    // screen-space area is 100 * 100 / 2 = 5000; allow edge rounding of the
    // order of the perimeter
    let count = pix.len() as i64;
    assert!((count - 5000).abs() < 350, "count = {}", count);
}

#[test]
fn uniform_triangle_shades_with_its_vertex_color() {
    let w = 200;
    let h = 200;
    let mut depth = fresh_depth(w, h);
    let p0 = RasterPoint { x: 10, y: 10, z: ONE };
    let p1 = RasterPoint { x: 110, y: 10, z: ONE };
    let p2 = RasterPoint { x: 10, y: 110, z: ONE };
    let pix = fill(p0, p1, p2, attr(120, 40, 220), w, h, &mut depth);
    for p in &pix {
        assert_eq!(p.color.r, 120);
        assert_eq!(p.color.g, 40);
        assert_eq!(p.color.b, 220);
        assert_eq!(p.color.a, 255);
    }
}

#[test]
fn degenerate_triangle_contributes_nothing() {
    let w = 100;
    let h = 100;
    let mut depth = fresh_depth(w, h);
    // colinear vertices: zero signed area
    let p0 = RasterPoint { x: 10, y: 10, z: ONE };
    let p1 = RasterPoint { x: 20, y: 20, z: ONE };
    let p2 = RasterPoint { x: 30, y: 30, z: ONE };
    let pix = fill(p0, p1, p2, attr(1, 2, 3), w, h, &mut depth);
    assert_eq!(pix.len(), 0);
    assert!(depth.iter().all(|d| *d == i64::MAX));
}

#[test]
fn reversed_winding_is_not_covered() {
    // the coverage test requires all three edge values nonnegative, which
    // fixes the triangle winding to one orientation
    let w = 200;
    let h = 200;
    let mut depth = fresh_depth(w, h);
    let p0 = RasterPoint { x: 10, y: 10, z: ONE };
    let p1 = RasterPoint { x: 110, y: 10, z: ONE };
    let p2 = RasterPoint { x: 10, y: 110, z: ONE };
    // swap two vertices: same geometry, opposite winding
    let pix = fill(p0, p2, p1, attr(9, 9, 9), w, h, &mut depth);
    assert_eq!(pix.len(), 0);
}

#[test]
fn nearer_triangle_wins_regardless_of_draw_order() {
    let w = 200;
    let h = 200;
    let near_tri = (
        RasterPoint { x: 10, y: 10, z: ONE },
        RasterPoint { x: 110, y: 10, z: ONE },
        RasterPoint { x: 10, y: 110, z: ONE },
    );
    let far_tri = (
        RasterPoint { x: 10, y: 10, z: 2 * ONE },
        RasterPoint { x: 110, y: 10, z: 2 * ONE },
        RasterPoint { x: 10, y: 110, z: 2 * ONE },
    );
    let red = attr(200, 0, 0);
    let green = attr(0, 200, 0);
    let camera = Camera::default();

    // near drawn first: the far triangle is fully occluded
    let mut depth1 = fresh_depth(w, h);
    let f1a = fill(near_tri.0, near_tri.1, near_tri.2, red, w, h, &mut depth1);
    let f1b = fill(far_tri.0, far_tri.1, far_tri.2, green, w, h, &mut depth1);
    assert_eq!(f1b.len(), 0);

    // far drawn first: both emit, compositing shows the nearer on top
    let mut depth2 = fresh_depth(w, h);
    let f2a = fill(far_tri.0, far_tri.1, far_tri.2, green, w, h, &mut depth2);
    let f2b = fill(near_tri.0, near_tri.1, near_tri.2, red, w, h, &mut depth2);
    assert!(f2a.len() > 0);
    assert!(f2b.len() > 0);

    let d = Drawifier { output_width: w, output_height: h };
    let mut frame1 = vec![0u8; (w * h * 4) as usize];
    d.render(&camera, &vec![Shape2D::Complex(f1a), Shape2D::Complex(f1b)], &mut frame1);
    let mut frame2 = vec![0u8; (w * h * 4) as usize];
    d.render(&camera, &vec![Shape2D::Complex(f2a), Shape2D::Complex(f2b)], &mut frame2);

    let idx = ((30 * w + 30) * 4) as usize;
    assert_eq!(&frame1[idx..idx + 4], &[200, 0, 0, 255]);
    assert_eq!(&frame2[idx..idx + 4], &[200, 0, 0, 255]);
    // the whole frame agrees between the two draw orders
    assert_eq!(frame1, frame2);
}

#[test]
fn depth_buffer_keeps_the_nearest_depth() {
    let w = 200;
    let h = 200;
    let mut depth = fresh_depth(w, h);
    let far_tri = (
        RasterPoint { x: 10, y: 10, z: 2 * ONE },
        RasterPoint { x: 110, y: 10, z: 2 * ONE },
        RasterPoint { x: 10, y: 110, z: 2 * ONE },
    );
    let near_tri = (
        RasterPoint { x: 10, y: 10, z: ONE },
        RasterPoint { x: 110, y: 10, z: ONE },
        RasterPoint { x: 10, y: 110, z: ONE },
    );
    let _ = fill(far_tri.0, far_tri.1, far_tri.2, attr(1, 1, 1), w, h, &mut depth);
    let idx = (30 * w + 30) as usize;
    assert_eq!(depth[idx], 2 * ONE);
    let _ = fill(near_tri.0, near_tri.1, near_tri.2, attr(2, 2, 2), w, h, &mut depth);
    assert_eq!(depth[idx], ONE);
}
