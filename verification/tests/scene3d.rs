use pixel_renderer::camera::{Camera, FitStrategy, Rat};
use pixel_renderer::drawing::Color;
use pixel_renderer::fixed::{Mat4x, Vec3x};
use pixel_renderer::renderer::renderer_3d::{Mesh3D, Rasterizer, VertexAttribute};
use pixel_renderer::renderer::World;

const ONE: i64 = 65536;
const HALF: i64 = 32768;

fn unit_cube_at_minus_four() -> Mesh3D {
    // a unit cube centered at (0, 0, -4)
    let zn = -4 * ONE + HALF; // near face, z = -3.5
    let zf = -4 * ONE - HALF; // far face, z = -4.5
    let vertices = vec![
        Vec3x::new(HALF, -HALF, zf),
        Vec3x::new(HALF, -HALF, zn),
        Vec3x::new(HALF, HALF, zf),
        Vec3x::new(HALF, HALF, zn),
        Vec3x::new(-HALF, -HALF, zf),
        Vec3x::new(-HALF, -HALF, zn),
        Vec3x::new(-HALF, HALF, zf),
        Vec3x::new(-HALF, HALF, zn),
    ];
    let indices = vec![
        (0, 1, 2),
        (1, 3, 2),
        (4, 6, 5),
        (5, 6, 7),
        (2, 3, 6),
        (3, 7, 6),
        (0, 4, 1),
        (1, 4, 5),
        (1, 5, 3),
        (3, 5, 7),
        (0, 2, 4),
        (2, 6, 4),
    ];
    let attributes = vec![
        VertexAttribute { color: Color::opaque(255, 255, 255) },
        VertexAttribute { color: Color::opaque(255, 128, 255) },
        VertexAttribute { color: Color::opaque(0, 255, 128) },
        VertexAttribute { color: Color::opaque(128, 0, 255) },
        VertexAttribute { color: Color::opaque(255, 0, 255) },
        VertexAttribute { color: Color::opaque(0, 255, 255) },
        VertexAttribute { color: Color::opaque(0, 0, 0) },
        VertexAttribute { color: Color::opaque(255, 0, 0) },
    ];
    Mesh3D { vertices, indices, attributes }
}

#[test]
fn cube_silhouette_is_centered_in_the_frame() {
    let width = 512u32;
    let height = 512u32;
    let camera = Camera {
        aperture: (35, 24),
        focal_length: Rat::from_int(10),
        near: Rat::new(1, 10),
        far: Rat::from_int(10),
        fit_strategy: FitStrategy::Overscan,
        transform: Mat4x::identity(),
    };
    let world = World {
        camera,
        renderer: Rasterizer { output_width: width, output_height: height },
        objects: vec![unit_cube_at_minus_four()],
    };
    let mut frame = vec![0u8; (width * height * 4) as usize];
    world.render(&mut frame);

    let mut min_x = i64::MAX;
    let mut max_x = i64::MIN;
    let mut min_y = i64::MAX;
    let mut max_y = i64::MIN;
    let mut drawn = 0i64;
    for y in 0..height as i64 {
        for x in 0..width as i64 {
            let i = ((y * width as i64 + x) * 4) as usize;
            let px = [frame[i], frame[i + 1], frame[i + 2], frame[i + 3]];
            if px != [0, 0, 0, 255] {
                drawn += 1;
                if x < min_x {
                    min_x = x;
                }
                if x > max_x {
                    max_x = x;
                }
                if y < min_y {
                    min_y = y;
                }
                if y > max_y {
                    max_y = y;
                }
            }
        }
    }
    // the cube must actually appear, with a plausible footprint
    assert!(drawn > 100, "drawn = {}", drawn);
    assert!(max_x - min_x > 20, "width = {}", max_x - min_x);
    assert!(max_y - min_y > 20, "height = {}", max_y - min_y);
    // ... and its bounding box is symmetric about both frame centers
    // (tolerance of the integer rounding at the two opposite edges)
    assert!(((min_x + max_x) - 511).abs() <= 2, "x bounds {} {}", min_x, max_x);
    assert!(((min_y + max_y) - 511).abs() <= 2, "y bounds {} {}", min_y, max_y);
}
