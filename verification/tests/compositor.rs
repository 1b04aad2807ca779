use pixel_renderer::camera::Camera;
use pixel_renderer::drawing::{Color, Pixel, Shape2D};
use pixel_renderer::renderer::drawifier::Drawifier;
use pixel_renderer::renderer::Renderer;

fn frame_of(w: u32, h: u32) -> Vec<u8> {
    vec![0u8; (w * h * 4) as usize]
}

fn render(w: u32, h: u32, shapes: Vec<Shape2D>) -> Vec<u8> {
    let d = Drawifier { output_width: w, output_height: h };
    let mut frame = frame_of(w, h);
    let camera = Camera::default();
    d.render(&camera, &shapes, &mut frame);
    frame
}

fn at(frame: &[u8], w: u32, x: u32, y: u32) -> [u8; 4] {
    let i = ((y * w + x) * 4) as usize;
    [frame[i], frame[i + 1], frame[i + 2], frame[i + 3]]
}

#[test]
fn clear_fills_opaque_black() {
    let frame = render(4, 3, vec![]);
    for y in 0..3 {
        for x in 0..4 {
            assert_eq!(at(&frame, 4, x, y), [0, 0, 0, 255]);
        }
    }
}

#[test]
fn opaque_pixel_fully_replaces_destination() {
    let px = Pixel { x: 2, y: 1, color: Color::new(10, 200, 30, 255) };
    let frame = render(4, 3, vec![Shape2D::Pixel(px)]);
    assert_eq!(at(&frame, 4, 2, 1), [10, 200, 30, 255]);
}

#[test]
fn transparent_pixel_changes_nothing() {
    let px = Pixel { x: 2, y: 1, color: Color::new(10, 200, 30, 0) };
    let frame = render(4, 3, vec![Shape2D::Pixel(px)]);
    assert_eq!(at(&frame, 4, 2, 1), [0, 0, 0, 255]);
}

#[test]
fn half_transparent_pixel_blends_source_over() {
    // alpha 128 over black: channel = round(c * 128 / 255)
    let px = Pixel { x: 0, y: 0, color: Color::new(255, 100, 0, 128) };
    let frame = render(2, 2, vec![Shape2D::Pixel(px)]);
    let got = at(&frame, 2, 0, 0);
    assert_eq!(got[0], ((255u32 * 128 + 127) / 255) as u8);
    assert_eq!(got[1], ((100u32 * 128 + 127) / 255) as u8);
    assert_eq!(got[2], 0);
    assert_eq!(got[3], 255);
}

#[test]
fn out_of_bounds_pixels_are_dropped() {
    let shapes = vec![
        Shape2D::Pixel(Pixel { x: -1, y: 0, color: Color::opaque(9, 9, 9) }),
        Shape2D::Pixel(Pixel { x: 0, y: -1, color: Color::opaque(9, 9, 9) }),
        Shape2D::Pixel(Pixel { x: 4, y: 0, color: Color::opaque(9, 9, 9) }),
        Shape2D::Pixel(Pixel { x: 0, y: 3, color: Color::opaque(9, 9, 9) }),
    ];
    let frame = render(4, 3, shapes);
    for y in 0..3 {
        for x in 0..4 {
            assert_eq!(at(&frame, 4, x, y), [0, 0, 0, 255]);
        }
    }
}

#[test]
fn later_shapes_draw_over_earlier_ones() {
    let first = Shape2D::Pixel(Pixel { x: 1, y: 1, color: Color::opaque(255, 0, 0) });
    let second = Shape2D::Pixel(Pixel { x: 1, y: 1, color: Color::opaque(0, 255, 0) });
    let frame = render(3, 3, vec![first, second]);
    assert_eq!(at(&frame, 3, 1, 1), [0, 255, 0, 255]);
}

#[test]
fn render_clears_previous_frame_contents() {
    let d = Drawifier { output_width: 2, output_height: 2 };
    let camera = Camera::default();
    let mut frame = vec![77u8; 16];
    d.render(&camera, &vec![], &mut frame);
    for y in 0..2 {
        for x in 0..2 {
            assert_eq!(at(&frame, 2, x, y), [0, 0, 0, 255]);
        }
    }
}

#[test]
fn set_output_dimensions_updates_clipping() {
    let mut d = Drawifier { output_width: 1, output_height: 1 };
    d.set_output_dimensions(4, 3);
    let px = Pixel { x: 3, y: 2, color: Color::opaque(5, 6, 7) };
    let mut frame = frame_of(4, 3);
    let camera = Camera::default();
    d.render(&camera, &vec![Shape2D::Pixel(px)], &mut frame);
    assert_eq!(at(&frame, 4, 3, 2), [5, 6, 7, 255]);
}
