use pixel_renderer::camera::Camera;
use pixel_renderer::drawing::circle::{BresenhamCircle, Circle};
use pixel_renderer::drawing::line::{LineBuilder, WuLine};
use pixel_renderer::drawing::{Color, Shape2D};
use pixel_renderer::renderer::drawifier::Drawifier;
use pixel_renderer::renderer::World;

fn at(frame: &[u8], w: u32, x: u32, y: u32) -> [u8; 4] {
    let i = ((y * w + x) * 4) as usize;
    [frame[i], frame[i + 1], frame[i + 2], frame[i + 3]]
}

#[test]
fn circles_and_paths_compose_into_one_frame() {
    let width = 512u32;
    let height = 512u32;
    let red = Color::opaque(255, 0, 0);
    let circle = Shape2D::from_pixels(BresenhamCircle::new((200, 200), 100, red).pixels());
    let path = LineBuilder::<WuLine>::new()
        .from((130, 400))
        .to((160, 305))
        .to((190, 400))
        .close()
        .from((170, 340))
        .to((190, 320))
        .to((240, 400))
        .shape();
    let world = World {
        camera: Camera::default(),
        renderer: Drawifier { output_width: width, output_height: height },
        objects: vec![circle, path],
    };
    let mut frame = vec![0u8; (width * height * 4) as usize];
    world.render(&mut frame);

    // the circle's extreme points are exactly on the boundary
    assert_eq!(at(&frame, width, 300, 200), [255, 0, 0, 255]);
    assert_eq!(at(&frame, width, 100, 200), [255, 0, 0, 255]);
    assert_eq!(at(&frame, width, 200, 300), [255, 0, 0, 255]);
    assert_eq!(at(&frame, width, 200, 100), [255, 0, 0, 255]);
    // the circle's center stays background
    assert_eq!(at(&frame, width, 200, 200), [0, 0, 0, 255]);
    // the path's vertices are touched by the antialiased segments
    assert_ne!(at(&frame, width, 160, 305), [0, 0, 0, 255]);
    assert_ne!(at(&frame, width, 190, 320), [0, 0, 0, 255]);
}
