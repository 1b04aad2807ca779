//! The rendering front: a `World` owns a camera, a renderer, and the objects
//! to draw, and hands frames to the renderer. A renderer consumes objects of
//! its kind and writes RGBA bytes into the externally owned frame buffer.

pub mod drawifier;
pub mod renderer_3d;

use vstd::prelude::*;

verus! {

use crate::camera::Camera;

/// A renderer turns a camera and a list of renderable objects into pixels in
/// a row-major RGBA byte buffer. Each implementation states its own
/// precondition and its exact effect through the two spec functions.
pub trait Renderer {
    type Renderable;

    /// What this renderer asks of its inputs.
    spec fn render_req(&self, camera: Camera, objects: Seq<Self::Renderable>, frame: Seq<u8>) -> bool;

    /// What this renderer guarantees of the written frame.
    spec fn render_ens(
        &self,
        camera: Camera,
        objects: Seq<Self::Renderable>,
        old_frame: Seq<u8>,
        frame: Seq<u8>,
    ) -> bool;

    /// The output size this renderer currently computes against.
    spec fn spec_output_dimensions(&self) -> (u32, u32);

    /// Render one full frame into `frame`.
    fn render(&self, camera: &Camera, objects: &Vec<Self::Renderable>, frame: &mut Vec<u8>)
        requires
            self.render_req(*camera, objects@, old(frame)@),
        ensures
            self.render_ens(*camera, objects@, old(frame)@, final(frame)@),
    ;

    /// Record a new output size; must be called before the next render when
    /// the externally owned buffer is resized.
    fn set_output_dimensions(&mut self, width: u32, height: u32)
        ensures
            final(self).spec_output_dimensions() == (width, height),
    ;
}

/// A camera, a renderer, and the objects it draws.
pub struct World<R: Renderer> {
    pub camera: Camera,
    pub renderer: R,
    pub objects: Vec<R::Renderable>,
}

impl<R: Renderer> World<R> {
    /// Render the world's objects through its renderer.
    pub fn render(&self, frame: &mut Vec<u8>)
        requires
            self.renderer.render_req(self.camera, self.objects@, old(frame)@),
        ensures
            self.renderer.render_ens(self.camera, self.objects@, old(frame)@, final(frame)@),
    {
        self.renderer.render(&self.camera, &self.objects, frame)
    }
}

} // verus!
