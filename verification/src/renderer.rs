//! The frame buffer of the simulation and the scene drawn into it.

pub use crate::boat::normalize_angle;

use crate::boat::Boat;
use crate::canvas::Canvas;
use crate::colors;
use crate::draw::Drawing;
use crate::environment::Environment;
use crate::scene::{wind_field_pixels, NoGlyph, SceneComposer, SceneConfig};
use vstd::prelude::*;

verus! {

/// A frame buffer of fixed size, one `u32` color per pixel, row by row.
pub struct Renderer {
    width: usize,
    height: usize,
    buffer: Vec<u32>,
}

impl View for Renderer {
    type V = Canvas;

    closed spec fn view(&self) -> Canvas {
        Canvas { width: self.width as nat, height: self.height as nat, pixels: self.buffer@ }
    }
}

impl Renderer {
    /// A buffer of `width` by `height` pixels, all of color 0. It is well
    /// formed, and so can be drawn on, if every pixel of it has `i32`
    /// coordinates.
    pub fn new(width: usize, height: usize) -> (r: Self)
        requires
            width * height <= usize::MAX,
        ensures
            r@.width == width,
            r@.height == height,
            r@.pixels == Seq::new((width * height) as nat, |i: int| 0u32),
            width <= i32::MAX && height <= i32::MAX ==> r@.wf(),
    {
        let buffer: Vec<u32> = vec![0; width * height];
        assert(buffer@ =~= Seq::new((width * height) as nat, |i: int| 0u32));
        Self { width, height, buffer }
    }

    /// Draws one frame with the standard setup: clears the buffer to the
    /// background color and shows the wind at each sample point of the grid
    /// around the vessel, which the camera follows. The vessel itself has no
    /// glyph and does not show.
    pub fn draw_scene(&mut self, boat: &Boat, env: &Environment)
        requires
            old(self)@.wf(),
        ensures
            final(self)@.wf(),
            final(self)@ == old(self)@.fill(colors::BG).paint(
                wind_field_pixels(
                    SceneConfig::standard_spec(),
                    boat.pos,
                    *env,
                    old(self)@.width,
                    old(self)@.height,
                ),
                colors::WIND,
            ),
    {
        let composer = SceneComposer::new(SceneConfig::standard());
        composer.compose(self, boat, env, &NoGlyph);
    }
}

impl Drawing for Renderer {
    fn width(&self) -> (w: usize) {
        self.width
    }

    fn height(&self) -> (h: usize) {
        self.height
    }

    fn buffer_mut(&mut self) -> (b: &mut [u32]) {
        self.buffer.as_mut_slice()
    }

    fn buffer(&self) -> (b: &[u32]) {
        self.buffer.as_slice()
    }
}

} // verus!
