//! What every shape can do: be drawn.

use vstd::prelude::*;
use crate::canvas::{lemma_paint_log, paint, Displayable, PixelLog};
use crate::color::{Color, Pixel};
use crate::random::sample_channel;

verus! {

/// A shape that can be drawn on a canvas.
pub trait Drawable {
    /// The writes that drawing the shape makes, first to last, when the
    /// colour that the drawing samples is `sampled`. Shapes that carry
    /// their own colour ignore `sampled`.
    spec fn pixels(&self, sampled: Color) -> Seq<Pixel>;

    /// Whether every pixel of the shape has coordinates that a canvas can
    /// be asked for, that is, coordinates that fit in `i32`.
    spec fn drawable(&self) -> bool;

    /// Draws the shape: writes its pixels to `canvas`, in order, and
    /// nothing else. The colour used is either the shape's own or one
    /// opaque colour sampled for the whole drawing.
    fn draw<D: Displayable>(&self, canvas: &mut D)
        requires
            self.drawable(),
        ensures
            exists|sampled: Color|
                sampled.a == 255 && final(canvas).model() == paint::<D>(
                    old(canvas).model(),
                    #[trigger] self.pixels(sampled),
                ),
    ;

    /// Samples a colour: red, green and blue are drawn independently from
    /// `0..=255`, and the colour is fully opaque.
    fn color(&self) -> (c: Color)
        ensures
            c.a == 255,
    {
        let r = sample_channel();
        let g = sample_channel();
        let b = sample_channel();
        Color::rgb(r, g, b)
    }
}

/// Collects the writes that drawing `shape` makes, in order, without
/// touching a canvas.
pub fn rasterize<S: Drawable>(shape: &S) -> (pixels: Vec<Pixel>)
    requires
        shape.drawable(),
    ensures
        exists|sampled: Color| sampled.a == 255 && pixels@ == #[trigger] shape.pixels(sampled),
{
    let mut log = PixelLog::new();
    shape.draw(&mut log);
    proof {
        let sampled = choose|sampled: Color|
            sampled.a == 255 && log.model() == paint::<PixelLog>(
                Seq::empty(),
                #[trigger] shape.pixels(sampled),
            );
        lemma_paint_log(Seq::empty(), shape.pixels(sampled));
    }
    log.pixels
}

} // verus!
