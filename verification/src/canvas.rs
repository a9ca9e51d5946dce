//! Canvases: anything that accepts pixel writes.

use vstd::prelude::*;
use crate::color::{Color, Pixel};

verus! {

/// A surface that pixels can be written to.
///
/// A canvas is described by a mathematical model of what it holds and by the
/// effect that one write has on that model. What happens to writes outside
/// the surface is the canvas's own business: the drawing code never clips.
pub trait Displayable {
    /// The mathematical value that stands for the canvas's contents.
    type Model;

    /// What the canvas holds.
    spec fn model(&self) -> Self::Model;

    /// What a canvas that held `model` holds after `pixel` has been written.
    spec fn shown(model: Self::Model, pixel: Pixel) -> Self::Model;

    /// Writes `color` at `(x, y)`.
    fn display(&mut self, x: i32, y: i32, color: Color)
        ensures
            final(self).model() == Self::shown(old(self).model(), (Pixel { x, y, color })),
    ;
}

/// The model of a canvas after the pixels of `pixels` have been written to
/// it one after another, first to last.
pub open spec fn paint<D: Displayable>(model: D::Model, pixels: Seq<Pixel>) -> D::Model
    decreases pixels.len(),
{
    if pixels.len() == 0 {
        model
    } else {
        D::shown(paint::<D>(model, pixels.drop_last()), pixels.last())
    }
}

/// Writing `first` and then `second` is writing their concatenation.
pub proof fn lemma_paint_concat<D: Displayable>(model: D::Model, first: Seq<Pixel>, second: Seq<Pixel>)
    ensures
        paint::<D>(paint::<D>(model, first), second) == paint::<D>(model, first + second),
    decreases second.len(),
{
    if second.len() > 0 {
        lemma_paint_concat::<D>(model, first, second.drop_last());
        assert((first + second).drop_last() =~= first + second.drop_last());
    }
}

/// Writing one more pixel extends the painted sequence by that pixel.
pub proof fn lemma_paint_push<D: Displayable>(model: D::Model, pixels: Seq<Pixel>, pixel: Pixel)
    ensures
        D::shown(paint::<D>(model, pixels), pixel) == paint::<D>(model, pixels.push(pixel)),
{
    assert(pixels.push(pixel).drop_last() =~= pixels);
}

/// A canvas that keeps every write, in the order in which it was made.
pub struct PixelLog {
    pub pixels: Vec<Pixel>,
}

impl PixelLog {
    /// An empty log.
    pub fn new() -> (log: PixelLog)
        ensures
            log.pixels@ == Seq::<Pixel>::empty(),
    {
        PixelLog { pixels: Vec::new() }
    }
}

impl Displayable for PixelLog {
    type Model = Seq<Pixel>;

    open spec fn model(&self) -> Seq<Pixel> {
        self.pixels@
    }

    open spec fn shown(model: Seq<Pixel>, pixel: Pixel) -> Seq<Pixel> {
        model.push(pixel)
    }

    fn display(&mut self, x: i32, y: i32, color: Color) {
        self.pixels.push(Pixel { x, y, color });
    }
}

/// On a log, painting appends.
pub proof fn lemma_paint_log(model: Seq<Pixel>, pixels: Seq<Pixel>)
    ensures
        paint::<PixelLog>(model, pixels) == model + pixels,
    decreases pixels.len(),
{
    if pixels.len() > 0 {
        lemma_paint_log(model, pixels.drop_last());
    }
}

} // verus!
