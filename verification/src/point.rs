//! Points of the integer pixel grid.

use vstd::prelude::*;
use crate::canvas::{lemma_paint_push, paint, Displayable};
use crate::color::{Color, Pixel};
use crate::drawable::Drawable;
use crate::error::ShapeError;
use crate::random::sample_range;

verus! {

/// A position on the pixel grid.
#[derive(Debug, PartialEq, Eq, Structural, Clone, Copy)]
pub struct Point {
    pub x: i32,
    pub y: i32,
}

impl Point {
    /// The point `(x, y)`.
    pub fn new(x: i32, y: i32) -> (p: Self)
        ensures
            p == (Point { x, y }),
    {
        Self { x, y }
    }

    /// Whether a canvas of this size has positions to sample from.
    pub open spec fn samplable(width: i32, height: i32) -> bool {
        width > 1 && height > 1
    }

    /// A random point with `x` in `[1, width)` and `y` in `[1, height)`.
    ///
    /// Fails with `InvalidBounds` exactly when one of the two ranges is
    /// empty, that is, when `width` or `height` is at most 1.
    pub fn random(width: i32, height: i32) -> (sampled: Result<Self, ShapeError>)
        ensures
            sampled is Ok <==> Self::samplable(width, height),
            sampled matches Ok(p) ==> 1 <= p.x < width && 1 <= p.y < height,
            sampled matches Err(e) ==> e == (ShapeError::InvalidBounds { width, height }),
    {
        if width <= 1 || height <= 1 {
            return Err(ShapeError::InvalidBounds { width, height });
        }
        let x = sample_range(1, width);
        let y = sample_range(1, height);
        Ok(Self::new(x, y))
    }

    /// The pixel that colours this point with `color`.
    pub open spec fn pixel(&self, color: Color) -> Pixel {
        Pixel { x: self.x, y: self.y, color }
    }

    /// Draws the point in `color`: one write, at the point.
    pub fn draw_with<D: Displayable>(&self, canvas: &mut D, color: Color)
        ensures
            final(canvas).model() == paint::<D>(old(canvas).model(), self.pixels(color)),
    {
        canvas.display(self.x, self.y, color);
        proof {
            lemma_paint_push::<D>(old(canvas).model(), Seq::empty(), self.pixel(color));
        }
    }
}

impl Drawable for Point {
    open spec fn pixels(&self, sampled: Color) -> Seq<Pixel> {
        seq![self.pixel(sampled)]
    }

    open spec fn drawable(&self) -> bool {
        true
    }

    /// Draws the point in a freshly sampled colour.
    fn draw<D: Displayable>(&self, canvas: &mut D) {
        let color = self.color();
        self.draw_with(canvas, color);
    }
}

} // verus!
