//! Raster images as canvases.
//!
//! A `raster::Image` is `width * height` pixels of four bytes each, red,
//! green, blue and alpha, stored row by row. A write that falls outside
//! the image, or on bytes that the image does not have, is ignored.

use vstd::prelude::*;
use crate::canvas::Displayable;
use crate::color::{Color, Pixel};

verus! {

/// `raster::Image`, taken as it comes: what the contracts say of an image
/// they say through `image_width`, `image_height` and `image_bytes`.
#[verifier::external_type_specification]
#[verifier::external_body]
pub struct ExImage(raster::Image);

/// `raster::error::RasterError`, the error of `raster::Image::set_pixel`.
/// Nothing is said of its values.
#[verifier::external_type_specification]
#[verifier::external_body]
pub struct ExRasterError(raster::error::RasterError);

/// The bytes of an image: its field `bytes`.
pub uninterp spec fn image_bytes(image: raster::Image) -> Seq<u8>;

/// The width of an image in pixels: its field `width`.
pub uninterp spec fn image_width(image: raster::Image) -> int;

/// The height of an image in pixels: its field `height`.
pub uninterp spec fn image_height(image: raster::Image) -> int;

/// What an image holds: its size and its bytes.
pub struct Raster {
    pub width: int,
    pub height: int,
    pub bytes: Seq<u8>,
}

impl Raster {
    /// The index of the first byte of the pixel at `(x, y)`.
    pub open spec fn offset(self, x: int, y: int) -> int {
        4 * (y * self.width + x)
    }

    /// Whether the pixel at `(x, y)` can be written: the position lies on
    /// the image, the image has the pixel's four bytes, and the index of
    /// the first of them is an `i32`, which is how the image computes it.
    pub open spec fn holds(self, x: int, y: int) -> bool {
        &&& 0 <= x < self.width
        &&& 0 <= y < self.height
        &&& self.offset(x, y) <= i32::MAX
        &&& self.offset(x, y) + 3 < self.bytes.len()
    }

    /// The image with the four bytes of the pixel at `(x, y)` set to the
    /// channels of `color`.
    pub open spec fn with_pixel(self, x: int, y: int, color: Color) -> Raster {
        let at = self.offset(x, y);
        Raster {
            width: self.width,
            height: self.height,
            bytes: self.bytes.update(at, color.r).update(at + 1, color.g).update(
                at + 2,
                color.b,
            ).update(at + 3, color.a),
        }
    }
}

/// The model of an image.
pub open spec fn raster_of(image: raster::Image) -> Raster {
    Raster { width: image_width(image), height: image_height(image), bytes: image_bytes(image) }
}

/// Reads the field `width` of a `raster::Image`.
#[verifier::external_body]
fn width_of(image: &raster::Image) -> (width: i32)
    ensures
        width == image_width(*image),
{
    image.width
}

/// Reads the field `height` of a `raster::Image`.
#[verifier::external_body]
fn height_of(image: &raster::Image) -> (height: i32)
    ensures
        height == image_height(*image),
{
    image.height
}

/// Reads the length of the field `bytes` of a `raster::Image`.
#[verifier::external_body]
fn byte_count(image: &raster::Image) -> (count: usize)
    ensures
        count == image_bytes(*image).len(),
{
    image.bytes.len()
}

/// Calls `raster::Image::set_pixel`.
///
/// Trusted: on a position that the image holds, `set_pixel` succeeds,
/// stores the four channels of the colour at the pixel's four bytes, in
/// the order red, green, blue, alpha, and leaves the size and all other
/// bytes as they were. The position has to be one that the image holds:
/// `set_pixel` computes the byte index `4 * (y * width + x)` in `i32`,
/// tests only `x < width` and `y < height` and that the index is not
/// negative, and then indexes the bytes.
#[verifier::external_body]
fn set_pixel(image: &mut raster::Image, x: i32, y: i32, color: Color) -> (written: Result<
    (),
    raster::error::RasterError,
>)
    requires
        0 <= x < image_width(*old(image)),
        0 <= y < image_height(*old(image)),
        4 * (y * image_width(*old(image)) + x) <= i32::MAX,
        4 * (y * image_width(*old(image)) + x) + 3 < image_bytes(*old(image)).len(),
    ensures
        written is Ok,
        image_width(*final(image)) == image_width(*old(image)),
        image_height(*final(image)) == image_height(*old(image)),
        image_bytes(*final(image)) == image_bytes(*old(image)).update(
            4 * (y * image_width(*old(image)) + x),
            color.r,
        ).update(4 * (y * image_width(*old(image)) + x) + 1, color.g).update(
            4 * (y * image_width(*old(image)) + x) + 2,
            color.b,
        ).update(4 * (y * image_width(*old(image)) + x) + 3, color.a),
{
    image.set_pixel(x, y, raster::Color { r: color.r, g: color.g, b: color.b, a: color.a })
}

impl Displayable for raster::Image {
    type Model = Raster;

    open spec fn model(&self) -> Raster {
        raster_of(*self)
    }

    /// A pixel that the image holds is stored; any other is dropped.
    open spec fn shown(model: Raster, pixel: Pixel) -> Raster {
        if model.holds(pixel.x as int, pixel.y as int) {
            model.with_pixel(pixel.x as int, pixel.y as int, pixel.color)
        } else {
            model
        }
    }

    fn display(&mut self, x: i32, y: i32, color: Color) {
        let width = width_of(self);
        let height = height_of(self);
        if x < 0 || x >= width || y < 0 || y >= height {
            return ;
        }
        assert(0 <= (y as int) * (width as int) + (x as int) <= 0x3FFF_FFFF_FFFF_FFFF)
            by (nonlinear_arith)
            requires
                0 <= x < width <= 0x7FFF_FFFF,
                0 <= y <= 0x7FFF_FFFF,
        ;
        let at: u64 = 4 * (y as u64 * width as u64 + x as u64);
        if at > 0x7FFF_FFFF || at + 3 >= byte_count(self) as u64 {
            return ;
        }
        let _ = set_pixel(self, x, y, color);
    }
}

} // verus!
