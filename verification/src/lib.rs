//! Wireframe shapes rasterised onto a pixel canvas.
//!
//! Every shape is reduced to a sequence of pixel writes. The sequence is
//! defined once as a mathematical value and the drawing code is proved to
//! perform exactly those writes, in that order.

pub mod accuracy;
pub mod canvas;
pub mod circle;
pub mod color;
pub mod cube;
pub mod drawable;
pub mod error;
pub mod image;
pub mod line;
pub mod pentagon;
pub mod point;
pub mod polygon;
pub mod random;
pub mod roots;
pub mod shape;

pub use crate::canvas::{Displayable, PixelLog};
pub use crate::circle::Circle;
pub use crate::color::{Color, Pixel};
pub use crate::cube::Cube;
pub use crate::drawable::{rasterize, Drawable};
pub use crate::error::ShapeError;
pub use crate::line::Line;
pub use crate::pentagon::Pentagon;
pub use crate::point::Point;
pub use crate::polygon::{Rectangle, Triangle};
pub use crate::shape::Shape;
