//! Any one of the shapes, as a single type.

use vstd::prelude::*;
use crate::canvas::{paint, Displayable};
use crate::circle::Circle;
use crate::color::{Color, Pixel};
use crate::cube::Cube;
use crate::drawable::Drawable;
use crate::line::Line;
use crate::pentagon::Pentagon;
use crate::point::Point;
use crate::polygon::{Rectangle, Triangle};

verus! {

/// A shape of any kind. It is drawn as the shape that it holds.
#[derive(Debug)]
pub enum Shape {
    Point(Point),
    Line(Line),
    Rectangle(Rectangle),
    Triangle(Triangle),
    Circle(Circle),
    Cube(Cube),
    Pentagon(Pentagon),
}

impl Drawable for Shape {
    open spec fn pixels(&self, sampled: Color) -> Seq<Pixel> {
        match self {
            Shape::Point(point) => point.pixels(sampled),
            Shape::Line(line) => line.pixels(sampled),
            Shape::Rectangle(rectangle) => rectangle.pixels(sampled),
            Shape::Triangle(triangle) => triangle.pixels(sampled),
            Shape::Circle(circle) => circle.pixels(sampled),
            Shape::Cube(cube) => cube.pixels(sampled),
            Shape::Pentagon(pentagon) => pentagon.pixels(sampled),
        }
    }

    open spec fn drawable(&self) -> bool {
        match self {
            Shape::Point(point) => point.drawable(),
            Shape::Line(line) => line.drawable(),
            Shape::Rectangle(rectangle) => rectangle.drawable(),
            Shape::Triangle(triangle) => triangle.drawable(),
            Shape::Circle(circle) => circle.drawable(),
            Shape::Cube(cube) => cube.drawable(),
            Shape::Pentagon(pentagon) => pentagon.drawable(),
        }
    }

    fn draw<D: Displayable>(&self, canvas: &mut D) {
        let ghost before = canvas.model();
        match self {
            Shape::Point(point) => {
                point.draw(canvas);
                proof {
                    let sampled = choose|sampled: Color|
                        sampled.a == 255 && canvas.model() == paint::<D>(
                            before,
                            #[trigger] point.pixels(sampled),
                        );
                    assert(self.pixels(sampled) == point.pixels(sampled));
                }
            },
            Shape::Line(line) => {
                line.draw(canvas);
                assert(self.pixels(Color::white()) == line.trace());
            },
            Shape::Rectangle(rectangle) => {
                rectangle.draw(canvas);
                assert(self.pixels(Color::white()) == rectangle.pixels(Color::white()));
            },
            Shape::Triangle(triangle) => {
                triangle.draw(canvas);
                assert(self.pixels(Color::white()) == triangle.pixels(Color::white()));
            },
            Shape::Circle(circle) => {
                circle.draw(canvas);
                proof {
                    let sampled = choose|sampled: Color|
                        sampled.a == 255 && canvas.model() == paint::<D>(
                            before,
                            #[trigger] circle.pixels(sampled),
                        );
                    assert(self.pixels(sampled) == circle.pixels(sampled));
                }
            },
            Shape::Cube(cube) => {
                cube.draw(canvas);
                assert(self.pixels(Color::white()) == cube.pixels(Color::white()));
            },
            Shape::Pentagon(pentagon) => {
                pentagon.draw(canvas);
                assert(self.pixels(Color::white()) == pentagon.pixels(Color::white()));
            },
        }
    }
}

} // verus!
