//! Rectangles and triangles, drawn edge by edge.

use vstd::prelude::*;
use crate::canvas::{paint, Displayable};
use crate::color::{Color, Pixel};
use crate::drawable::Drawable;
use crate::line::{draw_edge, outline, Line};
use crate::point::Point;

verus! {

/// An axis-aligned rectangle, by its four corners: `point_a` and `point_b`
/// are opposite, and so are `point_c` and `point_d`.
#[derive(Debug, PartialEq, Eq, Structural, Clone, Copy)]
pub struct Rectangle {
    pub point_a: Point,
    pub point_b: Point,
    pub point_c: Point,
    pub point_d: Point,
}

impl Rectangle {
    /// The rectangle with opposite corners `a` and `b`.
    pub open spec fn spanning(a: Point, b: Point) -> Rectangle {
        Rectangle {
            point_a: a,
            point_b: b,
            point_c: Point { x: a.x, y: b.y },
            point_d: Point { x: b.x, y: a.y },
        }
    }

    /// The corners are those of an axis-aligned rectangle: `point_c` and
    /// `point_d` each share one coordinate with `point_a` and the other
    /// with `point_b`.
    pub open spec fn wf(&self) -> bool {
        *self == Rectangle::spanning(self.point_a, self.point_b)
    }

    /// Builds the rectangle with opposite corners `a` and `b`.
    pub fn new(a: &Point, b: &Point) -> (rectangle: Self)
        ensures
            rectangle == Rectangle::spanning(*a, *b),
            rectangle.wf(),
    {
        Self {
            point_a: *a,
            point_b: *b,
            point_c: Point { x: a.x, y: b.y },
            point_d: Point { x: b.x, y: a.y },
        }
    }

    /// The four edges, in the order in which they are drawn: from
    /// `point_a` to `point_c`, on to `point_b`, on to `point_d`, and back
    /// to `point_a`. All are white.
    pub open spec fn edges(&self) -> Seq<Line> {
        seq![
            Line::between(self.point_a, self.point_c),
            Line::between(self.point_c, self.point_b),
            Line::between(self.point_b, self.point_d),
            Line::between(self.point_d, self.point_a),
        ]
    }

    /// Builds the four edges.
    pub fn lines(&self) -> (edges: Vec<Line>)
        ensures
            edges@ == self.edges(),
    {
        let mut edges: Vec<Line> = Vec::new();
        edges.push(Line::new(self.point_a, self.point_c));
        edges.push(Line::new(self.point_c, self.point_b));
        edges.push(Line::new(self.point_b, self.point_d));
        edges.push(Line::new(self.point_d, self.point_a));
        edges
    }
}

impl Drawable for Rectangle {
    /// The traces of the four edges, one after another.
    open spec fn pixels(&self, sampled: Color) -> Seq<Pixel> {
        outline(self.edges())
    }

    open spec fn drawable(&self) -> bool {
        true
    }

    /// Draws the four edges in white.
    fn draw<D: Displayable>(&self, canvas: &mut D)
        ensures
            final(canvas).model() == paint::<D>(old(canvas).model(), outline(self.edges())),
    {
        let ghost before = canvas.model();
        let ghost none = Seq::<Line>::empty();
        let ac = Line::new(self.point_a, self.point_c);
        let cb = Line::new(self.point_c, self.point_b);
        let bd = Line::new(self.point_b, self.point_d);
        let da = Line::new(self.point_d, self.point_a);
        draw_edge(canvas, &ac, Ghost(before), Ghost(none));
        draw_edge(canvas, &cb, Ghost(before), Ghost(none.push(ac)));
        draw_edge(canvas, &bd, Ghost(before), Ghost(none.push(ac).push(cb)));
        draw_edge(canvas, &da, Ghost(before), Ghost(none.push(ac).push(cb).push(bd)));
        assert(none.push(ac).push(cb).push(bd).push(da) =~= self.edges());
        assert(self.pixels(Color::white()) == outline(self.edges()));
    }
}

/// The edges of a rectangle form a closed loop through its corners, and
/// each of them runs along one axis.
pub proof fn lemma_rectangle_is_closed_loop(rectangle: Rectangle)
    requires
        rectangle.wf(),
    ensures
        rectangle.edges().len() == 4,
        forall|i: int|
            0 <= i < 4 ==> (#[trigger] rectangle.edges()[i]).end == rectangle.edges()[(i
                + 1) % 4].start,
        forall|i: int|
            0 <= i < 4 ==> {
                let edge = #[trigger] rectangle.edges()[i];
                edge.start.x == edge.end.x || edge.start.y == edge.end.y
            },
{
}

/// A triangle, by its three corners. Any three points do, also points on
/// one line.
#[derive(Debug, PartialEq, Eq, Structural, Clone, Copy)]
pub struct Triangle {
    pub point_a: Point,
    pub point_b: Point,
    pub point_c: Point,
}

impl Triangle {
    /// Builds the triangle with the given corners.
    pub fn new(point_a: &Point, point_b: &Point, point_c: &Point) -> (triangle: Self)
        ensures
            triangle == (Triangle { point_a: *point_a, point_b: *point_b, point_c: *point_c }),
    {
        Self { point_a: *point_a, point_b: *point_b, point_c: *point_c }
    }

    /// The three edges, in the order in which they are drawn: from
    /// `point_a` to `point_c`, on to `point_b`, and back to `point_a`. All
    /// are white.
    pub open spec fn edges(&self) -> Seq<Line> {
        seq![
            Line::between(self.point_a, self.point_c),
            Line::between(self.point_c, self.point_b),
            Line::between(self.point_b, self.point_a),
        ]
    }

    /// Builds the three edges.
    pub fn lines(&self) -> (edges: Vec<Line>)
        ensures
            edges@ == self.edges(),
    {
        let mut edges: Vec<Line> = Vec::new();
        edges.push(Line::new(self.point_a, self.point_c));
        edges.push(Line::new(self.point_c, self.point_b));
        edges.push(Line::new(self.point_b, self.point_a));
        edges
    }
}

impl Drawable for Triangle {
    /// The traces of the three edges, one after another.
    open spec fn pixels(&self, sampled: Color) -> Seq<Pixel> {
        outline(self.edges())
    }

    open spec fn drawable(&self) -> bool {
        true
    }

    /// Draws the three edges in white.
    fn draw<D: Displayable>(&self, canvas: &mut D)
        ensures
            final(canvas).model() == paint::<D>(old(canvas).model(), outline(self.edges())),
    {
        let ghost before = canvas.model();
        let ghost none = Seq::<Line>::empty();
        let ac = Line::new(self.point_a, self.point_c);
        let cb = Line::new(self.point_c, self.point_b);
        let ba = Line::new(self.point_b, self.point_a);
        draw_edge(canvas, &ac, Ghost(before), Ghost(none));
        draw_edge(canvas, &cb, Ghost(before), Ghost(none.push(ac)));
        draw_edge(canvas, &ba, Ghost(before), Ghost(none.push(ac).push(cb)));
        assert(none.push(ac).push(cb).push(ba) =~= self.edges());
        assert(self.pixels(Color::white()) == outline(self.edges()));
    }
}

} // verus!
