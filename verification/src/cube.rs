//! Wireframe cubes: two rectangles and the edges that join their corners.

use vstd::prelude::*;
use crate::canvas::{lemma_paint_concat, paint, Displayable};
use crate::color::{Color, Pixel};
use crate::drawable::Drawable;
use crate::line::{draw_edge, lemma_outline_concat, outline, Line};
use crate::point::Point;
use crate::polygon::Rectangle;

verus! {

/// Half of `n`, rounded toward zero.
pub open spec fn half(n: int) -> int {
    if n >= 0 {
        n / 2
    } else {
        -((-n) / 2)
    }
}

/// A wireframe cube: a front face, a back face, and four edges between
/// their corresponding corners.
#[derive(Debug, PartialEq, Eq, Structural, Clone, Copy)]
pub struct Cube {
    pub rec_1: Rectangle,
    pub rec_2: Rectangle,
}

impl Cube {
    /// How far the back face is shifted along x: half of the front face's
    /// width, measured from `b` to `a`.
    pub open spec fn shift_x(a: Point, b: Point) -> int {
        half(a.x - b.x)
    }

    /// How far the back face is shifted along y: half of the front face's
    /// height, measured from `a` to `b`.
    pub open spec fn shift_y(a: Point, b: Point) -> int {
        -half(a.y - b.y)
    }

    /// Whether the corners of the back face have `i32` coordinates.
    pub open spec fn fits(a: Point, b: Point) -> bool {
        &&& i32::MIN <= a.x + Self::shift_x(a, b) <= i32::MAX
        &&& i32::MIN <= b.x + Self::shift_x(a, b) <= i32::MAX
        &&& i32::MIN <= a.y + Self::shift_y(a, b) <= i32::MAX
        &&& i32::MIN <= b.y + Self::shift_y(a, b) <= i32::MAX
    }

    /// The cube whose front face has opposite corners `a` and `b`: the back
    /// face is the front face moved by half of its diagonal.
    pub open spec fn spanning(a: Point, b: Point) -> Cube {
        let dx = Self::shift_x(a, b);
        let dy = Self::shift_y(a, b);
        Cube {
            rec_1: Rectangle::spanning(a, b),
            rec_2: Rectangle::spanning(
                Point { x: (a.x + dx) as i32, y: (a.y + dy) as i32 },
                Point { x: (b.x + dx) as i32, y: (b.y + dy) as i32 },
            ),
        }
    }

    /// Both faces are rectangles.
    pub open spec fn wf(&self) -> bool {
        self.rec_1.wf() && self.rec_2.wf()
    }

    /// Decides `fits`.
    pub fn can_span(a: &Point, b: &Point) -> (yes: bool)
        ensures
            yes == Self::fits(*a, *b),
    {
        let dx: i64 = (a.x as i64 - b.x as i64) / 2;
        let dy: i64 = -((a.y as i64 - b.y as i64) / 2);
        let low: i64 = -0x8000_0000;
        let high: i64 = 0x7FFF_FFFF;
        low <= a.x as i64 + dx && a.x as i64 + dx <= high && low <= b.x as i64 + dx && b.x as i64
            + dx <= high && low <= a.y as i64 + dy && a.y as i64 + dy <= high && low <= b.y as i64
            + dy && b.y as i64 + dy <= high
    }

    /// Builds the cube whose front face has opposite corners `a` and `b`.
    pub fn new(a: &Point, b: &Point) -> (cube: Self)
        requires
            Self::fits(*a, *b),
        ensures
            cube == Cube::spanning(*a, *b),
            cube.wf(),
    {
        let dx: i64 = (a.x as i64 - b.x as i64) / 2;
        let dy: i64 = -((a.y as i64 - b.y as i64) / 2);
        Self {
            rec_1: Rectangle::new(a, b),
            rec_2: Rectangle::new(
                &Point { x: (a.x as i64 + dx) as i32, y: (a.y as i64 + dy) as i32 },
                &Point { x: (b.x as i64 + dx) as i32, y: (b.y as i64 + dy) as i32 },
            ),
        }
    }

    /// The four edges that join each corner of the front face to the same
    /// corner of the back face.
    pub open spec fn connectors(&self) -> Seq<Line> {
        seq![
            Line::between(self.rec_1.point_a, self.rec_2.point_a),
            Line::between(self.rec_1.point_b, self.rec_2.point_b),
            Line::between(self.rec_1.point_c, self.rec_2.point_c),
            Line::between(self.rec_1.point_d, self.rec_2.point_d),
        ]
    }

    /// The edges in the order in which they are drawn: the front face, the
    /// back face, the connectors.
    pub open spec fn edges(&self) -> Seq<Line> {
        self.rec_1.edges() + self.rec_2.edges() + self.connectors()
    }

    /// Builds the edges.
    pub fn lines(&self) -> (edges: Vec<Line>)
        ensures
            edges@ == self.edges(),
    {
        let mut edges: Vec<Line> = self.rec_1.lines();
        let mut back: Vec<Line> = self.rec_2.lines();
        edges.append(&mut back);
        edges.push(Line::new(self.rec_1.point_a, self.rec_2.point_a));
        edges.push(Line::new(self.rec_1.point_b, self.rec_2.point_b));
        edges.push(Line::new(self.rec_1.point_c, self.rec_2.point_c));
        edges.push(Line::new(self.rec_1.point_d, self.rec_2.point_d));
        edges
    }
}

impl Drawable for Cube {
    /// The traces of the twelve edges, one after another.
    open spec fn pixels(&self, sampled: Color) -> Seq<Pixel> {
        outline(self.edges())
    }

    open spec fn drawable(&self) -> bool {
        true
    }

    /// Draws the front face, the back face and the connectors, all in
    /// white.
    fn draw<D: Displayable>(&self, canvas: &mut D)
        ensures
            final(canvas).model() == paint::<D>(old(canvas).model(), outline(self.edges())),
    {
        let ghost before = canvas.model();
        self.rec_1.draw(canvas);
        let ghost front = canvas.model();
        self.rec_2.draw(canvas);
        proof {
            lemma_paint_concat::<D>(before, outline(self.rec_1.edges()), outline(self.rec_2.edges()));
            lemma_outline_concat(self.rec_1.edges(), self.rec_2.edges());
        }
        let ghost faces = self.rec_1.edges() + self.rec_2.edges();
        let aa = Line::new(self.rec_1.point_a, self.rec_2.point_a);
        let bb = Line::new(self.rec_1.point_b, self.rec_2.point_b);
        let cc = Line::new(self.rec_1.point_c, self.rec_2.point_c);
        let dd = Line::new(self.rec_1.point_d, self.rec_2.point_d);
        draw_edge(canvas, &aa, Ghost(before), Ghost(faces));
        draw_edge(canvas, &bb, Ghost(before), Ghost(faces.push(aa)));
        draw_edge(canvas, &cc, Ghost(before), Ghost(faces.push(aa).push(bb)));
        draw_edge(canvas, &dd, Ghost(before), Ghost(faces.push(aa).push(bb).push(cc)));
        assert(faces.push(aa).push(bb).push(cc).push(dd) =~= self.edges());
        assert(self.pixels(Color::white()) == outline(self.edges()));
    }
}

/// A cube is drawn as twelve segments: four for each face and four
/// between the faces.
pub proof fn lemma_cube_has_twelve_edges(cube: Cube)
    ensures
        cube.rec_1.edges().len() == 4,
        cube.rec_2.edges().len() == 4,
        cube.connectors().len() == 4,
        cube.edges().len() == 12,
{
}

} // verus!
