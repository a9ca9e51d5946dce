//! Line segments and their scan conversion.
//!
//! A segment is walked in `steps = max(|dx|, |dy|)` equal increments, so
//! that the longer axis advances by one pixel per increment. Each position
//! is rounded to the nearest pixel, halves away from zero. All of it is
//! exact integer arithmetic.

use vstd::prelude::*;
use crate::canvas::{lemma_paint_concat, lemma_paint_push, paint, Displayable};
use crate::color::{Color, Pixel};
use crate::drawable::Drawable;
use crate::error::ShapeError;
use crate::point::Point;

verus! {

/// The fraction `n / d` rounded to the nearest integer, with halves rounded
/// away from zero. Meant for a positive `d`.
pub open spec fn round_half_away(n: int, d: int) -> int {
    if n >= 0 {
        (2 * n + d) / (2 * d)
    } else {
        -((2 * (-n) + d) / (2 * d))
    }
}

/// The distance between two coordinates.
pub open spec fn span(from: int, to: int) -> int {
    if from <= to {
        to - from
    } else {
        from - to
    }
}

/// The coordinate reached after `i` of `steps` equal increments on the way
/// from `from` to `to`, rounded to the grid: `from + i * (to - from) / steps`.
/// With no increments to make, the coordinate stays at `from`.
pub open spec fn interpolate(from: int, to: int, steps: int, i: int) -> int {
    if steps == 0 {
        from
    } else {
        round_half_away(from * steps + i * (to - from), steps)
    }
}

/// The rounded fraction is the nearest integer: it differs from `n / d` by
/// at most a half, and by exactly a half only on the side of zero.
pub proof fn lemma_round_is_nearest(n: int, d: int)
    requires
        d > 0,
    ensures
        n >= 0 ==> 2 * (d * round_half_away(n, d)) - d <= 2 * n < 2 * (d * round_half_away(n, d)) + d,
        n < 0 ==> 2 * (d * round_half_away(n, d)) - d < 2 * n <= 2 * (d * round_half_away(n, d)) + d,
{
    let m = if n >= 0 {
        n
    } else {
        -n
    };
    let q = (2 * m + d) / (2 * d);
    assert(2 * (d * q) <= 2 * m + d < 2 * (d * q) + 2 * d) by (nonlinear_arith)
        requires
            q == (2 * m + d) / (2 * d),
            d > 0,
    ;
    assert(d * (-q) == -(d * q)) by (nonlinear_arith);
}

/// Rounding keeps a fraction between the integers that bound it.
pub proof fn lemma_round_between(n: int, d: int, low: int, high: int)
    requires
        d > 0,
        low * d <= n <= high * d,
    ensures
        low <= round_half_away(n, d) <= high,
{
    if n >= 0 {
        let q = (2 * n + d) / (2 * d);
        assert(q <= high) by (nonlinear_arith)
            requires
                q == (2 * n + d) / (2 * d),
                d > 0,
                n <= high * d,
        ;
        assert(q >= 0 && (low > 0 ==> q >= low)) by (nonlinear_arith)
            requires
                q == (2 * n + d) / (2 * d),
                d > 0,
                n >= 0,
                low * d <= n,
        ;
    } else {
        let m = -n;
        let q = (2 * m + d) / (2 * d);
        assert((-low) * d == -(low * d) && (-high) * d == -(high * d)) by (nonlinear_arith);
        assert(q <= -low) by (nonlinear_arith)
            requires
                q == (2 * m + d) / (2 * d),
                d > 0,
                m <= (-low) * d,
        ;
        assert(q >= 0 && (high < 0 ==> q >= -high)) by (nonlinear_arith)
            requires
                q == (2 * m + d) / (2 * d),
                d > 0,
                m >= 0,
                (-high) * d <= m,
        ;
    }
}

/// Every interpolated coordinate lies between the two ends.
pub proof fn lemma_interpolate_between(from: int, to: int, steps: int, i: int)
    requires
        0 <= i <= steps,
    ensures
        from <= to ==> from <= interpolate(from, to, steps, i) <= to,
        to <= from ==> to <= interpolate(from, to, steps, i) <= from,
{
    if steps > 0 {
        let n = from * steps + i * (to - from);
        if from <= to {
            assert(from * steps <= n <= to * steps) by (nonlinear_arith)
                requires
                    n == from * steps + i * (to - from),
                    0 <= i <= steps,
                    from <= to,
            ;
            lemma_round_between(n, steps, from, to);
        }
        if to <= from {
            assert(to * steps <= n <= from * steps) by (nonlinear_arith)
                requires
                    n == from * steps + i * (to - from),
                    0 <= i <= steps,
                    to <= from,
            ;
            lemma_round_between(n, steps, to, from);
        }
    }
}

/// The walk starts at `from` and, after the last increment, is at `to`.
pub proof fn lemma_interpolate_ends(from: int, to: int, steps: int)
    requires
        steps > 0,
    ensures
        interpolate(from, to, steps, 0) == from,
        interpolate(from, to, steps, steps) == to,
{
    lemma_round_between(from * steps, steps, from, from);
    assert(from * steps + steps * (to - from) == to * steps) by (nonlinear_arith);
    lemma_round_between(to * steps, steps, to, to);
}

/// A coloured segment between two points.
#[derive(Debug, PartialEq, Eq, Structural, Clone, Copy)]
pub struct Line {
    pub start: Point,
    pub end: Point,
    pub color: Color,
}

impl Line {
    /// The white segment from `start` to `end`.
    pub open spec fn between(start: Point, end: Point) -> Line {
        Line { start, end, color: Color::white() }
    }

    /// Builds the white segment from `start` to `end`.
    pub fn new(start: Point, end: Point) -> (line: Self)
        ensures
            line == Line::between(start, end),
    {
        Self { start, end, color: Color { r: 255, g: 255, b: 255, a: 255 } }
    }

    /// A white segment between two random points of a `width` by `height`
    /// canvas. Fails as `Point::random` does.
    pub fn random(width: i32, height: i32) -> (sampled: Result<Self, ShapeError>)
        ensures
            sampled is Ok <==> Point::samplable(width, height),
            sampled matches Ok(line) ==> {
                &&& 1 <= line.start.x < width && 1 <= line.start.y < height
                &&& 1 <= line.end.x < width && 1 <= line.end.y < height
                &&& line.color == Color::white()
            },
            sampled matches Err(e) ==> e == (ShapeError::InvalidBounds { width, height }),
    {
        let a = match Point::random(width, height) {
            Ok(p) => p,
            Err(e) => {
                return Err(e);
            },
        };
        let b = match Point::random(width, height) {
            Ok(p) => p,
            Err(e) => {
                return Err(e);
            },
        };
        Ok(Self::new(a, b))
    }

    /// The number of increments in which the segment is walked: the larger
    /// of its extents along the two axes.
    pub open spec fn steps(&self) -> int {
        let dx = span(self.start.x as int, self.end.x as int);
        let dy = span(self.start.y as int, self.end.y as int);
        if dx >= dy {
            dx
        } else {
            dy
        }
    }

    /// The grid position after `i` increments.
    pub open spec fn point_at(&self, i: int) -> Point {
        Point {
            x: interpolate(self.start.x as int, self.end.x as int, self.steps(), i) as i32,
            y: interpolate(self.start.y as int, self.end.y as int, self.steps(), i) as i32,
        }
    }

    /// The grid positions of the segment, from `start` to `end`: one per
    /// increment, and the starting position.
    pub open spec fn points(&self) -> Seq<Point> {
        Seq::new((self.steps() + 1) as nat, |i: int| self.point_at(i))
    }

    /// The writes that drawing the segment makes: its positions, from
    /// `start` to `end`, each in the segment's colour.
    pub open spec fn trace(&self) -> Seq<Pixel> {
        Seq::new((self.steps() + 1) as nat, |i: int| self.point_at(i).pixel(self.color))
    }

    /// Computes `steps`.
    pub fn step_count(&self) -> (n: i64)
        ensures
            n == self.steps(),
            0 <= n <= 0xFFFF_FFFF,
    {
        let dx: i64 = if self.start.x <= self.end.x {
            self.end.x as i64 - self.start.x as i64
        } else {
            self.start.x as i64 - self.end.x as i64
        };
        let dy: i64 = if self.start.y <= self.end.y {
            self.end.y as i64 - self.start.y as i64
        } else {
            self.start.y as i64 - self.end.y as i64
        };
        if dx >= dy {
            dx
        } else {
            dy
        }
    }
}

/// Computes `interpolate` on pixel coordinates.
pub fn interpolated(from: i32, to: i32, steps: i64, i: i64) -> (c: i32)
    requires
        0 <= i <= steps <= 0xFFFF_FFFF,
    ensures
        c == interpolate(from as int, to as int, steps as int, i as int),
{
    if steps == 0 {
        return from;
    }
    let d: i128 = steps as i128;
    let delta: i128 = to as i128 - from as i128;
    assert(-0x8000_0000_0000_0000 <= (from as int) * (steps as int) <= 0x8000_0000_0000_0000)
        by (nonlinear_arith)
        requires
            -0x8000_0000 <= from <= 0x7FFF_FFFF,
            0 <= steps <= 0xFFFF_FFFF,
    ;
    assert(-0x1_0000_0000_0000_0000 <= (i as int) * (delta as int) <= 0x1_0000_0000_0000_0000)
        by (nonlinear_arith)
        requires
            -0xFFFF_FFFF <= delta <= 0xFFFF_FFFF,
            0 <= i <= 0xFFFF_FFFF,
    ;
    let n: i128 = (from as i128) * d + (i as i128) * delta;
    let q: i128 = if n >= 0 {
        (2 * n + d) / (2 * d)
    } else {
        -((2 * (-n) + d) / (2 * d))
    };
    proof {
        lemma_interpolate_between(from as int, to as int, steps as int, i as int);
    }
    q as i32
}

impl Drawable for Line {
    /// The segment's trace: a segment carries its own colour.
    open spec fn pixels(&self, sampled: Color) -> Seq<Pixel> {
        self.trace()
    }

    open spec fn drawable(&self) -> bool {
        true
    }

    /// Draws the segment in its own colour, from `start` to `end`.
    fn draw<D: Displayable>(&self, canvas: &mut D)
        ensures
            final(canvas).model() == paint::<D>(old(canvas).model(), self.trace()),
    {
        let steps = self.step_count();
        let ghost before = canvas.model();
        let ghost all = self.trace();
        let mut i: i64 = 0;
        while i <= steps
            invariant
                0 <= i <= steps + 1,
                steps == self.steps(),
                steps <= 0xFFFF_FFFF,
                all == self.trace(),
                canvas.model() == paint::<D>(before, all.take(i as int)),
            decreases steps + 1 - i,
        {
            let x = interpolated(self.start.x, self.end.x, steps, i);
            let y = interpolated(self.start.y, self.end.y, steps, i);
            canvas.display(x, y, self.color);
            proof {
                let pixel = Pixel { x, y, color: self.color };
                lemma_interpolate_between(self.start.x as int, self.end.x as int, steps as int, i as int);
                lemma_interpolate_between(self.start.y as int, self.end.y as int, steps as int, i as int);
                assert(all.take(i as int).push(pixel) =~= all.take(i + 1));
                lemma_paint_push::<D>(before, all.take(i as int), pixel);
            }
            i += 1;
        }
        assert(all.take(i as int) =~= all);
        assert(self.pixels(Color::white()) == all);
    }
}

/// The writes that drawing the segments of `edges` one after another makes.
pub open spec fn outline(edges: Seq<Line>) -> Seq<Pixel>
    decreases edges.len(),
{
    if edges.len() == 0 {
        Seq::empty()
    } else {
        outline(edges.drop_last()) + edges.last().trace()
    }
}

/// One more segment adds its trace to the outline.
pub proof fn lemma_outline_push(edges: Seq<Line>, edge: Line)
    ensures
        outline(edges.push(edge)) == outline(edges) + edge.trace(),
{
    assert(edges.push(edge).drop_last() =~= edges);
}

/// The outline of segments laid end to end is the outlines laid end to end.
pub proof fn lemma_outline_concat(first: Seq<Line>, second: Seq<Line>)
    ensures
        outline(first + second) == outline(first) + outline(second),
    decreases second.len(),
{
    if second.len() > 0 {
        lemma_outline_concat(first, second.drop_last());
        assert((first + second).drop_last() =~= first + second.drop_last());
    }
}

/// Draws `edge` on a canvas that holds the outline of `done` on top of
/// `before`.
pub(crate) fn draw_edge<D: Displayable>(
    canvas: &mut D,
    edge: &Line,
    Ghost(before): Ghost<D::Model>,
    Ghost(done): Ghost<Seq<Line>>,
)
    requires
        old(canvas).model() == paint::<D>(before, outline(done)),
    ensures
        final(canvas).model() == paint::<D>(before, outline(done.push(*edge))),
{
    edge.draw(canvas);
    proof {
        lemma_paint_concat::<D>(before, outline(done), edge.trace());
        lemma_outline_push(done, *edge);
    }
}

/// Draws the segments of `lines`, first to last.
pub fn draw_lines<D: Displayable>(lines: &Vec<Line>, canvas: &mut D)
    ensures
        final(canvas).model() == paint::<D>(old(canvas).model(), outline(lines@)),
{
    let ghost before = canvas.model();
    let mut i: usize = 0;
    while i < lines.len()
        invariant
            0 <= i <= lines.len(),
            canvas.model() == paint::<D>(before, outline(lines@.take(i as int))),
        decreases lines.len() - i,
    {
        draw_edge(canvas, &lines[i], Ghost(before), Ghost(lines@.take(i as int)));
        assert(lines@.take(i as int).push(lines[i as int]) =~= lines@.take(i + 1));
        i += 1;
    }
    assert(lines@.take(i as int) =~= lines@);
}

/// A segment is drawn with one pixel per increment and one more: the
/// pixels are its positions in its colour, the first of them is its start
/// and the last is its end.
pub proof fn lemma_line_covers_both_ends(line: Line)
    ensures
        line.trace().len() == line.steps() + 1,
        line.trace().len() == line.points().len(),
        forall|i: int|
            0 <= i < line.trace().len() ==> #[trigger] line.trace()[i] == line.points()[i].pixel(
                line.color,
            ),
        line.points().first() == line.start,
        line.points().last() == line.end,
        line.trace().first() == line.start.pixel(line.color),
        line.trace().last() == line.end.pixel(line.color),
{
    let n = line.steps();
    if n > 0 {
        lemma_interpolate_ends(line.start.x as int, line.end.x as int, n);
        lemma_interpolate_ends(line.start.y as int, line.end.y as int, n);
    }
}

/// A segment whose ends coincide is drawn as exactly one pixel, at that
/// point.
pub proof fn lemma_degenerate_line_is_one_point(line: Line)
    requires
        line.start == line.end,
    ensures
        line.points() == seq![line.start],
        line.trace() == seq![line.start.pixel(line.color)],
{
}

} // verus!
