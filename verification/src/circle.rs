//! Circles and their outline.
//!
//! The outline is walked from the top of the circle to its rightmost
//! point. At each position the walk looks at the three neighbours to the
//! right, below and diagonally below, and moves to the one whose distance
//! from the centre is closest to the radius. Every position is mirrored
//! into the other three quadrants.
//!
//! Distances are compared exactly. The square root of an integer is never
//! computed: a comparison between roots is rewritten, by squaring, as a
//! comparison between integers.

use vstd::prelude::*;
use crate::canvas::{lemma_paint_push, paint, Displayable};
use crate::color::{Color, Pixel};
use crate::drawable::Drawable;
use crate::error::ShapeError;
use crate::point::Point;
use crate::random::sample_range;
use crate::roots::square;

verus! {

/// Whether `sqrt(a) + sqrt(b) <= t`, for non-negative `a`, `b` and `t`.
///
/// Squaring once, the claim is `2 * sqrt(a * b) <= t * t - a - b`; it holds
/// when the right side is not negative and the squares compare that way.
pub open spec fn roots_sum_at_most(a: int, b: int, t: int) -> bool {
    a + b <= t * t && 4 * a * b <= square(t * t - a - b)
}

/// Whether `sqrt(a) + sqrt(b) >= t`, for non-negative `a`, `b` and `t`.
pub open spec fn roots_sum_at_least(a: int, b: int, t: int) -> bool {
    a + b >= t * t || 4 * a * b >= square(t * t - a - b)
}

/// Whether a point at squared distance `a` is at least as close to the
/// circle of radius `r` as a point at squared distance `b`, that is,
/// whether `|sqrt(a) - r| <= |sqrt(b) - r|`.
///
/// Two points on the same side of the circle compare by their distances.
/// With one outside and one inside, `sqrt(a) - r <= r - sqrt(b)` is a bound
/// on the sum of the roots, and so is the opposite case. A radius that is
/// not positive has every point outside.
pub open spec fn nearer(a: int, b: int, r: int) -> bool {
    if r <= 0 || (a >= r * r && b >= r * r) {
        a <= b
    } else if a < r * r && b < r * r {
        a >= b
    } else if a >= r * r {
        roots_sum_at_most(a, b, 2 * r)
    } else {
        roots_sum_at_least(a, b, 2 * r)
    }
}

/// How far a point at distance `d` is from the circle of radius `r`.
pub open spec fn gap(d: int, r: int) -> int {
    if d >= r {
        d - r
    } else {
        r - d
    }
}

/// Where the distances are whole numbers, `nearer` compares their gaps to
/// the radius.
pub proof fn lemma_nearer_compares_gaps(p: int, q: int, r: int)
    requires
        p >= 0,
        q >= 0,
    ensures
        nearer(square(p), square(q), r) <==> gap(p, r) <= gap(q, r),
{
    let a = square(p);
    let b = square(q);
    assert((p <= q <==> a <= b) && (q <= p <==> b <= a)) by (nonlinear_arith)
        requires
            p >= 0,
            q >= 0,
            a == p * p,
            b == q * q,
    ;
    if r > 0 {
        assert(p >= r <==> a >= r * r) by (nonlinear_arith)
            requires
                p >= 0,
                r > 0,
                a == p * p,
        ;
        assert(q >= r <==> b >= r * r) by (nonlinear_arith)
            requires
                q >= 0,
                r > 0,
                b == q * q,
        ;
        let t = (2 * r) * (2 * r);
        let s = t - a - b;
        // (p + q)^2 against (2r)^2, with the product taken apart
        assert(p + q <= 2 * r <==> a + b + 2 * (p * q) <= t) by (nonlinear_arith)
            requires
                p >= 0,
                q >= 0,
                r > 0,
                a == p * p,
                b == q * q,
                t == (2 * r) * (2 * r),
        ;
        assert(p + q >= 2 * r <==> a + b + 2 * (p * q) >= t) by (nonlinear_arith)
            requires
                p >= 0,
                q >= 0,
                r > 0,
                a == p * p,
                b == q * q,
                t == (2 * r) * (2 * r),
        ;
        assert(4 * a * b == (2 * (p * q)) * (2 * (p * q)) && p * q >= 0) by (nonlinear_arith)
            requires
                p >= 0,
                q >= 0,
                a == p * p,
                b == q * q,
        ;
        assert(s >= 0 ==> (square(s) >= (2 * (p * q)) * (2 * (p * q)) <==> s >= 2 * (p * q)))
            by (nonlinear_arith)
            requires
                p * q >= 0,
        ;
        assert(s >= 0 ==> (square(s) <= (2 * (p * q)) * (2 * (p * q)) <==> s <= 2 * (p * q)))
            by (nonlinear_arith)
            requires
                p * q >= 0,
        ;
    }
}

/// Of three squared distances, the one closest to the radius `r`. On a tie
/// the first is preferred, then the second.
pub open spec fn closest(a: int, b: int, c: int, r: int) -> int {
    if nearer(a, b, r) && nearer(a, c, r) {
        a
    } else if nearer(b, c, r) {
        b
    } else {
        c
    }
}

/// The position that follows `(u, v)` on the outline of the circle of
/// radius `r` around the origin: the neighbour to the right, below or
/// diagonally below whose distance from the origin is closest to `r`.
pub open spec fn advance(r: int, u: int, v: int) -> (int, int) {
    let right = square(u + 1) + square(v);
    let below = square(u) + square(v + 1);
    let diagonal = square(u + 1) + square(v + 1);
    let best = closest(right, below, diagonal, r);
    if right == best {
        (u + 1, v)
    } else if below == best {
        (u, v + 1)
    } else {
        (u + 1, v + 1)
    }
}

/// The positions of the walk that is at `(u, v)`, relative to the centre:
/// the walk goes on for as long as it has not passed below the centre.
pub open spec fn arc_from(r: int, u: int, v: int) -> Seq<(int, int)>
    decreases (if u < r { r - u } else { 0 }) + (if v <= 0 { 1 - v } else { 0 }),
    when r >= 1
    via arc_from_ends
{
    if v > 0 {
        Seq::empty()
    } else {
        let next = advance(r, u, v);
        seq![(u, v)] + arc_from(r, next.0, next.1)
    }
}

#[via_fn]
proof fn arc_from_ends(r: int, u: int, v: int) {
    if v <= 0 {
        lemma_advance_moves(r, u, v);
    }
}

/// The walk moves right, down or both, and it moves right only while it is
/// left of the circle's rightmost column.
pub proof fn lemma_advance_moves(r: int, u: int, v: int)
    requires
        r >= 1,
        v <= 0,
    ensures
        advance(r, u, v) == (u + 1, v) || advance(r, u, v) == (u, v + 1) || advance(r, u, v) == (
            u + 1,
            v + 1,
        ),
        advance(r, u, v).0 == u + 1 ==> u < r,
{
    if u >= r {
        let right = square(u + 1) + square(v);
        let below = square(u) + square(v + 1);
        let diagonal = square(u + 1) + square(v + 1);
        assert(square(u) >= r * r) by (nonlinear_arith)
            requires
                u >= r >= 1,
        ;
        assert(square(u + 1) == square(u) + 2 * u + 1) by (nonlinear_arith);
        assert(square(v + 1) == square(v) + 2 * v + 1) by (nonlinear_arith);
        assert(square(v) >= 0 && square(v + 1) >= 0) by (nonlinear_arith);
        assert(!nearer(right, below, r));
        assert(nearer(below, diagonal, r));
        assert(closest(right, below, diagonal, r) == below);
    }
}

/// The positions of the outline of the circle of radius `r` around the
/// origin, from the top `(0, -r)` to the rightmost point. A circle of
/// radius zero is its centre, and one of negative radius is empty.
pub open spec fn arc(r: int) -> Seq<(int, int)> {
    if r < 0 {
        Seq::empty()
    } else if r == 0 {
        seq![(0, 0)]
    } else {
        arc_from(r, 0, -r)
    }
}

/// The position at `offset` from `center`, or one of its three mirror
/// images: `which` is 0 for the position itself, 1 for its image across
/// the vertical axis through the centre, 2 for the one across the
/// horizontal axis, and 3 for the one across both.
pub open spec fn mirror(center: Point, offset: (int, int), which: int, color: Color) -> Pixel {
    Pixel {
        x: (if which == 0 || which == 2 {
            center.x + offset.0
        } else {
            center.x - offset.0
        }) as i32,
        y: (if which == 0 || which == 1 {
            center.y + offset.1
        } else {
            center.y - offset.1
        }) as i32,
        color,
    }
}

/// The four images of each of `offsets`, position by position.
pub open spec fn mirrored(center: Point, offsets: Seq<(int, int)>, color: Color) -> Seq<Pixel> {
    Seq::new(4 * offsets.len(), |k: int| mirror(center, offsets[k / 4], k % 4, color))
}

/// The images of one more position follow those of the positions before.
pub proof fn lemma_mirrored_push(center: Point, offsets: Seq<(int, int)>, offset: (int, int), color: Color)
    ensures
        mirrored(center, offsets.push(offset), color) == mirrored(center, offsets, color).push(
            mirror(center, offset, 0, color),
        ).push(mirror(center, offset, 1, color)).push(mirror(center, offset, 2, color)).push(
            mirror(center, offset, 3, color),
        ),
{
    let longer = mirrored(center, offsets.push(offset), color);
    let pushed = mirrored(center, offsets, color).push(mirror(center, offset, 0, color)).push(
        mirror(center, offset, 1, color),
    ).push(mirror(center, offset, 2, color)).push(mirror(center, offset, 3, color));
    assert(longer.len() == pushed.len());
    assert forall|k: int| 0 <= k < longer.len() implies longer[k] == pushed[k] by {
        if k < 4 * offsets.len() {
            assert(offsets.push(offset)[k / 4] == offsets[k / 4]);
        } else {
            assert(k / 4 == offsets.len());
        }
    }
    assert(longer =~= pushed);
}

/// The squared distance between two grid positions.
pub open spec fn squared_distance(from: (int, int), to: (int, int)) -> int {
    square(to.0 - from.0) + square(to.1 - from.1)
}

/// Computes the squared distance between two positions whose coordinates
/// are 33-bit numbers.
pub fn distance(from: (i64, i64), to: (i64, i64)) -> (d: u128)
    requires
        -0x1_0000_0000 <= from.0 <= 0x1_0000_0000,
        -0x1_0000_0000 <= from.1 <= 0x1_0000_0000,
        -0x1_0000_0000 <= to.0 <= 0x1_0000_0000,
        -0x1_0000_0000 <= to.1 <= 0x1_0000_0000,
    ensures
        d == squared_distance((from.0 as int, from.1 as int), (to.0 as int, to.1 as int)),
{
    let dx: i128 = to.0 as i128 - from.0 as i128;
    let dy: i128 = to.1 as i128 - from.1 as i128;
    assert(0 <= dx * dx <= 0x4_0000_0000_0000_0000) by (nonlinear_arith)
        requires
            -0x2_0000_0000 <= dx <= 0x2_0000_0000,
    ;
    assert(0 <= dy * dy <= 0x4_0000_0000_0000_0000) by (nonlinear_arith)
        requires
            -0x2_0000_0000 <= dy <= 0x2_0000_0000,
    ;
    (dx * dx + dy * dy) as u128
}

/// Decides `nearer`.
pub fn is_nearer(a: u128, b: u128, target: i32) -> (yes: bool)
    ensures
        yes == nearer(a as int, b as int, target as int),
{
    if target <= 0 {
        return a <= b;
    }
    let r: u128 = target as u128;
    assert(r * r <= 0x3FFF_FFFF_0000_0001) by (nonlinear_arith)
        requires
            0 <= r <= 0x7FFF_FFFF,
    ;
    let inside: u128 = r * r;
    let t: u128 = 2 * r;
    assert(t * t == 4 * inside) by (nonlinear_arith)
        requires
            t == 2 * r,
            inside == r * r,
    ;
    let limit: u128 = 4 * inside;
    if a >= inside && b >= inside {
        a <= b
    } else if a < inside && b < inside {
        a >= b
    } else if a >= inside {
        // `a` outside and `b` inside: is sqrt(a) + sqrt(b) <= 2r?
        if a > limit {
            return false;
        }
        if a + b > limit {
            return false;
        }
        let rest: u128 = limit - a - b;
        assert(4 * a * b <= 0xFFFF_FFFF_FFFF_FFFF_FFFF_FFFF_FFFF_FFFF && 4 * a * b == 4 * (a * b)
            && a * b >= 0) by (nonlinear_arith)
            requires
                0 <= a <= 0xFFFF_FFFC_0000_0004,
                0 <= b <= 0x3FFF_FFFF_0000_0001,
        ;
        assert(rest * rest <= 0xFFFF_FFFF_FFFF_FFFF_FFFF_FFFF_FFFF_FFFF) by (nonlinear_arith)
            requires
                0 <= rest <= 0xFFFF_FFFC_0000_0004,
        ;
        4 * (a * b) <= rest * rest
    } else {
        // `a` inside and `b` outside: is sqrt(a) + sqrt(b) >= 2r?
        if b >= limit {
            return true;
        }
        if a + b >= limit {
            return true;
        }
        let rest: u128 = limit - a - b;
        assert(4 * a * b <= 0xFFFF_FFFF_FFFF_FFFF_FFFF_FFFF_FFFF_FFFF && 4 * a * b == 4 * (a * b)
            && a * b >= 0) by (nonlinear_arith)
            requires
                0 <= b <= 0xFFFF_FFFC_0000_0004,
                0 <= a <= 0x3FFF_FFFF_0000_0001,
        ;
        assert(rest * rest <= 0xFFFF_FFFF_FFFF_FFFF_FFFF_FFFF_FFFF_FFFF) by (nonlinear_arith)
            requires
                0 <= rest <= 0xFFFF_FFFC_0000_0004,
        ;
        4 * (a * b) >= rest * rest
    }
}

/// Of three squared distances, picks the one closest to `target`.
pub fn closest_to_target(a: u128, b: u128, c: u128, target: i32) -> (best: u128)
    ensures
        best == closest(a as int, b as int, c as int, target as int),
{
    if is_nearer(a, b, target) && is_nearer(a, c, target) {
        a
    } else if is_nearer(b, c, target) {
        b
    } else {
        c
    }
}

/// A circle, by its centre and radius.
#[derive(Debug, PartialEq, Eq, Structural, Clone, Copy)]
pub struct Circle {
    pub center: Point,
    pub radius: i32,
}

impl Circle {
    /// The circle of radius `radius` around `center`.
    pub fn new(center: Point, radius: i32) -> (circle: Self)
        ensures
            circle == (Circle { center, radius }),
    {
        Self { center, radius }
    }

    /// A random circle on a `width` by `height` canvas: the centre is a
    /// random point of the canvas and the radius is drawn from
    /// `[0, min(width, height) / 2)`. Fails as `Point::random` does.
    pub fn random(width: i32, height: i32) -> (sampled: Result<Self, ShapeError>)
        ensures
            sampled is Ok <==> Point::samplable(width, height),
            sampled matches Ok(circle) ==> {
                &&& 1 <= circle.center.x < width && 1 <= circle.center.y < height
                &&& 0 <= circle.radius < (if width <= height {
                    width
                } else {
                    height
                }) / 2
            },
            sampled matches Err(e) ==> e == (ShapeError::InvalidBounds { width, height }),
    {
        let center = match Point::random(width, height) {
            Ok(p) => p,
            Err(e) => {
                return Err(e);
            },
        };
        let smaller = if width <= height {
            width
        } else {
            height
        };
        let radius = sample_range(0, smaller / 2);
        Ok(Self::new(center, radius))
    }

    /// Decides `drawable`.
    pub fn can_draw(&self) -> (yes: bool)
        ensures
            yes == self.drawable(),
    {
        let r = self.radius as i64;
        let cx = self.center.x as i64;
        let cy = self.center.y as i64;
        r <= 0 || (cx - r >= -0x8000_0000 && cx + r <= 0x7FFF_FFFF && cy - r >= -0x8000_0000 && cy
            + r <= 0x7FFF_FFFF)
    }

    /// Draws the outline in `color`.
    pub fn draw_with<D: Displayable>(&self, canvas: &mut D, color: Color)
        requires
            self.drawable(),
        ensures
            final(canvas).model() == paint::<D>(old(canvas).model(), self.pixels(color)),
    {
        let ghost before = canvas.model();
        let ghost mut visited: Seq<(int, int)> = Seq::empty();
        assert(mirrored(self.center, visited, color) =~= Seq::<Pixel>::empty());
        if self.radius < 0 {
            return ;
        }
        if self.radius == 0 {
            self.draw_four(canvas, color, 0, 0, Ghost(before), Ghost(visited));
            proof {
                assert(visited.push((0int, 0int)) =~= arc(0));
            }
            return ;
        }
        let r: i64 = self.radius as i64;
        let mut u: i64 = 0;
        let mut v: i64 = -r;
        assert(visited + arc_from(r as int, 0, -r) =~= arc(r as int));
        while v <= 0
            invariant
                r == self.radius,
                r >= 1,
                self.drawable(),
                0 <= u <= r,
                -r <= v <= 1,
                visited + arc_from(r as int, u as int, v as int) == arc(r as int),
                canvas.model() == paint::<D>(before, mirrored(self.center, visited, color)),
            decreases (r - u) + (1 - v),
        {
            self.draw_four(canvas, color, u, v, Ghost(before), Ghost(visited));
            let right = distance((0, 0), (u + 1, v));
            let below = distance((0, 0), (u, v + 1));
            let diagonal = distance((0, 0), (u + 1, v + 1));
            let best = closest_to_target(right, below, diagonal, self.radius);
            proof {
                lemma_advance_moves(r as int, u as int, v as int);
                let next = advance(r as int, u as int, v as int);
                assert(visited.push((u as int, v as int)) + arc_from(r as int, next.0, next.1)
                    =~= visited + arc_from(r as int, u as int, v as int));
                visited = visited.push((u as int, v as int));
            }
            if right == best {
                u += 1;
            } else if below == best {
                v += 1;
            } else {
                u += 1;
                v += 1;
            }
        }
        assert(visited + arc_from(r as int, u as int, v as int) =~= visited);
    }

    /// Writes the position at offset `(u, v)` from the centre and its three
    /// mirror images.
    fn draw_four<D: Displayable>(
        &self,
        canvas: &mut D,
        color: Color,
        u: i64,
        v: i64,
        Ghost(before): Ghost<D::Model>,
        Ghost(visited): Ghost<Seq<(int, int)>>,
    )
        requires
            self.drawable(),
            0 <= u <= self.radius,
            -self.radius <= v <= 0,
            old(canvas).model() == paint::<D>(before, mirrored(self.center, visited, color)),
        ensures
            final(canvas).model() == paint::<D>(
                before,
                mirrored(self.center, visited.push((u as int, v as int)), color),
            ),
    {
        let cx = self.center.x as i64;
        let cy = self.center.y as i64;
        let ghost offset = (u as int, v as int);
        let ghost drawn = mirrored(self.center, visited, color);
        canvas.display((cx + u) as i32, (cy + v) as i32, color);
        canvas.display((cx - u) as i32, (cy + v) as i32, color);
        canvas.display((cx + u) as i32, (cy - v) as i32, color);
        canvas.display((cx - u) as i32, (cy - v) as i32, color);
        proof {
            let first = mirror(self.center, offset, 0, color);
            let second = mirror(self.center, offset, 1, color);
            let third = mirror(self.center, offset, 2, color);
            let fourth = mirror(self.center, offset, 3, color);
            lemma_paint_push::<D>(before, drawn, first);
            lemma_paint_push::<D>(before, drawn.push(first), second);
            lemma_paint_push::<D>(before, drawn.push(first).push(second), third);
            lemma_paint_push::<D>(before, drawn.push(first).push(second).push(third), fourth);
            lemma_mirrored_push(self.center, visited, offset, color);
        }
    }
}

impl Drawable for Circle {
    /// The positions of the outline, each followed by its three mirror
    /// images, all in the sampled colour.
    open spec fn pixels(&self, sampled: Color) -> Seq<Pixel> {
        mirrored(self.center, arc(self.radius as int), sampled)
    }

    /// The circle's bounding square lies on the grid of `i32` coordinates.
    open spec fn drawable(&self) -> bool {
        self.radius <= 0 || {
            &&& i32::MIN <= self.center.x - self.radius
            &&& self.center.x + self.radius <= i32::MAX
            &&& i32::MIN <= self.center.y - self.radius
            &&& self.center.y + self.radius <= i32::MAX
        }
    }

    /// Draws the outline in one freshly sampled colour.
    fn draw<D: Displayable>(&self, canvas: &mut D) {
        let color = self.color();
        self.draw_with(canvas, color);
    }
}

} // verus!
