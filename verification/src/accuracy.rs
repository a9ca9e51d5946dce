//! How well the drawn outline of a circle follows the circle.
//!
//! Every position of the outline lies within half a pixel of the circle,
//! and the outline is its own mirror image across both axes through the
//! centre.

use vstd::prelude::*;
use crate::circle::{
    advance, arc, arc_from, closest, lemma_advance_moves, mirror, nearer, roots_sum_at_least,
    roots_sum_at_most, Circle,
};
use crate::color::{Color, Pixel};
use crate::drawable::Drawable;
use crate::roots::square;

verus! {

/// Whether a point at squared distance `d2` from the centre lies within
/// half a pixel of the circle of radius `r`: `|sqrt(d2) - r| <= 1/2`, or,
/// doubled and squared, `2r - 1 <= 2 sqrt(d2) <= 2r + 1`.
pub open spec fn within_half(d2: int, r: int) -> bool {
    (2 * r - 1 <= 0 || square(2 * r - 1) <= 4 * d2) && 4 * d2 <= square(2 * r + 1)
}

/// Whether `sqrt(y) <= sqrt(x) + 1`: squared, `y - x - 1 <= 2 sqrt(x)`.
/// It holds of the squared distances of two points that are one pixel
/// apart.
pub open spec fn within_one(x: int, y: int) -> bool {
    y - x - 1 <= 0 || square(y - x - 1) <= 4 * x
}

/// If the roots of `x` and `y` are at most one apart and add up to at most
/// `2r`, twice the larger is at most `2r + 1`.
proof fn lemma_outer_of_two(x: int, y: int, r: int)
    requires
        r >= 1,
        0 <= x,
        0 <= y,
        within_one(x, y),
        roots_sum_at_most(y, x, 2 * r),
    ensures
        4 * y <= square(2 * r + 1),
{
    let p = 2 * r + 1;
    let t = (2 * r) * (2 * r);
    let s = t - x - y;
    assert(t == p * p - 2 * p + 1) by (nonlinear_arith)
        requires
            p == 2 * r + 1,
            t == (2 * r) * (2 * r),
    ;
    assert(4 * y * x == 4 * x * y) by (nonlinear_arith);
    if 4 * y > p * p {
        // twice the smaller root is more than p - 2
        let e = y - x - 1;
        if e > 0 {
            assert(4 * x > (p - 2) * (p - 2)) by (nonlinear_arith)
                requires
                    e > 0,
                    e * e <= 4 * x,
                    4 * x + 4 * e + 4 > p * p,
                    p >= 3,
            ;
        } else {
            assert(4 * x > (p - 2) * (p - 2)) by (nonlinear_arith)
                requires
                    4 * x + 4 > p * p,
                    p >= 3,
            ;
        }
        // so the product of the roots is more than p (p - 2) / 4 ...
        assert(16 * (x * y) > (p * (p - 2)) * (p * (p - 2))) by (nonlinear_arith)
            requires
                4 * x > (p - 2) * (p - 2),
                4 * y > p * p,
                p >= 3,
        ;
        // ... while what is left of (2r)^2 is less than half of p (p - 2)
        assert(0 <= 2 * s < p * (p - 2)) by (nonlinear_arith)
            requires
                s == t - x - y,
                s >= 0,
                t == p * p - 2 * p + 1,
                4 * x > (p - 2) * (p - 2),
                4 * y > p * p,
        ;
        assert(4 * (s * s) < (p * (p - 2)) * (p * (p - 2))) by (nonlinear_arith)
            requires
                0 <= 2 * s < p * (p - 2),
        ;
        assert(4 * x * y == 4 * (x * y)) by (nonlinear_arith);
        assert(false);
    }
}

/// If the roots of `x` and `y` are at most one apart and add up to at
/// least `2r`, twice the smaller is at least `2r - 1`.
proof fn lemma_inner_of_two(x: int, y: int, r: int)
    requires
        r >= 1,
        0 <= x,
        0 <= y,
        within_one(x, y),
        roots_sum_at_least(x, y, 2 * r),
    ensures
        square(2 * r - 1) <= 4 * x,
{
    let q = 2 * r - 1;
    let t = (2 * r) * (2 * r);
    let s = t - x - y;
    assert(t == q * q + 2 * q + 1) by (nonlinear_arith)
        requires
            q == 2 * r - 1,
            t == (2 * r) * (2 * r),
    ;
    if 4 * x < q * q {
        // twice the larger root is less than q + 2
        let e = y - x - 1;
        if e > 0 {
            assert(e < q) by (nonlinear_arith)
                requires
                    e > 0,
                    q >= 1,
                    e * e <= 4 * x,
                    4 * x < q * q,
            ;
            assert(4 * y < (q + 2) * (q + 2)) by (nonlinear_arith)
                requires
                    4 * y == 4 * x + 4 * e + 4,
                    4 * x < q * q,
                    e <= q - 1,
            ;
        } else {
            assert(4 * y < (q + 2) * (q + 2)) by (nonlinear_arith)
                requires
                    4 * y <= 4 * x + 4,
                    4 * x < q * q,
                    q >= 1,
            ;
        }
        // so the roots add up to less than 2r: the sum of the numbers is
        // below (2r)^2 ...
        assert(2 * s >= (q + 1) * (q + 1) && s > 0) by (nonlinear_arith)
            requires
                s == t - x - y,
                t == q * q + 2 * q + 1,
                4 * x < q * q,
                4 * y < (q + 2) * (q + 2),
                q >= 1,
        ;
        // ... and their product is below what is left, squared
        assert(16 * (x * y) < (q * (q + 2)) * (q * (q + 2))) by (nonlinear_arith)
            requires
                0 <= 4 * x < q * q,
                0 <= 4 * y < (q + 2) * (q + 2),
                q >= 1,
        ;
        assert((q * (q + 2)) * (q * (q + 2)) < 4 * (s * s)) by (nonlinear_arith)
            requires
                2 * s >= (q + 1) * (q + 1),
                q >= 1,
        ;
        assert(4 * x * y == 4 * (x * y)) by (nonlinear_arith);
        assert(false);
    }
}

/// From a position above the centre's row that lies within half a pixel of
/// the circle, the walk moves to a position within half a pixel of the
/// circle.
pub proof fn lemma_advance_stays_close(r: int, u: int, v: int)
    requires
        r >= 1,
        u >= 0,
        v <= -1,
        within_half(square(u) + square(v), r),
    ensures
        within_half(square(advance(r, u, v).0) + square(advance(r, u, v).1), r),
{
    let here = square(u) + square(v);
    let right = square(u + 1) + square(v);
    let below = square(u) + square(v + 1);
    let diagonal = square(u + 1) + square(v + 1);
    let best = closest(right, below, diagonal, r);
    let inside = r * r;
    let low = square(2 * r - 1);
    let high = square(2 * r + 1);
    assert(square(u + 1) == square(u) + 2 * u + 1) by (nonlinear_arith);
    assert(square(v + 1) == square(v) + 2 * v + 1) by (nonlinear_arith);
    assert(square(u) >= 0 && square(v + 1) >= 0 && square(u + 1) >= 0) by (nonlinear_arith);
    assert(low == 4 * inside - 4 * r + 1 && high == 4 * inside + 4 * r + 1 && (2 * r) * (2 * r) == 4
        * inside) by (nonlinear_arith)
        requires
            inside == r * r,
            low == square(2 * r - 1),
            high == square(2 * r + 1),
    ;
    // neighbours are one pixel apart
    assert(within_one(below, diagonal)) by {
        assert(square(diagonal - below - 1) == 4 * square(u)) by (nonlinear_arith)
            requires
                diagonal - below - 1 == 2 * u,
        ;
    }
    assert(within_one(diagonal, right)) by {
        assert(square(right - diagonal - 1) == 4 * square(v + 1)) by (nonlinear_arith)
            requires
                right - diagonal - 1 == -2 * (v + 1),
        ;
    }
    assert(below < diagonal < right);
    assert(below < here < right);
    if right == best {
        // the position to the right is the farthest: if it lies outside,
        // the diagonal one lies inside and the two straddle the circle
        if right > inside {
            assert(nearer(right, diagonal, r));
            lemma_outer_of_two(diagonal, right, r);
        }
    } else if below == best {
        // the position below is the nearest: if it lies inside, the
        // diagonal one lies outside
        assert(nearer(below, diagonal, r));
        if below < inside {
            lemma_inner_of_two(below, diagonal, r);
        }
    } else {
        assert(best == diagonal);
        assert(!nearer(below, diagonal, r));
        assert(!(nearer(right, below, r) && nearer(right, diagonal, r)));
        if diagonal >= inside {
            // the position below lies inside
            assert(roots_sum_at_most(diagonal, below, 2 * r)) by {
                assert(4 * below * diagonal == 4 * diagonal * below) by (nonlinear_arith);
            }
            lemma_outer_of_two(below, diagonal, r);
        } else {
            // the position to the right lies outside
            if nearer(right, diagonal, r) {
                // then the one below, nearer still to the centre, would
                // be no nearer to the circle than the one to the right
                assert(nearer(right, below, r)) by {
                    let rest = 4 * inside - right - diagonal;
                    let more = 4 * inside - right - below;
                    assert(0 <= rest < more);
                    assert(4 * right * below <= 4 * right * diagonal) by (nonlinear_arith)
                        requires
                            0 <= below < diagonal,
                            0 <= right,
                    ;
                    assert(square(rest) <= square(more)) by (nonlinear_arith)
                        requires
                            0 <= rest < more,
                    ;
                }
                assert(false);
            }
            assert(roots_sum_at_least(diagonal, right, 2 * r)) by {
                assert(4 * right * diagonal == 4 * diagonal * right) by (nonlinear_arith);
            }
            lemma_inner_of_two(diagonal, right, r);
        }
    }
}

/// Every position of a walk that starts within half a pixel of the circle,
/// in the upper right quadrant, lies within half a pixel of the circle and
/// in that quadrant.
pub proof fn lemma_walk_stays_close(r: int, u: int, v: int)
    requires
        r >= 1,
        0 <= u <= r,
        -r <= v <= 1,
        v <= 0 ==> within_half(square(u) + square(v), r),
    ensures
        forall|i: int|
            0 <= i < arc_from(r, u, v).len() ==> {
                let at = #[trigger] arc_from(r, u, v)[i];
                &&& 0 <= at.0 <= r
                &&& -r <= at.1 <= 0
                &&& within_half(square(at.0) + square(at.1), r)
            },
    decreases (r - u) + (1 - v),
{
    if v <= 0 {
        let next = advance(r, u, v);
        lemma_advance_moves(r, u, v);
        if v <= -1 {
            lemma_advance_stays_close(r, u, v);
        } else if next.1 <= 0 {
            // on the centre's row the walk is at the rightmost point
            assert(u >= r) by (nonlinear_arith)
                requires
                    square(2 * r - 1) <= 4 * (square(u) + square(v)),
                    v == 0,
                    u >= 0,
                    r >= 1,
                    square(2 * r - 1) == (2 * r - 1) * (2 * r - 1),
                    square(u) == u * u,
                    square(v) == v * v,
            ;
            assert(false);
        }
        lemma_walk_stays_close(r, next.0, next.1);
        let rest = arc_from(r, next.0, next.1);
        assert forall|i: int| 0 <= i < arc_from(r, u, v).len() implies {
            let at = #[trigger] arc_from(r, u, v)[i];
            &&& 0 <= at.0 <= r
            &&& -r <= at.1 <= 0
            &&& within_half(square(at.0) + square(at.1), r)
        } by {
            if i > 0 {
                assert(arc_from(r, u, v)[i] == rest[i - 1]);
            }
        }
    }
}

/// Every position of the outline lies in the upper right quadrant of the
/// circle's bounding square, within half a pixel of the circle.
pub proof fn lemma_arc_is_close(r: int)
    ensures
        forall|i: int|
            0 <= i < arc(r).len() ==> {
                let at = #[trigger] arc(r)[i];
                &&& 0 <= at.0 <= r
                &&& -r <= at.1 <= 0
                &&& within_half(square(at.0) + square(at.1), r)
            },
{
    if r >= 1 {
        assert(within_half(square(0) + square(-r), r)) by (nonlinear_arith)
            requires
                r >= 1,
        ;
        lemma_walk_stays_close(r, 0, -r);
    } else if r == 0 {
        assert(within_half(square(0) + square(0), 0)) by (nonlinear_arith);
    }
}

/// The squared distance of a pixel from a circle's centre.
pub open spec fn squared_distance_from_center(circle: Circle, pixel: Pixel) -> int {
    square(pixel.x - circle.center.x) + square(pixel.y - circle.center.y)
}

/// Every pixel of a circle lies within half a pixel of the circle.
pub proof fn lemma_circle_is_round(circle: Circle, color: Color)
    requires
        circle.drawable(),
    ensures
        forall|k: int|
            0 <= k < circle.pixels(color).len() ==> within_half(
                squared_distance_from_center(circle, #[trigger] circle.pixels(color)[k]),
                circle.radius as int,
            ),
{
    let r = circle.radius as int;
    lemma_arc_is_close(r);
    assert forall|k: int| 0 <= k < circle.pixels(color).len() implies within_half(
        squared_distance_from_center(circle, #[trigger] circle.pixels(color)[k]),
        r,
    ) by {
        let at = arc(r)[k / 4];
        let pixel = mirror(circle.center, at, k % 4, color);
        assert(circle.pixels(color)[k] == pixel);
        assert(square(-at.0) == square(at.0) && square(-at.1) == square(at.1)) by (nonlinear_arith);
    }
}

/// The image of `pixel` across the vertical axis through a circle's centre.
pub open spec fn across(circle: Circle, pixel: Pixel) -> Pixel {
    Pixel { x: (2 * circle.center.x - pixel.x) as i32, y: pixel.y, color: pixel.color }
}

/// The image of `pixel` across the horizontal axis through a circle's
/// centre.
pub open spec fn over(circle: Circle, pixel: Pixel) -> Pixel {
    Pixel { x: pixel.x, y: (2 * circle.center.y - pixel.y) as i32, color: pixel.color }
}

/// The image across the vertical axis through the centre of each pixel of
/// a circle is a pixel of the circle, and so is its image across the
/// horizontal axis.
pub proof fn lemma_circle_is_symmetric(circle: Circle, color: Color)
    requires
        circle.drawable(),
    ensures
        forall|k: int|
            0 <= k < circle.pixels(color).len() ==> {
                let pixel = #[trigger] circle.pixels(color)[k];
                &&& i32::MIN <= 2 * circle.center.x - pixel.x <= i32::MAX
                &&& i32::MIN <= 2 * circle.center.y - pixel.y <= i32::MAX
                &&& circle.pixels(color).contains(across(circle, pixel))
                &&& circle.pixels(color).contains(over(circle, pixel))
            },
{
    let r = circle.radius as int;
    let all = circle.pixels(color);
    lemma_arc_is_close(r);
    assert forall|k: int| 0 <= k < all.len() implies {
        let pixel = #[trigger] all[k];
        &&& i32::MIN <= 2 * circle.center.x - pixel.x <= i32::MAX
        &&& i32::MIN <= 2 * circle.center.y - pixel.y <= i32::MAX
        &&& all.contains(across(circle, pixel))
        &&& all.contains(over(circle, pixel))
    } by {
        let at = arc(r)[k / 4];
        let left = if k % 2 == 0 {
            k + 1
        } else {
            k - 1
        };
        let down = if k % 4 < 2 {
            k + 2
        } else {
            k - 2
        };
        assert(left / 4 == k / 4 && down / 4 == k / 4);
        assert(all[k] == mirror(circle.center, at, k % 4, color));
        assert(all[left] == mirror(circle.center, at, left % 4, color));
        assert(all[down] == mirror(circle.center, at, down % 4, color));
        assert(all[left] == across(circle, all[k]));
        assert(all[down] == over(circle, all[k]));
    }
}

/// A circle of radius zero is drawn at its centre and nowhere else.
pub proof fn lemma_circle_of_radius_zero(circle: Circle, color: Color)
    requires
        circle.radius == 0,
    ensures
        circle.pixels(color).len() == 4,
        forall|k: int|
            0 <= k < 4 ==> #[trigger] circle.pixels(color)[k] == circle.center.pixel(color),
{
    assert(arc(0) =~= seq![(0int, 0int)]);
    assert forall|k: int| 0 <= k < 4 implies #[trigger] circle.pixels(color)[k]
        == circle.center.pixel(color) by {
        assert(k / 4 == 0);
    }
}

} // verus!
