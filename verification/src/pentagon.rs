//! Regular pentagons.
//!
//! A pentagon is walked edge by edge. The first edge heads along the x
//! axis and each later edge is turned by 72 degrees from the one before.
//! An edge moves by `side * cos(heading)` along x and `side * sin(heading)`
//! along y, each truncated toward zero to whole pixels; the truncation
//! errors add up, so the fifth edge need not end where the first began.
//!
//! The cosines and sines of the five headings are nested square roots:
//!
//! ```text
//! cos 72 = (sqrt(5) - 1) / 4        sin 72 = sqrt(10 + 2 sqrt(5)) / 4
//! cos 36 = (sqrt(5) + 1) / 4        sin 36 = sqrt(10 - 2 sqrt(5)) / 4
//! ```
//!
//! so the truncated products are integer square roots and integer
//! divisions, and come out exactly.

use vstd::prelude::*;
use crate::canvas::{paint, Displayable};
use crate::color::{Color, Pixel};
use crate::drawable::Drawable;
use crate::line::{draw_lines, outline, Line};
use crate::point::Point;
use crate::roots::{
    floor_sqrt, integer_sqrt, lemma_five_squares_is_no_square, lemma_floor_sqrt_exists,
    lemma_floor_sqrt_is, square,
};

verus! {

/// The heading of edge `k` in degrees.
pub open spec fn heading(k: int) -> int {
    72 * k
}

/// `m * cos(72 degrees)` rounded down, for `m >= 0`: with `sqrt(5) * m`
/// written as `sqrt(5 m^2)`, it is `(sqrt(5 m^2) - m) / 4`.
pub open spec fn cos72(m: int) -> int {
    (floor_sqrt(5 * square(m)) - m) / 4
}

/// `m * cos(36 degrees)` rounded down, for `m >= 0`:
/// `(sqrt(5 m^2) + m) / 4`.
pub open spec fn cos36(m: int) -> int {
    (floor_sqrt(5 * square(m)) + m) / 4
}

/// `m * sin(72 degrees)` rounded down, for `m >= 0`: with `m` taken under
/// both roots, it is `sqrt(10 m^2 + sqrt(20 m^4)) / 4`.
pub open spec fn sin72(m: int) -> int {
    floor_sqrt(10 * square(m) + floor_sqrt(20 * square(square(m)))) / 4
}

/// `m * sin(36 degrees)` rounded down, for `m >= 0`:
/// `sqrt(10 m^2 - sqrt(20 m^4)) / 4`. The inner root is irrational unless
/// `m` is zero, so what is left of `10 m^2`, rounded down, is one less than
/// `10 m^2` minus the rounded-down root.
pub open spec fn sin36(m: int) -> int {
    if m == 0 {
        0
    } else {
        floor_sqrt(10 * square(m) - floor_sqrt(20 * square(square(m))) - 1) / 4
    }
}

/// The absolute value of `side`.
pub open spec fn magnitude(side: int) -> int {
    if side >= 0 {
        side
    } else {
        -side
    }
}

/// `length` with the sign of `side`.
pub open spec fn toward(side: int, length: int) -> int {
    if side >= 0 {
        length
    } else {
        -length
    }
}

/// How far edge `k` of a pentagon of side `side` moves along x:
/// `side * cos(heading(k))`, truncated toward zero. The cosines of 144 and
/// 216 degrees are minus that of 36 degrees, and that of 288 degrees is
/// that of 72 degrees.
pub open spec fn reach_x(side: int, k: int) -> int {
    let m = magnitude(side);
    if k == 0 {
        side
    } else if k == 1 || k == 4 {
        toward(side, cos72(m))
    } else {
        -toward(side, cos36(m))
    }
}

/// How far edge `k` of a pentagon of side `side` moves along y:
/// `side * sin(heading(k))`, truncated toward zero. The sine of 144 degrees
/// is that of 36 degrees, and those of 216 and 288 degrees are minus those
/// of 36 and 72 degrees.
pub open spec fn reach_y(side: int, k: int) -> int {
    let m = magnitude(side);
    if k == 0 {
        0
    } else if k == 1 {
        toward(side, sin72(m))
    } else if k == 2 {
        toward(side, sin36(m))
    } else if k == 3 {
        -toward(side, sin36(m))
    } else {
        -toward(side, sin72(m))
    }
}

/// `cos72(m)` is `m (sqrt(5) - 1) / 4` rounded down: with `c` for it,
/// `4c + m <= sqrt(5) m < 4c + 4 + m`.
pub proof fn lemma_cos72_rounds_down(m: int)
    requires
        m >= 0,
    ensures
        cos72(m) >= 0,
        square(4 * cos72(m) + m) <= 5 * square(m) < square(4 * cos72(m) + 4 + m),
{
    let n = 5 * square(m);
    assert(square(m) >= 0) by (nonlinear_arith);
    lemma_floor_sqrt_exists(n);
    let r = floor_sqrt(n);
    let c = cos72(m);
    assert(r >= m) by (nonlinear_arith)
        requires
            r >= 0,
            m >= 0,
            n < (r + 1) * (r + 1),
            n == 5 * (m * m),
    ;
    assert(square(4 * c + m) <= r * r) by (nonlinear_arith)
        requires
            0 <= 4 * c + m <= r,
    ;
    assert((r + 1) * (r + 1) <= square(4 * c + 4 + m)) by (nonlinear_arith)
        requires
            0 <= r + 1 <= 4 * c + 4 + m,
    ;
}

/// `cos36(m)` is `m (sqrt(5) + 1) / 4` rounded down: with `c` for it,
/// `4c - m <= sqrt(5) m < 4c + 4 - m`.
pub proof fn lemma_cos36_rounds_down(m: int)
    requires
        m >= 0,
    ensures
        cos36(m) >= 0,
        4 * cos36(m) - m <= 0 || square(4 * cos36(m) - m) <= 5 * square(m),
        4 * cos36(m) + 4 - m > 0,
        5 * square(m) < square(4 * cos36(m) + 4 - m),
{
    let n = 5 * square(m);
    assert(square(m) >= 0) by (nonlinear_arith);
    lemma_floor_sqrt_exists(n);
    let r = floor_sqrt(n);
    let c = cos36(m);
    if 4 * c - m > 0 {
        assert(square(4 * c - m) <= r * r) by (nonlinear_arith)
            requires
                0 <= 4 * c - m <= r,
        ;
    }
    assert((r + 1) * (r + 1) <= square(4 * c + 4 - m)) by (nonlinear_arith)
        requires
            0 <= r + 1 <= 4 * c + 4 - m,
    ;
}

/// `sin72(m)` is `m sqrt(10 + 2 sqrt(5)) / 4` rounded down: with `s` for
/// it, `(4s)^2 - 10 m^2 <= sqrt(20) m^2 < (4s + 4)^2 - 10 m^2`.
pub proof fn lemma_sin72_rounds_down(m: int)
    requires
        m >= 0,
    ensures
        sin72(m) >= 0,
        square(4 * sin72(m)) - 10 * square(m) <= 0 || square(
            square(4 * sin72(m)) - 10 * square(m),
        ) <= 20 * square(square(m)),
        square(4 * sin72(m) + 4) - 10 * square(m) > 0,
        20 * square(square(m)) < square(square(4 * sin72(m) + 4) - 10 * square(m)),
{
    let m2 = square(m);
    let m4 = square(m2);
    assert(m2 >= 0 && m4 >= 0) by (nonlinear_arith)
        requires
            m2 == m * m,
            m4 == m2 * m2,
    ;
    lemma_floor_sqrt_exists(20 * m4);
    let g = floor_sqrt(20 * m4);
    lemma_floor_sqrt_exists(10 * m2 + g);
    let r = floor_sqrt(10 * m2 + g);
    let s = sin72(m);
    let low = square(4 * s) - 10 * m2;
    let high = square(4 * s + 4) - 10 * m2;
    assert(square(4 * s) <= r * r) by (nonlinear_arith)
        requires
            0 <= 4 * s <= r,
    ;
    assert((r + 1) * (r + 1) <= square(4 * s + 4)) by (nonlinear_arith)
        requires
            0 <= r + 1 <= 4 * s + 4,
    ;
    if low > 0 {
        assert(square(low) <= g * g) by (nonlinear_arith)
            requires
                0 <= low <= g,
        ;
    }
    assert((g + 1) * (g + 1) <= square(high)) by (nonlinear_arith)
        requires
            0 <= g + 1 <= high,
    ;
}

/// `sin36(m)` is `m sqrt(10 - 2 sqrt(5)) / 4` rounded down: with `s` for
/// it, `10 m^2 - (4s + 4)^2 < sqrt(20) m^2 <= 10 m^2 - (4s)^2`.
pub proof fn lemma_sin36_rounds_down(m: int)
    requires
        m >= 0,
    ensures
        sin36(m) >= 0,
        10 * square(m) - square(4 * sin36(m)) >= 0,
        20 * square(square(m)) <= square(10 * square(m) - square(4 * sin36(m))),
        m > 0 ==> 10 * square(m) - square(4 * sin36(m) + 4) < 0 || square(
            10 * square(m) - square(4 * sin36(m) + 4),
        ) < 20 * square(square(m)),
{
    let m2 = square(m);
    let m4 = square(m2);
    assert(m2 >= 0 && m4 >= 0 && (m > 0 ==> m2 >= 1)) by (nonlinear_arith)
        requires
            m >= 0,
            m2 == m * m,
            m4 == m2 * m2,
    ;
    if m == 0 {
        assert(square(0) == 0 && square(10 * 0 - 0) == 0) by (nonlinear_arith);
    } else {
        lemma_floor_sqrt_exists(20 * m4);
        let g = floor_sqrt(20 * m4);
        assert(g < 5 * m2) by (nonlinear_arith)
            requires
                0 <= g,
                g * g <= 20 * m4,
                m4 == m2 * m2,
                m2 >= 1,
        ;
        // sqrt(20 m^4) is no whole number
        assert(g * g != 20 * m4) by {
            lemma_five_squares_is_no_square(g, 2 * m2);
            assert(5 * square(2 * m2) == 20 * m4) by (nonlinear_arith)
                requires
                    m4 == m2 * m2,
            ;
            assert(square(g) == g * g);
        }
        lemma_floor_sqrt_exists(10 * m2 - g - 1);
        let r = floor_sqrt(10 * m2 - g - 1);
        let s = sin36(m);
        let low = 10 * m2 - square(4 * s);
        let high = 10 * m2 - square(4 * s + 4);
        assert(square(4 * s) <= r * r) by (nonlinear_arith)
            requires
                0 <= 4 * s <= r,
        ;
        assert((r + 1) * (r + 1) <= square(4 * s + 4)) by (nonlinear_arith)
            requires
                0 <= r + 1 <= 4 * s + 4,
        ;
        assert((g + 1) * (g + 1) <= square(low)) by (nonlinear_arith)
            requires
                0 <= g + 1 <= low,
        ;
        if high >= 0 {
            assert(square(high) <= g * g) by (nonlinear_arith)
                requires
                    0 <= high <= g,
            ;
        }
    }
}

/// The four lengths `cos72`, `cos36`, `sin72` and `sin36` of `m`.
fn lengths(m: u128) -> (found: (i64, i64, i64, i64))
    requires
        m <= 0x8000_0000,
    ensures
        found.0 == cos72(m as int),
        found.1 == cos36(m as int),
        found.2 == sin72(m as int),
        found.3 == sin36(m as int),
        0 <= found.0 <= 0x2_0000_0000,
        0 <= found.1 <= 0x2_0000_0000,
        0 <= found.2 <= 0x2_0000_0000,
        0 <= found.3 <= 0x2_0000_0000,
{
    assert(m * m <= 0x4000_0000_0000_0000) by (nonlinear_arith)
        requires
            0 <= m <= 0x8000_0000,
    ;
    let m2: u128 = m * m;
    assert(m2 * m2 <= 0x1000_0000_0000_0000_0000_0000_0000_0000) by (nonlinear_arith)
        requires
            0 <= m2 <= 0x4000_0000_0000_0000,
    ;
    let m4: u128 = m2 * m2;

    // sqrt(5 m^2)
    let r5: u128 = integer_sqrt(5 * m2) as u128;
    assert(r5 >= m && r5 <= 0x2_0000_0000) by (nonlinear_arith)
        requires
            0 <= r5,
            0 <= m,
            r5 * r5 <= 5 * m2,
            5 * m2 < (r5 + 1) * (r5 + 1),
            m2 == m * m,
            m2 <= 0x4000_0000_0000_0000,
    ;

    // sqrt(20 m^4), from sqrt(5 m^4): twice that, or one more
    let q: u128 = 5 * m4;
    let f: u128 = integer_sqrt(q) as u128;
    let g: u128 = if f * f + f < q {
        2 * f + 1
    } else {
        2 * f
    };
    if f * f + f < q {
        assert(g * g <= 4 * q && 4 * q < (g + 1) * (g + 1)) by (nonlinear_arith)
            requires
                0 <= f,
                f * f + f < q,
                q < (f + 1) * (f + 1),
                g == 2 * f + 1,
        ;
    } else {
        assert(g * g <= 4 * q && 4 * q < (g + 1) * (g + 1)) by (nonlinear_arith)
            requires
                0 <= f,
                f * f <= q,
                f * f + f >= q,
                g == 2 * f,
        ;
    }
    proof {
        lemma_floor_sqrt_is(20 * m4, g as int);
    }
    assert(g <= 5 * m2 && (m2 >= 1 ==> g < 5 * m2)) by (nonlinear_arith)
        requires
            0 <= g,
            g * g <= 20 * m4,
            m4 == m2 * m2,
            0 <= m2,
    ;

    // sqrt(10 m^2 + sqrt(20 m^4)) and sqrt(10 m^2 - sqrt(20 m^4))
    let r72: u128 = integer_sqrt(10 * m2 + g) as u128;
    assert(r72 <= 0x2_0000_0000) by (nonlinear_arith)
        requires
            0 <= r72,
            r72 * r72 <= 10 * m2 + g,
            g <= 5 * m2,
            m2 <= 0x4000_0000_0000_0000,
    ;
    let s36: u128 = if m == 0 {
        0
    } else {
        let r36: u128 = integer_sqrt(10 * m2 - g - 1) as u128;
        assert(r36 <= 0x2_0000_0000) by (nonlinear_arith)
            requires
                0 <= r36,
                r36 * r36 <= 10 * m2 - g - 1,
                0 <= g,
                m2 <= 0x4000_0000_0000_0000,
        ;
        r36 / 4
    };
    (((r5 - m) / 4) as i64, ((r5 + m) / 4) as i64, (r72 / 4) as i64, s36 as i64)
}

/// Computes how far edge `k` moves: `reach_x` and `reach_y`.
pub fn reach(side: i32, k: usize) -> (offset: (i64, i64))
    requires
        k < 5,
    ensures
        offset.0 == reach_x(side as int, k as int),
        offset.1 == reach_y(side as int, k as int),
        -0x2_0000_0000 <= offset.0 <= 0x2_0000_0000,
        -0x2_0000_0000 <= offset.1 <= 0x2_0000_0000,
{
    if k == 0 {
        return (side as i64, 0);
    }
    let m: u128 = if side >= 0 {
        side as u128
    } else {
        (-(side as i64)) as u128
    };
    let (c72, c36, s72, s36) = lengths(m);
    let forward = side >= 0;
    let x: i64 = if k == 1 || k == 4 {
        if forward {
            c72
        } else {
            -c72
        }
    } else {
        if forward {
            -c36
        } else {
            c36
        }
    };
    let y: i64 = if k == 1 {
        if forward {
            s72
        } else {
            -s72
        }
    } else if k == 2 {
        if forward {
            s36
        } else {
            -s36
        }
    } else if k == 3 {
        if forward {
            -s36
        } else {
            s36
        }
    } else {
        if forward {
            -s72
        } else {
            s72
        }
    };
    (x, y)
}

/// A pentagon, by its five edges in drawing order.
#[derive(Debug)]
pub struct Pentagon {
    pub lines: Vec<Line>,
}

impl Pentagon {
    /// Corner `k` of the pentagon that starts at `start`: corner 0 is
    /// `start`, and edge `k` leads from corner `k` to corner `k + 1`.
    pub open spec fn vertex(start: Point, side: int, k: int) -> (int, int)
        decreases k,
    {
        if k <= 0 {
            (start.x as int, start.y as int)
        } else {
            let before = Self::vertex(start, side, k - 1);
            (before.0 + reach_x(side, k - 1), before.1 + reach_y(side, k - 1))
        }
    }

    /// Whether a position has `i32` coordinates.
    pub open spec fn on_grid(position: (int, int)) -> bool {
        i32::MIN <= position.0 <= i32::MAX && i32::MIN <= position.1 <= i32::MAX
    }

    /// Whether all corners of the pentagon have `i32` coordinates.
    pub open spec fn fits(start: Point, side: int) -> bool {
        &&& Self::on_grid(Self::vertex(start, side, 1))
        &&& Self::on_grid(Self::vertex(start, side, 2))
        &&& Self::on_grid(Self::vertex(start, side, 3))
        &&& Self::on_grid(Self::vertex(start, side, 4))
        &&& Self::on_grid(Self::vertex(start, side, 5))
    }

    /// Corner `k` as a point.
    pub open spec fn corner(start: Point, side: int, k: int) -> Point {
        Point { x: Self::vertex(start, side, k).0 as i32, y: Self::vertex(start, side, k).1 as i32 }
    }

    /// The five edges of the pentagon of side `side` that starts at
    /// `start`, all white.
    pub open spec fn regular(start: Point, side: int) -> Seq<Line> {
        Seq::new(
            5,
            |k: int| Line::between(Self::corner(start, side, k), Self::corner(start, side, k + 1)),
        )
    }

    /// The edges are five, and each starts where the one before ends.
    pub open spec fn wf(&self) -> bool {
        &&& self.lines@.len() == 5
        &&& forall|k: int| 0 <= k < 4 ==> (#[trigger] self.lines@[k]).end == self.lines@[k + 1].start
    }

    /// Decides `fits`.
    pub fn can_build(start: &Point, side_length: i32) -> (yes: bool)
        ensures
            yes == Self::fits(*start, side_length as int),
    {
        let mut x: i64 = start.x as i64;
        let mut y: i64 = start.y as i64;
        let mut yes = true;
        let mut k: usize = 0;
        while k < 5
            invariant
                k <= 5,
                (x as int, y as int) == Self::vertex(*start, side_length as int, k as int),
                -0x8000_0000 - k * 0x2_0000_0000 <= x <= 0x7FFF_FFFF + k * 0x2_0000_0000,
                -0x8000_0000 - k * 0x2_0000_0000 <= y <= 0x7FFF_FFFF + k * 0x2_0000_0000,
                yes == (forall|j: int|
                    1 <= j <= k ==> Self::on_grid(#[trigger] Self::vertex(*start, side_length as int, j))),
            decreases 5 - k,
        {
            let (dx, dy) = reach(side_length, k);
            x = x + dx;
            y = y + dy;
            k += 1;
            assert((x as int, y as int) == Self::vertex(*start, side_length as int, k as int));
            if x < -0x8000_0000 || x > 0x7FFF_FFFF || y < -0x8000_0000 || y > 0x7FFF_FFFF {
                yes = false;
            }
        }
        yes
    }

    /// Builds the pentagon of side `side_length` whose first edge starts at
    /// `start` and heads along the x axis.
    pub fn new(start: &Point, side_length: i32) -> (pentagon: Self)
        requires
            Self::fits(*start, side_length as int),
        ensures
            pentagon.lines@ == Self::regular(*start, side_length as int),
            pentagon.wf(),
    {
        let ghost side = side_length as int;
        let mut current_point = *start;
        let mut pentagon = Pentagon { lines: Vec::new() };
        let mut k: usize = 0;
        while k < 5
            invariant
                k <= 5,
                side == side_length,
                Self::fits(*start, side),
                current_point == Self::corner(*start, side, k as int),
                Self::on_grid(Self::vertex(*start, side, k as int)),
                pentagon.lines@.len() == k,
                forall|j: int|
                    0 <= j < k ==> pentagon.lines@[j] == Line::between(
                        Self::corner(*start, side, j),
                        Self::corner(*start, side, j + 1),
                    ),
            decreases 5 - k,
        {
            let (x_offset, y_offset) = reach(side_length, k);
            let next_point = Point::new(
                (current_point.x as i64 + x_offset) as i32,
                (current_point.y as i64 + y_offset) as i32,
            );
            pentagon.lines.push(Line::new(current_point, next_point));
            current_point = next_point;
            k += 1;
        }
        pentagon
    }
}

impl Drawable for Pentagon {
    /// The traces of the edges, one after another.
    open spec fn pixels(&self, sampled: Color) -> Seq<Pixel> {
        outline(self.lines@)
    }

    open spec fn drawable(&self) -> bool {
        true
    }

    /// Draws the edges, first to last.
    fn draw<D: Displayable>(&self, canvas: &mut D)
        ensures
            final(canvas).model() == paint::<D>(old(canvas).model(), outline(self.lines@)),
    {
        draw_lines(&self.lines, canvas);
        assert(self.pixels(Color::white()) == outline(self.lines@));
    }
}

/// A pentagon has exactly five edges: the first starts at the starting
/// point and each of the others starts where the one before ends. Each
/// edge is turned by 72 degrees from the one before, which after the five
/// of them makes one full turn.
pub proof fn lemma_pentagon_turns_once(start: Point, side: int)
    ensures
        Pentagon::regular(start, side).len() == 5,
        Pentagon::regular(start, side)[0].start == start,
        forall|k: int|
            0 <= k < 4 ==> (#[trigger] Pentagon::regular(start, side)[k]).end == Pentagon::regular(
                start,
                side,
            )[k + 1].start,
        forall|k: int| heading(k + 1) - #[trigger] heading(k) == 72,
        heading(5) - heading(0) == 360,
{
}

} // verus!
