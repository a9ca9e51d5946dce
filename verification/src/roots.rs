//! Integer square roots.

use vstd::prelude::*;

verus! {

/// `x` squared.
pub open spec fn square(x: int) -> int {
    x * x
}

/// Whether `r` is the square root of `n` rounded down: the largest number
/// whose square is at most `n`.
pub open spec fn is_floor_sqrt(n: int, r: int) -> bool {
    0 <= r && r * r <= n < (r + 1) * (r + 1)
}

/// The square root of `n`, rounded down. Meant for a non-negative `n`.
pub open spec fn floor_sqrt(n: int) -> int {
    choose|r: int| is_floor_sqrt(n, r)
}

/// A number has at most one rounded-down square root.
pub proof fn lemma_floor_sqrt_unique(n: int, r: int, s: int)
    requires
        is_floor_sqrt(n, r),
        is_floor_sqrt(n, s),
    ensures
        r == s,
{
    if r < s {
        assert((r + 1) * (r + 1) <= s * s) by (nonlinear_arith)
            requires
                0 <= r + 1 <= s,
        ;
    }
    if s < r {
        assert((s + 1) * (s + 1) <= r * r) by (nonlinear_arith)
            requires
                0 <= s + 1 <= r,
        ;
    }
}

/// Whatever passes for the rounded-down square root of `n` is it.
pub proof fn lemma_floor_sqrt_is(n: int, r: int)
    requires
        is_floor_sqrt(n, r),
    ensures
        floor_sqrt(n) == r,
{
    lemma_floor_sqrt_unique(n, r, floor_sqrt(n));
}

/// Five times a square is a square only at zero: the square root of 5 is
/// irrational.
pub proof fn lemma_five_squares_is_no_square(g: int, n: int)
    requires
        n >= 1,
        g >= 0,
    ensures
        square(g) != 5 * square(n),
    decreases n,
{
    if square(g) == 5 * square(n) {
        // 5 divides g^2, so it divides g
        let a = g / 5;
        let b = g % 5;
        assert(square(g) == 5 * (5 * (a * a) + 2 * (a * b)) + b * b) by (nonlinear_arith)
            requires
                g == 5 * a + b,
        ;
        assert(b * b == 0 || b * b == 1 || b * b == 4 || b * b == 9 || b * b == 16) by (nonlinear_arith)
            requires
                0 <= b < 5,
        ;
        assert(b == 0) by {
            assert(b * b == 0) by {
                assert((5 * (5 * (a * a) + 2 * (a * b)) + b * b) % 5 == (b * b) % 5);
                assert((5 * square(n)) % 5 == 0);
            }
            assert(b != 0 ==> b * b >= 1) by (nonlinear_arith)
                requires
                    0 <= b < 5,
            ;
        }
        // then 5 divides n^2, and n
        assert(square(n) == 5 * square(a)) by (nonlinear_arith)
            requires
                g == 5 * a,
                square(g) == 5 * square(n),
        ;
        let c = n / 5;
        let d = n % 5;
        assert(square(n) == 5 * (5 * (c * c) + 2 * (c * d)) + d * d) by (nonlinear_arith)
            requires
                n == 5 * c + d,
        ;
        assert(d * d == 0 || d * d == 1 || d * d == 4 || d * d == 9 || d * d == 16) by (nonlinear_arith)
            requires
                0 <= d < 5,
        ;
        assert(d == 0) by {
            assert(d * d == 0) by {
                assert((5 * (5 * (c * c) + 2 * (c * d)) + d * d) % 5 == (d * d) % 5);
                assert((5 * square(a)) % 5 == 0);
            }
            assert(d != 0 ==> d * d >= 1) by (nonlinear_arith)
                requires
                    0 <= d < 5,
            ;
        }
        // and a^2 is five times the square of n / 5
        assert(square(a) == 5 * square(c)) by (nonlinear_arith)
            requires
                n == 5 * c,
                square(n) == 5 * square(a),
        ;
        assert(a >= 0);
        lemma_five_squares_is_no_square(a, c);
    }
}

/// A rounded-down square root is one: it exists for every number that is
/// not negative.
pub proof fn lemma_floor_sqrt_exists(n: int)
    requires
        n >= 0,
    ensures
        is_floor_sqrt(n, floor_sqrt(n)),
    decreases n,
{
    if n == 0 {
        assert(is_floor_sqrt(0, 0));
    } else {
        lemma_floor_sqrt_exists(n - 1);
        let r = floor_sqrt(n - 1);
        if (r + 1) * (r + 1) <= n {
            assert((r + 2) * (r + 2) > n) by (nonlinear_arith)
                requires
                    r >= 0,
                    n - 1 < (r + 1) * (r + 1),
            ;
            assert(is_floor_sqrt(n, r + 1));
        } else {
            assert(is_floor_sqrt(n, r));
        }
    }
}

/// Computes the square root of `n`, rounded down.
pub fn integer_sqrt(n: u128) -> (r: u64)
    ensures
        is_floor_sqrt(n as int, r as int),
        r == floor_sqrt(n as int),
{
    let mut low: u128 = 0;
    let mut high: u128 = 0x1_0000_0000_0000_0000;
    while high - low > 1
        invariant
            low < high <= 0x1_0000_0000_0000_0000,
            (low as int) * (low as int) <= n < (high as int) * (high as int),
        decreases high - low,
    {
        let mid: u128 = low + (high - low) / 2;
        assert((mid as int) * (mid as int) <= 0xFFFF_FFFF_FFFF_FFFF_FFFF_FFFF_FFFF_FFFF)
            by (nonlinear_arith)
            requires
                0 <= mid <= 0xFFFF_FFFF_FFFF_FFFF,
        ;
        if mid * mid <= n {
            low = mid;
        } else {
            high = mid;
        }
    }
    proof {
        lemma_floor_sqrt_is(n as int, low as int);
    }
    low as u64
}

} // verus!
