//! Perfect squares and perfect cubes, decided with whole-number roots.

use vstd::prelude::*;

verus! {

/// `r` times itself.
pub open spec fn square(r: int) -> int {
    r * r
}

/// `r` taken three times as a factor.
pub open spec fn cube(r: int) -> int {
    r * r * r
}

/// `n` is the square of a whole number.
pub open spec fn is_perfect_square(n: int) -> bool {
    exists|r: int| n == #[trigger] square(r)
}

/// `n` is the cube of a whole number. Negative cubes count: -8 is the cube of -2.
pub open spec fn is_perfect_cube(n: int) -> bool {
    exists|r: int| n == #[trigger] cube(r)
}

/// Squaring keeps the order of non-negative numbers.
pub proof fn lemma_square_increases(a: int, b: int)
    requires
        0 <= a <= b,
    ensures
        square(a) <= square(b),
{
    assert(a * a <= b * b) by (nonlinear_arith)
        requires
            0 <= a <= b,
    ;
}

/// Cubing keeps the order of non-negative numbers.
pub proof fn lemma_cube_increases(a: int, b: int)
    requires
        0 <= a <= b,
    ensures
        cube(a) <= cube(b),
{
    assert(a * a <= b * b) by (nonlinear_arith)
        requires
            0 <= a <= b,
    ;
    assert(a * a * a <= b * b * b) by (nonlinear_arith)
        requires
            0 <= a <= b,
            0 <= a * a <= b * b,
    ;
}

/// A number is a perfect square exactly when the square of its truncated
/// square root gives it back.
pub proof fn lemma_square_by_root(n: int, r: int)
    requires
        0 <= r,
        square(r) <= n < square(r + 1),
    ensures
        is_perfect_square(n) <==> square(r) == n,
{
    if is_perfect_square(n) {
        let x = choose|x: int| n == #[trigger] square(x);
        let y = if x < 0 {
            -x
        } else {
            x
        };
        assert(square(y) == n) by (nonlinear_arith)
            requires
                n == square(x),
                y == x || y == -x,
        ;
        if y < r {
            lemma_square_increases(y + 1, r);
            lemma_square_increases(y, y + 1);
            assert(square(y) < square(y + 1)) by (nonlinear_arith)
                requires
                    0 <= y,
            ;
        }
        if y > r {
            lemma_square_increases(r + 1, y);
        }
    }
}

/// A non-negative number is a perfect cube exactly when the cube of its
/// truncated cube root gives it back.
pub proof fn lemma_cube_by_root(n: int, r: int)
    requires
        0 <= r,
        cube(r) <= n < cube(r + 1),
    ensures
        is_perfect_cube(n) <==> cube(r) == n,
{
    if is_perfect_cube(n) {
        let x = choose|x: int| n == #[trigger] cube(x);
        if x < 0 {
            assert(cube(x) < 0) by (nonlinear_arith)
                requires
                    x < 0,
            ;
            assert(cube(r) >= 0) by (nonlinear_arith)
                requires
                    0 <= r,
            ;
        } else {
            if x < r {
                lemma_cube_increases(x + 1, r);
                assert(cube(x) < cube(x + 1)) by (nonlinear_arith)
                    requires
                        0 <= x,
                ;
            }
            if x > r {
                lemma_cube_increases(r + 1, x);
            }
        }
    }
}

/// No negative number is a perfect square.
pub proof fn lemma_negative_is_no_square(n: int)
    requires
        n < 0,
    ensures
        !is_perfect_square(n),
{
    assert forall|r: int| n != #[trigger] square(r) by {
        assert(r * r >= 0) by (nonlinear_arith);
    }
}

/// A number is a perfect cube exactly when its negation is one.
pub proof fn lemma_cube_of_negation(n: int)
    ensures
        is_perfect_cube(n) <==> is_perfect_cube(-n),
{
    if is_perfect_cube(n) {
        let x = choose|x: int| n == #[trigger] cube(x);
        assert(cube(-x) == -n) by (nonlinear_arith)
            requires
                n == cube(x),
        ;
    }
    if is_perfect_cube(-n) {
        let x = choose|x: int| -n == #[trigger] cube(x);
        assert(cube(-x) == n) by (nonlinear_arith)
            requires
                -n == cube(x),
        ;
    }
}

/// The square root of `n`, rounded down to a whole number.
pub fn truncated_sqrt(n: u32) -> (r: u32)
    ensures
        square(r as int) <= n < square(r + 1),
        r < 65536,
{
    let target: u64 = n as u64;
    let mut low: u64 = 0;
    let mut high: u64 = 65536;
    while high - low > 1
        invariant
            low < high <= 65536,
            target == n,
            square(low as int) <= target < square(high as int),
        decreases high - low,
    {
        let mid: u64 = low + (high - low) / 2;
        assert(mid * mid <= 65536 * 65536) by (nonlinear_arith)
            requires
                0 <= mid <= 65536,
        ;
        if mid * mid <= target {
            low = mid;
        } else {
            high = mid;
        }
    }
    low as u32
}

/// The cube root of `n`, rounded down to a whole number.
pub fn truncated_cbrt(n: u32) -> (r: u32)
    ensures
        cube(r as int) <= n < cube(r + 1),
        r < 1626,
{
    let target: u64 = n as u64;
    let mut low: u64 = 0;
    let mut high: u64 = 1626;
    while high - low > 1
        invariant
            low < high <= 1626,
            target == n,
            cube(low as int) <= target < cube(high as int),
        decreases high - low,
    {
        let mid: u64 = low + (high - low) / 2;
        assert(mid * mid <= 1626 * 1626) by (nonlinear_arith)
            requires
                0 <= mid <= 1626,
        ;
        assert(mid * mid * mid <= 1626 * 1626 * 1626) by (nonlinear_arith)
            requires
                0 <= mid <= 1626,
                mid * mid <= 1626 * 1626,
        ;
        if mid * mid * mid <= target {
            low = mid;
        } else {
            high = mid;
        }
    }
    low as u32
}

/// Whether `num` is a perfect square.
pub fn is_square(num: i32) -> (b: bool)
    ensures
        b == is_perfect_square(num as int),
{
    if num < 0 {
        proof {
            lemma_negative_is_no_square(num as int);
        }
        false
    } else {
        let root: u64 = truncated_sqrt(num as u32) as u64;
        proof {
            lemma_square_by_root(num as int, root as int);
            assert(root * root <= 65535 * 65535) by (nonlinear_arith)
                requires
                    0 <= root <= 65535,
            ;
        }
        root * root == num as u64
    }
}

/// Whether `num` is a perfect cube.
pub fn is_cube(num: i32) -> (b: bool)
    ensures
        b == is_perfect_cube(num as int),
{
    let wide: i64 = num as i64;
    let size: u32 = if wide < 0 {
        (-wide) as u32
    } else {
        wide as u32
    };
    let root: u64 = truncated_cbrt(size) as u64;
    proof {
        lemma_cube_by_root(size as int, root as int);
        lemma_cube_of_negation(num as int);
        assert(root * root <= 1625 * 1625) by (nonlinear_arith)
            requires
                0 <= root <= 1625,
        ;
        assert(root * root * root <= 1625 * 1625 * 1625) by (nonlinear_arith)
            requires
                0 <= root <= 1625,
                root * root <= 1625 * 1625,
        ;
    }
    root * root * root == size as u64
}

} // verus!
