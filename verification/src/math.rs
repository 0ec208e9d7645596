//! Small exact-arithmetic helpers: truncating division, clamping, and a
//! floor square root, each with a spec-level mirror.

use vstd::prelude::*;

verus! {

/// Two to the power `k`.
pub open spec fn two_pow(k: nat) -> int
    decreases k,
{
    if k == 0 {
        1
    } else {
        2 * two_pow((k - 1) as nat)
    }
}

pub proof fn lemma_two_pow_pos(k: nat)
    ensures
        two_pow(k) >= 1,
    decreases k,
{
    if k > 0 {
        lemma_two_pow_pos((k - 1) as nat);
    }
}

/// The powers of two the bisection steps run through.
pub proof fn lemma_two_pow_values()
    ensures
        two_pow(0) == 1,
        two_pow(1) == 2,
        two_pow(10) == 1024,
{
    reveal_with_fuel(two_pow, 12);
}


/// Powers of two never shrink as the exponent grows.
pub proof fn lemma_two_pow_mono(a: nat, b: nat)
    requires
        a <= b,
    ensures
        two_pow(a) <= two_pow(b),
    decreases b,
{
    if a < b {
        lemma_two_pow_mono(a, (b - 1) as nat);
        lemma_two_pow_pos((b - 1) as nat);
    }
}

/// The power of two just past the coordinate range.
pub proof fn lemma_two_pow_32()
    ensures
        two_pow(32) == 0x1_0000_0000,
{
    reveal_with_fuel(two_pow, 34);
}

/// Quotient of `a / b` rounded toward zero, the rounding C and Rust use.
/// Defined via Euclidean division on magnitudes so it never mentions
/// division of a negative number.
pub open spec fn div_trunc(a: int, b: int) -> int {
    if a >= 0 {
        a / b
    } else {
        -((-a) / b)
    }
}

/// `v` forced into the closed interval `[lo, hi]`.
pub open spec fn spec_clamp(v: int, lo: int, hi: int) -> int {
    if v < lo {
        lo
    } else if v > hi {
        hi
    } else {
        v
    }
}

/// Floor of the real square root, defined by counting up.
pub open spec fn sqrt_floor(n: nat) -> nat
    decreases n,
{
    if n == 0 {
        0
    } else {
        let r = sqrt_floor((n - 1) as nat);
        if (r + 1) * (r + 1) <= n {
            r + 1
        } else {
            r
        }
    }
}

/// `sqrt_floor(n)` is the unique `r` with `r² <= n < (r+1)²`.
pub proof fn lemma_sqrt_floor_char(n: nat)
    ensures
        sqrt_floor(n) * sqrt_floor(n) <= n,
        n < (sqrt_floor(n) + 1) * (sqrt_floor(n) + 1),
    decreases n,
{
    reveal_with_fuel(sqrt_floor, 2);
    if n > 0 {
        let r = sqrt_floor((n - 1) as nat);
        lemma_sqrt_floor_char((n - 1) as nat);
        assert(r * r <= n - 1 < (r + 1) * (r + 1));
        if (r + 1) * (r + 1) <= n {
            assert(sqrt_floor(n) == r + 1);
            assert(n == (r + 1) * (r + 1));
            assert((r + 2) * (r + 2) > n) by (nonlinear_arith)
                requires
                    n == (r + 1) * (r + 1),
            ;
            assert(n < (sqrt_floor(n) + 1) * (sqrt_floor(n) + 1));
        } else {
            assert(sqrt_floor(n) == r);
        }
        assert(sqrt_floor(n) * sqrt_floor(n) <= n);
        assert(n < (sqrt_floor(n) + 1) * (sqrt_floor(n) + 1));
    } else {
        assert(n == 0);
        assert(sqrt_floor(n) == 0);
        assert(n < (sqrt_floor(n) + 1) * (sqrt_floor(n) + 1)) by (nonlinear_arith)
            requires
                n == 0,
                sqrt_floor(n) == 0,
        ;
    }
}

/// Any two values satisfying the square-root characterisation are equal.
pub proof fn lemma_sqrt_unique(n: nat, a: nat, b: nat)
    requires
        a * a <= n < (a + 1) * (a + 1),
        b * b <= n < (b + 1) * (b + 1),
    ensures
        a == b,
{
    assert(a == b) by (nonlinear_arith)
        requires
            a * a <= n < (a + 1) * (a + 1),
            b * b <= n < (b + 1) * (b + 1),
    ;
}

/// Squares are never negative.
pub proof fn lemma_square_nonneg(a: int)
    ensures
        a * a >= 0,
{
    assert(a * a >= 0) by (nonlinear_arith);
}

/// A sum of squares below `b * b` has its floor square root below `b`.
pub proof fn lemma_sqrt_below(n: nat, b: nat)
    requires
        n < b * b,
    ensures
        sqrt_floor(n) < b,
{
    lemma_sqrt_floor_char(n);
    if sqrt_floor(n) >= b {
        assert(sqrt_floor(n) * sqrt_floor(n) >= b * b) by (nonlinear_arith)
            requires
                sqrt_floor(n) >= b,
        ;
    }
}

/// Products of bounded factors are bounded.
pub proof fn lemma_mul_bound(a: int, b: int, ca: int, cb: int)
    requires
        -ca <= a <= ca,
        -cb <= b <= cb,
    ensures
        -(ca * cb) <= a * b <= ca * cb,
{
    assert(-(ca * cb) <= a * b <= ca * cb) by (nonlinear_arith)
        requires
            -ca <= a <= ca,
            -cb <= b <= cb,
    ;
}

/// Truncating a quotient keeps it within the bound of the dividend's scale:
/// if `|a| <= c * b` then `|div_trunc(a, b)| <= c`.
pub proof fn lemma_div_trunc_bound(a: int, b: int, c: int)
    requires
        b > 0,
        c >= 0,
        -(c * b) <= a <= c * b,
    ensures
        -c <= div_trunc(a, b) <= c,
{
    if a >= 0 {
        assert(a / b <= c) by (nonlinear_arith)
            requires
                b > 0,
                a <= c * b,
                a >= 0,
        ;
        assert(a / b >= 0) by (nonlinear_arith)
            requires
                b > 0,
                a >= 0,
        ;
    } else {
        assert((-a) / b <= c) by (nonlinear_arith)
            requires
                b > 0,
                -a <= c * b,
                -a >= 0,
        ;
        assert((-a) / b >= 0) by (nonlinear_arith)
            requires
                b > 0,
                -a >= 0,
        ;
    }
}

/// Exec mirror of `div_trunc` on 64-bit values.
pub fn div_trunc_i64(a: i64, b: i64) -> (q: i64)
    requires
        b > 0,
        a > i64::MIN,
    ensures
        q == div_trunc(a as int, b as int),
{
    if a >= 0 {
        a / b
    } else {
        -((-a) / b)
    }
}

/// Exec mirror of `div_trunc` on 128-bit values.
pub fn div_trunc_i128(a: i128, b: i128) -> (q: i128)
    requires
        b > 0,
        a > i128::MIN,
    ensures
        q == div_trunc(a as int, b as int),
{
    if a >= 0 {
        a / b
    } else {
        -((-a) / b)
    }
}

/// Exec mirror of `spec_clamp`, narrowing a wide intermediate into the
/// interval of its 64-bit bounds.
pub fn clamp_i128_to_i64(v: i128, lo: i64, hi: i64) -> (r: i64)
    requires
        lo <= hi,
    ensures
        r == spec_clamp(v as int, lo as int, hi as int),
{
    if v < lo as i128 {
        lo
    } else if v > hi as i128 {
        hi
    } else {
        v as i64
    }
}

/// Floor square root by binary search.
pub fn isqrt(n: u128) -> (r: u128)
    requires
        n < 0x4000_0000_0000_0000_0000_0000_0000_0000u128,
    ensures
        r == sqrt_floor(n as nat),
{
    let mut lo: u128 = 0;
    let mut hi: u128 = 0x8000_0000_0000_0000u128;
    proof {
        assert(hi * hi > n) by (nonlinear_arith)
            requires
                hi == 0x8000_0000_0000_0000u128,
                n < 0x4000_0000_0000_0000_0000_0000_0000_0000u128,
        ;
    }
    while lo + 1 < hi
        invariant
            lo < hi,
            hi <= 0x8000_0000_0000_0000u128,
            lo * lo <= n,
            hi * hi > n,
        decreases hi - lo,
    {
        let mid = lo + (hi - lo) / 2;
        proof {
            assert(mid * mid < 0x8000_0000_0000_0000u128 * 0x8000_0000_0000_0000u128)
                by (nonlinear_arith)
                requires
                    0 <= mid < 0x8000_0000_0000_0000u128,
            ;
        }
        if mid * mid <= n {
            lo = mid;
        } else {
            hi = mid;
        }
    }
    proof {
        lemma_sqrt_floor_char(n as nat);
        lemma_sqrt_unique(n as nat, lo as nat, sqrt_floor(n as nat));
    }
    lo
}

} // verus!
