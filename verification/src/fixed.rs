//! Signed fixed-point arithmetic in units of one billionth.
//!
//! A quantity `x` stands for the real number `x / SCALE`. Products and
//! quotients are truncated toward zero, exactly as the specifications
//! `s_tmul` and `s_tdiv` say; every executable operation here returns
//! precisely its specified value.

use vstd::prelude::*;
use vstd::arithmetic::div_mod::*;
use vstd::arithmetic::mul::*;

verus! {

/// Number of fixed-point units in 1.0.
pub const SCALE: i64 = 1_000_000_000;

/// Magnitude (absolute value) of an integer.
pub open spec fn s_mag(a: int) -> int {
    if a >= 0 {
        a
    } else {
        -a
    }
}

/// Fixed-point product truncated toward zero: the integer whose magnitude is
/// `|a|*|b| / SCALE` rounded down, carrying the sign of `a*b`.
pub open spec fn s_tmul(a: int, b: int) -> int {
    if (a < 0) != (b < 0) {
        -((s_mag(a) * s_mag(b)) / (SCALE as int))
    } else {
        (s_mag(a) * s_mag(b)) / (SCALE as int)
    }
}

/// Fixed-point quotient truncated toward zero, for a positive divisor:
/// the integer whose magnitude is `|a|*SCALE / b` rounded down, carrying
/// the sign of `a`.
pub open spec fn s_tdiv(a: int, b: int) -> int {
    if a < 0 {
        -((s_mag(a) * (SCALE as int)) / b)
    } else {
        (a * (SCALE as int)) / b
    }
}

/// The magnitude of a truncated product is the truncated product of the
/// magnitudes, and it is never negative.
pub proof fn lemma_tmul_mag(a: int, b: int)
    ensures
        s_mag(s_tmul(a, b)) == (s_mag(a) * s_mag(b)) / (SCALE as int),
        0 <= s_mag(s_tmul(a, b)),
{
    lemma_mul_nonnegative(s_mag(a), s_mag(b));
    lemma_div_pos_is_pos(s_mag(a) * s_mag(b), SCALE as int);
}

/// Generic magnitude cap: if `|a| <= ca` and `|b| <= cb`, the truncated
/// product's magnitude is at most `ca*cb / SCALE`.
pub proof fn lemma_tmul_cap(a: int, b: int, ca: int, cb: int)
    requires
        s_mag(a) <= ca,
        s_mag(b) <= cb,
    ensures
        s_mag(s_tmul(a, b)) <= (ca * cb) / (SCALE as int),
{
    lemma_tmul_mag(a, b);
    lemma_mul_upper_bound(s_mag(a), ca, s_mag(b), cb);
    lemma_div_is_ordered(s_mag(a) * s_mag(b), ca * cb, SCALE as int);
}

/// Multiplying by a factor of magnitude at most one (`|b| <= SCALE`) never
/// grows the magnitude past the other factor's cap.
pub proof fn lemma_tmul_le(a: int, b: int, cap: int)
    requires
        s_mag(a) <= cap,
        s_mag(b) <= SCALE as int,
    ensures
        s_mag(s_tmul(a, b)) <= cap,
{
    lemma_tmul_cap(a, b, cap, SCALE as int);
    lemma_div_by_multiple(cap, SCALE as int);
}

/// The truncated product is monotone in the magnitude of its first factor.
pub proof fn lemma_tmul_mono(a1: int, a2: int, b: int)
    requires
        s_mag(a1) <= s_mag(a2),
    ensures
        s_mag(s_tmul(a1, b)) <= s_mag(s_tmul(a2, b)),
{
    lemma_tmul_mag(a1, b);
    lemma_tmul_mag(a2, b);
    lemma_mul_inequality(s_mag(a1), s_mag(a2), s_mag(b));
    lemma_div_is_ordered(s_mag(a1) * s_mag(b), s_mag(a2) * s_mag(b), SCALE as int);
}

/// The truncated product is commutative.
pub proof fn lemma_tmul_comm(a: int, b: int)
    ensures
        s_tmul(a, b) == s_tmul(b, a),
{
    lemma_mul_is_commutative(s_mag(a), s_mag(b));
}

/// SCALE is the unit of the truncated product.
pub proof fn lemma_tmul_scale(a: int)
    ensures
        s_tmul(a, SCALE as int) == a,
{
    lemma_div_by_multiple(s_mag(a), SCALE as int);
}

/// A truncated product of nonnegative factors is nonnegative.
pub proof fn lemma_tmul_nonneg(a: int, b: int)
    requires
        0 <= a,
        0 <= b,
    ensures
        0 <= s_tmul(a, b),
{
    lemma_mul_nonnegative(a, b);
    lemma_div_pos_is_pos(a * b, SCALE as int);
}

/// The magnitude of a truncated quotient, for a positive divisor.
pub proof fn lemma_tdiv_mag(a: int, b: int)
    requires
        1 <= b,
    ensures
        s_mag(s_tdiv(a, b)) == (s_mag(a) * (SCALE as int)) / b,
        0 <= s_mag(s_tdiv(a, b)),
{
    lemma_mul_nonnegative(s_mag(a), SCALE as int);
    lemma_div_pos_is_pos(s_mag(a) * (SCALE as int), b);
}

/// Magnitude cap on a truncated quotient from a cap on the dividend and a
/// floor on the divisor.
pub proof fn lemma_tdiv_cap(a: int, b: int, ca: int, bmin: int)
    requires
        s_mag(a) <= ca,
        1 <= bmin <= b,
    ensures
        s_mag(s_tdiv(a, b)) <= (ca * (SCALE as int)) / bmin,
{
    lemma_tdiv_mag(a, b);
    lemma_mul_inequality(s_mag(a), ca, SCALE as int);
    lemma_mul_nonnegative(s_mag(a), SCALE as int);
    lemma_div_is_ordered_by_denominator(s_mag(a) * (SCALE as int), bmin, b);
    lemma_div_is_ordered(s_mag(a) * (SCALE as int), ca * (SCALE as int), bmin);
}

/// Fixed-point product, truncated toward zero.
pub fn fx_mul(a: i64, b: i64) -> (r: i64)
    requires
        s_mag(s_tmul(a as int, b as int)) <= i64::MAX as int,
    ensures
        r as int == s_tmul(a as int, b as int),
{
    let neg: bool = (a < 0) != (b < 0);
    let ma: u128 = if a < 0 {
        (-(a as i128)) as u128
    } else {
        a as u128
    };
    let mb: u128 = if b < 0 {
        (-(b as i128)) as u128
    } else {
        b as u128
    };
    proof {
        assert(ma as int == s_mag(a as int));
        assert(mb as int == s_mag(b as int));
        assert(ma as int * mb as int <= u128::MAX as int) by (nonlinear_arith)
            requires
                0 <= ma as int <= 0x8000_0000_0000_0000int,
                0 <= mb as int <= 0x8000_0000_0000_0000int,
        ;
    }
    let p: u128 = ma * mb;
    let q: u128 = p / (SCALE as u128);
    proof {
        lemma_tmul_mag(a as int, b as int);
        assert(q as int == s_mag(s_tmul(a as int, b as int)));
    }
    if neg {
        -(q as i64)
    } else {
        q as i64
    }
}

/// Fixed-point quotient, truncated toward zero; the divisor must be positive.
pub fn fx_div(a: i64, b: i64) -> (r: i64)
    requires
        1 <= b,
        s_mag(s_tdiv(a as int, b as int)) <= i64::MAX as int,
    ensures
        r as int == s_tdiv(a as int, b as int),
{
    let ma: u128 = if a < 0 {
        (-(a as i128)) as u128
    } else {
        a as u128
    };
    proof {
        assert(ma as int == s_mag(a as int));
    }
    let p: u128 = ma * (SCALE as u128);
    let q: u128 = p / (b as u128);
    proof {
        lemma_tdiv_mag(a as int, b as int);
        assert(q as int == s_mag(s_tdiv(a as int, b as int)));
    }
    if a < 0 {
        -(q as i64)
    } else {
        q as i64
    }
}

/// Whether `r` is the integer square root of `y` (rounded down).
pub open spec fn s_is_isqrt(y: int, r: int) -> bool {
    &&& 0 <= r
    &&& r * r <= y
    &&& y < (r + 1) * (r + 1)
}

/// The integer square root is unique.
pub proof fn lemma_isqrt_unique(y: int, r1: int, r2: int)
    requires
        s_is_isqrt(y, r1),
        s_is_isqrt(y, r2),
    ensures
        r1 == r2,
{
    assert(r1 == r2) by (nonlinear_arith)
        requires
            0 <= r1,
            0 <= r2,
            r1 * r1 <= y,
            r2 * r2 <= y,
            y < (r1 + 1) * (r1 + 1),
            y < (r2 + 1) * (r2 + 1),
    ;
}

/// Fixed-point square root, rounded down: the result `r` satisfies
/// `r*r <= x*SCALE < (r+1)*(r+1)`, so `r/SCALE` is the square root of
/// `x/SCALE` to within one unit.
pub fn fx_sqrt(x: i64) -> (r: i64)
    requires
        0 <= x,
    ensures
        0 <= r,
        s_is_isqrt(x as int * SCALE as int, r as int),
{
    let xu: u128 = x as u128;
    proof {
        lemma_mul_upper_bound(xu as int, 0x7fff_ffff_ffff_ffffint, SCALE as int, SCALE as int);
    }
    let y: u128 = xu * (SCALE as u128);
    let mut lo: u128 = 0;
    let mut hi: u128 = 0x8000_0000_0000u128;
    proof {
        assert((y as int) < (hi as int) * (hi as int)) by (nonlinear_arith)
            requires
                y as int <= 0x7fff_ffff_ffff_ffffint * 1_000_000_000int,
                hi as int == 0x8000_0000_0000int,
        ;
    }
    while lo + 1 < hi
        invariant
            lo < hi,
            hi <= 0x8000_0000_0000u128,
            (lo as int) * (lo as int) <= y as int,
            (y as int) < (hi as int) * (hi as int),
        decreases hi - lo,
    {
        let mid: u128 = lo + (hi - lo) / 2;
        proof {
            assert(lo < mid < hi);
            assert((mid as int) * (mid as int) < u128::MAX as int) by (nonlinear_arith)
                requires
                    0 <= mid as int,
                    (mid as int) < 0x8000_0000_0000int,
            ;
        }
        if mid * mid <= y {
            lo = mid;
        } else {
            hi = mid;
        }
    }
    proof {
        assert(hi == lo + 1);
        assert(lo as int <= i64::MAX as int);
    }
    lo as i64
}

/// Fixed-point power by repeated truncated multiplication:
/// `s_pow(b, 0) == SCALE` (one), `s_pow(b, n+1) == s_tmul(s_pow(b, n), b)`.
pub open spec fn s_pow(b: int, n: nat) -> int
    decreases n,
{
    if n == 0 {
        SCALE as int
    } else {
        s_tmul(s_pow(b, (n - 1) as nat), b)
    }
}

/// A power of a factor of magnitude at most one keeps magnitude at most one.
pub proof fn lemma_pow_mag(b: int, n: nat)
    requires
        s_mag(b) <= SCALE as int,
    ensures
        s_mag(s_pow(b, n)) <= SCALE as int,
    decreases n,
{
    if n > 0 {
        lemma_pow_mag(b, (n - 1) as nat);
        lemma_tmul_le(s_pow(b, (n - 1) as nat), b, SCALE as int);
    }
}

/// A power of a nonnegative factor is nonnegative.
pub proof fn lemma_pow_nonneg(b: int, n: nat)
    requires
        0 <= b,
    ensures
        0 <= s_pow(b, n),
    decreases n,
{
    if n > 0 {
        lemma_pow_nonneg(b, (n - 1) as nat);
        lemma_tmul_mag(s_pow(b, (n - 1) as nat), b);
    }
}

/// Fixed-point power of a factor of magnitude at most one.
pub fn fx_pow(b: i64, n: u64) -> (r: i64)
    requires
        s_mag(b as int) <= SCALE as int,
    ensures
        r as int == s_pow(b as int, n as nat),
        s_mag(r as int) <= SCALE as int,
{
    let mut acc: i64 = SCALE;
    let mut i: u64 = 0;
    while i < n
        invariant
            i <= n,
            s_mag(b as int) <= SCALE as int,
            acc as int == s_pow(b as int, i as nat),
            s_mag(acc as int) <= SCALE as int,
        decreases n - i,
    {
        proof {
            lemma_tmul_le(acc as int, b as int, SCALE as int);
        }
        acc = fx_mul(acc, b);
        i = i + 1;
    }
    acc
}

/// Quotient of a nonnegative value by a small positive count (an ordinary
/// integer division, not a fixed-point one).
fn div_nn(a: i64, d: u64) -> (r: i64)
    requires
        0 <= a,
        1 <= d,
    ensures
        r as int == (a as int) / (d as int),
        0 <= r <= a,
{
    proof {
        lemma_div_pos_is_pos(a as int, d as int);
        lemma_div_nonincreasing(a as int, d as int);
    }
    ((a as u64) / d) as i64
}

/// Truncated Taylor series for `exp(-x/SCALE)` on `0 <= x <= SCALE`:
/// six alternating terms, each one the previous term times `x`, divided by
/// the next term index, with every product truncated toward zero.
pub open spec fn s_exp_frac(x: int) -> int {
    let t1 = x;
    let t2 = s_tmul(t1, x) / 2;
    let t3 = s_tmul(t2, x) / 3;
    let t4 = s_tmul(t3, x) / 4;
    let t5 = s_tmul(t4, x) / 5;
    let t6 = s_tmul(t5, x) / 6;
    SCALE as int - t1 + t2 - t3 + t4 - t5 + t6
}

/// `exp(-1)` in fixed point, rounded down.
pub const E_INV: i64 = 367_879_441;

/// Fixed-point `exp(-x/SCALE)` for `x >= 0`: the whole part of the exponent
/// is handled as a power of `E_INV`, the fractional part by the truncated
/// Taylor series; exponents of 64 and beyond yield zero (the true value is
/// already far below one unit there).
pub open spec fn s_exp_neg(x: int) -> int {
    if x >= 64 * (SCALE as int) {
        0
    } else {
        s_tmul(s_pow(E_INV as int, (x / (SCALE as int)) as nat), s_exp_frac(x % (SCALE as int)))
    }
}

/// The Taylor part of the decay, on the fractional range.
fn exp_frac(x: i64) -> (r: i64)
    requires
        0 <= x <= SCALE,
    ensures
        r as int == s_exp_frac(x as int),
        0 <= r <= SCALE,
{
    proof {
        lemma_tmul_le(x as int, x as int, SCALE as int);
    }
    let m1: i64 = fx_mul(x, x);
    let t2: i64 = div_nn(m1, 2);
    proof {
        lemma_tmul_mag(x as int, x as int);
        assert(m1 >= 0);
        assert(t2 <= x) by {
            lemma_tmul_le(x as int, x as int, x as int);
            lemma_div_nonincreasing(m1 as int, 2);
        }
        lemma_tmul_le(t2 as int, x as int, SCALE as int);
    }
    let m2: i64 = fx_mul(t2, x);
    let t3: i64 = div_nn(m2, 3);
    proof {
        lemma_tmul_mag(t2 as int, x as int);
        assert(t3 <= t2) by {
            lemma_tmul_le(t2 as int, x as int, t2 as int);
            lemma_div_nonincreasing(m2 as int, 3);
        }
        lemma_tmul_le(t3 as int, x as int, SCALE as int);
    }
    let m3: i64 = fx_mul(t3, x);
    let t4: i64 = div_nn(m3, 4);
    proof {
        lemma_tmul_mag(t3 as int, x as int);
        assert(t4 <= t3) by {
            lemma_tmul_le(t3 as int, x as int, t3 as int);
            lemma_div_nonincreasing(m3 as int, 4);
        }
        lemma_tmul_le(t4 as int, x as int, SCALE as int);
    }
    let m4: i64 = fx_mul(t4, x);
    let t5: i64 = div_nn(m4, 5);
    proof {
        lemma_tmul_mag(t4 as int, x as int);
        assert(t5 <= t4) by {
            lemma_tmul_le(t4 as int, x as int, t4 as int);
            lemma_div_nonincreasing(m4 as int, 5);
        }
        lemma_tmul_le(t5 as int, x as int, SCALE as int);
    }
    let m5: i64 = fx_mul(t5, x);
    let t6: i64 = div_nn(m5, 6);
    proof {
        lemma_tmul_mag(t5 as int, x as int);
        assert(t6 <= t5) by {
            lemma_tmul_le(t5 as int, x as int, t5 as int);
            lemma_div_nonincreasing(m5 as int, 6);
        }
    }
    SCALE - x + t2 - t3 + t4 - t5 + t6
}

/// Fixed-point exponential decay `exp(-x/SCALE)`, always within `[0, 1]`.
pub fn fx_exp_neg(x: i64) -> (r: i64)
    requires
        0 <= x,
    ensures
        r as int == s_exp_neg(x as int),
        0 <= r <= SCALE,
{
    if x >= 64 * SCALE {
        0
    } else {
        let xu: u64 = x as u64;
        let k: u64 = xu / (SCALE as u64);
        let f: u64 = xu % (SCALE as u64);
        proof {
            assert(k as int == (x as int) / (SCALE as int));
            assert(f as int == (x as int) % (SCALE as int));
            lemma_remainder_upper(x as int, SCALE as int);
            lemma_remainder_lower(x as int, SCALE as int);
        }
        let ep: i64 = fx_pow(E_INV, k);
        let fr: i64 = exp_frac(f as i64);
        proof {
            lemma_pow_nonneg(E_INV as int, k as nat);
            lemma_tmul_le(ep as int, fr as int, SCALE as int);
            lemma_tmul_mag(ep as int, fr as int);
        }
        fx_mul(ep, fr)
    }
}

} // verus!
