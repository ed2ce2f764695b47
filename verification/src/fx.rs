//! Fixed-point arithmetic for the rating engine.
//!
//! Every fractional quantity in the engine (positions in pixels, times in
//! milliseconds, velocities, strain values) is carried as an unsigned or
//! signed integer scaled by [`FP`]. All operations round toward zero on
//! non-negative operands, and each executable operation is specified exactly
//! by its spec-level mirror.

use vstd::prelude::*;

verus! {

/// Fixed-point scale: a value of `FP` stands for 1.0.
pub const FP: u64 = 10000;

/// Product of two fixed-point values: `a * b / FP`, rounded down.
pub open spec fn fx_mul_spec(a: int, b: int) -> int {
    a * b / (FP as int)
}

/// Quotient of two fixed-point values: `a * FP / b`, rounded down.
pub open spec fn fx_div_spec(a: int, b: int) -> int {
    a * (FP as int) / b
}

pub fn fx_mul(a: u64, b: u64) -> (r: u64)
    requires
        a * b / (FP as int) <= u64::MAX,
    ensures
        r == fx_mul_spec(a as int, b as int),
{
    (((a as u128) * (b as u128)) / (FP as u128)) as u64
}

pub fn fx_div(a: u64, b: u64) -> (r: u64)
    requires
        b >= 1,
        a * (FP as int) / (b as int) <= u64::MAX,
    ensures
        r == fx_div_spec(a as int, b as int),
{
    (((a as u128) * (FP as u128)) / (b as u128)) as u64
}

pub fn umin(a: u64, b: u64) -> (r: u64)
    ensures
        r == if a <= b { a as int } else { b as int },
{
    if a <= b { a } else { b }
}

pub fn umax(a: u64, b: u64) -> (r: u64)
    ensures
        r == if a >= b { a as int } else { b as int },
{
    if a >= b { a } else { b }
}

/// The integer square root, rounded down: the greatest `r` with `r * r <= n`.
pub open spec fn sqrt_floor(n: int) -> int
    decreases n,
{
    if n <= 0 {
        0
    } else {
        let s = sqrt_floor(n - 1);
        if (s + 1) * (s + 1) <= n {
            s + 1
        } else {
            s
        }
    }
}

pub proof fn lemma_sqrt_floor_bounds(n: int)
    requires
        n >= 0,
    ensures
        0 <= sqrt_floor(n),
        sqrt_floor(n) * sqrt_floor(n) <= n,
        n < (sqrt_floor(n) + 1) * (sqrt_floor(n) + 1),
    decreases n,
{
    if n == 0 {
    } else {
        lemma_sqrt_floor_bounds(n - 1);
        let s = sqrt_floor(n - 1);
        if (s + 1) * (s + 1) <= n {
            assert((s + 2) * (s + 2) > (s + 1) * (s + 1)) by (nonlinear_arith)
                requires s >= 0;
        }
    }
}

pub proof fn lemma_sqrt_floor_unique(n: int, r: int)
    requires
        n >= 0,
        0 <= r,
        r * r <= n,
        n < (r + 1) * (r + 1),
    ensures
        r == sqrt_floor(n),
{
    lemma_sqrt_floor_bounds(n);
    let s = sqrt_floor(n);
    if r < s {
        assert((r + 1) * (r + 1) <= s * s) by (nonlinear_arith)
            requires 0 <= r, r + 1 <= s;
    }
    if s < r {
        assert((s + 1) * (s + 1) <= r * r) by (nonlinear_arith)
            requires 0 <= s, s + 1 <= r;
    }
}

/// A fixed-point factor of at most one does not enlarge a value.
pub proof fn lemma_fx_mul_le(a: int, b: int)
    requires
        0 <= a <= FP,
        0 <= b,
    ensures
        0 <= fx_mul_spec(a, b) <= b,
{
    assert(0 <= a * b <= (FP as int) * b) by (nonlinear_arith)
        requires 0 <= a <= FP, 0 <= b;
    assert((FP as int) * b / (FP as int) == b) by (nonlinear_arith)
        requires b >= 0;
    assert(a * b / (FP as int) <= (FP as int) * b / (FP as int)) by (nonlinear_arith)
        requires 0 <= a * b <= (FP as int) * b;
}

/// A fixed-point ratio of a part to a whole is at most one.
pub proof fn lemma_fx_div_le_fp(a: int, b: int)
    requires
        0 <= a <= b,
        b >= 1,
    ensures
        0 <= fx_div_spec(a, b) <= FP,
{
    assert(0 <= a * (FP as int) <= b * (FP as int)) by (nonlinear_arith)
        requires 0 <= a <= b;
    assert(b * (FP as int) / b == FP as int) by (nonlinear_arith)
        requires b >= 1;
    assert(a * (FP as int) / b <= b * (FP as int) / b) by (nonlinear_arith)
        requires 0 <= a * (FP as int) <= b * (FP as int), b >= 1;
}

/// Dividing by a common positive divisor keeps the order.
pub proof fn lemma_fx_div_mono(a: int, b: int, c: int)
    requires
        0 <= a <= b,
        c >= 1,
    ensures
        fx_div_spec(a, c) <= fx_div_spec(b, c),
{
    assert(a * (FP as int) <= b * (FP as int)) by (nonlinear_arith)
        requires 0 <= a <= b;
    assert(a * (FP as int) / c <= b * (FP as int) / c) by (nonlinear_arith)
        requires 0 <= a * (FP as int) <= b * (FP as int), c >= 1;
}

pub proof fn lemma_sqrt_floor_le(n: int, b: int)
    requires
        0 <= n,
        0 <= b,
        n < (b + 1) * (b + 1),
    ensures
        sqrt_floor(n) <= b,
{
    lemma_sqrt_floor_bounds(n);
    let s = sqrt_floor(n);
    if s > b {
        assert((b + 1) * (b + 1) <= s * s) by (nonlinear_arith)
            requires 0 <= b, b + 1 <= s;
    }
}

/// Integer square root of an arbitrary 128-bit value.
pub fn isqrt(n: u128) -> (r: u64)
    ensures
        r == sqrt_floor(n as int),
{
    let mut lo: u64 = 0;
    let mut hi: u64 = u64::MAX - 1;
    if (n as u128) >= (u64::MAX as u128) * (u64::MAX as u128) {
        proof {
            lemma_sqrt_floor_unique(n as int, u64::MAX as int);
        }
        return u64::MAX;
    }
    while lo < hi
        invariant
            lo <= hi,
            hi <= u64::MAX - 1,
            (lo as int) * (lo as int) <= n as int,
            (n as int) < ((hi as int) + 1) * ((hi as int) + 1),
        decreases hi - lo,
    {
        let half: u64 = (hi - lo + 1) / 2;
        proof {
            assert(1 <= half && half <= hi - lo) by (nonlinear_arith)
                requires lo < hi, half == (hi - lo + 1) / 2;
        }
        let mid: u64 = lo + half;
        proof {
            assert((mid as int) * (mid as int) <= (u64::MAX as int) * (u64::MAX as int))
                by (nonlinear_arith)
                requires 0 <= mid <= u64::MAX;
        }
        if (mid as u128) * (mid as u128) <= n {
            lo = mid;
        } else {
            hi = mid - 1;
        }
    }
    proof {
        lemma_sqrt_floor_unique(n as int, lo as int);
    }
    lo
}

/// Square root of a fixed-point value, as a fixed-point value.
pub fn fx_sqrt(v: u64) -> (r: u64)
    ensures
        r == sqrt_floor(v * FP),
{
    proof {
        assert((v as int) * (FP as int) <= (u64::MAX as int) * (FP as int)) by (nonlinear_arith)
            requires 0 <= v <= u64::MAX;
    }
    isqrt((v as u128) * (FP as u128))
}

/// `base / FP` raised to the `k`-th power, as a fixed-point value.
pub open spec fn fx_pow_spec(b: int, k: nat) -> int
    decreases k,
{
    if k == 0 {
        FP as int
    } else {
        fx_pow_spec(b, (k - 1) as nat) * b / (FP as int)
    }
}

pub proof fn lemma_fx_pow_bounds(b: int, k: nat)
    requires
        0 <= b <= FP,
    ensures
        0 <= fx_pow_spec(b, k) <= FP,
    decreases k,
{
    if k > 0 {
        lemma_fx_pow_bounds(b, (k - 1) as nat);
        let p = fx_pow_spec(b, (k - 1) as nat);
        assert(0 <= p * b <= p * (FP as int)) by (nonlinear_arith)
            requires 0 <= b <= FP, 0 <= p;
        assert(p * (FP as int) / (FP as int) == p) by (nonlinear_arith)
            requires p >= 0;
        assert(p * b / (FP as int) <= p * (FP as int) / (FP as int)) by (nonlinear_arith)
            requires 0 <= p * b <= p * (FP as int), FP as int > 0;
    }
}

proof fn lemma_fx_pow_zero(b: int, j: nat, k: nat)
    requires
        0 <= b <= FP,
        j <= k,
        fx_pow_spec(b, j) == 0,
    ensures
        fx_pow_spec(b, k) == 0,
    decreases k,
{
    if k > j {
        lemma_fx_pow_zero(b, j, (k - 1) as nat);
    }
}

pub fn fx_pow(b: u64, k: u64) -> (r: u64)
    requires
        b <= FP,
    ensures
        r == fx_pow_spec(b as int, k as nat),
{
    let mut acc: u64 = FP;
    let mut i: u64 = 0;
    proof {
        lemma_fx_pow_bounds(b as int, 0);
    }
    while i < k && acc > 0
        invariant
            i <= k,
            b <= FP,
            acc == fx_pow_spec(b as int, i as nat),
            0 <= acc <= FP,
        decreases k - i,
    {
        proof {
            lemma_fx_pow_bounds(b as int, (i + 1) as nat);
            assert(acc * b <= FP * FP) by (nonlinear_arith)
                requires 0 <= acc <= FP, 0 <= b <= FP;
        }
        acc = fx_mul(acc, b);
        i = i + 1;
    }
    proof {
        if acc == 0 && i < k {
            lemma_fx_pow_zero(b as int, i as nat, k as nat);
        }
    }
    if acc == 0 {
        0
    } else {
        acc
    }
}

} // verus!
