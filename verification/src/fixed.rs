//! Fixed-point scalars: an `i64` counts units of 1/65536.
//!
//! Results that leave the range of `i64` stop at its ends, and quotients are
//! rounded toward negative infinity.

use vstd::arithmetic::div_mod::{lemma_fundamental_div_mod, lemma_fundamental_div_mod_converse};
use vstd::prelude::*;

verus! {

/// The fixed-point representation of the number one.
pub const ONE: i64 = 65536;

/// The value of `v` clamped into the range of `i64`.
pub open spec fn saturated(v: int) -> int {
    if v < i64::MIN {
        i64::MIN as int
    } else if v > i64::MAX {
        i64::MAX as int
    } else {
        v
    }
}

/// The fixed-point product of two fixed-point numbers.
pub open spec fn product(a: int, b: int) -> int {
    a * b / (ONE as int)
}

/// The fixed-point quotient of two fixed-point numbers.
pub open spec fn quotient(a: int, b: int) -> int
    recommends
        b > 0,
{
    a * ONE / b
}

/// `root` is the largest number whose square does not exceed `n`.
pub open spec fn is_floor_sqrt(n: nat, root: nat) -> bool {
    root * root <= n < (root + 1) * (root + 1)
}

/// The largest number whose square does not exceed `n`.
pub closed spec fn floor_sqrt_of(n: nat) -> nat {
    choose|root: nat| is_floor_sqrt(n, root)
}

/// Clamps a wide intermediate result into `i64`.
pub fn saturate(v: i128) -> (result: i64)
    ensures
        result == saturated(v as int),
{
    if v < i64::MIN as i128 {
        i64::MIN
    } else if v > i64::MAX as i128 {
        i64::MAX
    } else {
        v as i64
    }
}

/// Division of a wide value by a positive divisor, rounded toward negative
/// infinity.
pub(crate) fn floor_div(a: i128, d: i128) -> (result: i128)
    requires
        d > 0,
        a > i128::MIN,
    ensures
        result == a / d,
{
    if a >= 0 {
        a / d
    } else {
        let m: i128 = -a;
        let q: i128 = m / d;
        let r: i128 = m % d;
        proof {
            lemma_fundamental_div_mod(m as int, d as int);
            assert((-(q as int)) * d == -(d * q)) by (nonlinear_arith);
            assert((-(q as int) - 1) * d == -(d * q) - d) by (nonlinear_arith);
            if r == 0 {
                lemma_fundamental_div_mod_converse(a as int, d as int, -(q as int), 0);
            } else {
                lemma_fundamental_div_mod_converse(
                    a as int,
                    d as int,
                    -(q as int) - 1,
                    (d - r) as int,
                );
            }
        }
        if r == 0 {
            -q
        } else {
            -q - 1
        }
    }
}

/// Multiplies two fixed-point numbers.
pub fn scale(a: i64, b: i64) -> (result: i64)
    ensures
        result == saturated(product(a as int, b as int)),
{
    assert(-0x4000_0000_0000_0000_0000_0000_0000_0000 <= a * b
        <= 0x4000_0000_0000_0000_0000_0000_0000_0000) by (nonlinear_arith)
        requires
            -0x8000_0000_0000_0000 <= a <= 0x8000_0000_0000_0000,
            -0x8000_0000_0000_0000 <= b <= 0x8000_0000_0000_0000,
    ;
    saturate(floor_div(a as i128 * b as i128, ONE as i128))
}

/// A number between whose square and the next `n` lies is the floor of the
/// square root of `n`.
pub proof fn lemma_floor_sqrt_is(n: nat, root: nat)
    requires
        is_floor_sqrt(n, root),
    ensures
        floor_sqrt_of(n) == root,
{
    let chosen = floor_sqrt_of(n);
    assert(is_floor_sqrt(n, chosen));
    assert(chosen == root) by (nonlinear_arith)
        requires
            root * root <= n < (root + 1) * (root + 1),
            chosen * chosen <= n < (chosen + 1) * (chosen + 1),
    ;
}

/// The floor of the square root grows with its argument: a number whose
/// square fits under `n` is at most the root of `n`.
pub proof fn lemma_floor_sqrt_at_least(n: nat, bound: nat)
    requires
        bound * bound <= n,
    ensures
        bound <= floor_sqrt_of(n),
{
    lemma_floor_sqrt_exists(n);
    let chosen = floor_sqrt_of(n);
    assert(bound <= chosen) by (nonlinear_arith)
        requires
            bound * bound <= n < (chosen + 1) * (chosen + 1),
    ;
}

/// Every number has a floor of its square root.
pub proof fn lemma_floor_sqrt_exists(n: nat)
    ensures
        is_floor_sqrt(n, floor_sqrt_of(n)),
    decreases n,
{
    if n == 0 {
        assert(0nat * 0nat <= n < (0nat + 1) * (0nat + 1)) by (nonlinear_arith)
            requires
                n == 0,
        ;
        assert(is_floor_sqrt(n, 0));
    } else {
        lemma_floor_sqrt_exists((n - 1) as nat);
        let below = floor_sqrt_of((n - 1) as nat);
        if n < (below + 1) * (below + 1) {
            assert(is_floor_sqrt(n, below));
        } else {
            let next = below + 1;
            assert(next * next <= n < (next + 1) * (next + 1)) by (nonlinear_arith)
                requires
                    next == below + 1,
                    n - 1 < (below + 1) * (below + 1),
                    n >= (below + 1) * (below + 1),
            ;
            assert(is_floor_sqrt(n, next));
        }
    }
}

/// Computes the floor of the square root of `n`.
pub fn floor_sqrt(n: u128) -> (root: u64)
    ensures
        root == floor_sqrt_of(n as nat),
{
    let mut low: u128 = 0;
    let mut high: u128 = 0x1_0000_0000_0000_0000;
    assert(low * low <= n < high * high) by (nonlinear_arith)
        requires
            low == 0,
            high == 0x1_0000_0000_0000_0000,
            n <= 0xffff_ffff_ffff_ffff_ffff_ffff_ffff_ffff,
    ;
    while high - low > 1
        invariant
            low < high <= 0x1_0000_0000_0000_0000,
            low * low <= n < high * high,
        decreases high - low,
    {
        let middle: u128 = low + (high - low) / 2;
        assert(middle * middle <= 0xffff_ffff_ffff_ffff * 0xffff_ffff_ffff_ffff) by (nonlinear_arith)
            requires
                middle <= 0xffff_ffff_ffff_ffff,
        ;
        if middle * middle <= n {
            low = middle;
        } else {
            high = middle;
        }
    }
    proof {
        assert(high == low + 1);
        lemma_floor_sqrt_is(n as nat, low as nat);
    }
    low as u64
}

/// A negative number divided by a positive one stays negative.
pub proof fn lemma_negative_quotient(a: int, d: int)
    requires
        a < 0,
        d > 0,
    ensures
        a / d < 0,
{
    lemma_fundamental_div_mod(a, d);
    let q = a / d;
    if q >= 0 {
        assert(d * q >= 0) by (nonlinear_arith)
            requires
                d > 0,
                q >= 0,
        ;
    }
}

/// A number that leaves no quotient is smaller than the divisor.
pub proof fn lemma_no_quotient(a: int, d: int)
    requires
        d > 0,
        a / d == 0,
    ensures
        0 <= a < d,
{
    lemma_fundamental_div_mod(a, d);
    assert(d * (a / d) == 0) by (nonlinear_arith)
        requires
            a / d == 0,
    ;
}

/// Whole-number division by a positive divisor keeps the order of
/// fractions: if `a / v <= b / w` as fractions, then also rounded down.
pub proof fn lemma_floor_keeps_order(a: int, v: int, b: int, w: int)
    requires
        v > 0,
        w > 0,
        a * w <= b * v,
    ensures
        a / v <= b / w,
{
    let low = a / v;
    lemma_fundamental_div_mod(a, v);
    lemma_fundamental_div_mod(b, w);
    assert(low * v <= a) by {
        assert(0 <= a % v);
        assert(v * low == low * v) by (nonlinear_arith);
    }
    assert(low * w <= b) by (nonlinear_arith)
        requires
            low * v <= a,
            a * w <= b * v,
            v > 0,
            w > 0,
    ;
    assert(low <= b / w) by (nonlinear_arith)
        requires
            low * w <= b,
            b == w * (b / w) + b % w,
            0 <= b % w < w,
            w > 0,
    ;
}

/// A fixed-point quotient by a positive divisor is no larger than the
/// dividend times one.
pub proof fn lemma_quotient_fits(a: int, w: int)
    requires
        w > 0,
        i64::MIN <= a <= i64::MAX,
    ensures
        i64::MIN * ONE <= a * ONE <= i64::MAX * ONE,
        i64::MIN * ONE <= quotient(a, w) <= i64::MAX * ONE,
{
    let scaled = a * ONE;
    assert(i64::MIN * ONE <= scaled <= i64::MAX * ONE) by (nonlinear_arith)
        requires
            scaled == a * ONE,
            i64::MIN <= a <= i64::MAX,
    ;
    assert(scaled / w <= i64::MAX * ONE) by (nonlinear_arith)
        requires
            scaled <= i64::MAX * ONE,
            w > 0,
    ;
    assert(scaled / w >= i64::MIN * ONE) by (nonlinear_arith)
        requires
            scaled >= i64::MIN * ONE,
            w > 0,
    ;
}

} // verus!
