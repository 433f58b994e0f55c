//! 16.16 fixed-point scalars and the small vector types the world model
//! uses. A coordinate of `FX_ONE` is one grid cell; products and
//! quotients are truncated toward zero, mirroring the spec functions
//! given here, so every caller can state results exactly.

use vstd::prelude::*;

verus! {

/// One whole unit (one grid cell) in 16.16 fixed point.
pub const FX_ONE: i64 = 65536;

/// A 2D vector in fixed-point world units.
#[derive(Clone, Copy, PartialEq, Eq, Structural, Debug)]
pub struct Vec2Fx {
    pub x: i64,
    pub y: i64,
}

/// An integer grid-cell coordinate.
#[derive(Clone, Copy, PartialEq, Eq, Structural, Debug)]
pub struct CellPos {
    pub x: i64,
    pub y: i64,
}

/// Absolute value over the mathematical integers.
pub open spec fn abs_i(a: int) -> int {
    if a < 0 {
        -a
    } else {
        a
    }
}

/// Fixed-point product: `a * b / FX_ONE`, truncated toward zero.
pub open spec fn fx_mul_spec(a: int, b: int) -> int {
    let m = (abs_i(a) * abs_i(b)) / 65536;
    if (a < 0) != (b < 0) {
        -m
    } else {
        m
    }
}

/// Fixed-point quotient: `a * FX_ONE / b`, truncated toward zero.
pub open spec fn fx_div_spec(a: int, b: int) -> int {
    let q = (abs_i(a) * 65536) / abs_i(b);
    if (a < 0) != (b < 0) {
        -q
    } else {
        q
    }
}

/// The grid cell containing a fixed-point coordinate (floor).
pub open spec fn fx_floor_spec(a: int) -> int {
    a / 65536
}

/// A fixed-point coordinate truncated toward zero, as the `as i32`
/// conversion of the corresponding real number would do.
pub open spec fn fx_trunc_spec(a: int) -> int {
    if a >= 0 {
        a / 65536
    } else {
        -((-a) / 65536)
    }
}

pub fn fx_mul(a: i64, b: i64) -> (r: i64)
    requires
        -0x400_0000 <= a <= 0x400_0000,
        -0x8_0000_0000 <= b <= 0x8_0000_0000,
    ensures
        r == fx_mul_spec(a as int, b as int),
{
    let neg = (a < 0) != (b < 0);
    let aa: u64 = (if a < 0 { -a } else { a }) as u64;
    let bb: u64 = (if b < 0 { -b } else { b }) as u64;
    proof {
        assert(aa * bb <= 0x400_0000 * 0x8_0000_0000) by (nonlinear_arith)
            requires
                0 <= aa <= 0x400_0000,
                0 <= bb <= 0x8_0000_0000,
        ;
    }
    let p: u64 = aa * bb;
    let q: u64 = p / 65536;
    if neg {
        -(q as i64)
    } else {
        q as i64
    }
}

pub fn fx_div(a: i64, b: i64) -> (r: i64)
    requires
        b != 0,
        b != i64::MIN,
        -0x4000_0000_0000 <= a <= 0x4000_0000_0000,
    ensures
        r == fx_div_spec(a as int, b as int),
{
    let neg = (a < 0) != (b < 0);
    let aa: u64 = (if a < 0 { -a } else { a }) as u64;
    let bb: u64 = (if b < 0 { -b } else { b }) as u64;
    let q: u64 = (aa * 65536) / bb;
    proof {
        assert((abs_i(a as int) * 65536) / abs_i(b as int) <= abs_i(a as int) * 65536) by {
            vstd::arithmetic::div_mod::lemma_div_is_ordered_by_denominator(
                abs_i(a as int) * 65536,
                1,
                abs_i(b as int),
            );
        }
    }
    if neg {
        -(q as i64)
    } else {
        q as i64
    }
}

pub fn fx_floor(a: i64) -> (r: i64)
    requires
        a != i64::MIN,
    ensures
        r == fx_floor_spec(a as int),
{
    if a >= 0 {
        ((a as u64) / 65536) as i64
    } else {
        let nb: u64 = (-a) as u64;
        let q: u64 = (nb + 65535) / 65536;
        proof {
            let d: int = 65536;
            let n: int = nb as int;
            let qq: int = (n + d - 1) / d;
            vstd::arithmetic::div_mod::lemma_fundamental_div_mod(n + d - 1, d);
            vstd::arithmetic::div_mod::lemma_fundamental_div_mod(a as int, d);
            assert(a as int / d == -qq);
        }
        -(q as i64)
    }
}

pub fn fx_trunc(a: i64) -> (r: i64)
    requires
        a != i64::MIN,
    ensures
        r == fx_trunc_spec(a as int),
{
    if a >= 0 {
        ((a as u64) / 65536) as i64
    } else {
        let nb: u64 = (-a) as u64;
        -((nb / 65536) as i64)
    }
}

/// Magnitude transfer through a fixed-point product: bounds on the
/// factors bound the product.
pub proof fn lemma_fx_mul_abs(a: int, b: int, ba: int, bb: int)
    requires
        abs_i(a) <= ba,
        abs_i(b) <= bb,
    ensures
        abs_i(fx_mul_spec(a, b)) <= (ba * bb) / 65536,
{
    let pa = abs_i(a);
    let pb = abs_i(b);
    assert(pa * pb <= ba * bb) by (nonlinear_arith)
        requires
            0 <= pa <= ba,
            0 <= pb <= bb,
    ;
    vstd::arithmetic::div_mod::lemma_div_is_ordered(pa * pb, ba * bb, 65536);
    assert(0 <= (pa * pb) / 65536) by (nonlinear_arith)
        requires
            0 <= pa * pb,
    ;
}

/// A fixed-point quotient is within `|a| * 65536` whenever the divisor
/// is a nonzero integer.
pub proof fn lemma_fx_div_abs(a: int, b: int)
    requires
        b != 0,
    ensures
        abs_i(fx_div_spec(a, b)) <= abs_i(a) * 65536,
{
    let pa = abs_i(a);
    let pb = abs_i(b);
    assert((pa * 65536) / pb <= pa * 65536) by (nonlinear_arith)
        requires
            1 <= pb,
            0 <= pa,
    ;
    assert(0 <= (pa * 65536) / pb) by (nonlinear_arith)
        requires
            1 <= pb,
            0 <= pa,
    ;
}

/// Dividing a magnitude by a divisor at least as large keeps the
/// fixed-point quotient within one unit.
pub proof fn lemma_fx_div_unit(a: int, b: int)
    requires
        0 < b,
        abs_i(a) <= b,
    ensures
        abs_i(fx_div_spec(a, b)) <= 65536,
{
    let pa = abs_i(a);
    assert((pa * 65536) / b <= 65536) by (nonlinear_arith)
        requires
            0 <= pa <= b,
            0 < b,
    ;
    assert(0 <= (pa * 65536) / b) by (nonlinear_arith)
        requires
            0 <= pa,
            0 < b,
    ;
}

/// Integer square root over the mathematical integers: the greatest `r`
/// with `r * r <= n`.
pub open spec fn isqrt_spec(n: int) -> int
    decreases n,
{
    if n < 1 {
        0
    } else {
        let r = isqrt_spec(n - 1);
        if (r + 1) * (r + 1) <= n {
            r + 1
        } else {
            r
        }
    }
}

pub proof fn lemma_isqrt_bounds(n: int)
    requires
        0 <= n,
    ensures
        0 <= isqrt_spec(n),
        isqrt_spec(n) * isqrt_spec(n) <= n,
        n < (isqrt_spec(n) + 1) * (isqrt_spec(n) + 1),
    decreases n,
{
    if n < 1 {
    } else {
        lemma_isqrt_bounds(n - 1);
        let r = isqrt_spec(n - 1);
        if (r + 1) * (r + 1) <= n {
            assert(n < ((r + 1) + 1) * ((r + 1) + 1)) by (nonlinear_arith)
                requires
                    0 <= r,
                    n - 1 < (r + 1) * (r + 1),
            ;
        }
    }
}

/// Two nonnegative integers squeezed by the same square bounds are equal.
pub proof fn lemma_isqrt_unique(n: int, a: int, b: int)
    requires
        0 <= a,
        0 <= b,
        a * a <= n < (a + 1) * (a + 1),
        b * b <= n < (b + 1) * (b + 1),
    ensures
        a == b,
{
    assert(a == b) by (nonlinear_arith)
        requires
            0 <= a,
            0 <= b,
            a * a <= n < (a + 1) * (a + 1),
            b * b <= n < (b + 1) * (b + 1),
    ;
}

/// Integer square root: the greatest `r` with `r * r <= n`.
pub fn isqrt(n: u64) -> (r: u64)
    ensures
        r * r <= n < (r + 1) * (r + 1),
        r == isqrt_spec(n as int),
{
    proof {
        lemma_isqrt_bounds(n as int);
    }
    let mut lo: u64 = 0;
    let mut hi: u64 = 4294967296;
    while lo + 1 < hi
        invariant
            lo < hi <= 4294967296,
            lo * lo <= n,
            n < hi * hi,
        decreases hi - lo,
    {
        let mid: u64 = lo + (hi - lo) / 2;
        proof {
            assert(mid <= 4294967296 ==> (mid as int) * (mid as int) <= 0x10000000000000000)
                by (nonlinear_arith);
        }
        let sq: u128 = (mid as u128) * (mid as u128);
        if sq <= n as u128 {
            lo = mid;
        } else {
            hi = mid;
        }
    }
    proof {
        lemma_isqrt_unique(n as int, lo as int, isqrt_spec(n as int));
    }
    lo
}

} // verus!
