//! Fixed-point scalars: an `i64` counts units of 1/65536, so `ONE` stands for
//! 1.0. Products and quotients are formed exactly in wider integers, rounded
//! toward zero, and saturated where the result leaves the `i64` range.

use vstd::prelude::*;

verus! {

/// The fixed-point representation of 1.0.
pub const ONE: i64 = 65536;

/// The quotient `a / b` rounded toward zero, for a positive divisor.
pub open spec fn trunc_div(a: int, b: int) -> int {
    if a >= 0 {
        a / b
    } else {
        -((-a) / b)
    }
}

/// `v` limited to the interval from `lo` to `hi`, for `lo <= hi`.
pub open spec fn clamp(v: int, lo: int, hi: int) -> int {
    if v < lo {
        lo
    } else if v > hi {
        hi
    } else {
        v
    }
}

/// `v` limited to what an `i64` holds.
pub open spec fn saturate(v: int) -> int {
    clamp(v, i64::MIN as int, i64::MAX as int)
}

/// The pixel that the fixed-point coordinate `v` falls on: its integer part,
/// the fraction dropped toward zero, limited to what an `i32` holds.
pub open spec fn pixel_of(v: int) -> int {
    clamp(trunc_div(v, ONE as int), i32::MIN as int, i32::MAX as int)
}

/// The fixed-point product of `a` and `b`.
pub open spec fn fx_mul_spec(a: int, b: int) -> int {
    saturate(trunc_div(a * b, ONE as int))
}

/// The largest multiple of `step` that is not above `v`, for a positive
/// `step`.
pub open spec fn snap_down_spec(v: int, step: int) -> int {
    (v / step) * step
}

/// `r` is the integer square root of `n`.
pub open spec fn is_sqrt(r: int, n: int) -> bool {
    0 <= r && r * r <= n < (r + 1) * (r + 1)
}

/// The integer square root of a natural number: the largest `r` whose square
/// is not above `n`.
pub open spec fn sqrt_floor(n: int) -> int {
    choose|r: int| is_sqrt(r, n)
}

/// A number has at most one integer square root.
pub proof fn lemma_sqrt_unique(r: int, s: int, n: int)
    requires
        is_sqrt(r, n),
        is_sqrt(s, n),
    ensures
        r == s,
{
    if r < s {
        assert((r + 1) * (r + 1) <= s * s) by (nonlinear_arith)
            requires
                0 <= r,
                r + 1 <= s,
        ;
    } else if s < r {
        assert((s + 1) * (s + 1) <= r * r) by (nonlinear_arith)
            requires
                0 <= s,
                s + 1 <= r,
        ;
    }
}

/// Whatever meets `is_sqrt` is the value of `sqrt_floor`.
pub proof fn lemma_sqrt_floor(r: int, n: int)
    requires
        is_sqrt(r, n),
    ensures
        sqrt_floor(n) == r,
{
    lemma_sqrt_unique(r, sqrt_floor(n), n);
}

/// Bounds of a product of two `i64` values.
pub(crate) proof fn lemma_i64_product(a: int, b: int)
    requires
        i64::MIN <= a <= i64::MAX,
        i64::MIN <= b <= i64::MAX,
    ensures
        -0x4000_0000_0000_0000_0000_0000_0000_0000 <= a * b
            <= 0x4000_0000_0000_0000_0000_0000_0000_0000,
{
    assert(-0x4000_0000_0000_0000_0000_0000_0000_0000 <= a * b
        <= 0x4000_0000_0000_0000_0000_0000_0000_0000) by (nonlinear_arith)
        requires
            -0x8000_0000_0000_0000 <= a <= 0x7fff_ffff_ffff_ffff,
            -0x8000_0000_0000_0000 <= b <= 0x7fff_ffff_ffff_ffff,
    ;
}

/// The pixel of a coordinate does not decrease when the coordinate grows.
pub proof fn lemma_pixel_of_monotonic(u: int, v: int)
    requires
        u <= v,
    ensures
        pixel_of(u) <= pixel_of(v),
{
    let one = ONE as int;
    if u >= 0 {
        vstd::arithmetic::div_mod::lemma_div_is_ordered(u, v, one);
    } else if v < 0 {
        vstd::arithmetic::div_mod::lemma_div_is_ordered(-v, -u, one);
    } else {
        vstd::arithmetic::div_mod::lemma_div_pos_is_pos(-u, one);
        vstd::arithmetic::div_mod::lemma_div_pos_is_pos(v, one);
    }
}

/// Limits `v` to the interval from `lo` to `hi`.
pub fn clamp_to(v: i64, lo: i64, hi: i64) -> (r: i64)
    ensures
        r == clamp(v as int, lo as int, hi as int),
{
    if v < lo {
        lo
    } else if v > hi {
        hi
    } else {
        v
    }
}

/// Limits a wide value to the `i64` range.
pub fn saturate_i128(v: i128) -> (r: i64)
    ensures
        r == saturate(v as int),
{
    if v < i64::MIN as i128 {
        i64::MIN
    } else if v > i64::MAX as i128 {
        i64::MAX
    } else {
        v as i64
    }
}

/// The fixed-point number that stands for the whole number `p`.
pub fn from_pixel(p: i32) -> (v: i64)
    ensures
        v == p * ONE,
        pixel_of(v as int) == p,
{
    p as i64 * ONE
}

/// The pixel that a fixed-point coordinate falls on.
pub fn to_pixel(v: i64) -> (p: i32)
    ensures
        p == pixel_of(v as int),
{
    let q = v / ONE;
    if q < i32::MIN as i64 {
        i32::MIN
    } else if q > i32::MAX as i64 {
        i32::MAX
    } else {
        q as i32
    }
}

/// The pixel that a wide fixed-point coordinate falls on.
pub fn to_pixel_wide(v: i128) -> (p: i32)
    ensures
        p == pixel_of(v as int),
{
    let q = v / (ONE as i128);
    if q < i32::MIN as i128 {
        i32::MIN
    } else if q > i32::MAX as i128 {
        i32::MAX
    } else {
        q as i32
    }
}

/// Fixed-point product, rounded toward zero and saturated.
pub fn fx_mul(a: i64, b: i64) -> (r: i64)
    ensures
        r == fx_mul_spec(a as int, b as int),
{
    proof {
        lemma_i64_product(a as int, b as int);
    }
    let wide: i128 = (a as i128) * (b as i128);
    saturate_i128(wide / (ONE as i128))
}

/// The largest multiple of `step` that is not above `v`.
pub fn snap_down(v: i64, step: i64) -> (r: i128)
    requires
        step > 0,
    ensures
        r == snap_down_spec(v as int, step as int),
        r <= v < r + step,
{
    let q = v / step;
    let ghost vi = v as int;
    let ghost si = step as int;
    let ghost a = if vi >= 0 { vi } else { -vi };
    proof {
        vstd::arithmetic::div_mod::lemma_fundamental_div_mod(a, si);
        vstd::arithmetic::div_mod::lemma_mod_bound(a, si);
        vstd::arithmetic::div_mod::lemma_div_pos_is_pos(a, si);
        assert(0 <= (a / si) * si <= a) by (nonlinear_arith)
            requires
                a == si * (a / si) + a % si,
                0 <= a % si,
                0 <= a / si,
                si > 0,
        ;
        assert(q * si == if vi >= 0 { (a / si) * si } else { -((a / si) * si) }) by (nonlinear_arith)
            requires
                q == if vi >= 0 { a / si } else { -(a / si) },
        ;
    }
    let whole: i128 = (q as i128) * (step as i128);
    let rest: i128 = v as i128 - whole;
    let f: i128 = if rest < 0 {
        q as i128 - 1
    } else {
        q as i128
    };
    proof {
        let fi = f as int;
        assert(fi * si == q * si - (if rest < 0 { si } else { 0 })) by (nonlinear_arith)
            requires
                fi == q - (if rest < 0 { 1int } else { 0int }),
        ;
        vstd::arithmetic::div_mod::lemma_fundamental_div_mod_converse(vi, si, fi, vi - fi * si);
    }
    if rest < 0 {
        whole - step as i128
    } else {
        whole
    }
}

/// Integer square root.
pub fn isqrt(n: u128) -> (r: u64)
    ensures
        is_sqrt(r as int, n as int),
        r == sqrt_floor(n as int),
{
    let mut lo: u128 = 0;
    let mut hi: u128 = 0x1_0000_0000_0000_0000;
    assert(0x1_0000_0000_0000_0000 * 0x1_0000_0000_0000_0000 > n) by (nonlinear_arith)
        requires
            n <= 0xffff_ffff_ffff_ffff_ffff_ffff_ffff_ffff,
    ;
    while hi - lo > 1
        invariant
            lo < hi <= 0x1_0000_0000_0000_0000,
            lo * lo <= n < hi * hi,
        decreases hi - lo,
    {
        let mid = lo + (hi - lo) / 2;
        assert(mid * mid <= 0xffff_ffff_ffff_ffff * 0xffff_ffff_ffff_ffff) by (nonlinear_arith)
            requires
                0 <= mid <= 0xffff_ffff_ffff_ffff,
        ;
        if mid * mid <= n {
            lo = mid;
        } else {
            hi = mid;
        }
    }
    proof {
        lemma_sqrt_floor(lo as int, n as int);
    }
    lo as u64
}

/// The point `num / den` of the way from `a` to `b`: the product is formed
/// exactly and the quotient rounded toward zero. For a positive `den`.
pub open spec fn lerp(a: int, b: int, num: int, den: int) -> int {
    a + trunc_div((b - a) * num, den)
}

/// The sign and the size of a product, told from its factors.
proof fn lemma_product_magnitude(d: int, n: int, ud: int, un: int)
    requires
        ud == (if d < 0 { -d } else { d }),
        un == (if n < 0 { -n } else { n }),
    ensures
        ud * un >= 0,
        (d < 0) != (n < 0) ==> d * n == -(ud * un),
        (d < 0) == (n < 0) ==> d * n == ud * un,
{
    assert(ud * un >= 0) by (nonlinear_arith)
        requires
            ud >= 0,
            un >= 0,
    ;
    assert(d * n == (if (d < 0) != (n < 0) { -(ud * un) } else { ud * un })) by (nonlinear_arith)
        requires
            ud == d || ud == -d,
            un == n || un == -n,
            ud == (if d < 0 { -d } else { d }),
            un == (if n < 0 { -n } else { n }),
    ;
}

/// The pixel at the point `num / den` of the way from `a` to `b`.
pub fn lerp_pixel(a: i64, b: i64, num: i128, den: i128) -> (p: i32)
    requires
        -0x1_0000_0000_0000_0000 <= num <= 0x1_0000_0000_0000_0000,
        0 < den <= 0x1_0000_0000_0000_0000,
    ensures
        p == pixel_of(lerp(a as int, b as int, num as int, den as int)),
{
    let d: i128 = b as i128 - a as i128;
    let down: bool = (d < 0) != (num < 0);
    let ud: u128 = if d < 0 { (-d) as u128 } else { d as u128 };
    let un: u128 = if num < 0 { (-num) as u128 } else { num as u128 };
    proof {
        lemma_product_magnitude(d as int, num as int, ud as int, un as int);
        assert(ud * un <= 0xffff_ffff_ffff_ffff * 0x1_0000_0000_0000_0000) by (nonlinear_arith)
            requires
                0 <= ud <= 0xffff_ffff_ffff_ffff,
                0 <= un <= 0x1_0000_0000_0000_0000,
        ;
    }
    let q: u128 = ud * un / (den as u128);
    proof {
        assert(trunc_div(d * num, den as int) == if down { -(q as int) } else { q as int });
    }
    if q > 0x2_0000_0000_0000_0000 {
        if down {
            i32::MIN
        } else {
            i32::MAX
        }
    } else {
        let v: i128 = if down { a as i128 - q as i128 } else { a as i128 + q as i128 };
        to_pixel_wide(v)
    }
}

} // verus!
