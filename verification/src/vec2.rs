//! Two-dimensional vectors with fixed-point coordinates.

use crate::fixed::{
    from_pixel, fx_mul, fx_mul_spec, is_sqrt, isqrt, lemma_i64_product, pixel_of, saturate,
    saturate_i128, sqrt_floor, to_pixel, trunc_div, ONE,
};
use vstd::prelude::*;

verus! {

/// A position, displacement or direction. Each coordinate counts units of
/// 1/65536; every pair of `i64` values is a valid vector. Sums, differences
/// and products saturate.
#[derive(Clone, Copy, Debug, PartialEq, Eq, Structural)]
pub struct Vec2 {
    pub x: i64,
    pub y: i64,
}

impl Vec2 {
    /// The pixel that the vector, read as a position, falls on.
    pub open spec fn pixel(self) -> (int, int) {
        (pixel_of(self.x as int), pixel_of(self.y as int))
    }

    pub open spec fn add_spec(self, other: Vec2) -> Vec2 {
        Vec2 { x: saturate(self.x + other.x) as i64, y: saturate(self.y + other.y) as i64 }
    }

    pub open spec fn sub_spec(self, other: Vec2) -> Vec2 {
        Vec2 { x: saturate(self.x - other.x) as i64, y: saturate(self.y - other.y) as i64 }
    }

    pub open spec fn scale_spec(self, k: i64) -> Vec2 {
        Vec2 {
            x: fx_mul_spec(self.x as int, k as int) as i64,
            y: fx_mul_spec(self.y as int, k as int) as i64,
        }
    }

    /// The vector turned counter-clockwise by the angle whose cosine and sine
    /// are `cos` and `sin`.
    pub open spec fn rotate_spec(self, cos: i32, sin: i32) -> Vec2 {
        Vec2 {
            x: saturate(trunc_div(self.x * cos - self.y * sin, ONE as int)) as i64,
            y: saturate(trunc_div(self.x * sin + self.y * cos, ONE as int)) as i64,
        }
    }

    /// Square of the Euclidean length, in squared units.
    pub open spec fn norm_squared(self) -> int {
        self.x * self.x + self.y * self.y
    }

    /// Euclidean length, rounded down to the unit.
    pub open spec fn length_spec(self) -> int {
        saturate(sqrt_floor(self.norm_squared()))
    }

    /// The vector of length 1.0 that points the same way, each coordinate
    /// rounded toward zero; nothing for the zero vector, which points nowhere.
    pub open spec fn direction_spec(self) -> Option<Vec2> {
        if self.x == 0 && self.y == 0 {
            None
        } else {
            let len = sqrt_floor(self.norm_squared());
            Some(
                Vec2 {
                    x: trunc_div(self.x * ONE, len) as i64,
                    y: trunc_div(self.y * ONE, len) as i64,
                },
            )
        }
    }

    /// The vector with the given coordinates, in units of 1/65536.
    pub fn new(x: i64, y: i64) -> (v: Vec2)
        ensures
            v.x == x,
            v.y == y,
    {
        Vec2 { x, y }
    }

    /// The position of the pixel `(x, y)`.
    pub fn from_pixels(x: i32, y: i32) -> (v: Vec2)
        ensures
            v.x == x * ONE,
            v.y == y * ONE,
            v.pixel() == (x as int, y as int),
    {
        Vec2 { x: from_pixel(x), y: from_pixel(y) }
    }

    /// The pixel that the position falls on.
    pub fn to_pixels(self) -> (p: (i32, i32))
        ensures
            (p.0 as int, p.1 as int) == self.pixel(),
    {
        (to_pixel(self.x), to_pixel(self.y))
    }

    /// Sum of two vectors.
    pub fn add(self, other: Vec2) -> (v: Vec2)
        ensures
            v == self.add_spec(other),
    {
        Vec2 {
            x: saturate_i128(self.x as i128 + other.x as i128),
            y: saturate_i128(self.y as i128 + other.y as i128),
        }
    }

    /// Difference of two vectors.
    pub fn sub(self, other: Vec2) -> (v: Vec2)
        ensures
            v == self.sub_spec(other),
    {
        Vec2 {
            x: saturate_i128(self.x as i128 - other.x as i128),
            y: saturate_i128(self.y as i128 - other.y as i128),
        }
    }

    /// The vector stretched by the fixed-point factor `k`.
    pub fn scale(self, k: i64) -> (v: Vec2)
        ensures
            v == self.scale_spec(k),
    {
        Vec2 { x: fx_mul(self.x, k), y: fx_mul(self.y, k) }
    }

    /// The vector turned counter-clockwise by the angle whose cosine and sine
    /// are `cos` and `sin`.
    pub fn rotate(self, cos: i32, sin: i32) -> (v: Vec2)
        ensures
            v == self.rotate_spec(cos, sin),
    {
        proof {
            lemma_i64_i32_product(self.x as int, cos as int);
            lemma_i64_i32_product(self.y as int, sin as int);
            lemma_i64_i32_product(self.x as int, sin as int);
            lemma_i64_i32_product(self.y as int, cos as int);
        }
        let xc: i128 = (self.x as i128) * (cos as i128);
        let ys: i128 = (self.y as i128) * (sin as i128);
        let xs: i128 = (self.x as i128) * (sin as i128);
        let yc: i128 = (self.y as i128) * (cos as i128);
        Vec2 {
            x: saturate_i128((xc - ys) / (ONE as i128)),
            y: saturate_i128((xs + yc) / (ONE as i128)),
        }
    }

    /// Square of the Euclidean length.
    fn length_squared(self) -> (n: u128)
        ensures
            n == self.norm_squared(),
    {
        proof {
            lemma_i64_product(self.x as int, self.x as int);
            lemma_i64_product(self.y as int, self.y as int);
            assert(self.x * self.x >= 0) by (nonlinear_arith);
            assert(self.y * self.y >= 0) by (nonlinear_arith);
        }
        let xx: i128 = (self.x as i128) * (self.x as i128);
        let yy: i128 = (self.y as i128) * (self.y as i128);
        xx as u128 + yy as u128
    }

    /// Euclidean length.
    pub fn length(self) -> (len: i64)
        ensures
            len == self.length_spec(),
            is_sqrt(sqrt_floor(self.norm_squared()), self.norm_squared()),
    {
        let r = isqrt(self.length_squared());
        if r > i64::MAX as u64 {
            i64::MAX
        } else {
            r as i64
        }
    }

    /// The unit vector that points the same way, if the vector points
    /// anywhere.
    pub fn direction(self) -> (d: Option<Vec2>)
        ensures
            d == self.direction_spec(),
            d is None <==> self.x == 0 && self.y == 0,
            d matches Some(u) ==> -ONE <= u.x <= ONE && -ONE <= u.y <= ONE,
    {
        if self.x == 0 && self.y == 0 {
            return None;
        }
        let len = isqrt(self.length_squared());
        proof {
            lemma_unit_bounds(self.x as int, self.y as int, len as int);
            lemma_unit_bounds(self.y as int, self.x as int, len as int);
        }
        let l: i128 = len as i128;
        let ux: i128 = (self.x as i128) * (ONE as i128) / l;
        let uy: i128 = (self.y as i128) * (ONE as i128) / l;
        Some(Vec2 { x: ux as i64, y: uy as i64 })
    }
}

/// Bounds of a product of an `i64` and an `i32` value.
proof fn lemma_i64_i32_product(a: int, b: int)
    requires
        i64::MIN <= a <= i64::MAX,
        i32::MIN <= b <= i32::MAX,
    ensures
        -0x4000_0000_0000_0000_0000_0000 <= a * b <= 0x4000_0000_0000_0000_0000_0000,
{
    assert(-0x4000_0000_0000_0000_0000_0000 <= a * b <= 0x4000_0000_0000_0000_0000_0000)
        by (nonlinear_arith)
        requires
            -0x8000_0000_0000_0000 <= a <= 0x7fff_ffff_ffff_ffff,
            -0x8000_0000 <= b <= 0x7fff_ffff,
    ;
}

/// A coordinate of a non-zero vector, divided by the vector's length, lies
/// between -1.0 and 1.0.
pub proof fn lemma_unit_bounds(a: int, b: int, len: int)
    requires
        a != 0 || b != 0,
        is_sqrt(len, a * a + b * b),
    ensures
        len > 0,
        -(ONE as int) <= trunc_div(a * ONE, len) <= ONE,
{
    let m = if a >= 0 { a } else { -a };
    assert(a * a + b * b >= 1) by (nonlinear_arith)
        requires
            a != 0 || b != 0,
    ;
    assert(len > 0) by (nonlinear_arith)
        requires
            0 <= len,
            a * a + b * b < (len + 1) * (len + 1),
            a * a + b * b >= 1,
    ;
    assert(m * m == a * a) by (nonlinear_arith)
        requires
            m == a || m == -a,
    ;
    assert(b * b >= 0) by (nonlinear_arith);
    assert(m <= len) by (nonlinear_arith)
        requires
            0 <= m,
            0 <= len,
            m * m + b * b < (len + 1) * (len + 1),
            b * b >= 0,
    ;
    assert(m * ONE == if a >= 0 { a * ONE } else { -(a * ONE) }) by (nonlinear_arith)
        requires
            m == if a >= 0 { a } else { -a },
    ;
    let n = m * ONE;
    assert(0 <= n <= len * ONE) by (nonlinear_arith)
        requires
            n == m * ONE,
            0 <= m <= len,
    ;
    vstd::arithmetic::div_mod::lemma_fundamental_div_mod(n, len);
    vstd::arithmetic::div_mod::lemma_mod_bound(n, len);
    assert(0 <= n / len <= ONE) by (nonlinear_arith)
        requires
            n == len * (n / len) + n % len,
            0 <= n % len < len,
            0 <= n <= len * ONE,
            len > 0,
    ;
}

} // verus!
