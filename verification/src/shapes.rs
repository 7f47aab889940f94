//! The pixel sets of the shapes that the drawing primitives produce.

use crate::fixed::{lemma_pixel_of_monotonic, lerp, pixel_of, trunc_div, ONE};
use crate::vec2::Vec2;
use vstd::prelude::*;

verus! {

/// The size of `v` without its sign.
pub open spec fn abs(v: int) -> int {
    if v < 0 {
        -v
    } else {
        v
    }
}

/// The direction in which a line advances along one axis: forward if the
/// target lies ahead, backward otherwise.
pub open spec fn step_sign(from: int, to: int) -> int {
    if from < to {
        1
    } else {
        -1
    }
}

/// The integer nearest to `n / d`, the lower one where two are equally near;
/// for `n >= 0` and `d > 0`.
pub open spec fn round_half_down(n: int, d: int) -> int {
    if d == 0 {
        0
    } else {
        (2 * n + d - 1) / (2 * d)
    }
}

/// `j` is the integer nearest to `n / d`, the lower one of two.
pub open spec fn is_nearest(j: int, n: int, d: int) -> bool {
    (2 * j - 1) * d < 2 * n <= (2 * j + 1) * d
}

/// Number of steps that a line takes from `a` to `b`: the larger of its two
/// extents.
pub open spec fn line_steps(a: (int, int), b: (int, int)) -> int {
    let dx = abs(b.0 - a.0);
    let dy = abs(b.1 - a.1);
    if dx >= dy {
        dx
    } else {
        dy
    }
}

/// The pixel that a line from `a` to `b` reaches after `k` steps. It advances
/// one pixel per step along its longer axis and keeps as near to the ideal
/// line as a pixel can be along the other, staying behind where the ideal
/// line passes midway between two pixels.
pub open spec fn line_pixel(a: (int, int), b: (int, int), k: int) -> (int, int) {
    let dx = abs(b.0 - a.0);
    let dy = abs(b.1 - a.1);
    let sx = step_sign(a.0, b.0);
    let sy = step_sign(a.1, b.1);
    if dx >= dy {
        (a.0 + sx * k, a.1 + sy * round_half_down(k * dy, dx))
    } else {
        (a.0 + sx * round_half_down(k * dx, dy), a.1 + sy * k)
    }
}

/// The first `n` pixels of the line from `a` to `b`.
pub open spec fn line_prefix(a: (int, int), b: (int, int), n: int) -> Set<(int, int)> {
    Set::new(|p: (int, int)| exists|k: int| 0 <= k < n && #[trigger] line_pixel(a, b, k) == p)
}

/// All pixels of the line from `a` to `b`, both ends included.
pub open spec fn line_pixels(a: (int, int), b: (int, int)) -> Set<(int, int)> {
    line_prefix(a, b, line_steps(a, b) + 1)
}

/// The pixels of the segment between two positions.
pub open spec fn segment_pixels(start: Vec2, end: Vec2) -> Set<(int, int)> {
    line_pixels(start.pixel(), end.pixel())
}

/// What meets `is_nearest` is the value of `round_half_down`.
pub proof fn lemma_nearest_is_round(j: int, n: int, d: int)
    requires
        d > 0,
        is_nearest(j, n, d),
    ensures
        round_half_down(n, d) == j,
{
    let jd = j * d;
    assert((2 * j - 1) * d == 2 * jd - d && (2 * j + 1) * d == 2 * jd + d && j * (2 * d) == 2 * jd)
        by (nonlinear_arith)
        requires
            jd == j * d,
    ;
    let r = 2 * n + d - 1 - 2 * jd;
    assert(2 * n + d - 1 == j * (2 * d) + r);
    vstd::arithmetic::div_mod::lemma_fundamental_div_mod_converse(2 * n + d - 1, 2 * d, j, r);
}

/// The value of `round_half_down` meets `is_nearest`.
pub proof fn lemma_round_is_nearest(n: int, d: int)
    requires
        d > 0,
    ensures
        is_nearest(round_half_down(n, d), n, d),
{
    let j = round_half_down(n, d);
    let m = 2 * n + d - 1;
    vstd::arithmetic::div_mod::lemma_fundamental_div_mod(m, 2 * d);
    vstd::arithmetic::div_mod::lemma_mod_bound(m, 2 * d);
    let jd = j * d;
    assert((2 * j - 1) * d == 2 * jd - d && (2 * j + 1) * d == 2 * jd + d && (2 * d) * j == 2 * jd)
        by (nonlinear_arith)
        requires
            jd == j * d,
    ;
}

/// The first pixel of a prefix one longer is the prefix with one more pixel.
pub proof fn lemma_line_prefix_step(a: (int, int), b: (int, int), n: int)
    requires
        0 <= n,
    ensures
        line_prefix(a, b, n + 1) == line_prefix(a, b, n).insert(line_pixel(a, b, n)),
        line_prefix(a, b, 0) == Set::<(int, int)>::empty(),
{
    let big = line_prefix(a, b, n + 1);
    let small = line_prefix(a, b, n).insert(line_pixel(a, b, n));
    assert forall|p: (int, int)| big.contains(p) <==> small.contains(p) by {
        if big.contains(p) {
            let k = choose|k: int| 0 <= k < n + 1 && #[trigger] line_pixel(a, b, k) == p;
            if k < n {
                assert(line_prefix(a, b, n).contains(p));
            }
        }
        if small.contains(p) {
            if p == line_pixel(a, b, n) {
                assert(0 <= n < n + 1 && line_pixel(a, b, n) == p);
            } else {
                let k = choose|k: int| 0 <= k < n && #[trigger] line_pixel(a, b, k) == p;
                assert(0 <= k < n + 1 && line_pixel(a, b, k) == p);
            }
        }
    }
    assert(big =~= small);
    assert(line_prefix(a, b, 0) =~= Set::<(int, int)>::empty());
}

/// A line starts at its first end and, after all its steps, stands on its
/// second.
pub proof fn lemma_line_ends(a: (int, int), b: (int, int))
    ensures
        line_pixel(a, b, 0) == a,
        line_pixel(a, b, line_steps(a, b)) == b,
{
    let dx = abs(b.0 - a.0);
    let dy = abs(b.1 - a.1);
    let sx = step_sign(a.0, b.0);
    let sy = step_sign(a.1, b.1);
    assert(sx * dx == b.0 - a.0 && sy * dy == b.1 - a.1 && sx * 0 == 0 && sy * 0 == 0)
        by (nonlinear_arith)
        requires
            sx == 1 && dx == b.0 - a.0 || sx == -1 && dx == a.0 - b.0,
            sy == 1 && dy == b.1 - a.1 || sy == -1 && dy == a.1 - b.1,
    ;
    assert(0 * dx == 0 && 0 * dy == 0);
    if dx >= dy {
        if dx > 0 {
            assert(is_nearest(0, 0, dx)) by (nonlinear_arith)
                requires
                    dx > 0,
            ;
            lemma_nearest_is_round(0, 0, dx);
            assert(is_nearest(dy, dx * dy, dx)) by (nonlinear_arith)
                requires
                    dx > 0,
            ;
            lemma_nearest_is_round(dy, dx * dy, dx);
        }
    } else {
        assert(is_nearest(0, 0, dy)) by (nonlinear_arith)
            requires
                dy > 0,
        ;
        lemma_nearest_is_round(0, 0, dy);
        assert(is_nearest(dx, dy * dx, dy)) by (nonlinear_arith)
            requires
                dy > 0,
        ;
        lemma_nearest_is_round(dx, dy * dx, dy);
    }
}

/// Where a line stands along its shorter axis after `k` steps, told from the
/// running products that the drawing loop keeps.
pub(crate) proof fn lemma_minor_position(major: int, minor: int, k: int, m: int, km: int, mm: int)
    requires
        0 < major,
        0 <= minor <= major,
        0 <= k <= major,
        km == k * minor,
        mm == m * major,
        2 * mm - major < 2 * km <= 2 * mm + major,
    ensures
        m == round_half_down(k * minor, major),
        0 <= m <= minor,
{
    assert((2 * m - 1) * major == 2 * mm - major && (2 * m + 1) * major == 2 * mm + major)
        by (nonlinear_arith)
        requires
            mm == m * major,
    ;
    lemma_nearest_is_round(m, km, major);
    assert(0 <= km <= major * minor) by (nonlinear_arith)
        requires
            km == k * minor,
            0 <= k <= major,
            0 <= minor,
    ;
    assert(m >= 0) by (nonlinear_arith)
        requires
            (2 * m + 1) * major >= 0,
            major > 0,
    ;
    assert(m <= minor) by (nonlinear_arith)
        requires
            (2 * m - 1) * major < 2 * (major * minor),
            major > 0,
    ;
}

/// Rounded positions of two consecutive steps lie at most one apart, the
/// later one not behind.
proof fn lemma_round_advances(major: int, minor: int, k: int)
    requires
        0 < major,
        0 <= minor <= major,
        0 <= k,
    ensures
        0 <= round_half_down((k + 1) * minor, major) - round_half_down(k * minor, major) <= 1,
{
    let j = round_half_down(k * minor, major);
    let r = round_half_down((k + 1) * minor, major);
    lemma_round_is_nearest(k * minor, major);
    lemma_round_is_nearest((k + 1) * minor, major);
    let km = k * minor;
    let jm = j * major;
    let rm = r * major;
    assert((k + 1) * minor == km + minor && (2 * j - 1) * major == 2 * jm - major && (2 * j + 1)
        * major == 2 * jm + major && (2 * r - 1) * major == 2 * rm - major && (2 * r + 1) * major
        == 2 * rm + major) by (nonlinear_arith)
        requires
            km == k * minor,
            jm == j * major,
            rm == r * major,
    ;
    assert(r >= j) by (nonlinear_arith)
        requires
            2 * (j * major) - major < 2 * (r * major) + major,
            major > 0,
    ;
    assert(r <= j + 1) by (nonlinear_arith)
        requires
            2 * (r * major) - major < 2 * (j * major) + 3 * major,
            major > 0,
    ;
}

/// A line is connected: each step leads to one of the eight neighbours of
/// the pixel before.
pub proof fn lemma_line_connected(a: (int, int), b: (int, int), k: int)
    requires
        0 <= k < line_steps(a, b),
    ensures
        ({
            let p = line_pixel(a, b, k);
            let q = line_pixel(a, b, k + 1);
            abs(q.0 - p.0) <= 1 && abs(q.1 - p.1) <= 1 && p != q
        }),
{
    let dx = abs(b.0 - a.0);
    let dy = abs(b.1 - a.1);
    let sx = step_sign(a.0, b.0);
    let sy = step_sign(a.1, b.1);
    if dx >= dy {
        lemma_round_advances(dx, dy, k);
        let j = round_half_down(k * dy, dx);
        let r = round_half_down((k + 1) * dy, dx);
        assert(sx * (k + 1) - sx * k == sx && (sy * r - sy * j == 0 || sy * r - sy * j == sy))
            by (nonlinear_arith)
            requires
                r == j || r == j + 1,
        ;
    } else {
        lemma_round_advances(dy, dx, k);
        let i = round_half_down(k * dx, dy);
        let r = round_half_down((k + 1) * dx, dy);
        assert(sy * (k + 1) - sy * k == sy && (sx * r - sx * i == 0 || sx * r - sx * i == sx))
            by (nonlinear_arith)
            requires
                r == i || r == i + 1,
        ;
    }
}

/// A line from a pixel to itself is that one pixel.
pub proof fn lemma_line_single_pixel(p: (int, int))
    ensures
        line_pixels(p, p) == set![p],
{
    lemma_line_prefix_step(p, p, 0);
    lemma_line_ends(p, p);
    assert(line_pixels(p, p) =~= set![p]);
}

/// A segment whose two ends fall on one pixel is that pixel alone.
pub proof fn lemma_segment_single_pixel(start: Vec2, end: Vec2)
    requires
        start.pixel() == end.pixel(),
    ensures
        segment_pixels(start, end) == set![start.pixel()],
{
    lemma_line_single_pixel(start.pixel());
}

/// After `k` steps the ideal line from `a` to `b` stands exactly midway
/// between the pixels `m` and `m + 1` of its shorter axis.
pub open spec fn midway_at(a: (int, int), b: (int, int), k: int, m: int) -> bool {
    let dx = abs(b.0 - a.0);
    let dy = abs(b.1 - a.1);
    if dx >= dy {
        dx > 0 && 2 * (k * dy) == (2 * m + 1) * dx
    } else {
        2 * (k * dx) == (2 * m + 1) * dy
    }
}

/// Somewhere along its way the ideal line from `a` to `b` passes exactly
/// midway between two pixels. Only there does the choice of pixel depend on
/// the end from which the line is drawn.
pub open spec fn passes_midway(a: (int, int), b: (int, int)) -> bool {
    exists|k: int, m: int| 0 <= k <= line_steps(a, b) && #[trigger] midway_at(a, b, k, m)
}

/// A line with no extent along its shorter axis never leaves its row or
/// column.
proof fn lemma_round_of_zero(k: int, minor: int, major: int)
    requires
        minor == 0,
        major > 0,
    ensures
        round_half_down(k * minor, major) == 0,
{
    assert(k * minor == 0) by (nonlinear_arith)
        requires
            minor == 0,
    ;
    assert(is_nearest(0, 0, major)) by (nonlinear_arith)
        requires
            major > 0,
    ;
    lemma_nearest_is_round(0, 0, major);
}

/// Rounding `k * minor / major` and rounding what is left of it to `minor`
/// add up to `minor`, unless the quotient lies midway between two integers.
proof fn lemma_round_complement(major: int, minor: int, k: int, j: int)
    requires
        0 < major,
        0 <= minor,
        0 <= k <= major,
        j == round_half_down(k * minor, major),
        2 * (k * minor) != (2 * j + 1) * major,
    ensures
        round_half_down((major - k) * minor, major) == minor - j,
{
    lemma_round_is_nearest(k * minor, major);
    let km = k * minor;
    let jm = j * major;
    let mm = major * minor;
    assert((2 * j - 1) * major == 2 * jm - major && (2 * j + 1) * major == 2 * jm + major && (major
        - k) * minor == mm - km && (2 * (minor - j) - 1) * major == 2 * mm - 2 * jm - major && (2 * (
    minor - j) + 1) * major == 2 * mm - 2 * jm + major) by (nonlinear_arith)
        requires
            km == k * minor,
            jm == j * major,
            mm == major * minor,
    ;
    assert(is_nearest(minor - j, (major - k) * minor, major));
    lemma_nearest_is_round(minor - j, (major - k) * minor, major);
}

/// Drawn from the other end, a line that nowhere passes midway between two
/// pixels visits the same pixels in the opposite order.
pub proof fn lemma_line_pixel_reversed(a: (int, int), b: (int, int), k: int)
    requires
        0 <= k <= line_steps(a, b),
        !passes_midway(a, b),
    ensures
        line_pixel(a, b, k) == line_pixel(b, a, line_steps(a, b) - k),
        line_steps(b, a) == line_steps(a, b),
{
    let dx = abs(b.0 - a.0);
    let dy = abs(b.1 - a.1);
    let n = line_steps(a, b);
    let sx = step_sign(a.0, b.0);
    let sy = step_sign(a.1, b.1);
    let rx = step_sign(b.0, a.0);
    let ry = step_sign(b.1, a.1);
    if dx >= dy {
        if dx > 0 {
            let j = round_half_down(k * dy, dx);
            assert(!midway_at(a, b, k, j));
            lemma_round_complement(dx, dy, k, j);
            let r = round_half_down((dx - k) * dy, dx);
            assert(a.0 + sx * k == b.0 + rx * (dx - k)) by (nonlinear_arith)
                requires
                    sx == 1 && rx == -1 && dx == b.0 - a.0 || sx == -1 && rx == 1 && dx == a.0
                        - b.0,
            ;
            if dy == 0 {
                lemma_round_of_zero(k, dy, dx);
            }
            assert(a.1 + sy * j == b.1 + ry * (dy - j)) by (nonlinear_arith)
                requires
                    sy == 1 && ry == -1 && dy == b.1 - a.1 || sy == -1 && ry == 1 && dy == a.1
                        - b.1 || sy == -1 && ry == -1 && dy == 0 && a.1 == b.1 && j == 0,
            ;
        } else {
            assert(sx * 0 == 0 && rx * 0 == 0 && sy * 0 == 0 && ry * 0 == 0);
        }
    } else {
        let i = round_half_down(k * dx, dy);
        assert(!midway_at(a, b, k, i));
        lemma_round_complement(dy, dx, k, i);
        assert(a.1 + sy * k == b.1 + ry * (dy - k)) by (nonlinear_arith)
            requires
                sy == 1 && ry == -1 && dy == b.1 - a.1 || sy == -1 && ry == 1 && dy == a.1 - b.1,
        ;
        if dx == 0 {
            lemma_round_of_zero(k, dx, dy);
        }
        assert(a.0 + sx * i == b.0 + rx * (dx - i)) by (nonlinear_arith)
            requires
                sx == 1 && rx == -1 && dx == b.0 - a.0 || sx == -1 && rx == 1 && dx == a.0 - b.0
                    || sx == -1 && rx == -1 && dx == 0 && a.0 == b.0 && i == 0,
        ;
    }
}

/// A line covers the same pixels whichever end it is drawn from, provided it
/// nowhere passes midway between two pixels.
pub proof fn lemma_line_symmetric(a: (int, int), b: (int, int))
    requires
        !passes_midway(a, b),
    ensures
        line_pixels(a, b) == line_pixels(b, a),
{
    let n = line_steps(a, b);
    assert(line_steps(b, a) == n);
    assert forall|p: (int, int)| line_pixels(a, b).contains(p) implies line_pixels(b, a).contains(
        p,
    ) by {
        let k = choose|k: int| 0 <= k < n + 1 && #[trigger] line_pixel(a, b, k) == p;
        lemma_line_pixel_reversed(a, b, k);
        assert(0 <= n - k < n + 1 && line_pixel(b, a, n - k) == p);
    }
    assert forall|p: (int, int)| line_pixels(b, a).contains(p) implies line_pixels(a, b).contains(
        p,
    ) by {
        let k = choose|k: int| 0 <= k < n + 1 && #[trigger] line_pixel(b, a, k) == p;
        lemma_line_pixel_reversed(a, b, n - k);
        assert(0 <= n - k < n + 1 && line_pixel(a, b, n - k) == p);
    }
    assert(line_pixels(a, b) =~= line_pixels(b, a));
}

/// Where the ideal line does pass midway between two pixels, the two
/// directions choose differently there: the pixel that the line from `a`
/// takes at that step is none of the line from `b`.
pub proof fn lemma_line_asymmetric(a: (int, int), b: (int, int), k: int, m: int)
    requires
        0 <= k <= line_steps(a, b),
        midway_at(a, b, k, m),
    ensures
        line_pixels(a, b).contains(line_pixel(a, b, k)),
        !line_pixels(b, a).contains(line_pixel(a, b, k)),
        line_pixels(a, b) != line_pixels(b, a),
{
    let dx = abs(b.0 - a.0);
    let dy = abs(b.1 - a.1);
    let n = line_steps(a, b);
    let sx = step_sign(a.0, b.0);
    let sy = step_sign(a.1, b.1);
    let rx = step_sign(b.0, a.0);
    let ry = step_sign(b.1, a.1);
    let p = line_pixel(a, b, k);
    assert(0 <= k < n + 1 && line_pixel(a, b, k) == p);
    assert(line_steps(b, a) == n);
    let major = if dx >= dy { dx } else { dy };
    let minor = if dx >= dy { dy } else { dx };
    let km = k * minor;
    let mm = m * major;
    let whole = major * minor;
    assert((2 * m + 1) * major == 2 * mm + major && (2 * m - 1) * major == 2 * mm - major && (major
        - k) * minor == whole - km && (2 * (minor - m - 1) + 1) * major == 2 * whole - 2 * mm
        - major && (2 * (minor - m - 1) - 1) * major == 2 * whole - 2 * mm - 3 * major)
        by (nonlinear_arith)
        requires
            km == k * minor,
            mm == m * major,
            whole == major * minor,
    ;
    assert(major > 0);
    assert(is_nearest(m, km, major));
    lemma_nearest_is_round(m, km, major);
    assert(is_nearest(minor - m - 1, (major - k) * minor, major));
    lemma_nearest_is_round(minor - m - 1, (major - k) * minor, major);
    assert(minor > 0) by (nonlinear_arith)
        requires
            2 * (k * minor) == (2 * m + 1) * major,
            major > 0,
            minor >= 0,
    ;
    assert forall|i: int| 0 <= i < n + 1 implies #[trigger] line_pixel(b, a, i) != p by {
        if dx >= dy {
            assert(b.0 + rx * i == a.0 + sx * k <==> i == n - k) by (nonlinear_arith)
                requires
                    sx == 1 && rx == -1 && dx == b.0 - a.0 || sx == -1 && rx == 1 && dx == a.0
                        - b.0,
                    n == dx,
            ;
            if i == n - k {
                assert(b.1 + ry * (dy - m - 1) != a.1 + sy * m) by (nonlinear_arith)
                    requires
                        sy == 1 && ry == -1 && dy == b.1 - a.1 || sy == -1 && ry == 1 && dy == a.1
                            - b.1,
                ;
            }
        } else {
            assert(b.1 + ry * i == a.1 + sy * k <==> i == n - k) by (nonlinear_arith)
                requires
                    sy == 1 && ry == -1 && dy == b.1 - a.1 || sy == -1 && ry == 1 && dy == a.1
                        - b.1,
                    n == dy,
            ;
            if i == n - k {
                assert(b.0 + rx * (dx - m - 1) != a.0 + sx * m) by (nonlinear_arith)
                    requires
                        sx == 1 && rx == -1 && dx == b.0 - a.0 || sx == -1 && rx == 1 && dx == a.0
                            - b.0,
                ;
            }
        }
    }
}

/// A line covers the same pixels from either end exactly if it nowhere
/// passes midway between two pixels.
pub proof fn lemma_line_symmetry_exact(a: (int, int), b: (int, int))
    ensures
        line_pixels(a, b) == line_pixels(b, a) <==> !passes_midway(a, b),
{
    if passes_midway(a, b) {
        let (k, m) = choose|k: int, m: int|
            0 <= k <= line_steps(a, b) && #[trigger] midway_at(a, b, k, m);
        lemma_line_asymmetric(a, b, k, m);
    } else {
        lemma_line_symmetric(a, b);
    }
}

/// The outline of a triangle: its three sides.
pub open spec fn outline_pixels(p0: Vec2, p1: Vec2, p2: Vec2) -> Set<(int, int)> {
    segment_pixels(p0, p1).union(segment_pixels(p1, p2)).union(segment_pixels(p2, p0))
}

/// Three vertices in the order of ascending `y`; vertices of equal `y` keep
/// the order in which they were given.
pub open spec fn sort_by_y(p0: Vec2, p1: Vec2, p2: Vec2) -> (Vec2, Vec2, Vec2) {
    let (a, b) = if p1.y < p0.y {
        (p1, p0)
    } else {
        (p0, p1)
    };
    if p2.y < a.y {
        (p2, a, b)
    } else if p2.y < b.y {
        (a, p2, b)
    } else {
        (a, b, p2)
    }
}

/// Whether scanline `y` crosses the lower part of the triangle, between the
/// middle and the last vertex. A triangle with a flat top has no upper part.
pub open spec fn in_second_half(v0: Vec2, v1: Vec2, v2: Vec2, y: int) -> bool {
    y > pixel_of(v1.y as int) || v1.y == v0.y
}

/// Where scanline `y` meets the long edge from `v0` to `v2`.
pub open spec fn long_edge_at(v0: Vec2, v1: Vec2, v2: Vec2, y: int) -> int {
    lerp(v0.x as int, v2.x as int, y * ONE - v0.y, v2.y - v0.y)
}

/// Where scanline `y` meets the short edge of its half: from `v1` to `v2` in
/// the lower part, from `v0` to `v1` in the upper.
pub open spec fn short_edge_at(v0: Vec2, v1: Vec2, v2: Vec2, y: int) -> int {
    if in_second_half(v0, v1, v2, y) {
        lerp(v1.x as int, v2.x as int, y * ONE - v1.y, v2.y - v1.y)
    } else {
        lerp(v0.x as int, v1.x as int, y * ONE - v0.y, v1.y - v0.y)
    }
}

/// First and last pixel of the span filled on scanline `y`.
pub open spec fn scan_span(v0: Vec2, v1: Vec2, v2: Vec2, y: int) -> (int, int) {
    let pa = pixel_of(long_edge_at(v0, v1, v2, y));
    let pb = pixel_of(short_edge_at(v0, v1, v2, y));
    if pa <= pb {
        (pa, pb)
    } else {
        (pb, pa)
    }
}

/// The pixels of `row` from column `from` up to, not including, column `to`.
pub open spec fn row_pixels(row: int, from: int, to: int) -> Set<(int, int)> {
    Set::new(|p: (int, int)| p.1 == row && from <= p.0 < to)
}

/// The spans of the scanlines from that of `v0` up to, not including,
/// scanline `end`, for vertices sorted by `y`.
pub open spec fn filled_rows(v0: Vec2, v1: Vec2, v2: Vec2, end: int) -> Set<(int, int)> {
    Set::new(
        |p: (int, int)|
            pixel_of(v0.y as int) <= p.1 < end && scan_span(v0, v1, v2, p.1).0 <= p.0 <= scan_span(
                v0,
                v1,
                v2,
                p.1,
            ).1,
    )
}

/// The pixels of a filled triangle: on each scanline from the first vertex
/// to the last, the span between the long edge and the short edge of that
/// half. A triangle of no height has none.
pub open spec fn filled_pixels(p0: Vec2, p1: Vec2, p2: Vec2) -> Set<(int, int)> {
    let (v0, v1, v2) = sort_by_y(p0, p1, p2);
    if v2.y == v0.y {
        Set::empty()
    } else {
        filled_rows(v0, v1, v2, pixel_of(v2.y as int) + 1)
    }
}

/// What `draw_triangle` covers.
pub open spec fn triangle_pixels(p0: Vec2, p1: Vec2, p2: Vec2, filled: bool) -> Set<(int, int)> {
    if filled {
        filled_pixels(p0, p1, p2)
    } else {
        outline_pixels(p0, p1, p2)
    }
}

/// `sort_by_y` orders the vertices and loses none.
pub proof fn lemma_sort_by_y(p0: Vec2, p1: Vec2, p2: Vec2)
    ensures
        ({
            let (v0, v1, v2) = sort_by_y(p0, p1, p2);
            &&& v0.y <= v1.y <= v2.y
            &&& (v2.y == v0.y <==> p0.y == p1.y && p1.y == p2.y)
        }),
{
}

/// The span of a scanline reaches from the pixel of the lesser of its two
/// edge positions to the pixel of the greater.
pub proof fn lemma_scan_span_ordered(v0: Vec2, v1: Vec2, v2: Vec2, y: int)
    ensures
        ({
            let xa = long_edge_at(v0, v1, v2, y);
            let xb = short_edge_at(v0, v1, v2, y);
            scan_span(v0, v1, v2, y) == if xa > xb {
                (pixel_of(xb), pixel_of(xa))
            } else {
                (pixel_of(xa), pixel_of(xb))
            }
        }),
        scan_span(v0, v1, v2, y).0 <= scan_span(v0, v1, v2, y).1,
{
    let xa = long_edge_at(v0, v1, v2, y);
    let xb = short_edge_at(v0, v1, v2, y);
    if xa > xb {
        lemma_pixel_of_monotonic(xb, xa);
    } else {
        lemma_pixel_of_monotonic(xa, xb);
    }
}

/// On every scanline that the fill visits, the edge of its half has a height
/// above zero, so the interpolation never divides by zero.
pub proof fn lemma_segment_height_positive(v0: Vec2, v1: Vec2, v2: Vec2, y: int)
    requires
        v0.y <= v1.y <= v2.y,
        v0.y < v2.y,
        y <= pixel_of(v2.y as int),
    ensures
        in_second_half(v0, v1, v2, y) ==> v2.y - v1.y > 0,
        !in_second_half(v0, v1, v2, y) ==> v1.y - v0.y > 0,
{
    if y > pixel_of(v1.y as int) {
        if v1.y == v2.y {
            assert(false);
        }
    }
}

/// Three vertices of one height enclose nothing: the fill of such a triangle
/// is empty.
pub proof fn lemma_flat_triangle_empty(p0: Vec2, p1: Vec2, p2: Vec2)
    requires
        p0.y == p1.y,
        p1.y == p2.y,
    ensures
        triangle_pixels(p0, p1, p2, true) == Set::<(int, int)>::empty(),
        triangle_pixels(p0, p1, p2, false) == segment_pixels(p0, p1).union(
            segment_pixels(p1, p2),
        ).union(segment_pixels(p2, p0)),
{
    lemma_sort_by_y(p0, p1, p2);
}

/// Two vertices of equal height may change places in the sorted order
/// without changing any scanline's span.
proof fn lemma_span_of_tied_vertices(v0: Vec2, v1: Vec2, v2: Vec2, y: int)
    requires
        v0.y <= v1.y <= v2.y,
        v0.y < v2.y,
        y <= pixel_of(v2.y as int),
    ensures
        v0.y == v1.y ==> scan_span(v0, v1, v2, y) == scan_span(v1, v0, v2, y),
        v1.y == v2.y ==> scan_span(v0, v1, v2, y) == scan_span(v0, v2, v1, y),
{
}

/// The fill of a triangle does not depend on the order in which its
/// vertices are given.
pub proof fn lemma_fill_ignores_vertex_order(p0: Vec2, p1: Vec2, p2: Vec2)
    ensures
        filled_pixels(p1, p0, p2) == filled_pixels(p0, p1, p2),
        filled_pixels(p0, p2, p1) == filled_pixels(p0, p1, p2),
        filled_pixels(p2, p1, p0) == filled_pixels(p0, p1, p2),
        filled_pixels(p1, p2, p0) == filled_pixels(p0, p1, p2),
        filled_pixels(p2, p0, p1) == filled_pixels(p0, p1, p2),
{
    let (v0, v1, v2) = sort_by_y(p0, p1, p2);
    lemma_sort_by_y(p0, p1, p2);
    if v0.y < v2.y {
        assert forall|p: (int, int)|
            pixel_of(v0.y as int) <= p.1 <= pixel_of(v2.y as int) implies {
            &&& v0.y == v1.y ==> scan_span(v0, v1, v2, p.1) == scan_span(v1, v0, v2, p.1)
            &&& v1.y == v2.y ==> scan_span(v0, v1, v2, p.1) == scan_span(v0, v2, v1, p.1)
        } by {
            lemma_span_of_tied_vertices(v0, v1, v2, p.1);
        }
    }
    assert(filled_pixels(p1, p0, p2) =~= filled_pixels(p0, p1, p2));
    assert(filled_pixels(p0, p2, p1) =~= filled_pixels(p0, p1, p2));
    assert(filled_pixels(p2, p1, p0) =~= filled_pixels(p0, p1, p2));
    assert(filled_pixels(p1, p2, p0) =~= filled_pixels(p0, p1, p2));
    assert(filled_pixels(p2, p0, p1) =~= filled_pixels(p0, p1, p2));
}

/// Length of each of an arrow's two barbs: 4 pixels.
pub const BARB_LENGTH: i64 = 4 * 65536;

/// Cosine of the angle between the shaft and a barb, 0.6 radians.
pub const BARB_COS: i32 = 54089;

/// Sine of the angle between the shaft and a barb, 0.6 radians.
pub const BARB_SIN: i32 = 37004;

/// Half the length of an arrow's shaft.
pub open spec fn half_length(len: i64) -> i64 {
    trunc_div(len as int, 2) as i64
}

/// Where the shaft of an arrow begins: half its length behind `pos`.
pub open spec fn shaft_tail(pos: Vec2, dir: Vec2, len: i64) -> Vec2 {
    pos.sub_spec(dir.scale_spec(half_length(len)))
}

/// Where the shaft of an arrow ends: half its length ahead of `pos`.
pub open spec fn shaft_tip(pos: Vec2, dir: Vec2, len: i64) -> Vec2 {
    pos.add_spec(dir.scale_spec(half_length(len)))
}

/// The far end of the barb that leaves the tip backward, turned away from
/// the shaft counter-clockwise.
pub open spec fn barb_end_left(tip: Vec2, dir: Vec2) -> Vec2 {
    tip.sub_spec(dir.rotate_spec(BARB_COS, BARB_SIN).scale_spec(BARB_LENGTH))
}

/// The far end of the barb turned away from the shaft clockwise.
pub open spec fn barb_end_right(tip: Vec2, dir: Vec2) -> Vec2 {
    tip.sub_spec(dir.rotate_spec(BARB_COS, (-BARB_SIN) as i32).scale_spec(BARB_LENGTH))
}

/// The pixels of an arrow centered on `pos` that points along the unit
/// vector `dir`: a shaft of length `len` and two barbs at its tip.
pub open spec fn arrow_pixels(pos: Vec2, dir: Vec2, len: i64) -> Set<(int, int)> {
    let tail = shaft_tail(pos, dir, len);
    let tip = shaft_tip(pos, dir, len);
    segment_pixels(tail, tip).union(segment_pixels(tip, barb_end_left(tip, dir))).union(
        segment_pixels(tip, barb_end_right(tip, dir)),
    )
}

} // verus!
