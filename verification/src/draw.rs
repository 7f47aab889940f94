//! Drawing primitives for any surface that exposes its pixel storage.

use crate::canvas::{
    lemma_cell_index, lemma_paint_empty, lemma_paint_union, lemma_plot_is_paint, Canvas,
};
use crate::fixed::{from_pixel, lemma_pixel_of_monotonic, lerp_pixel, pixel_of, to_pixel};
use crate::projection::{project, project_point, CULL_MARGIN};
use crate::shapes::{
    abs, arrow_pixels, filled_rows, lemma_flat_triangle_empty, lemma_line_ends,
    lemma_line_prefix_step, lemma_minor_position, lemma_segment_height_positive,
    lemma_segment_single_pixel, lemma_sort_by_y, line_pixel, line_pixels, line_prefix, line_steps,
    row_pixels, scan_span, segment_pixels, step_sign, triangle_pixels, BARB_COS, BARB_LENGTH,
    BARB_SIN,
};
use crate::vec2::Vec2;
use vstd::prelude::*;

verus! {

/// A pixel surface. An implementor provides its dimensions and access to its
/// row-major storage; every drawing primitive comes with the trait and
/// writes through [`Drawing::draw_pixel`], the one place where coordinates
/// are checked against the surface's bounds.
///
/// The view of a surface is its [`Canvas`]. The primitives expect a
/// well-formed one, whose storage holds one cell for each pixel, and leave
/// it well formed.
pub trait Drawing: View<V = Canvas> {
    /// Number of columns.
    fn width(&self) -> (w: usize)
        ensures
            w == self@.width,
    ;

    /// Number of rows.
    fn height(&self) -> (h: usize)
        ensures
            h == self@.height,
    ;

    /// The storage, open for writing. The dimensions stay as they are.
    fn buffer_mut(&mut self) -> (b: &mut [u32])
        ensures
            b@ == old(self)@.pixels,
            final(self)@.width == old(self)@.width,
            final(self)@.height == old(self)@.height,
            final(self)@.pixels == final(b)@,
    ;

    /// The storage, row by row.
    fn buffer(&self) -> (b: &[u32])
        ensures
            b@ == self@.pixels,
    ;

    /// The position on the surface of what lies at `world_pos` when the
    /// camera looks at `camera_pos`, or nothing if that is more than 100
    /// pixels outside the surface: such a thing is not to be drawn.
    fn world_to_screen(&self, world_pos: Vec2, camera_pos: Vec2) -> (r: Option<Vec2>)
        requires
            self@.wf(),
        ensures
            r == project(world_pos, camera_pos, self@.width, self@.height),
    {
        project_point(world_pos, camera_pos, self.width(), self.height(), CULL_MARGIN)
    }

    /// Overwrites every cell with `color`.
    fn clear(&mut self, color: u32)
        ensures
            final(self)@ == old(self)@.fill(color),
            old(self)@.wf() ==> final(self)@.wf(),
    {
        let buf = self.buffer_mut();
        let n = buf.len();
        let mut i: usize = 0;
        while i < n
            invariant
                i <= n,
                n == buf@.len(),
                forall|j: int| 0 <= j < i ==> buf@[j] == color,
            decreases n - i,
        {
            buf[i] = color;
            i += 1;
        }
        assert(buf@ =~= Seq::new(n as nat, |j: int| color));
    }

    /// Writes one cell. Coordinates outside the surface are ignored.
    fn draw_pixel(&mut self, x: i32, y: i32, color: u32)
        requires
            old(self)@.wf(),
        ensures
            final(self)@.wf(),
            final(self)@ == old(self)@.plot(x as int, y as int, color),
            final(self)@ == old(self)@.paint(set![(x as int, y as int)], color),
            !old(self)@.in_bounds(x as int, y as int) ==> final(self)@ == old(self)@,
    {
        let w = self.width();
        let h = self.height();
        proof {
            lemma_plot_is_paint(self@, x as int, y as int, color);
        }
        if x >= 0 && y >= 0 && (x as usize) < w && (y as usize) < h {
            proof {
                lemma_cell_index(self@, x as int, y as int);
            }
            let buf = self.buffer_mut();
            // The cell lies in the storage, whose length a `usize` holds.
            assert(x + y * w < buf.len());
            let idx = y as usize * w + x as usize;
            buf[idx] = color;
        }
    }

    /// Draws the segment from `start` to `end`. Both positions are cut down to
    /// the pixels they fall on; the pixels between them are chosen with
    /// integer error accumulation alone, and each goes through `draw_pixel`.
    fn draw_line(&mut self, start: Vec2, end: Vec2, color: u32)
        requires
            old(self)@.wf(),
        ensures
            final(self)@.wf(),
            final(self)@ == old(self)@.paint(segment_pixels(start, end), color),
            start.pixel() == end.pixel() ==> final(self)@ == old(self)@.plot(
                start.pixel().0,
                start.pixel().1,
                color,
            ),
    {
        proof {
            if start.pixel() == end.pixel() {
                lemma_segment_single_pixel(start, end);
                lemma_plot_is_paint(old(self)@, start.pixel().0, start.pixel().1, color);
            }
        }
        let (px0, py0) = start.to_pixels();
        let (px1, py1) = end.to_pixels();
        let mut x0: i64 = px0 as i64;
        let mut y0: i64 = py0 as i64;
        let x1: i64 = px1 as i64;
        let y1: i64 = py1 as i64;
        let dx: i64 = if x1 >= x0 { x1 - x0 } else { x0 - x1 };
        let dy: i64 = if y1 >= y0 { y1 - y0 } else { y0 - y1 };
        let sx: i64 = if x0 < x1 { 1 } else { -1 };
        let sy: i64 = if y0 < y1 { 1 } else { -1 };
        let mut err: i64 = dx - dy;

        // The proof follows the loop with the number `k` of steps taken, the
        // numbers `i` and `j` of steps along x and along y, and the products
        // `i * dy` and `j * dx` that the error term is made of. Along its
        // longer axis the line advances with every step; the bounds on the
        // two products say that along the shorter one it keeps within half
        // a pixel of the ideal line.
        let ghost before = self@;
        let ghost a = start.pixel();
        let ghost b = end.pixel();
        let ghost n = line_steps(a, b);
        let ghost mut k: int = 0;
        let ghost mut i: int = 0;
        let ghost mut j: int = 0;
        let ghost mut i_dy: int = 0;
        let ghost mut j_dx: int = 0;
        proof {
            lemma_line_prefix_step(a, b, 0);
            lemma_paint_empty(before, color);
            assert(0 * dy == 0 && 0 * dx == 0);
        }
        loop
            invariant_except_break
                0 <= k <= n,
                self@ == before.paint(line_prefix(a, b, k), color),
            invariant
                before.wf(),
                self@.wf(),
                i32::MIN <= a.0 <= i32::MAX,
                i32::MIN <= a.1 <= i32::MAX,
                i32::MIN <= b.0 <= i32::MAX,
                i32::MIN <= b.1 <= i32::MAX,
                b == (x1 as int, y1 as int),
                dx == abs(b.0 - a.0),
                dy == abs(b.1 - a.1),
                sx == step_sign(a.0, b.0),
                sy == step_sign(a.1, b.1),
                n == line_steps(a, b),
                0 <= i <= dx,
                0 <= j <= dy,
                x0 == (if sx == 1 { a.0 + i } else { a.0 - i }),
                y0 == (if sy == 1 { a.1 + j } else { a.1 - j }),
                i_dy == i * dy,
                j_dx == j * dx,
                err == dx - dy - i_dy + j_dx,
                dx >= dy ==> i == k,
                dx >= dy && dx > 0 ==> 2 * j_dx - dx < 2 * i_dy <= 2 * j_dx + dx,
                dx == dy ==> i == j,
                dx < dy ==> j == k,
                dx < dy ==> 2 * i_dy - dy < 2 * j_dx <= 2 * i_dy + dy,
            ensures
                self@ == before.paint(line_pixels(a, b), color),
            decreases n - k,
        {
            proof {
                if dx >= dy {
                    if dx > 0 {
                        lemma_minor_position(dx as int, dy as int, k, j, i_dy, j_dx);
                    }
                } else {
                    lemma_minor_position(dy as int, dx as int, k, i, j_dx, i_dy);
                }
                assert(sx * i == (if sx == 1 { i } else { -i }) && sy * j == (if sy == 1 { j } else {
                    -j
                })) by (nonlinear_arith)
                    requires
                        sx == 1 || sx == -1,
                        sy == 1 || sy == -1,
                ;
                assert((x0 as int, y0 as int) == line_pixel(a, b, k));
                lemma_line_prefix_step(a, b, k);
                lemma_paint_union(before, line_prefix(a, b, k), set![line_pixel(a, b, k)], color);
                assert(line_prefix(a, b, k).union(set![line_pixel(a, b, k)]) =~= line_prefix(
                    a,
                    b,
                    k + 1,
                ));
                lemma_line_ends(a, b);
            }
            self.draw_pixel(x0 as i32, y0 as i32, color);
            // The line arrives with its last step and not before.
            assert((x0 == x1 && y0 == y1) <==> k == n);
            if x0 == x1 && y0 == y1 {
                break;
            }
            let e2: i64 = 2 * err;
            if e2 > -dy {
                err -= dy;
                x0 += sx;
                proof {
                    assert((i + 1) * dy == i_dy + dy) by (nonlinear_arith)
                        requires
                            i_dy == i * dy,
                    ;
                    i = i + 1;
                    i_dy = i_dy + dy;
                }
            }
            if e2 < dx {
                err += dx;
                y0 += sy;
                proof {
                    assert((j + 1) * dx == j_dx + dx) by (nonlinear_arith)
                        requires
                            j_dx == j * dx,
                    ;
                    j = j + 1;
                    j_dx = j_dx + dx;
                }
            }
            proof {
                k = k + 1;
                if dx >= dy {
                    lemma_minor_position(dx as int, dy as int, k, j, i_dy, j_dx);
                } else {
                    lemma_minor_position(dy as int, dx as int, k, i, j_dx, i_dy);
                }
            }
        }
    }

    /// Draws an arrow centered on `pos` that points along the unit vector
    /// `dir`: a shaft of length `len`, and from its tip two barbs of 4 pixels,
    /// each turned 0.6 radians away from the shaft and drawn backward. An
    /// arrow of length zero is a single pixel with its two barbs.
    fn draw_arrow_centered(&mut self, pos: Vec2, dir: Vec2, len: i64, col: u32)
        requires
            old(self)@.wf(),
        ensures
            final(self)@.wf(),
            final(self)@ == old(self)@.paint(arrow_pixels(pos, dir, len), col),
    {
        let ghost before = self@;
        let h = len / 2;
        let reach = dir.scale(h);
        let s = pos.sub(reach);
        let e = pos.add(reach);
        self.draw_line(s, e, col);

        let p1 = e.sub(dir.rotate(BARB_COS, BARB_SIN).scale(BARB_LENGTH));
        let p2 = e.sub(dir.rotate(BARB_COS, -BARB_SIN).scale(BARB_LENGTH));
        self.draw_line(e, p1, col);
        self.draw_line(e, p2, col);
        proof {
            lemma_paint_union(before, segment_pixels(s, e), segment_pixels(e, p1), col);
            lemma_paint_union(
                before,
                segment_pixels(s, e).union(segment_pixels(e, p1)),
                segment_pixels(e, p2),
                col,
            );
        }
    }

    /// Draws a triangle: its outline, or, if `filled`, every scanline between
    /// its highest and lowest vertex from one edge to the other.
    fn draw_triangle(&mut self, p0: Vec2, p1: Vec2, p2: Vec2, color: u32, filled: bool)
        requires
            old(self)@.wf(),
        ensures
            final(self)@.wf(),
            final(self)@ == old(self)@.paint(triangle_pixels(p0, p1, p2, filled), color),
            filled && p0.y == p1.y && p1.y == p2.y ==> final(self)@ == old(self)@,
    {
        let ghost before = self@;
        proof {
            if filled && p0.y == p1.y && p1.y == p2.y {
                lemma_flat_triangle_empty(p0, p1, p2);
                lemma_paint_empty(before, color);
            }
        }
        if !filled {
            self.draw_line(p0, p1, color);
            self.draw_line(p1, p2, color);
            self.draw_line(p2, p0, color);
            proof {
                lemma_paint_union(before, segment_pixels(p0, p1), segment_pixels(p1, p2), color);
                lemma_paint_union(
                    before,
                    segment_pixels(p0, p1).union(segment_pixels(p1, p2)),
                    segment_pixels(p2, p0),
                    color,
                );
            }
            return;
        }
        let (a, b) = if p1.y < p0.y { (p1, p0) } else { (p0, p1) };
        let (v0, v1, v2) = if p2.y < a.y {
            (p2, a, b)
        } else if p2.y < b.y {
            (a, p2, b)
        } else {
            (a, b, p2)
        };
        proof {
            lemma_sort_by_y(p0, p1, p2);
            lemma_paint_empty(before, color);
        }
        let total_height: i128 = v2.y as i128 - v0.y as i128;
        if total_height == 0 {
            return;
        }
        let first = to_pixel(v0.y);
        let middle = to_pixel(v1.y);
        let last = to_pixel(v2.y);
        let mut y: i64 = first as i64;
        proof {
            lemma_pixel_of_monotonic(v0.y as int, v2.y as int);
            assert(filled_rows(v0, v1, v2, y as int) =~= Set::<(int, int)>::empty());
        }
        while y <= last as i64
            invariant
                before.wf(),
                self@.wf(),
                v0.y <= v1.y <= v2.y,
                total_height == v2.y - v0.y,
                total_height > 0,
                first == pixel_of(v0.y as int),
                middle == pixel_of(v1.y as int),
                last == pixel_of(v2.y as int),
                first <= y <= last + 1,
                self@ == before.paint(filled_rows(v0, v1, v2, y as int), color),
            decreases last + 1 - y,
        {
            let second_half = y > middle as i64 || v1.y == v0.y;
            proof {
                lemma_segment_height_positive(v0, v1, v2, y as int);
            }
            let row: i128 = from_pixel(y as i32) as i128;
            let along: i128 = row - v0.y as i128;
            let x_a = lerp_pixel(v0.x, v2.x, along, total_height);
            let x_b = if second_half {
                lerp_pixel(
                    v1.x,
                    v2.x,
                    row - v1.y as i128,
                    v2.y as i128 - v1.y as i128,
                )
            } else {
                lerp_pixel(v0.x, v1.x, along, v1.y as i128 - v0.y as i128)
            };
            let (lo, hi) = if x_a <= x_b { (x_a, x_b) } else { (x_b, x_a) };
            assert((lo as int, hi as int) == scan_span(v0, v1, v2, y as int));
            let ghost rows = filled_rows(v0, v1, v2, y as int);
            let mut x: i64 = lo as i64;
            proof {
                assert(rows.union(row_pixels(y as int, lo as int, x as int)) =~= rows);
            }
            while x <= hi as i64
                invariant
                    before.wf(),
                    self@.wf(),
                    i32::MIN <= y <= i32::MAX,
                    lo <= x <= hi + 1,
                    self@ == before.paint(
                        rows.union(row_pixels(y as int, lo as int, x as int)),
                        color,
                    ),
                decreases hi + 1 - x,
            {
                proof {
                    lemma_paint_union(
                        before,
                        rows.union(row_pixels(y as int, lo as int, x as int)),
                        set![(x as int, y as int)],
                        color,
                    );
                    assert(rows.union(row_pixels(y as int, lo as int, x as int)).union(
                        set![(x as int, y as int)],
                    ) =~= rows.union(row_pixels(y as int, lo as int, x + 1)));
                }
                self.draw_pixel(x as i32, y as i32, color);
                x += 1;
            }
            proof {
                assert(rows.union(row_pixels(y as int, lo as int, x as int)) =~= filled_rows(
                    v0,
                    v1,
                    v2,
                    y + 1,
                ));
            }
            y += 1;
        }
    }
}

} // verus!
