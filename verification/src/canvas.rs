//! Mathematical model of a pixel surface.

use vstd::prelude::*;

verus! {

/// A row-major grid of colors, as contracts see a drawing surface.
pub struct Canvas {
    pub width: nat,
    pub height: nat,
    pub pixels: Seq<u32>,
}

impl Canvas {
    /// The grid holds exactly `width * height` cells and every cell has `i32`
    /// coordinates.
    pub open spec fn wf(self) -> bool {
        &&& self.width <= i32::MAX
        &&& self.height <= i32::MAX
        &&& self.pixels.len() == self.width * self.height
    }

    pub open spec fn in_bounds(self, x: int, y: int) -> bool {
        0 <= x < self.width && 0 <= y < self.height
    }

    /// Position of cell `(x, y)` in `pixels`.
    pub open spec fn index_of(self, x: int, y: int) -> int {
        y * self.width + x
    }

    /// Color of cell `(x, y)`.
    pub open spec fn pixel(self, x: int, y: int) -> u32 {
        self.pixels[self.index_of(x, y)]
    }

    /// The coordinates of the cell stored at position `i` of `pixels`.
    pub open spec fn cell_of(self, i: int) -> (int, int) {
        (i % (self.width as int), i / (self.width as int))
    }

    /// Every cell set to `color`.
    pub open spec fn fill(self, color: u32) -> Canvas {
        Canvas {
            width: self.width,
            height: self.height,
            pixels: Seq::new(self.pixels.len(), |i: int| color),
        }
    }

    /// The cells of `shape` that lie on the grid set to `color`, all others
    /// kept. Members of `shape` outside the grid have no effect.
    pub open spec fn paint(self, shape: Set<(int, int)>, color: u32) -> Canvas {
        Canvas {
            width: self.width,
            height: self.height,
            pixels: Seq::new(
                self.pixels.len(),
                |i: int|
                    if shape.contains(self.cell_of(i)) {
                        color
                    } else {
                        self.pixels[i]
                    },
            ),
        }
    }

    /// One cell set to `color` if it lies on the grid; the grid unchanged
    /// otherwise.
    pub open spec fn plot(self, x: int, y: int, color: u32) -> Canvas {
        if self.in_bounds(x, y) {
            Canvas {
                width: self.width,
                height: self.height,
                pixels: self.pixels.update(self.index_of(x, y), color),
            }
        } else {
            self
        }
    }
}

/// On a well-formed grid, `index_of` and `cell_of` are inverse to each other.
pub proof fn lemma_cell_index(c: Canvas, x: int, y: int)
    requires
        c.wf(),
        c.in_bounds(x, y),
    ensures
        0 <= y * c.width <= c.index_of(x, y) < c.pixels.len(),
        c.cell_of(c.index_of(x, y)) == (x, y),
{
    let w = c.width as int;
    let h = c.height as int;
    assert(0 <= y * w && y * w + x < w * h) by (nonlinear_arith)
        requires
            0 <= x < w,
            0 <= y < h,
    ;
    vstd::arithmetic::div_mod::lemma_fundamental_div_mod_converse(y * w + x, w, y, x);
}

/// Every position of a well-formed grid belongs to exactly one cell on it.
pub proof fn lemma_index_cell(c: Canvas, i: int)
    requires
        c.wf(),
        0 <= i < c.pixels.len(),
    ensures
        c.in_bounds(c.cell_of(i).0, c.cell_of(i).1),
        c.index_of(c.cell_of(i).0, c.cell_of(i).1) == i,
{
    let w = c.width as int;
    let h = c.height as int;
    assert(w > 0) by (nonlinear_arith)
        requires
            0 <= i < w * h,
            w >= 0,
    ;
    vstd::arithmetic::div_mod::lemma_fundamental_div_mod(i, w);
    vstd::arithmetic::div_mod::lemma_mod_bound(i, w);
    let q = i / w;
    let r = i % w;
    assert(0 <= q < h) by (nonlinear_arith)
        requires
            i == w * q + r,
            0 <= r < w,
            0 <= i < w * h,
    ;
    assert(q * w + r == i) by (nonlinear_arith)
        requires
            i == w * q + r,
    ;
}

/// Plotting one cell is painting the shape that holds that cell alone.
pub proof fn lemma_plot_is_paint(c: Canvas, x: int, y: int, color: u32)
    requires
        c.wf(),
    ensures
        c.plot(x, y, color) == c.paint(set![(x, y)], color),
{
    let p = c.paint(set![(x, y)], color);
    let q = c.plot(x, y, color);
    if c.in_bounds(x, y) {
        lemma_cell_index(c, x, y);
    }
    assert forall|i: int| 0 <= i < p.pixels.len() implies q.pixels[i] == p.pixels[i] by {
        lemma_index_cell(c, i);
    }
    assert(q.pixels =~= p.pixels);
}

/// Painting nothing changes nothing.
pub proof fn lemma_paint_empty(c: Canvas, color: u32)
    ensures
        c.paint(Set::empty(), color) == c,
{
    assert(c.paint(Set::empty(), color).pixels =~= c.pixels);
}

/// Painting two shapes in one color, one after the other, paints their union.
pub proof fn lemma_paint_union(c: Canvas, a: Set<(int, int)>, b: Set<(int, int)>, color: u32)
    ensures
        c.paint(a, color).paint(b, color) == c.paint(a.union(b), color),
{
    assert(c.paint(a, color).paint(b, color).pixels =~= c.paint(a.union(b), color).pixels);
}

/// What a painted cell holds: the new color inside the shape, the old one
/// outside it.
pub proof fn lemma_paint_pixel(c: Canvas, shape: Set<(int, int)>, color: u32, x: int, y: int)
    requires
        c.wf(),
        c.in_bounds(x, y),
    ensures
        c.paint(shape, color).pixel(x, y) == if shape.contains((x, y)) {
            color
        } else {
            c.pixel(x, y)
        },
{
    lemma_cell_index(c, x, y);
}

/// Painting and filling keep a grid well formed.
pub proof fn lemma_paint_wf(c: Canvas, shape: Set<(int, int)>, color: u32)
    requires
        c.wf(),
    ensures
        c.paint(shape, color).wf(),
        c.fill(color).wf(),
{
}

} // verus!
