//! The grid of crop labels and its adjacency primitives.
//!
//! A `Crop` is a dense rectangle of small unsigned labels: 0 marks an empty
//! cell, a value in `1..=num_croptypes` an active cell of that type. All
//! queries are bounds-checked; a neighbour that falls outside the rectangle
//! never counts as a match and never counts as active.

use vstd::prelude::*;

use crate::backing::a2d_clone;
use crate::backing::a2d_filled;
use crate::backing::a2d_get;
use crate::backing::a2d_num_columns;
use crate::backing::a2d_num_rows;
use crate::backing::a2d_set;
use crate::backing::grid_cells;
use crate::backing::grid_cols;
use crate::backing::grid_rows;

verus! {

/// Mathematical model of a grid: its two dimensions and the row-major
/// sequence of cell labels.
pub ghost struct GridView {
    pub width: nat,
    pub height: nat,
    pub cells: Seq<u8>,
}

impl GridView {
    /// The storage really is a dense width-by-height rectangle.
    pub open spec fn wf(self) -> bool {
        self.cells.len() == self.width * self.height
    }

    pub open spec fn in_bounds(self, x: int, y: int) -> bool {
        0 <= x < self.width && 0 <= y < self.height
    }

    /// The label at an in-bounds coordinate, row-major.
    pub open spec fn cell(self, x: int, y: int) -> u8 {
        self.cells[y * self.width + x]
    }

    /// An in-bounds coordinate holding a non-empty label.
    pub open spec fn is_active(self, x: int, y: int) -> bool {
        self.in_bounds(x, y) && self.cell(x, y) != 0
    }

    /// 1 if the coordinate is in bounds and holds exactly `label`, else 0.
    /// An out-of-bounds coordinate contributes nothing.
    pub open spec fn match_contrib(self, x: int, y: int, label: u8) -> nat {
        if self.in_bounds(x, y) && self.cell(x, y) == label {
            1
        } else {
            0
        }
    }

    /// 1 if the coordinate is in bounds and holds any active label, else 0.
    /// An out-of-bounds coordinate contributes nothing.
    pub open spec fn active_contrib(self, x: int, y: int) -> nat {
        if self.in_bounds(x, y) && self.cell(x, y) != 0 {
            1
        } else {
            0
        }
    }

    /// How many of the four orthogonal neighbours hold the same label as the
    /// queried cell.
    pub open spec fn crop_neighbour_count(self, x: int, y: int) -> nat {
        let label = self.cell(x, y);
        self.match_contrib(x - 1, y, label) + self.match_contrib(x + 1, y, label)
            + self.match_contrib(x, y - 1, label) + self.match_contrib(x, y + 1, label)
    }

    /// How many of the four diagonal neighbours hold the same label as the
    /// queried cell.
    pub open spec fn diagonal_neighbour_count(self, x: int, y: int) -> nat {
        let label = self.cell(x, y);
        self.match_contrib(x - 1, y - 1, label) + self.match_contrib(x - 1, y + 1, label)
            + self.match_contrib(x + 1, y - 1, label) + self.match_contrib(x + 1, y + 1, label)
    }

    /// How many of the eight surrounding cells are active, whatever their
    /// type.
    pub open spec fn farmland_neighbour_count(self, x: int, y: int) -> nat {
        self.active_contrib(x - 1, y) + self.active_contrib(x + 1, y)
            + self.active_contrib(x, y - 1) + self.active_contrib(x, y + 1)
            + self.active_contrib(x - 1, y - 1) + self.active_contrib(x - 1, y + 1)
            + self.active_contrib(x + 1, y - 1) + self.active_contrib(x + 1, y + 1)
    }

    /// The fixed stunting rule. Both checks sample the horizontal
    /// neighbours: the second axis reuses the same offsets by design of this
    /// engine version, so the predicate holds exactly when both horizontal
    /// neighbours share the queried cell's label.
    pub open spec fn axially_stunted(self, x: int, y: int) -> bool {
        let label = self.cell(x, y);
        let on_x = self.match_contrib(x - 1, y, label) + self.match_contrib(x + 1, y, label);
        let on_y = self.match_contrib(x - 1, y, label) + self.match_contrib(x + 1, y, label);
        on_x != 0 && on_y != 1
    }
}

impl GridView {
    /// The penalty one cell adds to the grid's score. An empty cell costs
    /// nothing. An active cell costs 32 when it is stunted or touches a
    /// same-type diagonal neighbour, plus one point for every active
    /// neighbour it lacks below the target of 8.
    pub open spec fn cell_penalty(self, x: int, y: int) -> int {
        if self.cell(x, y) == 0 {
            0
        } else {
            (if self.axially_stunted(x, y) || self.diagonal_neighbour_count(x, y) != 0 {
                -32int
            } else {
                0int
            }) + self.farmland_neighbour_count(x, y) - 8
        }
    }

    /// The summed penalties of the first `n` cells in row-major order.
    pub open spec fn penalty_upto(self, n: int) -> int
        decreases n,
    {
        if n <= 0 {
            0
        } else {
            self.penalty_upto(n - 1) + self.cell_penalty(
                (n - 1) % (self.width as int),
                (n - 1) / (self.width as int),
            )
        }
    }

    /// The grid's score: the sum of every cell's penalty. Never positive,
    /// and 0 exactly on grids with no active cell.
    pub open spec fn score(self) -> int {
        self.penalty_upto(self.cells.len() as int)
    }
}

/// Every cell's penalty lies in `[-40, 0]`: at worst the flat 32 plus a full
/// shortfall of 8 active neighbours.
pub proof fn lemma_cell_penalty_bounds(g: GridView, x: int, y: int)
    ensures
        -40 <= g.cell_penalty(x, y) <= 0,
{
}

/// A penalty prefix sum lies in `[-40 * n, 0]`.
pub proof fn lemma_penalty_upto_bounds(g: GridView, n: int)
    requires
        n >= 0,
    ensures
        -40 * n <= g.penalty_upto(n) <= 0,
    decreases n,
{
    if n > 0 {
        lemma_penalty_upto_bounds(g, n - 1);
        lemma_cell_penalty_bounds(g, (n - 1) % (g.width as int), (n - 1) / (g.width as int));
    }
}

/// On a grid whose every cell is empty, every penalty prefix sum is 0.
proof fn lemma_penalty_upto_zero_when_empty(g: GridView, n: int)
    requires
        g.wf(),
        0 <= n <= g.cells.len(),
        forall|i: int| 0 <= i < g.cells.len() ==> g.cells[i] == 0u8,
    ensures
        g.penalty_upto(n) == 0,
    decreases n,
{
    if n > 0 {
        lemma_penalty_upto_zero_when_empty(g, n - 1);
        let w = g.width as int;
        assert(w > 0) by {
            if g.width == 0 {
                assert(g.cells.len() == 0) by (nonlinear_arith)
                    requires
                        g.cells.len() == g.width * g.height,
                        g.width == 0,
                ;
            }
        }
        let x = (n - 1) % w;
        let y = (n - 1) / w;
        vstd::arithmetic::div_mod::lemma_fundamental_div_mod(n - 1, w);
        assert(y * w + x == n - 1);
        assert(g.cell(x, y) == g.cells[n - 1]);
    }
}

/// The score of a grid with no active cell is exactly 0.
pub proof fn lemma_score_zero_when_all_empty(g: GridView)
    requires
        g.wf(),
        forall|i: int| 0 <= i < g.cells.len() ==> g.cells[i] == 0u8,
    ensures
        g.score() == 0,
{
    lemma_penalty_upto_zero_when_empty(g, g.cells.len() as int);
}

/// The least index at or past `k` holding an active cell.
proof fn find_first_active(cells: Seq<u8>, k: int) -> (r: int)
    requires
        0 <= k <= cells.len(),
        exists|i: int| k <= i < cells.len() && cells[i] != 0u8,
    ensures
        k <= r < cells.len(),
        cells[r] != 0u8,
        forall|j: int| 0 <= j < r ==> j < k || cells[j] == 0u8,
    decreases cells.len() - k,
{
    let i = choose|i: int| k <= i < cells.len() && cells[i] != 0u8;
    if cells[k] != 0u8 {
        k
    } else {
        find_first_active(cells, k + 1)
    }
}

/// A penalty prefix sum over a range that includes one fixed cell is at most
/// that cell's penalty, since every other cell only subtracts.
proof fn lemma_penalty_upto_le_single(g: GridView, i0: int, n: int)
    requires
        0 <= i0 < n,
    ensures
        g.penalty_upto(n) <= g.cell_penalty(
            i0 % (g.width as int),
            i0 / (g.width as int),
        ),
    decreases n,
{
    let w = g.width as int;
    if n == i0 + 1 {
        lemma_penalty_upto_bounds(g, i0);
    } else {
        lemma_penalty_upto_le_single(g, i0, n - 1);
        lemma_cell_penalty_bounds(g, (n - 1) % w, (n - 1) / w);
    }
}

/// The score of a grid with at least one active cell is strictly negative:
/// the first active cell in row-major order has at most four in-bounds
/// neighbours that do not precede it, so it misses at least four of its
/// eight target neighbours. Together with the zero-score law this makes 0
/// the score of exactly the grids with no active cell.
pub proof fn lemma_score_negative_when_some_active(g: GridView)
    requires
        g.wf(),
        exists|i: int| 0 <= i < g.cells.len() && g.cells[i] != 0u8,
    ensures
        g.score() < 0,
{
    let w = g.width as int;
    let h = g.height as int;
    assert(w >= 1 && h >= 1) by (nonlinear_arith)
        requires
            g.cells.len() == g.width * g.height,
            g.cells.len() > 0,
            w == g.width as int,
            h == g.height as int,
    ;
    let i0 = find_first_active(g.cells, 0);
    let x0 = i0 % w;
    let y0 = i0 / w;
    vstd::arithmetic::div_mod::lemma_fundamental_div_mod(i0, w);
    vstd::arithmetic::div_mod::lemma_mod_bound(i0, w);
    vstd::arithmetic::div_mod::lemma_div_pos_is_pos(i0, w);
    assert(y0 * w + x0 == i0);
    assert(y0 < h) by (nonlinear_arith)
        requires
            y0 * w + x0 == i0,
            0 <= i0 < w * h,
            0 <= x0 < w,
            w >= 1,
            y0 >= 0,
    ;
    assert(g.cell(x0, y0) == g.cells[i0]);
    // The left neighbour and the whole row above precede the first active
    // cell in row-major order, so they are empty or out of bounds.
    assert(g.active_contrib(x0 - 1, y0) == 0) by {
        if g.in_bounds(x0 - 1, y0) {
            assert(y0 * w + (x0 - 1) == i0 - 1);
            assert(g.cells[i0 - 1] == 0u8);
        }
    }
    assert(g.active_contrib(x0, y0 - 1) == 0) by {
        if g.in_bounds(x0, y0 - 1) {
            assert((y0 - 1) * w + x0 == i0 - w) by (nonlinear_arith)
                requires
                    y0 * w + x0 == i0,
            ;
            assert(g.cells[i0 - w] == 0u8);
        }
    }
    assert(g.active_contrib(x0 - 1, y0 - 1) == 0) by {
        if g.in_bounds(x0 - 1, y0 - 1) {
            assert((y0 - 1) * w + (x0 - 1) == i0 - w - 1) by (nonlinear_arith)
                requires
                    y0 * w + x0 == i0,
            ;
            assert(g.cells[i0 - w - 1] == 0u8);
        }
    }
    assert(g.active_contrib(x0 + 1, y0 - 1) == 0) by {
        if g.in_bounds(x0 + 1, y0 - 1) {
            assert((y0 - 1) * w + (x0 + 1) == i0 - w + 1) by (nonlinear_arith)
                requires
                    y0 * w + x0 == i0,
            ;
            assert(x0 + 1 < w);
            assert(i0 - w + 1 < i0);
            assert(g.cells[i0 - w + 1] == 0u8);
        }
    }
    assert(g.farmland_neighbour_count(x0, y0) <= 4);
    assert(g.cell_penalty(x0, y0) <= -4);
    lemma_penalty_upto_le_single(g, i0, g.cells.len() as int);
}

/// The glyph a label renders to: `*` for an empty cell, the letters `a`
/// through `z` for the crop types 1 through 26.
pub open spec fn spec_glyph(label: u8) -> u8 {
    if label == 0 {
        42u8
    } else {
        (96 + label) as u8
    }
}

/// An out-of-bounds coordinate contributes 0 to every neighbour count: it is
/// never a same-type match and never an active neighbour.
pub proof fn lemma_out_of_bounds_contributes_zero(g: GridView, x: int, y: int, label: u8)
    requires
        !g.in_bounds(x, y),
    ensures
        g.match_contrib(x, y, label) == 0,
        g.active_contrib(x, y) == 0,
{
}

/// A dense rectangular grid of crop labels.
pub struct Crop {
    pub grid: array2d::Array2D<u8>,
}

impl View for Crop {
    type V = GridView;

    closed spec fn view(&self) -> GridView {
        GridView {
            width: grid_cols(self.grid),
            height: grid_rows(self.grid),
            cells: grid_cells(self.grid),
        }
    }
}

impl Clone for Crop {
    fn clone(&self) -> (r: Self)
        ensures
            r@ == self@,
    {
        Crop { grid: a2d_clone(&self.grid) }
    }
}

impl Crop {
    /// A width-by-height grid with every cell active with label 1.
    pub fn filled(width: usize, height: usize) -> (r: Self)
        requires
            width * height <= usize::MAX,
        ensures
            r@.wf(),
            r@.width == width,
            r@.height == height,
            forall|i: int| 0 <= i < r@.cells.len() ==> r@.cells[i] == 1u8,
    {
        let r = Crop { grid: a2d_filled(1, height, width) };
        proof {
            assert(r@.cells.len() == (height * width) as nat);
            assert(r@.wf()) by (nonlinear_arith)
                requires
                    r@.cells.len() == (height as nat) * (width as nat),
                    r@.width == width,
                    r@.height == height,
            ;
        }
        r
    }

    pub fn width(&self) -> (r: usize)
        ensures
            r as nat == self@.width,
    {
        a2d_num_columns(&self.grid)
    }

    pub fn height(&self) -> (r: usize)
        ensures
            r as nat == self@.height,
    {
        a2d_num_rows(&self.grid)
    }

    /// The label at an in-bounds coordinate, `(x, y)` with `x` the column.
    pub fn cell_at(&self, x: usize, y: usize) -> (r: u8)
        requires
            self@.wf(),
            self@.in_bounds(x as int, y as int),
        ensures
            r == self@.cell(x as int, y as int),
    {
        proof {
            lemma_row_major_index_in_range(self@, x as int, y as int);
        }
        a2d_get(&self.grid, y, x)
    }

    /// Overwrite the label at an in-bounds coordinate.
    pub fn set_cell(&mut self, x: usize, y: usize, label: u8)
        requires
            old(self)@.wf(),
            old(self)@.in_bounds(x as int, y as int),
        ensures
            final(self)@.wf(),
            final(self)@.width == old(self)@.width,
            final(self)@.height == old(self)@.height,
            final(self)@.cells == old(self)@.cells.update(
                y * old(self)@.width + x,
                label,
            ),
    {
        proof {
            lemma_row_major_index_in_range(self@, x as int, y as int);
        }
        a2d_set(&mut self.grid, y, x, label);
    }

    /// True exactly when the coordinate lies inside the rectangle.
    pub fn has_coord(&self, coord: (isize, isize)) -> (r: bool)
        ensures
            r == self@.in_bounds(coord.0 as int, coord.1 as int),
    {
        coord.0 >= 0 && coord.1 >= 0 && (coord.0 as usize) < self.width() && (coord.1 as usize)
            < self.height()
    }
}

impl Crop {
    /// 1 if `(x, y)` is in bounds and holds exactly `label`, else 0.
    fn match_at(&self, x: usize, y: usize, label: u8) -> (r: u8)
        requires
            self@.wf(),
        ensures
            r as nat == self@.match_contrib(x as int, y as int, label),
    {
        if x < self.width() && y < self.height() && self.cell_at(x, y) == label {
            1
        } else {
            0
        }
    }

    /// Count the orthogonal neighbours that share the queried cell's label.
    pub fn crop_neighbours(&self, xy: (isize, isize)) -> (r: u8)
        requires
            self@.wf(),
            self@.in_bounds(xy.0 as int, xy.1 as int),
        ensures
            r as nat == self@.crop_neighbour_count(xy.0 as int, xy.1 as int),
    {
        let x = xy.0 as usize;
        let y = xy.1 as usize;
        let label = self.cell_at(x, y);
        let left: u8 = if x == 0 {
            0
        } else {
            self.match_at(x - 1, y, label)
        };
        let right = self.match_at(x + 1, y, label);
        let up: u8 = if y == 0 {
            0
        } else {
            self.match_at(x, y - 1, label)
        };
        let down = self.match_at(x, y + 1, label);
        left + right + up + down
    }

    /// Count the diagonal neighbours that share the queried cell's label.
    pub fn diagonal_neighbours(&self, xy: (isize, isize)) -> (r: u8)
        requires
            self@.wf(),
            self@.in_bounds(xy.0 as int, xy.1 as int),
        ensures
            r as nat == self@.diagonal_neighbour_count(xy.0 as int, xy.1 as int),
    {
        let x = xy.0 as usize;
        let y = xy.1 as usize;
        let label = self.cell_at(x, y);
        let ul: u8 = if x == 0 || y == 0 {
            0
        } else {
            self.match_at(x - 1, y - 1, label)
        };
        let dl: u8 = if x == 0 {
            0
        } else {
            self.match_at(x - 1, y + 1, label)
        };
        let ur: u8 = if y == 0 {
            0
        } else {
            self.match_at(x + 1, y - 1, label)
        };
        let dr = self.match_at(x + 1, y + 1, label);
        ul + dl + ur + dr
    }

    /// 1 if the position is in bounds and active, else 0. The coordinates
    /// are wide enough to hold any neighbour of any `isize` query point.
    fn active_probe(&self, nx: i128, ny: i128) -> (r: u8)
        requires
            self@.wf(),
        ensures
            r as nat == self@.active_contrib(nx as int, ny as int),
    {
        if nx >= 0 && ny >= 0 && (nx as u128) < (self.width() as u128) && (ny as u128) < (
        self.height() as u128) {
            let ux = nx as usize;
            let uy = ny as usize;
            if self.cell_at(ux, uy) != 0 {
                1
            } else {
                0
            }
        } else {
            0
        }
    }

    /// Count the surrounding cells, orthogonal and diagonal, that are
    /// active, whatever their label. Total for every query coordinate: the
    /// queried cell itself is never read, and a surrounding position that
    /// falls outside the rectangle contributes 0.
    pub fn farmland_neighbours(&self, xy: (isize, isize)) -> (r: u8)
        requires
            self@.wf(),
        ensures
            r as nat == self@.farmland_neighbour_count(xy.0 as int, xy.1 as int),
    {
        let x = xy.0 as i128;
        let y = xy.1 as i128;
        let left = self.active_probe(x - 1, y);
        let right = self.active_probe(x + 1, y);
        let up = self.active_probe(x, y - 1);
        let down = self.active_probe(x, y + 1);
        let ul = self.active_probe(x - 1, y - 1);
        let dl = self.active_probe(x - 1, y + 1);
        let ur = self.active_probe(x + 1, y - 1);
        let dr = self.active_probe(x + 1, y + 1);
        left + right + up + down + ul + dl + ur + dr
    }

    /// The fixed stunting predicate; see `GridView::axially_stunted` for the
    /// rule and the deliberate reuse of the horizontal offsets on both axes.
    pub fn axially_stunted(&self, xy: (isize, isize)) -> (r: bool)
        requires
            self@.wf(),
            self@.in_bounds(xy.0 as int, xy.1 as int),
        ensures
            r == self@.axially_stunted(xy.0 as int, xy.1 as int),
    {
        let x = xy.0 as usize;
        let y = xy.1 as usize;
        let label = self.cell_at(x, y);
        let left: u8 = if x == 0 {
            0
        } else {
            self.match_at(x - 1, y, label)
        };
        let right = self.match_at(x + 1, y, label);
        let on_x = left + right;
        let on_y = on_x;
        on_x != 0 && on_y != 1
    }
}

/// A row-major index computed from an in-bounds coordinate is a valid index
/// into the cell sequence.
pub proof fn lemma_row_major_index_in_range(g: GridView, x: int, y: int)
    requires
        g.wf(),
        g.in_bounds(x, y),
    ensures
        0 <= y * g.width + x < g.cells.len(),
{
    assert(0 <= y * g.width + x < g.width * g.height) by (nonlinear_arith)
        requires
            0 <= x < g.width,
            0 <= y < g.height,
    ;
}

impl Crop {
    /// Render the grid one row per entry, empty cells as `*` and crop types
    /// 1 through 26 as the bytes `a` through `z`.
    pub fn render_rows(&self) -> (r: Vec<Vec<u8>>)
        requires
            self@.wf(),
            forall|i: int| 0 <= i < self@.cells.len() ==> self@.cells[i] <= 26u8,
        ensures
            r@.len() == self@.height,
            forall|y: int| 0 <= y < r@.len() ==> (#[trigger] r@[y])@.len() == self@.width,
            forall|y: int, x: int|
                0 <= y < r@.len() && 0 <= x < r@[y]@.len() ==> #[trigger] r@[y]@[x] == spec_glyph(
                    self@.cell(x, y),
                ),
    {
        let h = self.height();
        let w = self.width();
        let mut rows: Vec<Vec<u8>> = Vec::new();
        let mut y: usize = 0;
        while y < h
            invariant
                y <= h,
                h == self@.height,
                w == self@.width,
                self@.wf(),
                forall|i: int| 0 <= i < self@.cells.len() ==> self@.cells[i] <= 26u8,
                rows@.len() == y,
                forall|j: int| 0 <= j < y ==> (#[trigger] rows@[j])@.len() == self@.width,
                forall|j: int, x: int|
                    0 <= j < y && 0 <= x < rows@[j]@.len() ==> #[trigger] rows@[j]@[x]
                        == spec_glyph(self@.cell(x, j)),
            decreases h - y,
        {
            let mut row: Vec<u8> = Vec::new();
            let mut x: usize = 0;
            while x < w
                invariant
                    x <= w,
                    y < h,
                    h == self@.height,
                    w == self@.width,
                    self@.wf(),
                    forall|i: int| 0 <= i < self@.cells.len() ==> self@.cells[i] <= 26u8,
                    row@.len() == x,
                    forall|a: int| 0 <= a < x ==> row@[a] == spec_glyph(self@.cell(a, y as int)),
                decreases w - x,
            {
                let label = self.cell_at(x, y);
                proof {
                    lemma_row_major_index_in_range(self@, x as int, y as int);
                }
                let glyph: u8 = if label == 0 {
                    42
                } else {
                    96 + label
                };
                row.push(glyph);
                x += 1;
            }
            rows.push(row);
            y += 1;
        }
        rows
    }
}

/// An override that empties one cell.
#[derive(Clone, Copy, PartialEq, Eq)]
pub struct EmptyAt {
    pub xy: (usize, usize),
}

impl EmptyAt {
    /// Set the addressed cell to the empty label 0.
    pub fn apply(&self, crop: &mut Crop)
        requires
            old(crop)@.wf(),
            old(crop)@.in_bounds(self.xy.0 as int, self.xy.1 as int),
        ensures
            final(crop)@.wf(),
            final(crop)@.width == old(crop)@.width,
            final(crop)@.height == old(crop)@.height,
            final(crop)@.cells == old(crop)@.cells.update(
                self.xy.1 * old(crop)@.width + self.xy.0,
                0u8,
            ),
    {
        crop.set_cell(self.xy.0, self.xy.1, 0);
    }
}

/// An override that assigns one cell a crop type.
#[derive(Clone, Copy, PartialEq, Eq)]
pub struct SetCrop {
    pub xy: (usize, usize),
    pub croptype: u8,
}

impl SetCrop {
    /// Set the addressed cell to the carried label.
    pub fn apply(&self, crop: &mut Crop)
        requires
            old(crop)@.wf(),
            old(crop)@.in_bounds(self.xy.0 as int, self.xy.1 as int),
        ensures
            final(crop)@.wf(),
            final(crop)@.width == old(crop)@.width,
            final(crop)@.height == old(crop)@.height,
            final(crop)@.cells == old(crop)@.cells.update(
                self.xy.1 * old(crop)@.width + self.xy.0,
                self.croptype,
            ),
    {
        crop.set_cell(self.xy.0, self.xy.1, self.croptype);
    }
}

/// The closed vocabulary of builder directives.
#[derive(Clone, Copy, PartialEq, Eq)]
pub enum CropChange {
    Clear(EmptyAt),
    Assign(SetCrop),
}

/// What one directive does to a row-major cell sequence.
pub open spec fn spec_apply_change(cells: Seq<u8>, width: nat, change: CropChange) -> Seq<u8> {
    match change {
        CropChange::Clear(e) => cells.update(e.xy.1 * width + e.xy.0, 0u8),
        CropChange::Assign(s) => cells.update(s.xy.1 * width + s.xy.0, s.croptype),
    }
}

/// The coordinate a directive addresses.
pub open spec fn spec_change_xy(change: CropChange) -> (usize, usize) {
    match change {
        CropChange::Clear(e) => e.xy,
        CropChange::Assign(s) => s.xy,
    }
}

/// Fold a directive list, in order, over a cell sequence.
pub open spec fn spec_apply_changes(cells: Seq<u8>, width: nat, changes: Seq<CropChange>) -> Seq<u8>
    decreases changes.len(),
{
    if changes.len() == 0 {
        cells
    } else {
        spec_apply_change(
            spec_apply_changes(cells, width, changes.drop_last()),
            width,
            changes.last(),
        )
    }
}

/// Mathematical model of a builder: the dimensions and the ordered
/// directives it will apply.
pub ghost struct BuilderView {
    pub width: nat,
    pub height: nat,
    pub changes: Seq<CropChange>,
}

/// An explicit configuration for a grid: a list of cell overrides consumed
/// once to produce a `Crop` whose cells default to label 1.
pub struct CropBuilder {
    width: usize,
    height: usize,
    changes: Vec<CropChange>,
}

impl View for CropBuilder {
    type V = BuilderView;

    closed spec fn view(&self) -> BuilderView {
        BuilderView { width: self.width as nat, height: self.height as nat, changes: self.changes@ }
    }
}

impl Crop {
    /// Start a builder for a width-by-height grid.
    pub fn builder(width: usize, height: usize) -> (r: CropBuilder)
        ensures
            r@.width == width,
            r@.height == height,
            r@.changes.len() == 0,
    {
        CropBuilder { width, height, changes: Vec::new() }
    }
}

impl CropBuilder {
    /// Record that one cell is to be emptied.
    pub fn empty(self, xy: (usize, usize)) -> (r: Self)
        ensures
            r@.width == self@.width,
            r@.height == self@.height,
            r@.changes == self@.changes.push(CropChange::Clear(EmptyAt { xy })),
    {
        let mut s = self;
        s.changes.push(CropChange::Clear(EmptyAt { xy }));
        s
    }

    /// Record that one cell is to be given a crop type.
    pub fn set(self, xy: (usize, usize), croptype: u8) -> (r: Self)
        ensures
            r@.width == self@.width,
            r@.height == self@.height,
            r@.changes == self@.changes.push(CropChange::Assign(SetCrop { xy, croptype })),
    {
        let mut s = self;
        s.changes.push(CropChange::Assign(SetCrop { xy, croptype }));
        s
    }

    /// Build the grid: every cell starts at label 1, then the recorded
    /// directives apply in order.
    pub fn build(&self) -> (r: Crop)
        requires
            self@.width * self@.height <= usize::MAX,
            forall|i: int|
                0 <= i < self@.changes.len() ==> {
                    let xy = spec_change_xy(#[trigger] self@.changes[i]);
                    xy.0 < self@.width && xy.1 < self@.height
                },
        ensures
            r@.wf(),
            r@.width == self@.width,
            r@.height == self@.height,
            r@.cells == spec_apply_changes(
                Seq::new((self@.width * self@.height) as nat, |i: int| 1u8),
                self@.width,
                self@.changes,
            ),
    {
        let mut crop = Crop::filled(self.width, self.height);
        let ghost base_cells = crop@.cells;
        proof {
            assert(base_cells =~= Seq::new((self@.width * self@.height) as nat, |i: int| 1u8));
        }
        let n = self.changes.len();
        let mut i: usize = 0;
        while i < n
            invariant
                n == self@.changes.len(),
                i <= n,
                crop@.wf(),
                crop@.width == self@.width,
                crop@.height == self@.height,
                crop@.cells == spec_apply_changes(base_cells, self@.width, self@.changes.take(
                    i as int,
                )),
                forall|j: int|
                    0 <= j < self@.changes.len() ==> {
                        let xy = spec_change_xy(#[trigger] self@.changes[j]);
                        xy.0 < self@.width && xy.1 < self@.height
                    },
            decreases n - i,
        {
            let change = self.changes[i];
            match change {
                CropChange::Clear(e) => e.apply(&mut crop),
                CropChange::Assign(s) => s.apply(&mut crop),
            }
            proof {
                let pre = self@.changes.take(i as int);
                let post = self@.changes.take(i + 1);
                assert(post.drop_last() =~= pre);
                assert(post.last() == self@.changes[i as int]);
            }
            i += 1;
        }
        proof {
            assert(self@.changes.take(n as int) =~= self@.changes);
        }
        crop
    }
}

} // verus!
