//! The grid state and its operations.

use crate::bitset::block_bit;
use crate::bitset::fbs_as_slice;
use crate::bitset::fbs_bits;
use crate::bitset::fbs_clear;
use crate::bitset::fbs_clone;
use crate::bitset::fbs_contains;
use crate::bitset::fbs_set;
use crate::bitset::fbs_toggle;
use crate::bitset::fbs_with_capacity;
use crate::bitset::fbs_with_capacity_and_blocks;
use vstd::arithmetic::div_mod::lemma_fundamental_div_mod;
use vstd::arithmetic::div_mod::lemma_fundamental_div_mod_converse;
use vstd::arithmetic::div_mod::lemma_mod_add_multiples_vanish;
use vstd::arithmetic::div_mod::lemma_mod_division_less_than_divisor;
use vstd::arithmetic::div_mod::lemma_mod_multiples_vanish;
use vstd::arithmetic::div_mod::lemma_small_mod;
use vstd::prelude::*;

verus! {

/// The linear index of cell `(row, col)` in a row-major grid of the given
/// width.
pub open spec fn cell_index(width: nat, row: nat, col: nat) -> nat {
    row * width + col
}

/// The coordinate congruent to `i` modulo `m` that lies in `[0, m)`: the
/// toroidal wrap of `i` on an axis of extent `m`.
pub open spec fn torus(i: int, m: int) -> int {
    ((i % m) + m) % m
}

/// 1 for a live cell, 0 for a dead one.
pub open spec fn b2i(b: bool) -> int {
    if b {
        1
    } else {
        0
    }
}

/// Whether the cell at `(row, col)` is alive in a row-major grid of the
/// given width.
pub open spec fn live_at(grid: Seq<bool>, w: nat, row: int, col: int) -> bool {
    grid[row * w + col]
}

/// Whether the toroidal neighbor of `(row, col)` at offset `(dr, dc)` is
/// alive: both coordinates wrap modulo the grid extents.
pub open spec fn neighbor_live(
    grid: Seq<bool>,
    w: nat,
    h: nat,
    row: int,
    col: int,
    dr: int,
    dc: int,
) -> bool {
    live_at(grid, w, torus(row + dr, h as int), torus(col + dc, w as int))
}

/// The number of live cells among the eight toroidal neighbors of
/// `(row, col)`: every offset in `{-1, 0, 1} × {-1, 0, 1}` except `(0, 0)`.
pub open spec fn live_neighbors(grid: Seq<bool>, w: nat, h: nat, row: int, col: int) -> int {
    b2i(neighbor_live(grid, w, h, row, col, -1, -1)) + b2i(
        neighbor_live(grid, w, h, row, col, -1, 0),
    ) + b2i(neighbor_live(grid, w, h, row, col, -1, 1)) + b2i(
        neighbor_live(grid, w, h, row, col, 0, -1),
    ) + b2i(neighbor_live(grid, w, h, row, col, 0, 1)) + b2i(
        neighbor_live(grid, w, h, row, col, 1, -1),
    ) + b2i(neighbor_live(grid, w, h, row, col, 1, 0)) + b2i(
        neighbor_live(grid, w, h, row, col, 1, 1),
    )
}

/// The standard Life transition rule: a live cell survives with two or
/// three live neighbors and otherwise dies; a dead cell becomes alive with
/// exactly three live neighbors and otherwise stays dead.
pub open spec fn next_cell(alive: bool, neighbors: int) -> bool {
    if alive {
        neighbors == 2 || neighbors == 3
    } else {
        neighbors == 3
    }
}

/// The whole next generation of a row-major toroidal grid: every cell's
/// next state is the rule applied to its current state and its current
/// live-neighbor count.
pub open spec fn next_gen(grid: Seq<bool>, w: nat, h: nat) -> Seq<bool> {
    Seq::new(
        grid.len(),
        |i: int| next_cell(grid[i], live_neighbors(grid, w, h, i / (w as int), i % (w as int))),
    )
}

/// The grid after generation `n`: `next_gen` applied `n` times.
pub open spec fn gen_n(grid: Seq<bool>, w: nat, h: nat, n: nat) -> Seq<bool>
    decreases n,
{
    if n == 0 {
        grid
    } else {
        next_gen(gen_n(grid, w, h, (n - 1) as nat), w, h)
    }
}

/// The grid with every listed `(row, col)` cell set alive, in list order.
pub open spec fn stamp(grid: Seq<bool>, w: nat, pairs: Seq<(u32, u32)>) -> Seq<bool>
    decreases pairs.len(),
{
    if pairs.len() == 0 {
        grid
    } else {
        let p = pairs.last();
        stamp(grid, w, pairs.drop_last()).update(p.0 * w + p.1, true)
    }
}

/// Whether some pair in `pairs` names the cell with linear index `i`.
pub open spec fn covers(pairs: Seq<(u32, u32)>, w: nat, i: int) -> bool {
    exists|k: int| 0 <= k < pairs.len() && pairs[k].0 * w + pairs[k].1 == i
}

/// The five cells of a glider centered on `(row, col)`, with coordinates
/// that cross the grid boundary wrapped to the opposite edge.
pub open spec fn glider_cells(row: u32, col: u32, w: nat, h: nat) -> Seq<(u32, u32)> {
    let rm1 = torus(row - 1, h as int) as u32;
    let rp1 = torus(row + 1, h as int) as u32;
    let cm1 = torus(col - 1, w as int) as u32;
    let cp1 = torus(col + 1, w as int) as u32;
    seq![(row, col), (row, cp1), (rm1, cm1), (rp1, col), (rp1, cm1)]
}

/// The forty-eight cells of a pulsar centered on `(row, col)`, with
/// coordinates that cross the grid boundary wrapped to the opposite edge.
pub open spec fn pulsar_cells(row: u32, col: u32, w: nat, h: nat) -> Seq<(u32, u32)> {
    let rm1 = torus(row - 1, h as int) as u32;
    let rm2 = torus(row - 2, h as int) as u32;
    let rm3 = torus(row - 3, h as int) as u32;
    let rm4 = torus(row - 4, h as int) as u32;
    let rm6 = torus(row - 6, h as int) as u32;
    let rp1 = torus(row + 1, h as int) as u32;
    let rp2 = torus(row + 2, h as int) as u32;
    let rp3 = torus(row + 3, h as int) as u32;
    let rp4 = torus(row + 4, h as int) as u32;
    let rp6 = torus(row + 6, h as int) as u32;
    let cm1 = torus(col - 1, w as int) as u32;
    let cm2 = torus(col - 2, w as int) as u32;
    let cm3 = torus(col - 3, w as int) as u32;
    let cm4 = torus(col - 4, w as int) as u32;
    let cm6 = torus(col - 6, w as int) as u32;
    let cp1 = torus(col + 1, w as int) as u32;
    let cp2 = torus(col + 2, w as int) as u32;
    let cp3 = torus(col + 3, w as int) as u32;
    let cp4 = torus(col + 4, w as int) as u32;
    let cp6 = torus(col + 6, w as int) as u32;
    seq![
        (rm1, cp2),
        (rm1, cp3),
        (rm1, cp4),
        (rm1, cm2),
        (rm1, cm3),
        (rm1, cm4),
        (rm2, cp1),
        (rm2, cp6),
        (rm2, cm1),
        (rm2, cm6),
        (rm3, cp1),
        (rm3, cp6),
        (rm3, cm1),
        (rm3, cm6),
        (rm4, cp1),
        (rm4, cp6),
        (rm4, cm1),
        (rm4, cm6),
        (rm6, cp2),
        (rm6, cp3),
        (rm6, cp4),
        (rm6, cm2),
        (rm6, cm3),
        (rm6, cm4),
        (rp1, cp2),
        (rp1, cp3),
        (rp1, cp4),
        (rp1, cm2),
        (rp1, cm3),
        (rp1, cm4),
        (rp2, cp1),
        (rp2, cp6),
        (rp2, cm1),
        (rp2, cm6),
        (rp3, cp1),
        (rp3, cp6),
        (rp3, cm1),
        (rp3, cm6),
        (rp4, cp1),
        (rp4, cp6),
        (rp4, cm1),
        (rp4, cm6),
        (rp6, cp2),
        (rp6, cp3),
        (rp6, cp4),
        (rp6, cm2),
        (rp6, cm3),
        (rp6, cm4),
    ]
}

/// A bounded toroidal grid of cells, bit-packed in row-major order, that
/// evolves one generation at a time under the standard Life rules.
pub struct Universe {
    width: u32,
    height: u32,
    cells: fixedbitset::FixedBitSet,
}

impl Universe {
    /// The grid width in cells.
    pub closed spec fn spec_width(self) -> nat {
        self.width as nat
    }

    /// The grid height in cells.
    pub closed spec fn spec_height(self) -> nat {
        self.height as nat
    }

    /// The cells in row-major order: `true` is alive.
    pub closed spec fn grid(self) -> Seq<bool> {
        fbs_bits(self.cells)
    }

    /// Well-formedness: both extents are positive, the cell count fits the
    /// index arithmetic, and the storage holds exactly one bit per cell.
    pub open spec fn wf(self) -> bool {
        &&& 1 <= self.spec_width()
        &&& 1 <= self.spec_height()
        &&& self.spec_width() * self.spec_height() <= u32::MAX
        &&& self.grid().len() == self.spec_width() * self.spec_height()
    }

    /// Whether the cell at `(row, col)` is alive.
    pub open spec fn alive(self, row: int, col: int) -> bool {
        live_at(self.grid(), self.spec_width(), row, col)
    }

    /// The linear index of cell `(row, col)`: `row * width + col`.
    fn get_index(&self, row: u32, col: u32) -> (idx: usize)
        requires
            self.wf(),
            row < self.spec_height(),
            col < self.spec_width(),
        ensures
            idx == cell_index(self.spec_width(), row as nat, col as nat),
            idx < self.spec_width() * self.spec_height(),
    {
        proof {
            lemma_cell_index_in_range(
                self.spec_width(),
                self.spec_height(),
                row as nat,
                col as nat,
            );
        }
        (row * self.width + col) as usize
    }

    /// The current width.
    pub fn width(&self) -> (w: u32)
        ensures
            w == self.spec_width(),
    {
        self.width
    }

    /// The current height.
    pub fn height(&self) -> (h: u32)
        ensures
            h == self.spec_height(),
    {
        self.height
    }

    /// Replace the width, reallocating the storage to `width * height` bits
    /// with every cell dead: a destructive resize that discards all prior
    /// content.
    pub fn set_width(&mut self, width: u32)
        requires
            old(self).wf(),
            1 <= width,
            width * old(self).spec_height() <= u32::MAX,
        ensures
            final(self).wf(),
            final(self).spec_width() == width,
            final(self).spec_height() == old(self).spec_height(),
            forall|i: int| 0 <= i < final(self).grid().len() ==> !final(self).grid()[i],
    {
        self.width = width;
        let bits = (self.width * self.height) as usize;
        self.cells = fbs_with_capacity(bits);
    }

    /// Replace the height, reallocating the storage to `width * height` bits
    /// with every cell dead: a destructive resize that discards all prior
    /// content.
    pub fn set_height(&mut self, height: u32)
        requires
            old(self).wf(),
            1 <= height,
            old(self).spec_width() * height <= u32::MAX,
        ensures
            final(self).wf(),
            final(self).spec_width() == old(self).spec_width(),
            final(self).spec_height() == height,
            forall|i: int| 0 <= i < final(self).grid().len() ==> !final(self).grid()[i],
    {
        self.height = height;
        let bits = (self.width * self.height) as usize;
        self.cells = fbs_with_capacity(bits);
    }

    /// Set every cell dead without changing the dimensions.
    pub fn clear(&mut self)
        requires
            old(self).wf(),
        ensures
            final(self).wf(),
            final(self).spec_width() == old(self).spec_width(),
            final(self).spec_height() == old(self).spec_height(),
            forall|i: int| 0 <= i < final(self).grid().len() ==> !final(self).grid()[i],
    {
        fbs_clear(&mut self.cells);
    }

    /// Flip the state of the single cell at `(row, col)`.
    pub fn toggle(&mut self, row: u32, col: u32)
        requires
            old(self).wf(),
            row < old(self).spec_height(),
            col < old(self).spec_width(),
        ensures
            final(self).wf(),
            final(self).spec_width() == old(self).spec_width(),
            final(self).spec_height() == old(self).spec_height(),
            final(self).grid() == old(self).grid().update(
                cell_index(old(self).spec_width(), row as nat, col as nat) as int,
                !old(self).alive(row as int, col as int),
            ),
    {
        let idx = self.get_index(row, col);
        fbs_toggle(&mut self.cells, idx);
    }

    /// Read access to the packed bit storage, for an external renderer. The
    /// view is borrowed from the grid and holds exactly the current cells.
    pub fn get_cells(&self) -> (r: &fixedbitset::FixedBitSet)
        ensures
            fbs_bits(*r) == self.grid(),
    {
        &self.cells
    }

    /// The packed bit storage as `u32` blocks, one block per 32 cells in
    /// row-major order, least significant bit first within each block.
    pub fn cells(&self) -> (r: &[u32])
        ensures
            r@.len() == (self.grid().len() + 31) / 32,
            forall|i: int| 0 <= i < self.grid().len() ==> self.grid()[i] == block_bit(r@, i),
    {
        fbs_as_slice(&self.cells)
    }

    /// Whether the cell at `(row, col)` is alive.
    fn is_live(&self, row: u32, col: u32) -> (b: bool)
        requires
            self.wf(),
            row < self.spec_height(),
            col < self.spec_width(),
        ensures
            b == self.alive(row as int, col as int),
    {
        let idx = self.get_index(row, col);
        fbs_contains(&self.cells, idx)
    }

    /// Set every listed `(row, col)` cell alive. A cell ends alive exactly
    /// when it was alive before or some pair names it; duplicates are
    /// harmless.
    #[verifier::loop_isolation(false)]
    pub fn set_cells(&mut self, cells: &[(u32, u32)])
        requires
            old(self).wf(),
            forall|k: int|
                0 <= k < cells@.len() ==> cells@[k].0 < old(self).spec_height() && cells@[k].1
                    < old(self).spec_width(),
        ensures
            final(self).wf(),
            final(self).spec_width() == old(self).spec_width(),
            final(self).spec_height() == old(self).spec_height(),
            final(self).grid() == stamp(old(self).grid(), old(self).spec_width(), cells@),
            forall|i: int|
                0 <= i < final(self).grid().len() ==> final(self).grid()[i] == (old(
                    self,
                ).grid()[i] || covers(cells@, old(self).spec_width(), i)),
    {
        let ghost w0 = old(self).spec_width();
        let ghost h0 = old(self).spec_height();
        let ghost g0 = old(self).grid();
        let n = cells.len();
        let mut k: usize = 0;
        while k < n
            invariant
                k <= n,
                self.wf(),
                self.spec_width() == w0,
                self.spec_height() == h0,
                self.grid() == stamp(g0, w0, cells@.take(k as int)),
            decreases n - k,
        {
            let (row, col) = cells[k];
            let idx = self.get_index(row, col);
            fbs_set(&mut self.cells, idx, true);
            proof {
                let t1 = cells@.take(k + 1 as int);
                assert(t1.drop_last() =~= cells@.take(k as int));
                assert(t1.last() == cells@[k as int]);
            }
            k = k + 1;
        }
        proof {
            assert(cells@.take(n as int) =~= cells@);
            assert forall|j: int|
                0 <= j < cells@.len() implies cells@[j].0 * w0 + cells@[j].1 < g0.len() by {
                lemma_cell_index_in_range(w0, h0, cells@[j].0 as nat, cells@[j].1 as nat);
            }
            lemma_stamp_char(g0, w0, cells@);
        }
    }

    /// The number of live cells among the eight toroidal neighbors of
    /// `(row, col)`.
    fn live_neighbour_count(&self, row: u32, col: u32) -> (count: u8)
        requires
            self.wf(),
            row < self.spec_height(),
            col < self.spec_width(),
        ensures
            count as int == live_neighbors(
                self.grid(),
                self.spec_width(),
                self.spec_height(),
                row as int,
                col as int,
            ),
            count <= 8,
    {
        let rm = wrap_coord(row, self.height - 1, self.height);
        let rp = wrap_coord(row, 1, self.height);
        let cm = wrap_coord(col, self.width - 1, self.width);
        let cp = wrap_coord(col, 1, self.width);
        proof {
            lemma_torus_shift(row - 1, self.spec_height() as int);
            lemma_torus_shift(col - 1, self.spec_width() as int);
            lemma_torus_nonneg(row as int, self.spec_height() as int);
            lemma_small_mod(row as nat, self.spec_height());
            lemma_torus_nonneg(col as int, self.spec_width() as int);
            lemma_small_mod(col as nat, self.spec_width());
        }
        let mut count: u8 = 0;
        if self.is_live(rm, cm) {
            count = count + 1;
        }
        if self.is_live(rm, col) {
            count = count + 1;
        }
        if self.is_live(rm, cp) {
            count = count + 1;
        }
        if self.is_live(row, cm) {
            count = count + 1;
        }
        if self.is_live(row, cp) {
            count = count + 1;
        }
        if self.is_live(rp, cm) {
            count = count + 1;
        }
        if self.is_live(rp, col) {
            count = count + 1;
        }
        if self.is_live(rp, cp) {
            count = count + 1;
        }
        count
    }

    /// Advance the whole grid by one generation under the standard Life
    /// rules. Every neighbor count reads the prior generation: the next
    /// generation is built in a scratch buffer and swapped in at the end.
    #[verifier::loop_isolation(false)]
    pub fn tick(&mut self)
        requires
            old(self).wf(),
        ensures
            final(self).wf(),
            final(self).spec_width() == old(self).spec_width(),
            final(self).spec_height() == old(self).spec_height(),
            final(self).grid() == next_gen(
                old(self).grid(),
                old(self).spec_width(),
                old(self).spec_height(),
            ),
    {
        let ghost w = old(self).spec_width();
        let ghost h = old(self).spec_height();
        let ghost g0 = old(self).grid();
        let mut next = fbs_clone(&self.cells);
        let mut row: u32 = 0;
        while row < self.height
            invariant
                row <= h,
                fbs_bits(next).len() == g0.len(),
                forall|i: int|
                    0 <= i < row * w ==> fbs_bits(next)[i] == next_gen(g0, w, h)[i],
            decreases h - row,
        {
            let mut col: u32 = 0;
            while col < self.width
                invariant
                    row < h,
                    col <= w,
                    fbs_bits(next).len() == g0.len(),
                    forall|i: int|
                        0 <= i < row * w + col ==> fbs_bits(next)[i] == next_gen(g0, w, h)[i],
                decreases w - col,
            {
                let idx = self.get_index(row, col);
                let cell = self.is_live(row, col);
                let live = self.live_neighbour_count(row, col);
                let v = if cell {
                    live == 2 || live == 3
                } else {
                    live == 3
                };
                fbs_set(&mut next, idx, v);
                proof {
                    lemma_cell_index_inverse(w as int, row as int, col as int);
                }
                col = col + 1;
            }
            proof {
                assert((row + 1) * w == row * w + w) by (nonlinear_arith);
            }
            row = row + 1;
        }
        proof {
            assert(h * w == w * h) by (nonlinear_arith);
            assert(fbs_bits(next) =~= next_gen(g0, w, h));
        }
        self.cells = next;
    }

    /// Stamp a glider centered on `(row, col)`: set its five cells alive,
    /// wrapping any cell that falls across the grid boundary to the
    /// opposite edge.
    pub fn glider(&mut self, row: u32, col: u32)
        requires
            old(self).wf(),
            row < old(self).spec_height(),
            col < old(self).spec_width(),
        ensures
            final(self).wf(),
            final(self).spec_width() == old(self).spec_width(),
            final(self).spec_height() == old(self).spec_height(),
            final(self).grid() == stamp(
                old(self).grid(),
                old(self).spec_width(),
                glider_cells(row, col, old(self).spec_width(), old(self).spec_height()),
            ),
            forall|i: int|
                0 <= i < final(self).grid().len() ==> final(self).grid()[i] == (old(
                    self,
                ).grid()[i] || covers(
                    glider_cells(row, col, old(self).spec_width(), old(self).spec_height()),
                    old(self).spec_width(),
                    i,
                )),
    {
        let ghost w = old(self).spec_width();
        let ghost h = old(self).spec_height();
        let rm1 = wrap_coord_back(row, 1, self.height);
        let rp1 = wrap_coord(row, 1, self.height);
        let cm1 = wrap_coord_back(col, 1, self.width);
        let cp1 = wrap_coord(col, 1, self.width);
        let mut pts: Vec<(u32, u32)> = Vec::new();
        pts.push((row, col));
        pts.push((row, cp1));
        pts.push((rm1, cm1));
        pts.push((rp1, col));
        pts.push((rp1, cm1));
        proof {
            assert(pts@ =~= glider_cells(row, col, w, h));
        }
        self.set_cells(pts.as_slice());
    }

    /// Stamp a pulsar centered on `(row, col)`: set its forty-eight cells
    /// alive, wrapping any cell that falls across the grid boundary to the
    /// opposite edge.
    #[verifier::rlimit(30)]
    pub fn pulsar(&mut self, row: u32, col: u32)
        requires
            old(self).wf(),
            row < old(self).spec_height(),
            col < old(self).spec_width(),
        ensures
            final(self).wf(),
            final(self).spec_width() == old(self).spec_width(),
            final(self).spec_height() == old(self).spec_height(),
            final(self).grid() == stamp(
                old(self).grid(),
                old(self).spec_width(),
                pulsar_cells(row, col, old(self).spec_width(), old(self).spec_height()),
            ),
            forall|i: int|
                0 <= i < final(self).grid().len() ==> final(self).grid()[i] == (old(
                    self,
                ).grid()[i] || covers(
                    pulsar_cells(row, col, old(self).spec_width(), old(self).spec_height()),
                    old(self).spec_width(),
                    i,
                )),
    {
        let ghost w = old(self).spec_width();
        let ghost h = old(self).spec_height();
        let rm1 = wrap_coord_back(row, 1, self.height);
        let rm2 = wrap_coord_back(row, 2, self.height);
        let rm3 = wrap_coord_back(row, 3, self.height);
        let rm4 = wrap_coord_back(row, 4, self.height);
        let rm6 = wrap_coord_back(row, 6, self.height);
        let rp1 = wrap_coord(row, 1, self.height);
        let rp2 = wrap_coord(row, 2, self.height);
        let rp3 = wrap_coord(row, 3, self.height);
        let rp4 = wrap_coord(row, 4, self.height);
        let rp6 = wrap_coord(row, 6, self.height);
        let cm1 = wrap_coord_back(col, 1, self.width);
        let cm2 = wrap_coord_back(col, 2, self.width);
        let cm3 = wrap_coord_back(col, 3, self.width);
        let cm4 = wrap_coord_back(col, 4, self.width);
        let cm6 = wrap_coord_back(col, 6, self.width);
        let cp1 = wrap_coord(col, 1, self.width);
        let cp2 = wrap_coord(col, 2, self.width);
        let cp3 = wrap_coord(col, 3, self.width);
        let cp4 = wrap_coord(col, 4, self.width);
        let cp6 = wrap_coord(col, 6, self.width);
        let mut pts: Vec<(u32, u32)> = Vec::new();
        pts.push((rm1, cp2));
        pts.push((rm1, cp3));
        pts.push((rm1, cp4));
        pts.push((rm1, cm2));
        pts.push((rm1, cm3));
        pts.push((rm1, cm4));
        pts.push((rm2, cp1));
        pts.push((rm2, cp6));
        pts.push((rm2, cm1));
        pts.push((rm2, cm6));
        pts.push((rm3, cp1));
        pts.push((rm3, cp6));
        pts.push((rm3, cm1));
        pts.push((rm3, cm6));
        pts.push((rm4, cp1));
        pts.push((rm4, cp6));
        pts.push((rm4, cm1));
        pts.push((rm4, cm6));
        pts.push((rm6, cp2));
        pts.push((rm6, cp3));
        pts.push((rm6, cp4));
        pts.push((rm6, cm2));
        pts.push((rm6, cm3));
        pts.push((rm6, cm4));
        pts.push((rp1, cp2));
        pts.push((rp1, cp3));
        pts.push((rp1, cp4));
        pts.push((rp1, cm2));
        pts.push((rp1, cm3));
        pts.push((rp1, cm4));
        pts.push((rp2, cp1));
        pts.push((rp2, cp6));
        pts.push((rp2, cm1));
        pts.push((rp2, cm6));
        pts.push((rp3, cp1));
        pts.push((rp3, cp6));
        pts.push((rp3, cm1));
        pts.push((rp3, cm6));
        pts.push((rp4, cp1));
        pts.push((rp4, cp6));
        pts.push((rp4, cm1));
        pts.push((rp4, cm6));
        pts.push((rp6, cp2));
        pts.push((rp6, cp3));
        pts.push((rp6, cp4));
        pts.push((rp6, cm2));
        pts.push((rp6, cm3));
        pts.push((rp6, cm4));
        proof {
            assert(pts@ =~= pulsar_cells(row, col, w, h));
        }
        self.set_cells(pts.as_slice());
    }

    /// A fresh 64-by-64 universe whose cells are taken from the given seed
    /// blocks, one bit per cell in row-major order; cells past the last
    /// seed block start dead.
    pub fn new(seed: Vec<u32>) -> (u: Universe)
        ensures
            u.wf(),
            u.spec_width() == 64,
            u.spec_height() == 64,
            u.grid().len() == 4096,
            forall|i: int| 0 <= i < u.grid().len() ==> u.grid()[i] == block_bit(seed@, i),
    {
        let width: u32 = 64;
        let height: u32 = 64;
        let bits = (width * height) as usize;
        let cells = fbs_with_capacity_and_blocks(bits, seed);
        Universe { width, height, cells }
    }

    /// Re-seed every cell from the given seed blocks without changing the
    /// dimensions, one bit per cell in row-major order; cells past the last
    /// seed block become dead.
    pub fn reset(&mut self, seed: Vec<u32>)
        requires
            old(self).wf(),
        ensures
            final(self).wf(),
            final(self).spec_width() == old(self).spec_width(),
            final(self).spec_height() == old(self).spec_height(),
            forall|i: int|
                0 <= i < final(self).grid().len() ==> final(self).grid()[i] == block_bit(
                    seed@,
                    i,
                ),
    {
        let bits = (self.width * self.height) as usize;
        self.cells = fbs_with_capacity_and_blocks(bits, seed);
    }
}

/// For `row < height` and `col < width`, the row-major index lies below
/// `width * height`.
pub proof fn lemma_cell_index_in_range(w: nat, h: nat, row: nat, col: nat)
    by (nonlinear_arith)
    requires
        row < h,
        col < w,
    ensures
        cell_index(w, row, col) < w * h,
{
}

/// Row and column are recovered from a row-major index by division and
/// remainder by the width.
pub proof fn lemma_cell_index_inverse(w: int, row: int, col: int)
    requires
        0 <= row,
        0 <= col < w,
    ensures
        (row * w + col) / w == row,
        (row * w + col) % w == col,
{
    lemma_fundamental_div_mod_converse(row * w + col, w, row, col);
}

/// For a nonnegative coordinate the toroidal wrap is plain remainder.
pub proof fn lemma_torus_nonneg(x: int, m: int)
    requires
        0 <= x,
        1 <= m,
    ensures
        torus(x, m) == x % m,
{
    lemma_mod_division_less_than_divisor(x, m);
    lemma_mod_add_multiples_vanish(x % m, m);
    lemma_small_mod((x % m) as nat, m as nat);
}

/// Shifting a coordinate by a full axis extent does not change its wrap.
pub proof fn lemma_torus_shift(i: int, m: int)
    requires
        1 <= m,
    ensures
        torus(i + m, m) == torus(i, m),
{
    lemma_mod_add_multiples_vanish(i, m);
}

/// `(coord + delta) mod dim`, computed without overflow.
fn wrap_coord(coord: u32, delta: u32, dim: u32) -> (r: u32)
    requires
        1 <= dim,
    ensures
        r < dim,
        r as int == torus(coord + delta, dim as int),
{
    let v = ((coord as u64) + (delta as u64)) % (dim as u64);
    proof {
        lemma_torus_nonneg(coord + delta, dim as int);
        lemma_mod_division_less_than_divisor(coord + delta, dim as int);
    }
    v as u32
}

/// `(coord - delta) mod dim` in the toroidal sense, computed without
/// underflow: the subtraction is replaced by adding the complement of
/// `delta` modulo `dim`.
fn wrap_coord_back(coord: u32, delta: u32, dim: u32) -> (r: u32)
    requires
        1 <= dim,
        coord < dim,
    ensures
        r < dim,
        r as int == torus(coord - delta, dim as int),
{
    let m = dim as u64;
    let dm = (delta as u64) % m;
    let v = ((coord as u64) + m - dm) % m;
    proof {
        let mi = dim as int;
        let di = delta as int;
        let ci = coord as int;
        lemma_mod_division_less_than_divisor(di, mi);
        lemma_fundamental_div_mod(di, mi);
        let y = ci + mi - (di % mi);
        let q = di / mi;
        assert(y == mi * (1 + q) + (ci - di)) by (nonlinear_arith)
            requires
                di == mi * q + di % mi,
                y == ci + mi - (di % mi),
        ;
        lemma_mod_multiples_vanish(1 + q, ci - di, mi);
        lemma_mod_division_less_than_divisor(y, mi);
        lemma_mod_add_multiples_vanish(y % mi, mi);
        lemma_small_mod((y % mi) as nat, mi as nat);
    }
    v as u32
}

/// Setting cells alive one pair at a time leaves a cell alive exactly when
/// it was alive before or some pair names it.
pub proof fn lemma_stamp_char(grid: Seq<bool>, w: nat, pairs: Seq<(u32, u32)>)
    requires
        forall|k: int| 0 <= k < pairs.len() ==> pairs[k].0 * w + pairs[k].1 < grid.len(),
    ensures
        stamp(grid, w, pairs).len() == grid.len(),
        forall|i: int|
            0 <= i < grid.len() ==> #[trigger] stamp(grid, w, pairs)[i] == (grid[i] || covers(
                pairs,
                w,
                i,
            )),
    decreases pairs.len(),
{
    if pairs.len() == 0 {
        assert forall|i: int|
            0 <= i < grid.len() implies stamp(grid, w, pairs)[i] == (grid[i] || covers(
            pairs,
            w,
            i,
        )) by {
            assert(!covers(pairs, w, i));
        }
    } else {
        let sub = pairs.drop_last();
        let p = pairs.last();
        let last_idx = p.0 * w + p.1;
        assert forall|k: int| 0 <= k < sub.len() implies sub[k].0 * w + sub[k].1 < grid.len() by {
            assert(sub[k] == pairs[k]);
        }
        lemma_stamp_char(grid, w, sub);
        assert(stamp(grid, w, pairs) == stamp(grid, w, sub).update(last_idx as int, true));
        assert forall|i: int|
            0 <= i < grid.len() implies stamp(grid, w, pairs)[i] == (grid[i] || covers(
            pairs,
            w,
            i,
        )) by {
            if i == last_idx {
                assert(pairs[pairs.len() - 1].0 * w + pairs[pairs.len() - 1].1 == i);
                assert(covers(pairs, w, i));
                assert(stamp(grid, w, pairs)[i]);
            } else {
                assert(stamp(grid, w, pairs)[i] == stamp(grid, w, sub)[i]);
                assert(stamp(grid, w, sub)[i] == (grid[i] || covers(sub, w, i)));
                if covers(sub, w, i) {
                    let k = choose|k: int| 0 <= k < sub.len() && sub[k].0 * w + sub[k].1 == i;
                    assert(pairs[k].0 * w + pairs[k].1 == i);
                    assert(covers(pairs, w, i));
                }
                if covers(pairs, w, i) {
                    let k = choose|k: int| 0 <= k < pairs.len() && pairs[k].0 * w + pairs[k].1
                        == i;
                    if k < pairs.len() - 1 {
                        assert(sub[k] == pairs[k]);
                        assert(covers(sub, w, i));
                    } else {
                        assert(pairs[k] == p);
                        assert(i == last_idx);
                        assert(false);
                    }
                }
                assert(covers(pairs, w, i) == covers(sub, w, i));
            }
        }
    }
}

} // verus!
