//! Proved properties of the grid model: the index mapping is a bijection,
//! wrap-around is toroidal at the corners, a block is a still life, a
//! blinker oscillates with period two, setting cells is idempotent, and the
//! transition is deterministic.

use crate::universe::b2i;
use crate::universe::cell_index;
use crate::universe::covers;
use crate::universe::gen_n;
use crate::universe::lemma_cell_index_in_range;
use crate::universe::lemma_cell_index_inverse;
use crate::universe::lemma_stamp_char;
use crate::universe::lemma_torus_nonneg;
use crate::universe::lemma_torus_shift;
use crate::universe::live_at;
use crate::universe::live_neighbors;
use crate::universe::next_cell;
use crate::universe::next_gen;
use crate::universe::stamp;
use crate::universe::torus;
use vstd::arithmetic::div_mod::lemma_fundamental_div_mod;
use vstd::arithmetic::div_mod::lemma_mod_division_less_than_divisor;
use vstd::arithmetic::div_mod::lemma_small_mod;
use vstd::prelude::*;

verus! {

/// Distinct in-range cells map to distinct row-major indices.
pub proof fn lemma_index_injective(w: nat, h: nat, r1: nat, c1: nat, r2: nat, c2: nat)
    requires
        r1 < h,
        c1 < w,
        r2 < h,
        c2 < w,
        cell_index(w, r1, c1) == cell_index(w, r2, c2),
    ensures
        r1 == r2,
        c1 == c2,
{
    lemma_cell_index_inverse(w as int, r1 as int, c1 as int);
    lemma_cell_index_inverse(w as int, r2 as int, c2 as int);
}

/// Every index below `width * height` is the row-major image of exactly the
/// cell found by dividing by the width: the mapping is onto.
pub proof fn lemma_index_surjective(w: nat, h: nat, i: int)
    requires
        1 <= w,
        0 <= i < w * h,
    ensures
        0 <= i / (w as int) < h,
        0 <= i % (w as int) < w,
        cell_index(w, (i / (w as int)) as nat, (i % (w as int)) as nat) == i,
{
    lemma_fundamental_div_mod(i, w as int);
    lemma_mod_division_less_than_divisor(i, w as int);
    let q = i / (w as int);
    let r = i % (w as int);
    assert(0 <= q < h && q * w + r == i) by (nonlinear_arith)
        requires
            1 <= w,
            0 <= i < w * h,
            i == (w as int) * q + r,
            0 <= r < w,
    ;
}

/// At the corner `(0, 0)` the eight toroidal neighbors are exactly the
/// cells at the wrapped coordinates on the opposite edges: wrap-around is
/// toroidal in both axes at once.
pub proof fn lemma_corner_neighbors(grid: Seq<bool>, w: nat, h: nat)
    requires
        2 <= w,
        2 <= h,
    ensures
        live_neighbors(grid, w, h, 0, 0) == b2i(live_at(grid, w, h - 1, w - 1)) + b2i(
            live_at(grid, w, h - 1, 0),
        ) + b2i(live_at(grid, w, h - 1, 1)) + b2i(live_at(grid, w, 0, w - 1)) + b2i(
            live_at(grid, w, 0, 1),
        ) + b2i(live_at(grid, w, 1, w - 1)) + b2i(live_at(grid, w, 1, 0)) + b2i(
            live_at(grid, w, 1, 1),
        ),
{
    lemma_torus_neg_one(h as int);
    lemma_torus_neg_one(w as int);
    lemma_torus_small(0, h as int);
    lemma_torus_small(0, w as int);
    lemma_torus_small(1, h as int);
    lemma_torus_small(1, w as int);
}

/// The transition is deterministic: identical generations step to
/// identical next generations, because the next generation is a pure
/// function of the grid and its dimensions.
pub proof fn lemma_tick_deterministic(g1: Seq<bool>, g2: Seq<bool>, w: nat, h: nat)
    requires
        g1 == g2,
    ensures
        next_gen(g1, w, h) == next_gen(g2, w, h),
{
}

/// Setting the same list of cells alive twice produces the same grid as
/// setting it once.
pub proof fn lemma_set_cells_idempotent(grid: Seq<bool>, w: nat, pairs: Seq<(u32, u32)>)
    requires
        forall|k: int| 0 <= k < pairs.len() ==> pairs[k].0 * w + pairs[k].1 < grid.len(),
    ensures
        stamp(stamp(grid, w, pairs), w, pairs) == stamp(grid, w, pairs),
{
    let s1 = stamp(grid, w, pairs);
    lemma_stamp_char(grid, w, pairs);
    lemma_stamp_char(s1, w, pairs);
    assert forall|i: int| 0 <= i < s1.len() implies stamp(s1, w, pairs)[i] == s1[i] by {
        assert(stamp(s1, w, pairs)[i] == (s1[i] || covers(pairs, w, i)));
        assert(stamp(grid, w, pairs)[i] == (grid[i] || covers(pairs, w, i)));
    }
    assert(stamp(s1, w, pairs) =~= s1);
}

/// A grid that one step leaves unchanged stays unchanged for any number of
/// generations.
pub proof fn lemma_fixed_point(grid: Seq<bool>, w: nat, h: nat, n: nat)
    requires
        next_gen(grid, w, h) == grid,
    ensures
        gen_n(grid, w, h, n) == grid,
    decreases n,
{
    if n > 0 {
        lemma_fixed_point(grid, w, h, (n - 1) as nat);
    }
}

/// The wrap of `-1` is the last coordinate of the axis.
proof fn lemma_torus_neg_one(m: int)
    requires
        1 <= m,
    ensures
        torus(-1, m) == m - 1,
{
    lemma_torus_shift(-1, m);
    lemma_torus_nonneg(m - 1, m);
    lemma_small_mod((m - 1) as nat, m as nat);
}

/// The wrap of an in-range coordinate is itself.
proof fn lemma_torus_small(i: int, m: int)
    requires
        0 <= i < m,
    ensures
        torus(i, m) == i,
{
    lemma_torus_nonneg(i, m);
    lemma_small_mod(i as nat, m as nat);
}

/// The coordinate one before `x` on a toroidal axis of extent `m`.
pub open spec fn prev_on(x: int, m: int) -> int {
    if x == 0 {
        m - 1
    } else {
        x - 1
    }
}

/// The coordinate one past `x` on a toroidal axis of extent `m`.
pub open spec fn next_on(x: int, m: int) -> int {
    if x == m - 1 {
        0
    } else {
        x + 1
    }
}

/// The grid whose cell `(i, j)` is alive exactly when `pat(i, j)` holds.
pub open spec fn pat_grid(w: nat, h: nat, pat: spec_fn(int, int) -> bool) -> Seq<bool> {
    Seq::new(w * h, |k: int| pat(k / (w as int), k % (w as int)))
}

/// Reading a pattern grid at an in-range cell gives the pattern.
proof fn lemma_pat_at(w: nat, h: nat, pat: spec_fn(int, int) -> bool, a: int, b: int)
    requires
        1 <= w,
        0 <= a < h,
        0 <= b < w,
    ensures
        live_at(pat_grid(w, h, pat), w, a, b) == pat(a, b),
{
    lemma_cell_index_in_range(w, h, a as nat, b as nat);
    lemma_cell_index_inverse(w as int, a, b);
}

/// The live-neighbor count of any cell of a pattern grid, written over the
/// pattern at the wrapped one-off coordinates.
proof fn lemma_pattern_neighbors(w: nat, h: nat, pat: spec_fn(int, int) -> bool, i: int, j: int)
    requires
        2 <= w,
        2 <= h,
        0 <= i < h,
        0 <= j < w,
    ensures
        live_at(pat_grid(w, h, pat), w, i, j) == pat(i, j),
        live_neighbors(pat_grid(w, h, pat), w, h, i, j) == b2i(
            pat(prev_on(i, h as int), prev_on(j, w as int)),
        ) + b2i(pat(prev_on(i, h as int), j)) + b2i(
            pat(prev_on(i, h as int), next_on(j, w as int)),
        ) + b2i(pat(i, prev_on(j, w as int))) + b2i(pat(i, next_on(j, w as int))) + b2i(
            pat(next_on(i, h as int), prev_on(j, w as int)),
        ) + b2i(pat(next_on(i, h as int), j)) + b2i(
            pat(next_on(i, h as int), next_on(j, w as int)),
        ),
{
    let wi = w as int;
    let hi = h as int;
    if i == 0 {
        lemma_torus_neg_one(hi);
    } else {
        lemma_torus_small(i - 1, hi);
    }
    if i == hi - 1 {
        lemma_torus_shift(0, hi);
        lemma_torus_small(0, hi);
    } else {
        lemma_torus_small(i + 1, hi);
    }
    if j == 0 {
        lemma_torus_neg_one(wi);
    } else {
        lemma_torus_small(j - 1, wi);
    }
    if j == wi - 1 {
        lemma_torus_shift(0, wi);
        lemma_torus_small(0, wi);
    } else {
        lemma_torus_small(j + 1, wi);
    }
    lemma_torus_small(i, hi);
    lemma_torus_small(j, wi);
    assert(torus(i - 1, hi) == prev_on(i, hi));
    assert(torus(i + 1, hi) == next_on(i, hi));
    assert(torus(j - 1, wi) == prev_on(j, wi));
    assert(torus(j + 1, wi) == next_on(j, wi));
    lemma_pat_at(w, h, pat, i, j);
    lemma_pat_at(w, h, pat, prev_on(i, hi), prev_on(j, wi));
    lemma_pat_at(w, h, pat, prev_on(i, hi), j);
    lemma_pat_at(w, h, pat, prev_on(i, hi), next_on(j, wi));
    lemma_pat_at(w, h, pat, i, prev_on(j, wi));
    lemma_pat_at(w, h, pat, i, next_on(j, wi));
    lemma_pat_at(w, h, pat, next_on(i, hi), prev_on(j, wi));
    lemma_pat_at(w, h, pat, next_on(i, hi), j);
    lemma_pat_at(w, h, pat, next_on(i, hi), next_on(j, wi));
}

/// Whether `(i, j)` lies in the two-by-two block whose top-left cell is
/// `(r, c)`.
pub open spec fn block_cell(r: int, c: int, i: int, j: int) -> bool {
    (i == r || i == r + 1) && (j == c || j == c + 1)
}

/// The block membership predicate as a function of the cell coordinates.
pub open spec fn block_pat(r: int, c: int) -> spec_fn(int, int) -> bool {
    |i: int, j: int| block_cell(r, c, i, j)
}

/// The grid holding only a two-by-two block of live cells at `(r, c)`.
pub open spec fn block_grid(w: nat, h: nat, r: int, c: int) -> Seq<bool> {
    pat_grid(w, h, block_pat(r, c))
}

/// A two-by-two block away from the wrap boundary is a still life: one
/// step leaves it unchanged, so any number of generations leaves it
/// unchanged.
pub proof fn lemma_block_still_life(w: nat, h: nat, r: int, c: int, n: nat)
    requires
        4 <= w,
        4 <= h,
        1 <= r,
        r + 2 < h,
        1 <= c,
        c + 2 < w,
    ensures
        next_gen(block_grid(w, h, r, c), w, h) == block_grid(w, h, r, c),
        gen_n(block_grid(w, h, r, c), w, h, n) == block_grid(w, h, r, c),
{
    let g = block_grid(w, h, r, c);
    let pat = block_pat(r, c);
    assert forall|k: int| 0 <= k < g.len() implies next_gen(g, w, h)[k] == g[k] by {
        lemma_index_surjective(w, h, k);
        let i = k / (w as int);
        let j = k % (w as int);
        lemma_pattern_neighbors(w, h, pat, i, j);
        assert(cell_index(w, i as nat, j as nat) == k);
        assert(i * w + j == k);
    }
    assert(next_gen(g, w, h) =~= g);
    lemma_fixed_point(g, w, h, n);
}

/// Whether `(i, j)` lies on the horizontal three-cell blinker centered on
/// `(r, c)`.
pub open spec fn blinker_h_cell(r: int, c: int, i: int, j: int) -> bool {
    i == r && (j == c - 1 || j == c || j == c + 1)
}

/// Whether `(i, j)` lies on the vertical three-cell blinker centered on
/// `(r, c)`.
pub open spec fn blinker_v_cell(r: int, c: int, i: int, j: int) -> bool {
    j == c && (i == r - 1 || i == r || i == r + 1)
}

/// The horizontal blinker membership predicate as a function of the cell
/// coordinates.
pub open spec fn blinker_h_pat(r: int, c: int) -> spec_fn(int, int) -> bool {
    |i: int, j: int| blinker_h_cell(r, c, i, j)
}

/// The vertical blinker membership predicate as a function of the cell
/// coordinates.
pub open spec fn blinker_v_pat(r: int, c: int) -> spec_fn(int, int) -> bool {
    |i: int, j: int| blinker_v_cell(r, c, i, j)
}

/// The grid holding only a horizontal blinker centered on `(r, c)`.
pub open spec fn blinker_h_grid(w: nat, h: nat, r: int, c: int) -> Seq<bool> {
    pat_grid(w, h, blinker_h_pat(r, c))
}

/// The grid holding only a vertical blinker centered on `(r, c)`.
pub open spec fn blinker_v_grid(w: nat, h: nat, r: int, c: int) -> Seq<bool> {
    pat_grid(w, h, blinker_v_pat(r, c))
}

/// One step turns a horizontal blinker away from the wrap boundary into
/// the vertical blinker on the same center.
proof fn lemma_blinker_h_step(w: nat, h: nat, r: int, c: int)
    requires
        2 <= r,
        r + 2 < h,
        2 <= c,
        c + 2 < w,
    ensures
        next_gen(blinker_h_grid(w, h, r, c), w, h) == blinker_v_grid(w, h, r, c),
{
    let g = blinker_h_grid(w, h, r, c);
    let gv = blinker_v_grid(w, h, r, c);
    assert forall|k: int| 0 <= k < g.len() implies next_gen(g, w, h)[k] == gv[k] by {
        lemma_index_surjective(w, h, k);
        let i = k / (w as int);
        let j = k % (w as int);
        lemma_pattern_neighbors(w, h, blinker_h_pat(r, c), i, j);
        lemma_pat_at(w, h, blinker_v_pat(r, c), i, j);
        assert(cell_index(w, i as nat, j as nat) == k);
        assert(i * w + j == k);
    }
    assert(next_gen(g, w, h) =~= gv);
}

/// One step turns a vertical blinker away from the wrap boundary into the
/// horizontal blinker on the same center.
proof fn lemma_blinker_v_step(w: nat, h: nat, r: int, c: int)
    requires
        2 <= r,
        r + 2 < h,
        2 <= c,
        c + 2 < w,
    ensures
        next_gen(blinker_v_grid(w, h, r, c), w, h) == blinker_h_grid(w, h, r, c),
{
    let g = blinker_v_grid(w, h, r, c);
    let gh = blinker_h_grid(w, h, r, c);
    assert forall|k: int| 0 <= k < g.len() implies next_gen(g, w, h)[k] == gh[k] by {
        lemma_index_surjective(w, h, k);
        let i = k / (w as int);
        let j = k % (w as int);
        lemma_pattern_neighbors(w, h, blinker_v_pat(r, c), i, j);
        lemma_pat_at(w, h, blinker_h_pat(r, c), i, j);
        assert(cell_index(w, i as nat, j as nat) == k);
        assert(i * w + j == k);
    }
    assert(next_gen(g, w, h) =~= gh);
}

/// A blinker away from the wrap boundary oscillates with period two: one
/// step turns the horizontal blinker vertical, the next turns it back.
pub proof fn lemma_blinker_oscillates(w: nat, h: nat, r: int, c: int)
    requires
        2 <= r,
        r + 2 < h,
        2 <= c,
        c + 2 < w,
    ensures
        next_gen(blinker_h_grid(w, h, r, c), w, h) == blinker_v_grid(w, h, r, c),
        next_gen(blinker_v_grid(w, h, r, c), w, h) == blinker_h_grid(w, h, r, c),
        gen_n(blinker_h_grid(w, h, r, c), w, h, 2) == blinker_h_grid(w, h, r, c),
{
    lemma_blinker_h_step(w, h, r, c);
    lemma_blinker_v_step(w, h, r, c);
    let g = blinker_h_grid(w, h, r, c);
    assert(gen_n(g, w, h, 0) == g);
    assert(gen_n(g, w, h, 1) == next_gen(gen_n(g, w, h, 0), w, h));
    assert(gen_n(g, w, h, 2) == next_gen(gen_n(g, w, h, 1), w, h));
}

} // verus!
