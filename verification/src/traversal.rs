//! Traversal generator: the canonical visiting order of grid cells, shared
//! by the encoder and the decoder.
//!
//! Cells are visited in boustrophedon order starting at the bottom row and
//! sweeping upward: rows run from `grid - 1` down to `0`, and within the
//! first visited row columns run right to left, then alternate every row.

use vstd::prelude::*;

verus! {

/// The cell `(row, col)` that visit number `k` of the traversal reaches.
pub open spec fn cell_of(grid: int, k: int) -> (int, int)
    recommends
        grid >= 1,
        0 <= k < grid * grid,
{
    let i = k / grid;
    let j = k % grid;
    let row = grid - 1 - i;
    let col = if i % 2 == 0 {
        grid - 1 - j
    } else {
        j
    };
    (row, col)
}

/// The visit number at which the traversal reaches cell `(row, col)`.
pub open spec fn index_of(grid: int, row: int, col: int) -> int
    recommends
        grid >= 1,
        0 <= row < grid,
        0 <= col < grid,
{
    let i = grid - 1 - row;
    let j = if i % 2 == 0 {
        grid - 1 - col
    } else {
        col
    };
    i * grid + j
}

/// Visiting the traversal index of a cell reaches that cell, and the index
/// is in range.
pub proof fn lemma_cell_of_index_of(grid: int, row: int, col: int)
    requires
        grid >= 1,
        0 <= row < grid,
        0 <= col < grid,
    ensures
        0 <= index_of(grid, row, col) < grid * grid,
        cell_of(grid, index_of(grid, row, col)) == (row, col),
{
    let i = grid - 1 - row;
    let j = if i % 2 == 0 {
        grid - 1 - col
    } else {
        col
    };
    let k = i * grid + j;
    assert(0 <= i < grid && 0 <= j < grid);
    assert(i * grid + j < grid * grid && i * grid >= 0) by (nonlinear_arith)
        requires
            0 <= i < grid,
            0 <= j < grid,
    ;
    vstd::arithmetic::div_mod::lemma_fundamental_div_mod_converse(k, grid, i, j);
}

/// Every traversal index in range lands on a cell of the grid, and feeding
/// that cell back gives the same index.
pub proof fn lemma_index_of_cell_of(grid: int, k: int)
    requires
        grid >= 1,
        0 <= k < grid * grid,
    ensures
        0 <= cell_of(grid, k).0 < grid,
        0 <= cell_of(grid, k).1 < grid,
        index_of(grid, cell_of(grid, k).0, cell_of(grid, k).1) == k,
{
    let i = k / grid;
    let j = k % grid;
    vstd::arithmetic::div_mod::lemma_fundamental_div_mod(k, grid);
    assert(0 <= j < grid) by {
        vstd::arithmetic::div_mod::lemma_mod_division_less_than_divisor(k, grid);
    }
    assert(0 <= i < grid) by (nonlinear_arith)
        requires
            k == grid * i + j,
            0 <= j < grid,
            0 <= k < grid * grid,
    ;
    assert(grid * i == i * grid) by (nonlinear_arith);
    let row = grid - 1 - i;
    let col = if i % 2 == 0 {
        grid - 1 - j
    } else {
        j
    };
    assert(cell_of(grid, k) == (row, col));
    assert(grid - 1 - row == i);
    assert(index_of(grid, row, col) == i * grid + j);
}

/// The traversal is total and injective: it visits every cell of the grid,
/// and no cell twice.
pub proof fn lemma_traversal_total_and_unique(grid: int)
    requires
        grid >= 1,
    ensures
        forall|k: int|
            0 <= k < grid * grid ==> {
                let c = #[trigger] cell_of(grid, k);
                0 <= c.0 < grid && 0 <= c.1 < grid
            },
        forall|k1: int, k2: int|
            0 <= k1 < grid * grid && 0 <= k2 < grid * grid && k1 != k2 ==> #[trigger] cell_of(
                grid,
                k1,
            ) != #[trigger] cell_of(grid, k2),
        forall|row: int, col: int|
            0 <= row < grid && 0 <= col < grid ==> 0 <= #[trigger] index_of(grid, row, col) < grid
                * grid && cell_of(grid, index_of(grid, row, col)) == (row, col),
{
    assert forall|k: int| 0 <= k < grid * grid implies {
        let c = #[trigger] cell_of(grid, k);
        0 <= c.0 < grid && 0 <= c.1 < grid
    } by {
        lemma_index_of_cell_of(grid, k);
    }
    assert forall|k1: int, k2: int|
        0 <= k1 < grid * grid && 0 <= k2 < grid * grid && k1 != k2 implies #[trigger] cell_of(
        grid,
        k1,
    ) != #[trigger] cell_of(grid, k2) by {
        lemma_index_of_cell_of(grid, k1);
        lemma_index_of_cell_of(grid, k2);
    }
    assert forall|row: int, col: int| 0 <= row < grid && 0 <= col < grid implies 0
        <= #[trigger] index_of(grid, row, col) < grid * grid && cell_of(
        grid,
        index_of(grid, row, col),
    ) == (row, col) by {
        lemma_cell_of_index_of(grid, row, col);
    }
}

/// The cell that visit number `k` of the traversal reaches.
pub fn traversal_cell(grid_size: usize, k: usize) -> (cell: (usize, usize))
    requires
        grid_size >= 1,
        k < grid_size * grid_size,
    ensures
        (cell.0 as int, cell.1 as int) == cell_of(grid_size as int, k as int),
        cell.0 < grid_size,
        cell.1 < grid_size,
{
    proof {
        lemma_index_of_cell_of(grid_size as int, k as int);
    }
    let i = k / grid_size;
    let j = k % grid_size;
    let row = grid_size - 1 - i;
    let col = if i % 2 == 0 {
        grid_size - 1 - j
    } else {
        j
    };
    (row, col)
}

/// The whole traversal as a vector: all `grid_size * grid_size` cells in
/// visiting order.
pub fn traversal_coordinates(grid_size: usize) -> (coords: Vec<(usize, usize)>)
    requires
        grid_size >= 1,
        grid_size * grid_size <= usize::MAX,
    ensures
        coords@.len() == grid_size * grid_size,
        forall|k: int|
            0 <= k < coords@.len() ==> (#[trigger] coords@[k].0 as int, coords@[k].1 as int)
                == cell_of(grid_size as int, k),
{
    let n2 = grid_size * grid_size;
    let mut coords: Vec<(usize, usize)> = Vec::new();
    let mut t: usize = 0;
    while t < n2
        invariant
            t <= n2,
            n2 == grid_size * grid_size,
            grid_size >= 1,
            coords@.len() == t,
            forall|k: int|
                0 <= k < t ==> (#[trigger] coords@[k].0 as int, coords@[k].1 as int) == cell_of(
                    grid_size as int,
                    k,
                ),
        decreases n2 - t,
    {
        let cell = traversal_cell(grid_size, t);
        coords.push(cell);
        t = t + 1;
    }
    coords
}

} // verus!
