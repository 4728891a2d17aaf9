//! The cell model of the grid: the three fixed marker cells with their
//! colors, the role of every other cell, and the predicate that says a pixel
//! buffer is the encoding of a payload.

use crate::packer::chunk_of;
use crate::traversal::{cell_of, index_of, lemma_cell_of_index_of, lemma_index_of_cell_of};
use vstd::prelude::*;

verus! {

/// The three orientation markers sit at fixed corners: top-left, top-right
/// and bottom-left. The fourth corner is an ordinary cell.
pub open spec fn is_marker(grid: int, row: int, col: int) -> bool {
    (row == 0 && col == 0) || (row == 0 && col == grid - 1) || (row == grid - 1 && col == 0)
}

/// The fixed color of a marker cell: green at the top-left, red at the
/// top-right, yellow at the bottom-left.
pub open spec fn marker_color(grid: int, row: int, col: int) -> (u8, u8, u8)
    recommends
        is_marker(grid, row, col),
{
    if row == 0 && col == 0 {
        (0u8, 255u8, 0u8)
    } else if row == 0 {
        (255u8, 0u8, 0u8)
    } else {
        (255u8, 255u8, 0u8)
    }
}

/// Whether visit number `k` of the traversal lands on a marker cell.
pub open spec fn is_marker_index(grid: int, k: int) -> bool {
    let c = cell_of(grid, k);
    is_marker(grid, c.0, c.1)
}

/// How many of the first `t` visited cells are data or background cells,
/// that is, not markers. The `n`-th such cell carries payload chunk `n`.
pub open spec fn data_cells_before(grid: int, t: int) -> int
    decreases t,
{
    if t <= 0 {
        0
    } else {
        data_cells_before(grid, t - 1) + (if is_marker_index(grid, t - 1) {
            0int
        } else {
            1int
        })
    }
}

/// The color of cell `(row, col)` in the encoding of `payload`: the marker
/// color at a marker cell, and otherwise the payload chunk whose number is
/// the count of non-marker cells visited before this one. Past the end of
/// the payload the chunk is all sentinel, the background color.
pub open spec fn cell_color(payload: Seq<u8>, grid: int, row: int, col: int) -> (u8, u8, u8) {
    if is_marker(grid, row, col) {
        marker_color(grid, row, col)
    } else {
        chunk_of(payload, 3 * data_cells_before(grid, index_of(grid, row, col)))
    }
}

/// The pixel map is the encoding of `payload` on a `grid x grid` grid of
/// solid `cell x cell` blocks: every pixel carries the color of the cell
/// whose block it lies in.
pub open spec fn encodes(
    payload: Seq<u8>,
    grid: int,
    cell: int,
    pixels: Map<(int, int), (u8, u8, u8)>,
) -> bool {
    forall|x: int, y: int|
        0 <= x < grid * cell && 0 <= y < grid * cell ==> #[trigger] pixels[(x, y)] == cell_color(
            payload,
            grid,
            y / cell,
            x / cell,
        )
}

/// Counting never exceeds the number of cells counted.
pub proof fn lemma_data_cells_bounds(grid: int, t: int)
    requires
        t >= 0,
    ensures
        0 <= data_cells_before(grid, t) <= t,
    decreases t,
{
    if t > 0 {
        lemma_data_cells_bounds(grid, t - 1);
    }
}

/// A traversal index lands on a marker exactly when it is the index of one
/// of the three marker cells.
pub proof fn lemma_marker_index_characterization(grid: int, k: int)
    requires
        grid >= 2,
        0 <= k < grid * grid,
    ensures
        is_marker_index(grid, k) <==> (k == index_of(grid, 0, 0) || k == index_of(
            grid,
            0,
            grid - 1,
        ) || k == index_of(grid, grid - 1, 0)),
{
    lemma_cell_of_index_of(grid, 0, 0);
    lemma_cell_of_index_of(grid, 0, grid - 1);
    lemma_cell_of_index_of(grid, grid - 1, 0);
    if is_marker_index(grid, k) {
        lemma_index_of_cell_of(grid, k);
    }
}

/// The count formula under the three markers: every visited cell is a data
/// cell except the markers already passed.
proof fn lemma_data_cells_formula(grid: int, t: int)
    requires
        grid >= 2,
        0 <= t <= grid * grid,
    ensures
        data_cells_before(grid, t) == t - (if index_of(grid, 0, 0) < t {
            1int
        } else {
            0int
        }) - (if index_of(grid, 0, grid - 1) < t {
            1int
        } else {
            0int
        }) - (if index_of(grid, grid - 1, 0) < t {
            1int
        } else {
            0int
        }),
    decreases t,
{
    if t > 0 {
        lemma_data_cells_formula(grid, t - 1);
        lemma_marker_index_characterization(grid, t - 1);
        lemma_cell_of_index_of(grid, 0, 0);
        lemma_cell_of_index_of(grid, 0, grid - 1);
        lemma_cell_of_index_of(grid, grid - 1, 0);
        assert(cell_of(grid, index_of(grid, 0, 0)) == (0int, 0int));
        assert(cell_of(grid, index_of(grid, 0, grid - 1)) == (0int, grid - 1));
        assert(cell_of(grid, index_of(grid, grid - 1, 0)) == (grid - 1, 0int));
    }
}

/// Exactly three of the `grid * grid` visited cells are markers, so the
/// traversal meets `grid * grid - 3` data or background cells.
pub proof fn lemma_data_cells_total(grid: int)
    requires
        grid >= 2,
    ensures
        data_cells_before(grid, grid * grid) == grid * grid - 3,
{
    let m1 = index_of(grid, 0, 0);
    let m2 = index_of(grid, 0, grid - 1);
    let m3 = index_of(grid, grid - 1, 0);
    lemma_cell_of_index_of(grid, 0, 0);
    lemma_cell_of_index_of(grid, 0, grid - 1);
    lemma_cell_of_index_of(grid, grid - 1, 0);
    assert(m1 != m2 && m1 != m3 && m2 != m3) by {
        assert(cell_of(grid, m1) == (0int, 0int));
        assert(cell_of(grid, m2) == (0int, grid - 1));
        assert(cell_of(grid, m3) == (grid - 1, 0int));
    }
    lemma_data_cells_formula(grid, grid * grid);
}

/// A pixel coordinate lies inside block number `c` exactly when dividing it
/// by the cell size gives `c`.
pub proof fn lemma_block_quotient(v: int, c: int, s: int)
    requires
        s >= 1,
        0 <= c,
        0 <= v,
    ensures
        v / s == c <==> (c * s <= v < (c + 1) * s),
{
    vstd::arithmetic::div_mod::lemma_fundamental_div_mod(v, s);
    vstd::arithmetic::div_mod::lemma_mod_division_less_than_divisor(v, s);
    assert((c + 1) * s == c * s + s) by (nonlinear_arith);
    assert(s * (v / s) == (v / s) * s) by (nonlinear_arith);
    if v / s == c {
    } else {
        if c * s <= v < (c + 1) * s {
            vstd::arithmetic::div_mod::lemma_fundamental_div_mod_converse(v, s, c, v - c * s);
        }
    }
}

/// A pixel coordinate inside a `g`-block image lies in one of its `g`
/// blocks.
pub proof fn lemma_block_in_grid(v: int, g: int, s: int)
    requires
        s >= 1,
        0 <= v < g * s,
    ensures
        0 <= v / s < g,
{
    vstd::arithmetic::div_mod::lemma_fundamental_div_mod(v, s);
    vstd::arithmetic::div_mod::lemma_mod_division_less_than_divisor(v, s);
    assert(v / s >= 0) by {
        vstd::arithmetic::div_mod::lemma_div_pos_is_pos(v, s);
    }
    if v / s >= g {
        assert(s * (v / s) >= g * s) by (nonlinear_arith)
            requires
                v / s >= g,
                s >= 1,
        ;
    }
}

/// Whether `(row, col)` is one of the three marker cells.
pub fn marker_check(grid_size: usize, row: usize, col: usize) -> (r: bool)
    requires
        grid_size >= 1,
    ensures
        r == is_marker(grid_size as int, row as int, col as int),
{
    (row == 0 && col == 0) || (row == 0 && col == grid_size - 1) || (row == grid_size - 1 && col
        == 0)
}

/// The fixed color of the marker at `(row, col)`.
pub fn marker_color_at(row: usize, col: usize) -> (c: (u8, u8, u8))
    ensures
        forall|grid: int| c == marker_color(grid, row as int, col as int),
{
    if row == 0 && col == 0 {
        (0u8, 255u8, 0u8)
    } else if row == 0 {
        (255u8, 0u8, 0u8)
    } else {
        (255u8, 255u8, 0u8)
    }
}

} // verus!
