//! The codec's global guarantees: the round trip recovers every sentinel-free
//! payload, the marker cells never depend on the payload, and a sentinel cuts
//! the recovered stream exactly after the true payload.

use crate::geometry::{
    grid_size_spec, lemma_grid_size_at_least_two, lemma_grid_size_exact, required_cells_spec,
};
use crate::grid::{
    cell_color, data_cells_before, encodes, is_marker, lemma_block_quotient,
    lemma_data_cells_bounds, lemma_data_cells_total, marker_color,
};
use crate::packer::{
    chunk_of, lemma_take_until_after_free_prefix, lemma_take_until_padded_stream, padded_byte,
    sentinel_free, take_until_sentinel, SENTINEL,
};
use crate::sampler::{cell_bytes, decoded_payload, sampled_bytes};
use crate::traversal::{cell_of, lemma_index_of_cell_of};
use vstd::prelude::*;

verus! {

/// On an encoded image the recovered stream is exactly the sentinel-padded
/// payload stream, three bytes per non-marker cell visited.
proof fn lemma_sampled_is_padded(
    payload: Seq<u8>,
    grid: int,
    cell: int,
    pixels: Map<(int, int), (u8, u8, u8)>,
    t: int,
)
    requires
        grid >= 1,
        cell >= 1,
        0 <= t <= grid * grid,
        encodes(payload, grid, cell, pixels),
    ensures
        sampled_bytes(pixels, grid, cell, t) == Seq::new(
            (3 * data_cells_before(grid, t)) as nat,
            |i: int| padded_byte(payload, i),
        ),
    decreases t,
{
    let f = |i: int| padded_byte(payload, i);
    if t == 0 {
        assert(sampled_bytes(pixels, grid, cell, 0) =~= Seq::new(0, f));
    } else {
        lemma_sampled_is_padded(payload, grid, cell, pixels, t - 1);
        let k = t - 1;
        lemma_index_of_cell_of(grid, k);
        let rc = cell_of(grid, k);
        let r = rc.0;
        let c = rc.1;
        let d = data_cells_before(grid, k);
        if is_marker(grid, r, c) {
            assert(sampled_bytes(pixels, grid, cell, t) =~= sampled_bytes(pixels, grid, cell, k));
        } else {
            let x = c * cell;
            let y = r * cell;
            assert((c + 1) * cell == c * cell + cell && c * cell >= 0 && (c + 1) * cell <= grid
                * cell) by (nonlinear_arith)
                requires
                    0 <= c < grid,
                    cell >= 1,
            ;
            assert((r + 1) * cell == r * cell + cell && r * cell >= 0 && (r + 1) * cell <= grid
                * cell) by (nonlinear_arith)
                requires
                    0 <= r < grid,
                    cell >= 1,
            ;
            lemma_block_quotient(x, c, cell);
            lemma_block_quotient(y, r, cell);
            assert(pixels[(x, y)] == cell_color(payload, grid, r, c));
            assert(cell_color(payload, grid, r, c) == chunk_of(payload, 3 * d));
            lemma_data_cells_bounds(grid, k);
            assert(data_cells_before(grid, t) == d + 1);
            assert(cell_bytes(pixels, grid, cell, k) =~= seq![f(3 * d), f(3 * d + 1), f(3 * d + 2)]);
            assert(sampled_bytes(pixels, grid, cell, t) =~= Seq::new(
                (3 * data_cells_before(grid, t)) as nat,
                f,
            ));
        }
    }
}

/// Round trip: an image encoded from any sentinel-free payload, at any
/// positive cell size, decodes to exactly that payload.
pub proof fn lemma_round_trip(
    payload: Seq<u8>,
    grid: int,
    cell: int,
    pixels: Map<(int, int), (u8, u8, u8)>,
)
    requires
        cell >= 1,
        grid == grid_size_spec(payload.len()),
        sentinel_free(payload),
        encodes(payload, grid, cell, pixels),
    ensures
        decoded_payload(pixels, grid, cell) == payload,
        (grid * cell) / cell == grid,
{
    assert((grid * cell) / cell == grid) by {
        assert(cell * grid == grid * cell) by (nonlinear_arith);
        vstd::arithmetic::div_mod::lemma_fundamental_div_mod_converse(grid * cell, cell, grid, 0);
    }
    let len = payload.len() as int;
    lemma_grid_size_at_least_two(payload.len());
    lemma_grid_size_exact(payload.len());
    lemma_data_cells_total(grid);
    assert(grid * grid >= required_cells_spec(payload.len()));
    lemma_sampled_is_padded(payload, grid, cell, pixels, grid * grid);
    vstd::arithmetic::div_mod::lemma_fundamental_div_mod(len + 4, 3);
    vstd::arithmetic::div_mod::lemma_mod_division_less_than_divisor(len + 4, 3);
    assert(3 * ((len + 4) / 3) >= len + 2);
    assert(3 * (grid * grid - 3) >= len + 1);
    lemma_take_until_padded_stream(payload, (3 * (grid * grid - 3)) as nat);
}

/// Marker fixity: on any encoded image the three marker blocks hold exactly
/// the three designated colors, whatever the payload was.
pub proof fn lemma_marker_fixity(
    payload: Seq<u8>,
    grid: int,
    cell: int,
    pixels: Map<(int, int), (u8, u8, u8)>,
)
    requires
        cell >= 1,
        grid >= 2,
        encodes(payload, grid, cell, pixels),
    ensures
        forall|x: int, y: int|
            0 <= x < cell && 0 <= y < cell ==> #[trigger] pixels[(x, y)] == (0u8, 255u8, 0u8),
        forall|x: int, y: int|
            (grid - 1) * cell <= x < grid * cell && 0 <= y < cell ==> #[trigger] pixels[(x, y)] == (
            255u8,
            0u8,
            0u8,
            ),
        forall|x: int, y: int|
            0 <= x < cell && (grid - 1) * cell <= y < grid * cell ==> #[trigger] pixels[(x, y)]
                == (255u8, 255u8, 0u8),
{
    assert(1 * cell <= grid * cell && 0 * cell == 0 && 1 * cell == cell && (grid - 1 + 1) * cell
        == grid * cell && (grid - 1) * cell >= 0) by (nonlinear_arith)
        requires
            grid >= 2,
            cell >= 1,
    ;
    assert forall|x: int, y: int| 0 <= x < cell && 0 <= y < cell implies #[trigger] pixels[(x, y)]
        == (0u8, 255u8, 0u8) by {
        lemma_block_quotient(x, 0, cell);
        lemma_block_quotient(y, 0, cell);
        assert(is_marker(grid, 0, 0));
    }
    assert forall|x: int, y: int|
        (grid - 1) * cell <= x < grid * cell && 0 <= y < cell implies #[trigger] pixels[(x, y)]
        == (255u8, 0u8, 0u8) by {
        lemma_block_quotient(x, grid - 1, cell);
        lemma_block_quotient(y, 0, cell);
        assert(is_marker(grid, 0, grid - 1));
        assert(marker_color(grid, 0, grid - 1) == (255u8, 0u8, 0u8));
    }
    assert forall|x: int, y: int|
        0 <= x < cell && (grid - 1) * cell <= y < grid * cell implies #[trigger] pixels[(x, y)]
        == (255u8, 255u8, 0u8) by {
        lemma_block_quotient(x, 0, cell);
        lemma_block_quotient(y, grid - 1, cell);
        assert(is_marker(grid, grid - 1, 0));
        assert(marker_color(grid, grid - 1, 0) == (255u8, 255u8, 0u8));
    }
}

/// Sentinel truncation: when a sentinel byte immediately follows the true
/// payload in the recovered stream, decoding returns exactly the payload,
/// dropping the sentinel and everything after it.
pub proof fn lemma_sentinel_truncation(payload: Seq<u8>, rest: Seq<u8>)
    requires
        sentinel_free(payload),
        rest.len() > 0,
        rest[0] == SENTINEL,
    ensures
        take_until_sentinel(payload + rest) == payload,
{
    lemma_take_until_after_free_prefix(payload, rest);
    assert(take_until_sentinel(rest) =~= Seq::<u8>::empty());
    assert(payload + Seq::<u8>::empty() =~= payload);
}

} // verus!

