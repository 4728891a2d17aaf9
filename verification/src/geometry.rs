//! Geometry calculator: derives the grid dimension (in cells) and the image
//! dimension (in pixels) from the payload length and the chosen cell size.
//!
//! A payload of `len` bytes is packed three bytes per cell, rounded up
//! conservatively, and three extra cells are reserved for the corner markers:
//! `required_cells = ceil((len + 2) / 3) + 3`. The grid is the smallest
//! square that holds that many cells.

use vstd::prelude::*;

verus! {

/// `ceil((len + 2) / 3) + 3`: cells needed for the payload (three bytes per
/// cell, rounded up conservatively) plus the three marker cells.
pub open spec fn required_cells_spec(len: nat) -> nat {
    (len + 2 + 2) / 3 + 3
}

/// The smallest `n >= lo` with `n * n >= req`.
pub open spec fn grid_from(req: nat, lo: nat) -> nat
    decreases req - lo,
        via grid_from_decreases
{
    if lo * lo >= req {
        lo
    } else {
        grid_from(req, lo + 1)
    }
}

#[via_fn]
proof fn grid_from_decreases(req: nat, lo: nat) {
    assert(lo * lo < req ==> lo < req) by (nonlinear_arith);
}

/// The side of the smallest square grid that holds `required_cells_spec(len)`
/// cells.
pub open spec fn grid_size_spec(len: nat) -> nat {
    grid_from(required_cells_spec(len), 0)
}

/// `grid_from(req, lo)` is the least `n >= lo` whose square reaches `req`.
proof fn lemma_grid_from(req: nat, lo: nat)
    ensures
        grid_from(req, lo) >= lo,
        grid_from(req, lo) * grid_from(req, lo) >= req,
        forall|m: nat| lo <= m < grid_from(req, lo) ==> #[trigger] (m * m) < req,
    decreases req - lo,
{
    if lo * lo >= req {
    } else {
        assert(lo * lo < req ==> lo < req) by (nonlinear_arith);
        lemma_grid_from(req, lo + 1);
    }
}

/// The grid side squared reaches the required cell count, and no smaller
/// side does.
pub proof fn lemma_grid_size_exact(len: nat)
    ensures
        grid_size_spec(len) * grid_size_spec(len) >= required_cells_spec(len),
        forall|m: nat| m < grid_size_spec(len) ==> #[trigger] (m * m) < required_cells_spec(len),
{
    lemma_grid_from(required_cells_spec(len), 0);
}

/// Even an empty payload needs a grid with room for the three markers.
pub proof fn lemma_grid_size_at_least_two(len: nat)
    ensures
        grid_size_spec(len) >= 2,
{
    lemma_grid_size_exact(len);
    let g = grid_size_spec(len);
    if g < 2 {
        assert(g * g < 4) by (nonlinear_arith)
            requires
                g < 2,
        ;
        assert(required_cells_spec(len) >= 4);
    }
}

/// The grid side never shrinks as the payload grows.
pub proof fn lemma_grid_size_monotonic(len1: nat, len2: nat)
    requires
        len1 <= len2,
    ensures
        grid_size_spec(len1) <= grid_size_spec(len2),
{
    lemma_grid_size_exact(len1);
    lemma_grid_size_exact(len2);
    let g1 = grid_size_spec(len1);
    let g2 = grid_size_spec(len2);
    if g1 > g2 {
        assert(g2 * g2 < required_cells_spec(len1));
        assert((len1 + 2 + 2) / 3 <= (len2 + 2 + 2) / 3) by {
            vstd::arithmetic::div_mod::lemma_div_is_ordered(
                (len1 + 2 + 2) as int,
                (len2 + 2 + 2) as int,
                3,
            );
        }
    }
}

/// A payload that fits in memory yields a grid side well under `u32::MAX`.
pub proof fn lemma_grid_size_bound(len: nat)
    requires
        len + 4 <= usize::MAX,
    ensures
        grid_size_spec(len) <= 0x9502_F900,
        grid_size_spec(len) * grid_size_spec(len) <= usize::MAX,
{
    lemma_grid_size_exact(len);
    let g = grid_size_spec(len);
    let req = required_cells_spec(len);
    assert((len + 2 + 2) / 3 <= usize::MAX / 3) by {
        vstd::arithmetic::div_mod::lemma_div_is_ordered((len + 2 + 2) as int, usize::MAX as int, 3);
    }
    if g >= 1 {
        assert(((g - 1) as nat) * ((g - 1) as nat) < req);
        if usize::MAX == 0xFFFF_FFFF {
            assert(g <= 0xB505 && g * g <= 0xFFFF_FFFF) by (nonlinear_arith)
                requires
                    (g - 1) * (g - 1) < req,
                    req <= 0x5555_5558,
            ;
        } else {
            assert(usize::MAX == 0xFFFF_FFFF_FFFF_FFFF);
            assert(g <= 0x9502_F900 && g * g <= 0xFFFF_FFFF_FFFF_FFFF) by (nonlinear_arith)
                requires
                    (g - 1) * (g - 1) < req,
                    req <= 0x5555_5555_5555_5558,
            ;
        }
    }
}

/// Cells needed for a payload of `payload_len` bytes, markers included.
pub fn required_cells(payload_len: usize) -> (r: usize)
    requires
        payload_len + 4 <= usize::MAX,
    ensures
        r == required_cells_spec(payload_len as nat),
{
    (payload_len + 4) / 3 + 3
}

/// Side of the smallest square grid that holds a payload of `payload_len`
/// bytes together with the three marker cells.
pub fn grid_size(payload_len: usize) -> (g: usize)
    requires
        payload_len + 4 <= usize::MAX,
    ensures
        g == grid_size_spec(payload_len as nat),
{
    let req = required_cells(payload_len);
    let ghost gs = grid_size_spec(payload_len as nat);
    proof {
        lemma_grid_size_exact(payload_len as nat);
        lemma_grid_size_bound(payload_len as nat);
    }
    let mut n: usize = 0;
    loop
        invariant
            n <= gs,
            gs <= 0x9502_F900,
            gs * gs <= usize::MAX,
            gs * gs >= req,
            req == required_cells_spec(payload_len as nat),
            forall|m: nat| m < gs ==> #[trigger] (m * m) < req,
        ensures
            n == gs,
        decreases gs - n,
    {
        proof {
            assert(n * n <= gs * gs) by (nonlinear_arith)
                requires
                    n <= gs,
            ;
        }
        if n * n >= req {
            proof {
                if n < gs {
                    assert((n as nat) * (n as nat) < req);
                }
            }
            break;
        }
        proof {
            assert(n < gs);
        }
        n = n + 1;
    }
    n
}

/// Side of the rendered image in pixels: `grid_size * cell_size`.
pub fn image_size(payload_len: usize, cell_size: u32) -> (s: u32)
    requires
        payload_len + 4 <= usize::MAX,
        cell_size >= 1,
        grid_size_spec(payload_len as nat) * cell_size <= u32::MAX,
    ensures
        s == grid_size_spec(payload_len as nat) * cell_size,
{
    let g = grid_size(payload_len);
    proof {
        assert(g * 1 <= g * cell_size) by (nonlinear_arith)
            requires
                cell_size >= 1,
                g >= 0,
        ;
    }
    (g as u32) * cell_size
}

} // verus!
