//! Grid sampler: re-derives the grid from the image width, walks the same
//! traversal as the renderer, samples the top-left pixel of every non-marker
//! block, and reassembles bytes until the first sentinel.

use crate::grid::{is_marker, marker_check};
use crate::packer::{
    lemma_take_until_after_free_prefix, lemma_take_until_sentinel_free,
    lemma_take_until_stops_in_prefix, sentinel_free, take_until_sentinel, SENTINEL,
};
use crate::raster::{dims_of, pixels_of, Raster};
use crate::traversal::{cell_of, traversal_cell};
use crate::CodecError;
use vstd::prelude::*;

verus! {

/// The bytes that visit number `k` of the traversal contributes to the
/// recovered stream: none for a marker cell, and otherwise the three
/// channels of the block's top-left pixel.
pub open spec fn cell_bytes(
    pixels: Map<(int, int), (u8, u8, u8)>,
    grid: int,
    cell: int,
    k: int,
) -> Seq<u8> {
    let c = cell_of(grid, k);
    if is_marker(grid, c.0, c.1) {
        Seq::empty()
    } else {
        let p = pixels[(c.1 * cell, c.0 * cell)];
        seq![p.0, p.1, p.2]
    }
}

/// The byte stream recovered from the first `t` visited cells.
pub open spec fn sampled_bytes(
    pixels: Map<(int, int), (u8, u8, u8)>,
    grid: int,
    cell: int,
    t: int,
) -> Seq<u8>
    decreases t,
{
    if t <= 0 {
        Seq::empty()
    } else {
        sampled_bytes(pixels, grid, cell, t - 1) + cell_bytes(pixels, grid, cell, t - 1)
    }
}

/// What decoding returns on a well-formed image: the full recovered stream,
/// cut back at the first sentinel byte in any channel.
pub open spec fn decoded_payload(
    pixels: Map<(int, int), (u8, u8, u8)>,
    grid: int,
    cell: int,
) -> Seq<u8> {
    take_until_sentinel(sampled_bytes(pixels, grid, cell, grid * grid))
}

/// Once a sentinel has been seen, sampling further cells changes nothing of
/// the decoded payload.
proof fn lemma_sampled_stable(
    pixels: Map<(int, int), (u8, u8, u8)>,
    grid: int,
    cell: int,
    t1: int,
    t2: int,
)
    requires
        0 <= t1 <= t2,
        !sentinel_free(sampled_bytes(pixels, grid, cell, t1)),
    ensures
        !sentinel_free(sampled_bytes(pixels, grid, cell, t2)),
        take_until_sentinel(sampled_bytes(pixels, grid, cell, t2)) == take_until_sentinel(
            sampled_bytes(pixels, grid, cell, t1),
        ),
    decreases t2 - t1,
{
    if t2 > t1 {
        lemma_sampled_stable(pixels, grid, cell, t1, t2 - 1);
        let prev = sampled_bytes(pixels, grid, cell, t2 - 1);
        let i = choose|i: int| 0 <= i < prev.len() && prev[i] == SENTINEL;
        assert((prev + cell_bytes(pixels, grid, cell, t2 - 1))[i] == SENTINEL);
        lemma_take_until_stops_in_prefix(prev, cell_bytes(pixels, grid, cell, t2 - 1));
    }
}

/// Appends the recovered bytes of one cell to the output, stopping at the
/// first sentinel; says whether it stopped.
fn absorb_triple(out: &mut Vec<u8>, b0: u8, b1: u8, b2: u8) -> (stopped: bool)
    ensures
        final(out)@ == old(out)@ + take_until_sentinel(seq![b0, b1, b2]),
        stopped == !sentinel_free(seq![b0, b1, b2]),
{
    let ghost s = seq![b0, b1, b2];
    proof {
        assert(s.subrange(1, 3) =~= seq![b1, b2]);
        assert(seq![b1, b2].subrange(1, 2) =~= seq![b2]);
        assert(seq![b2].subrange(1, 1) =~= Seq::<u8>::empty());
        assert(s[0] == b0 && s[1] == b1 && s[2] == b2);
        assert(take_until_sentinel(Seq::<u8>::empty()) =~= Seq::<u8>::empty());
    }
    if b0 == SENTINEL {
        proof {
            assert(old(out)@ + take_until_sentinel(s) =~= old(out)@);
        }
        return true;
    }
    out.push(b0);
    if b1 == SENTINEL {
        proof {
            assert(take_until_sentinel(seq![b1, b2]) =~= Seq::<u8>::empty());
            assert(take_until_sentinel(s) =~= seq![b0]);
            assert(old(out)@ + take_until_sentinel(s) =~= old(out)@.push(b0));
        }
        return true;
    }
    out.push(b1);
    if b2 == SENTINEL {
        proof {
            assert(take_until_sentinel(seq![b2]) =~= Seq::<u8>::empty());
            assert(take_until_sentinel(seq![b1, b2]) =~= seq![b1]);
            assert(take_until_sentinel(s) =~= seq![b0, b1]);
            assert(old(out)@ + take_until_sentinel(s) =~= old(out)@.push(b0).push(b1));
        }
        return true;
    }
    out.push(b2);
    proof {
        assert(take_until_sentinel(seq![b2]) =~= seq![b2]);
        assert(take_until_sentinel(seq![b1, b2]) =~= seq![b1, b2]);
        assert(take_until_sentinel(s) =~= s);
        assert(old(out)@ + s =~= old(out)@.push(b0).push(b1).push(b2));
        assert(sentinel_free(s));
    }
    false
}

/// Decodes a block image: derives the grid from the image width, samples one
/// pixel per non-marker cell in traversal order, and returns all bytes that
/// precede the first sentinel.
///
/// The cell size must be positive and the image a square whose width is an
/// exact multiple of the cell size; anything else is rejected rather than
/// silently truncated.
pub fn decode_snaking_qr_grid(img: &Raster, cell_size: u32) -> (r: Result<Vec<u8>, CodecError>)
    requires
        (dims_of(*img).0 as int / cell_size as int) * (dims_of(*img).0 as int / cell_size as int)
            <= usize::MAX,
    ensures
        r is Ok <==> (cell_size >= 1 && dims_of(*img).0 as int % (cell_size as int) == 0 && dims_of(
            *img,
        ).0 == dims_of(*img).1),
        cell_size == 0 ==> r == Err::<Vec<u8>, CodecError>(CodecError::ZeroCellSize),
        cell_size >= 1 && dims_of(*img).0 as int % (cell_size as int) != 0 ==> r == Err::<
            Vec<u8>,
            CodecError,
        >(CodecError::MisalignedImageWidth),
        cell_size >= 1 && dims_of(*img).0 as int % (cell_size as int) == 0 && dims_of(*img).0
            != dims_of(*img).1 ==> r == Err::<Vec<u8>, CodecError>(CodecError::NonSquareImage),
        r matches Ok(out) ==> out@ == decoded_payload(
            pixels_of(*img),
            dims_of(*img).0 as int / cell_size as int,
            cell_size as int,
        ),
{
    if cell_size == 0 {
        return Err(CodecError::ZeroCellSize);
    }
    let w = img.width();
    let h = img.height();
    if w % cell_size != 0 {
        return Err(CodecError::MisalignedImageWidth);
    }
    if w != h {
        return Err(CodecError::NonSquareImage);
    }
    let grid = w / cell_size;
    let grid_us = grid as usize;
    let ghost gi = grid as int;
    let ghost ci = cell_size as int;
    let ghost pix = pixels_of(*img);
    proof {
        vstd::arithmetic::div_mod::lemma_fundamental_div_mod(w as int, ci);
        assert(ci * gi == gi * ci) by (nonlinear_arith);
        assert(gi * ci == w);
    }
    let n2 = grid_us * grid_us;
    let mut out: Vec<u8> = Vec::new();
    let mut t: usize = 0;
    proof {
        assert(out@ =~= sampled_bytes(pix, gi, ci, 0));
    }
    while t < n2
        invariant_except_break
            out@ == sampled_bytes(pix, gi, ci, t as int),
            sentinel_free(out@),
        invariant
            t <= n2,
            n2 == grid_us * grid_us,
            gi == grid_us as int,
            ci == cell_size as int,
            cell_size >= 1,
            gi * ci == dims_of(*img).0,
            dims_of(*img).0 == dims_of(*img).1,
            pix == pixels_of(*img),
        ensures
            out@ == take_until_sentinel(sampled_bytes(pix, gi, ci, n2 as int)) || (out@
                == sampled_bytes(pix, gi, ci, n2 as int) && sentinel_free(out@)),
        decreases n2 - t,
    {
        proof {
            if grid_us == 0 {
                assert(n2 == 0);
            }
        }
        let (row, col) = traversal_cell(grid_us, t);
        if !marker_check(grid_us, row, col) {
            proof {
                assert((col + 1) * cell_size == col * cell_size + cell_size && col * cell_size
                    + cell_size <= grid_us * cell_size && col <= col * cell_size && col * cell_size
                    >= 0) by (nonlinear_arith)
                    requires
                        0 <= col < grid_us,
                        cell_size >= 1,
                ;
                assert((row + 1) * cell_size == row * cell_size + cell_size && row * cell_size
                    + cell_size <= grid_us * cell_size && row <= row * cell_size && row * cell_size
                    >= 0) by (nonlinear_arith)
                    requires
                        0 <= row < grid_us,
                        cell_size >= 1,
                ;
                assert(grid_us * cell_size == gi * ci);
            }
            let c = img.pixel((col as u32) * cell_size, (row as u32) * cell_size);
            proof {
                assert(cell_bytes(pix, gi, ci, t as int) =~= seq![c.0, c.1, c.2]);
            }
            let stopped = absorb_triple(&mut out, c.0, c.1, c.2);
            let ghost triple = seq![c.0, c.1, c.2];
            proof {
                assert(sampled_bytes(pix, gi, ci, t + 1) == sampled_bytes(pix, gi, ci, t as int)
                    + cell_bytes(pix, gi, ci, t as int));
            }
            if stopped {
                proof {
                    let prev = sampled_bytes(pix, gi, ci, t as int);
                    lemma_take_until_after_free_prefix(prev, triple);
                    let j = choose|j: int| 0 <= j < triple.len() && triple[j] == SENTINEL;
                    assert((prev + triple)[prev.len() + j] == SENTINEL);
                    assert(!sentinel_free(sampled_bytes(pix, gi, ci, t + 1)));
                    lemma_sampled_stable(pix, gi, ci, t + 1, n2 as int);
                }
                break;
            }
            proof {
                lemma_take_until_sentinel_free(triple);
                assert(out@ == sampled_bytes(pix, gi, ci, t + 1));
                assert forall|i: int| 0 <= i < out@.len() implies out@[i] != SENTINEL by {}
            }
        } else {
            proof {
                assert(sampled_bytes(pix, gi, ci, t + 1) =~= sampled_bytes(pix, gi, ci, t as int));
            }
        }
        t = t + 1;
    }
    proof {
        if sentinel_free(out@) && out@ == sampled_bytes(pix, gi, ci, n2 as int) {
            lemma_take_until_sentinel_free(out@);
        }
    }
    Ok(out)
}

} // verus!
