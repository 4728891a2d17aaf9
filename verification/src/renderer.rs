//! Grid renderer: walks the traversal order, resolves each visited cell to a
//! marker color, the next payload chunk, or the background, and paints a
//! solid block of `cell_size x cell_size` pixels at the cell's pixel origin.

use crate::geometry::{
    grid_size, grid_size_spec, lemma_grid_size_at_least_two, lemma_grid_size_bound,
};
use crate::grid::{
    cell_color, data_cells_before, encodes, lemma_block_in_grid, lemma_block_quotient,
    lemma_data_cells_bounds, marker_check, marker_color_at,
};
use crate::packer::{
    chunk_of, get_color_chunk, payload_is_sentinel_free, sentinel_free, SENTINEL,
};
use crate::raster::{dims_of, pixels_of, Raster};
use crate::traversal::{index_of, lemma_cell_of_index_of, lemma_index_of_cell_of, traversal_cell};
use crate::CodecError;
use vstd::prelude::*;

verus! {

/// Paints the axis-aligned square of side `size` whose top-left pixel is
/// `(x, y)` in one solid color, clipped to the image bounds; every other
/// pixel keeps its color.
pub fn draw_rectangle(img: &mut Raster, color: (u8, u8, u8), x: u32, y: u32, size: u32)
    requires
        x + size <= u32::MAX,
        y + size <= u32::MAX,
    ensures
        dims_of(*final(img)) == dims_of(*old(img)),
        forall|px: int, py: int|
            0 <= px < dims_of(*old(img)).0 && 0 <= py < dims_of(*old(img)).1
                ==> #[trigger] pixels_of(*final(img))[(px, py)] == (if x <= px < x + size && y <= py
                < y + size {
                color
            } else {
                pixels_of(*old(img))[(px, py)]
            }),
{
    let ghost img0 = *img;
    let w = img.width();
    let h = img.height();
    let mut dy: u32 = 0;
    while dy < size
        invariant
            dy <= size,
            x + size <= u32::MAX,
            y + size <= u32::MAX,
            w == dims_of(img0).0,
            h == dims_of(img0).1,
            dims_of(*img) == dims_of(img0),
            forall|px: int, py: int|
                0 <= px < w && 0 <= py < h ==> #[trigger] pixels_of(*img)[(px, py)] == (if x <= px
                    < x + size && y <= py < y + dy {
                    color
                } else {
                    pixels_of(img0)[(px, py)]
                }),
        decreases size - dy,
    {
        let mut dx: u32 = 0;
        while dx < size
            invariant
                dx <= size,
                dy < size,
                x + size <= u32::MAX,
                y + size <= u32::MAX,
                w == dims_of(img0).0,
                h == dims_of(img0).1,
                dims_of(*img) == dims_of(img0),
                forall|px: int, py: int|
                    0 <= px < w && 0 <= py < h ==> #[trigger] pixels_of(*img)[(px, py)] == (if (x
                        <= px < x + size && y <= py < y + dy) || (py == y + dy && x <= px < x + dx)
                         {
                        color
                    } else {
                        pixels_of(img0)[(px, py)]
                    }),
            decreases size - dx,
        {
            let px_x = x + dx;
            let px_y = y + dy;
            if px_x < w && px_y < h {
                img.set_pixel(px_x, px_y, color);
            }
            dx = dx + 1;
        }
        dy = dy + 1;
    }
}

/// Encodes `payload` into a fresh square image of solid blocks.
///
/// The grid side is the smallest square that holds the payload and the three
/// markers; each cell becomes a `cell_size x cell_size` block. A zero cell
/// size is rejected before any grid math, and a payload that contains the
/// sentinel byte is rejected because decoding would truncate it there.
pub fn create_snaking_qr_grid(payload: &[u8], cell_size: u32) -> (r: Result<Raster, CodecError>)
    requires
        payload@.len() + 4 <= usize::MAX,
        grid_size_spec(payload@.len()) * cell_size <= u32::MAX,
        3 * (grid_size_spec(payload@.len()) * cell_size) * (grid_size_spec(payload@.len())
            * cell_size) <= usize::MAX,
    ensures
        r is Ok <==> (cell_size >= 1 && sentinel_free(payload@)),
        cell_size == 0 ==> r == Err::<Raster, CodecError>(CodecError::ZeroCellSize),
        cell_size >= 1 && !sentinel_free(payload@) ==> r == Err::<Raster, CodecError>(
            CodecError::SentinelInPayload,
        ),
        r matches Ok(img) ==> {
            let g = grid_size_spec(payload@.len());
            dims_of(img) == (((g * cell_size) as u32), ((g * cell_size) as u32)) && encodes(
                payload@,
                g as int,
                cell_size as int,
                pixels_of(img),
            )
        },
{
    if cell_size == 0 {
        return Err(CodecError::ZeroCellSize);
    }
    if !payload_is_sentinel_free(payload) {
        return Err(CodecError::SentinelInPayload);
    }
    let g = grid_size(payload.len());
    let ghost gi = g as int;
    let ghost ci = cell_size as int;
    proof {
        lemma_grid_size_at_least_two(payload@.len());
        lemma_grid_size_bound(payload@.len());
        assert(g * 1 <= g * cell_size) by (nonlinear_arith)
            requires
                cell_size >= 1,
                g >= 0,
        ;
        assert(g * g <= (g * cell_size) * (g * cell_size)) by (nonlinear_arith)
            requires
                cell_size >= 1,
                g >= 0,
        ;
    }
    let img_size = (g as u32) * cell_size;
    let mut img = Raster::new(img_size, img_size);
    let n2 = g * g;
    proof {
        assert(3 * n2 <= usize::MAX) by (nonlinear_arith)
            requires
                n2 == g * g,
                cell_size >= 1,
                g >= 0,
                3 * (g * cell_size) * (g * cell_size) <= usize::MAX,
        ;
        assert forall|px: int, py: int| 0 <= px < gi * ci && 0 <= py < gi * ci implies
            #[trigger] pixels_of(img)[(px, py)] == (0u8, 0u8, 0u8) && index_of(
            gi,
            py / ci,
            px / ci,
        ) >= 0 by {
            lemma_block_in_grid(px, gi, ci);
            lemma_block_in_grid(py, gi, ci);
            lemma_cell_of_index_of(gi, py / ci, px / ci);
        }
    }
    let mut t: usize = 0;
    let mut data_index: usize = 0;
    while t < n2
        invariant
            t <= n2,
            n2 == g * g,
            g >= 2,
            gi == g as int,
            ci == cell_size as int,
            cell_size >= 1,
            g * cell_size <= u32::MAX,
            3 * n2 <= usize::MAX,
            img_size == g * cell_size,
            dims_of(img) == (img_size, img_size),
            data_index == data_cells_before(gi, t as int),
            forall|px: int, py: int|
                0 <= px < gi * ci && 0 <= py < gi * ci ==> #[trigger] pixels_of(img)[(px, py)]
                    == (if index_of(gi, py / ci, px / ci) < t {
                    cell_color(payload@, gi, py / ci, px / ci)
                } else {
                    (0u8, 0u8, 0u8)
                }),
        decreases n2 - t,
    {
        proof {
            lemma_index_of_cell_of(gi, t as int);
            lemma_data_cells_bounds(gi, t as int);
        }
        let (row, col) = traversal_cell(g, t);
        let color: (u8, u8, u8);
        if marker_check(g, row, col) {
            color = marker_color_at(row, col);
        } else {
            proof {
                assert(3 * data_index + 2 < 3 * n2);
            }
            let idx = 3 * data_index;
            if idx < payload.len() {
                color = get_color_chunk(payload, idx);
            } else {
                color = (SENTINEL, SENTINEL, SENTINEL);
            }
            assert(color == chunk_of(payload@, idx as int));
            data_index = data_index + 1;
        }
        assert(color == cell_color(payload@, gi, row as int, col as int));
        proof {
            assert((col + 1) * cell_size == col * cell_size + cell_size && col * cell_size
                + cell_size <= g * cell_size && col <= col * cell_size && col * cell_size >= 0) by (
            nonlinear_arith)
                requires
                    0 <= col < g,
                    cell_size >= 1,
            ;
            assert((row + 1) * cell_size == row * cell_size + cell_size && row * cell_size
                + cell_size <= g * cell_size && row <= row * cell_size && row * cell_size >= 0) by (
            nonlinear_arith)
                requires
                    0 <= row < g,
                    cell_size >= 1,
            ;
        }
        let x = (col as u32) * cell_size;
        let y = (row as u32) * cell_size;
        let ghost before = img;
        draw_rectangle(&mut img, color, x, y, cell_size);
        proof {
            assert forall|px: int, py: int| 0 <= px < gi * ci && 0 <= py < gi * ci implies
                #[trigger] pixels_of(img)[(px, py)] == (if index_of(gi, py / ci, px / ci) < t + 1 {
                cell_color(payload@, gi, py / ci, px / ci)
            } else {
                (0u8, 0u8, 0u8)
            }) by {
                let pre = pixels_of(before)[(px, py)];
                lemma_block_in_grid(px, gi, ci);
                lemma_block_in_grid(py, gi, ci);
                let r0 = py / ci;
                let c0 = px / ci;
                lemma_block_quotient(px, c0, ci);
                lemma_block_quotient(py, r0, ci);
                lemma_cell_of_index_of(gi, r0, c0);
                lemma_block_quotient(px, col as int, ci);
                lemma_block_quotient(py, row as int, ci);
            }
        }
        t = t + 1;
    }
    proof {
        assert forall|px: int, py: int| 0 <= px < gi * ci && 0 <= py < gi * ci implies
            #[trigger] pixels_of(img)[(px, py)] == cell_color(payload@, gi, py / ci, px / ci) by {
            lemma_block_in_grid(px, gi, ci);
            lemma_block_in_grid(py, gi, ci);
            lemma_cell_of_index_of(gi, py / ci, px / ci);
        }
    }
    Ok(img)
}

} // verus!
