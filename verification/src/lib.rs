//! A codec that embeds a short byte payload into a square raster image of
//! solid-color blocks and recovers the exact payload from such an image.
//!
//! The image is a `grid_size x grid_size` grid of solid `cell_size x
//! cell_size` pixel blocks, visited in boustrophedon order from the bottom
//! row upward. Three fixed corner cells carry orientation markers; the other
//! cells carry three payload bytes each as an RGB color, padded with the
//! sentinel byte. Decoding samples one pixel per cell in the same order and
//! stops at the first sentinel byte it recovers.

use vstd::prelude::*;

pub mod geometry;
pub mod grid;
pub mod laws;
pub mod packer;
pub mod raster;
pub mod renderer;
pub mod sampler;
pub mod traversal;

verus! {

/// How a codec call can fail: a degenerate cell size, a payload that
/// contains the sentinel byte, or an image whose dimensions cannot have come
/// from this encoder.
#[derive(Clone, Copy, Debug, PartialEq, Eq, Structural)]
pub enum CodecError {
    /// The cell size is zero, so no grid geometry exists.
    ZeroCellSize,
    /// The payload contains the sentinel byte and would be truncated there
    /// on decode.
    SentinelInPayload,
    /// The image width is not an exact multiple of the cell size.
    MisalignedImageWidth,
    /// The image is not square.
    NonSquareImage,
}

} // verus!
