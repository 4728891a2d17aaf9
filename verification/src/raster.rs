//! The pixel buffer: the codec renders into, and samples from, an
//! `image::ImageBuffer` of 8-bit RGB pixels. The buffer type cannot be
//! declared to the verifier (its type parameter carries the crate's `Pixel`
//! bound), so it lives in a private field of an opaque struct; its
//! dimensions and contents are named here, and every call into the crate
//! goes through a wrapper whose contract states what the crate's source
//! shows.

use vstd::prelude::*;

verus! {

/// A `width x height` buffer of 8-bit RGB pixels.
#[verifier::external_body]
pub struct Raster {
    inner: image::RgbImage,
}

/// The width and height of a pixel buffer.
pub uninterp spec fn dims_of(img: Raster) -> (u32, u32);

/// The contents of a pixel buffer: the color triple at each coordinate
/// `(x, y)`, for `0 <= x < width` and `0 <= y < height`.
pub uninterp spec fn pixels_of(img: Raster) -> Map<(int, int), (u8, u8, u8)>;

/// Relies on `image::ImageBuffer::new`: a `width x height` RGB buffer with
/// every sample zeroed; it panics only when the buffer length `3 * width *
/// height` overflows `usize`.
#[verifier::external_body]
fn raster_new(width: u32, height: u32) -> (img: Raster)
    requires
        3 * width * height <= usize::MAX,
    ensures
        dims_of(img) == (width, height),
        forall|x: int, y: int|
            0 <= x < width && 0 <= y < height ==> pixels_of(img)[(x, y)] == (0u8, 0u8, 0u8),
{
    Raster { inner: image::ImageBuffer::new(width, height) }
}

/// Relies on `image::ImageBuffer::put_pixel`: overwrites the pixel at
/// `(x, y)` and nothing else; it panics only when `(x, y)` is out of bounds.
#[verifier::external_body]
fn raster_put(img: &mut Raster, x: u32, y: u32, color: (u8, u8, u8))
    requires
        x < dims_of(*old(img)).0,
        y < dims_of(*old(img)).1,
    ensures
        dims_of(*final(img)) == dims_of(*old(img)),
        pixels_of(*final(img)) == pixels_of(*old(img)).insert((x as int, y as int), color),
{
    img.inner.put_pixel(x, y, image::Rgb([color.0, color.1, color.2]));
}

/// Relies on `image::ImageBuffer::get_pixel`: reads the pixel at `(x, y)`;
/// it panics only when `(x, y)` is out of bounds.
#[verifier::external_body]
fn raster_get(img: &Raster, x: u32, y: u32) -> (color: (u8, u8, u8))
    requires
        x < dims_of(*img).0,
        y < dims_of(*img).1,
    ensures
        color == pixels_of(*img)[(x as int, y as int)],
{
    let p = img.inner.get_pixel(x, y);
    (p.0[0], p.0[1], p.0[2])
}

/// Relies on `image::ImageBuffer::width`.
#[verifier::external_body]
fn raster_width(img: &Raster) -> (w: u32)
    ensures
        w == dims_of(*img).0,
{
    img.inner.width()
}

/// Relies on `image::ImageBuffer::height`.
#[verifier::external_body]
fn raster_height(img: &Raster) -> (h: u32)
    ensures
        h == dims_of(*img).1,
{
    img.inner.height()
}

impl Raster {
    /// A fresh buffer with every pixel black.
    pub fn new(width: u32, height: u32) -> (img: Raster)
        requires
            3 * width * height <= usize::MAX,
        ensures
            dims_of(img) == (width, height),
            forall|x: int, y: int|
                0 <= x < width && 0 <= y < height ==> pixels_of(img)[(x, y)] == (0u8, 0u8, 0u8),
    {
        raster_new(width, height)
    }

    /// The buffer's width in pixels.
    pub fn width(&self) -> (w: u32)
        ensures
            w == dims_of(*self).0,
    {
        raster_width(self)
    }

    /// The buffer's height in pixels.
    pub fn height(&self) -> (h: u32)
        ensures
            h == dims_of(*self).1,
    {
        raster_height(self)
    }

    /// The color triple at `(x, y)`.
    pub fn pixel(&self, x: u32, y: u32) -> (color: (u8, u8, u8))
        requires
            x < dims_of(*self).0,
            y < dims_of(*self).1,
        ensures
            color == pixels_of(*self)[(x as int, y as int)],
    {
        raster_get(self, x, y)
    }

    /// Overwrites the pixel at `(x, y)`.
    pub fn set_pixel(&mut self, x: u32, y: u32, color: (u8, u8, u8))
        requires
            x < dims_of(*old(self)).0,
            y < dims_of(*old(self)).1,
        ensures
            dims_of(*final(self)) == dims_of(*old(self)),
            pixels_of(*final(self)) == pixels_of(*old(self)).insert(
                (x as int, y as int),
                color,
            ),
    {
        raster_put(self, x, y, color)
    }
}

} // verus!
