//! The pixel buffer: a thin trusted layer over `image::RgbaImage`.
//!
//! The rasterizer stores its pixels in an `image::RgbaImage`.  Verus
//! cannot read that type (its `Pixel` trait bound cannot be declared), so
//! the buffer is held in an opaque struct.  Its state is described by two
//! named spec functions, `img_dims` and `img_pixels`, and every access
//! goes through a small wrapper whose contract states, over those names,
//! what the `image` crate's source shows the call does.

use vstd::prelude::*;
use crate::color::Color;

verus! {

/// An RGBA pixel buffer, backed by an `image::RgbaImage`.
#[verifier::external_body]
pub struct PixelBuffer {
    img: image::RgbaImage,
}

/// The width and height of a buffer, in pixels.
pub uninterp spec fn img_dims(img: PixelBuffer) -> (u32, u32);

/// The contents of a buffer: a map from in-bounds `(x, y)` coordinates to
/// the `(r, g, b, a)` channels of the pixel stored there.
pub uninterp spec fn img_pixels(img: PixelBuffer) -> Map<(u32, u32), (u8, u8, u8, u8)>;

/// The map of an image whose pixels all hold `c`.
pub open spec fn uniform_pixels(width: u32, height: u32, c: (u8, u8, u8, u8)) -> Map<
    (u32, u32),
    (u8, u8, u8, u8),
> {
    Map::new(|p: (u32, u32)| p.0 < width && p.1 < height, |p: (u32, u32)| c)
}

/// The set of coordinates a `width` by `height` buffer covers.
pub open spec fn grid_dom(width: u32, height: u32) -> Set<(u32, u32)> {
    Set::new(|p: (u32, u32)| p.0 < width && p.1 < height)
}

/// A buffer is well formed when its contents cover exactly its bounds.
pub open spec fn img_wf(img: PixelBuffer) -> bool {
    img_pixels(img).dom() == grid_dom(img_dims(img).0, img_dims(img).1)
}

/// Relies on `image::RgbaImage::new`: a fresh `width` by `height` buffer
/// with every channel of every pixel zero.  The `image` source computes
/// the backing length as `4 * width * height` in `usize` and panics when
/// that overflows, hence the precondition.
#[verifier::external_body]
pub(crate) fn image_new(width: u32, height: u32) -> (img: PixelBuffer)
    requires
        4 * (width as int) * (height as int) <= usize::MAX,
    ensures
        img_dims(img) == (width, height),
        img_pixels(img) == uniform_pixels(width, height, (0u8, 0u8, 0u8, 0u8)),
{
    PixelBuffer { img: image::RgbaImage::new(width, height) }
}

/// Relies on `image::RgbaImage::width`.
#[verifier::external_body]
pub(crate) fn image_width(img: &PixelBuffer) -> (w: u32)
    ensures
        w == img_dims(*img).0,
{
    img.img.width()
}

/// Relies on `image::RgbaImage::height`.
#[verifier::external_body]
pub(crate) fn image_height(img: &PixelBuffer) -> (h: u32)
    ensures
        h == img_dims(*img).1,
{
    img.img.height()
}

/// Relies on `image::RgbaImage::put_pixel`: stores the four channels at
/// `(x, y)`.  The call panics out of bounds, hence the precondition.
#[verifier::external_body]
pub(crate) fn image_put_pixel(img: &mut PixelBuffer, x: u32, y: u32, c: Color)
    requires
        x < img_dims(*old(img)).0,
        y < img_dims(*old(img)).1,
    ensures
        img_dims(*final(img)) == img_dims(*old(img)),
        img_pixels(*final(img)) == img_pixels(*old(img)).insert((x, y), (c.r, c.g, c.b, c.a)),
{
    img.img.put_pixel(x, y, image::Rgba([c.r, c.g, c.b, c.a]));
}

/// Relies on `image::RgbaImage::get_pixel`: returns the four channels
/// stored at `(x, y)`.  The call panics out of bounds, hence the
/// precondition.
#[verifier::external_body]
pub(crate) fn image_get_pixel(img: &PixelBuffer, x: u32, y: u32) -> (c: (u8, u8, u8, u8))
    requires
        x < img_dims(*img).0,
        y < img_dims(*img).1,
    ensures
        c == img_pixels(*img)[(x, y)],
{
    let p = img.img.get_pixel(x, y);
    (p.0[0], p.0[1], p.0[2], p.0[3])
}

/// Relies on `image::ImageBuffer::as_raw`: the backing bytes, row major,
/// four bytes per pixel, the pixel at `(x, y)` starting at byte
/// `4 * (y * width + x)`.
#[verifier::external_body]
pub fn image_raw_bytes(img: &PixelBuffer) -> (bytes: Vec<u8>)
    ensures
        bytes@.len() == 4 * (img_dims(*img).0 as int) * (img_dims(*img).1 as int),
        forall|x: u32, y: u32|
            x < img_dims(*img).0 && y < img_dims(*img).1 && img_pixels(*img).dom().contains(
                (x, y),
            ) ==> {
                let i = 4 * ((y as int) * (img_dims(*img).0 as int) + (x as int));
                let c = img_pixels(*img)[(x, y)];
                bytes@[i] == c.0 && bytes@[i + 1] == c.1 && bytes@[i + 2] == c.2 && bytes@[i + 3]
                    == c.3
            },
{
    img.img.as_raw().clone()
}

} // verus!
