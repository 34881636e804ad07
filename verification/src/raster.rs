//! Images as the `image` crate holds them. The buffer itself is opaque to the
//! verifier: what is known of it is what the four functions that call into the
//! `image` crate state, without proof, over `raster_grid`.

use crate::grid::GridView;
use crate::pixel::Pixel;
use vstd::prelude::*;

verus! {

/// An RGB image of 8-bit channels, held in an `image::RgbImage`, which is an
/// `image::ImageBuffer` over `Rgb<u8>` pixels.
#[verifier::external_body]
#[derive(Debug, PartialEq, Eq)]
pub struct Raster {
    buffer: image::RgbImage,
}

/// Whether an image of these dimensions fits a buffer: each dimension in 32
/// bits, three bytes per pixel of a row in a `usize`, and three bytes per pixel
/// of the image in what a vector can hold, which is `isize::MAX` bytes.
pub open spec fn fits_raster(width: nat, height: nat) -> bool {
    &&& width <= u32::MAX
    &&& height <= u32::MAX
    &&& 3 * width <= usize::MAX
    &&& 3 * width * height <= isize::MAX
}

/// What a raster holds: its width, its height and its pixels row by row, the
/// first row first.
pub uninterp spec fn raster_grid(raster: Raster) -> GridView<Pixel>;

impl View for Raster {
    type V = GridView<Pixel>;

    open spec fn view(&self) -> GridView<Pixel> {
        raster_grid(*self)
    }
}

/// `image::ImageBuffer::new` for `Rgb<u8>` pixels: a buffer of the given
/// dimensions in which every channel of every pixel is 0. The call multiplies
/// three bytes by the width and then by the height and panics where one of the
/// products does not fit a `usize`, or where the bytes are more than a vector
/// can hold; `requires` leaves both out.
#[verifier::external_body]
fn buffer_new(width: u32, height: u32) -> (raster: Raster)
    requires
        fits_raster(width as nat, height as nat),
    ensures
        raster_grid(raster).width == width,
        raster_grid(raster).height == height,
        raster_grid(raster).cells.len() == width * height,
        forall|i: int|
            0 <= i < width * height ==> #[trigger] raster_grid(raster).cells[i] == (Pixel {
                r: 0,
                g: 0,
                b: 0,
            }),
{
    Raster { buffer: image::RgbImage::new(width, height) }
}

/// `image::ImageBuffer::dimensions`: the width and the height; the buffer
/// holds one pixel for each place in them.
#[verifier::external_body]
fn buffer_dimensions(raster: &Raster) -> (d: (u32, u32))
    ensures
        d.0 == raster_grid(*raster).width,
        d.1 == raster_grid(*raster).height,
        raster_grid(*raster).cells.len() == d.0 * d.1,
{
    raster.buffer.dimensions()
}

/// `image::ImageBuffer::get_pixel`: the pixel in column `x` of row `y`. The
/// call panics outside the image, which `requires` leaves out.
#[verifier::external_body]
fn buffer_get_pixel(raster: &Raster, x: u32, y: u32) -> (pixel: Pixel)
    requires
        raster_grid(*raster).in_bounds(x as int, y as int),
    ensures
        pixel == raster_grid(*raster).at(x as int, y as int),
{
    let channels = raster.buffer.get_pixel(x, y).0;
    Pixel { r: channels[0], g: channels[1], b: channels[2] }
}

/// `image::ImageBuffer::put_pixel`: the pixel in column `x` of row `y` is
/// replaced and nothing else changes. The call panics outside the image, which
/// `requires` leaves out.
#[verifier::external_body]
fn buffer_put_pixel(raster: &mut Raster, x: u32, y: u32, pixel: Pixel)
    requires
        raster_grid(*old(raster)).in_bounds(x as int, y as int),
    ensures
        raster_grid(*final(raster)) == raster_grid(*old(raster)).with_cell(
            x as int,
            y as int,
            pixel,
        ),
{
    raster.buffer.put_pixel(x, y, image::Rgb([pixel.r, pixel.g, pixel.b]))
}

impl Raster {
    /// A black image of the given dimensions, or nothing where three bytes per
    /// pixel are more than a buffer can hold.
    pub fn new(width: u32, height: u32) -> (r: Option<Raster>)
        ensures
            r is Some <==> fits_raster(width as nat, height as nat),
            r matches Some(raster) ==> {
                &&& raster@.wf()
                &&& raster@.width == width
                &&& raster@.height == height
                &&& forall|x: int, y: int| #[trigger]
                    raster@.in_bounds(x, y) ==> raster@.at(x, y) == (Pixel { r: 0, g: 0, b: 0 })
            },
    {
        match 3usize.checked_mul(width as usize) {
            Some(row) => match row.checked_mul(height as usize) {
                Some(bytes) => if bytes <= isize::MAX as usize {
                    Some(buffer_black(width, height))
                } else {
                    None
                },
                None => None,
            },
            None => None,
        }
    }

    /// Width and height, in this order.
    pub fn dimensions(&self) -> (d: (u32, u32))
        ensures
            d.0 == self@.width,
            d.1 == self@.height,
            self@.wf(),
    {
        buffer_dimensions(self)
    }

    /// The pixel in column `x` of row `y`.
    pub fn get_pixel(&self, x: u32, y: u32) -> (pixel: Pixel)
        requires
            self@.in_bounds(x as int, y as int),
        ensures
            pixel == self@.at(x as int, y as int),
    {
        buffer_get_pixel(self, x, y)
    }

    /// Replaces the pixel in column `x` of row `y`.
    pub fn put_pixel(&mut self, x: u32, y: u32, pixel: Pixel)
        requires
            old(self)@.in_bounds(x as int, y as int),
        ensures
            final(self)@ == old(self)@.with_cell(x as int, y as int, pixel),
    {
        buffer_put_pixel(self, x, y, pixel)
    }
}

/// A black image whose bytes fit a buffer.
fn buffer_black(width: u32, height: u32) -> (raster: Raster)
    requires
        fits_raster(width as nat, height as nat),
    ensures
        raster@.wf(),
        raster@.width == width,
        raster@.height == height,
        forall|x: int, y: int| #[trigger]
            raster@.in_bounds(x, y) ==> raster@.at(x, y) == (Pixel { r: 0, g: 0, b: 0 }),
{
    let raster = buffer_new(width, height);
    proof {
        assert forall|x: int, y: int| #[trigger] raster@.in_bounds(x, y) implies raster@.at(x, y)
            == (Pixel { r: 0, g: 0, b: 0 }) by {
            crate::grid::lemma_offset_in_range(x, y, width as int, height as int);
        }
    }
    raster
}

} // verus!
