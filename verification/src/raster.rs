//! The decoded sheet image and the regions cut from it.
//!
//! Both are values of the `image` crate. Their pixels are read through the
//! few functions at the end of this file, whose contracts are taken on trust.

use image::GenericImageView;
use vstd::prelude::*;

verus! {

/// A decoded image of red, green and blue bytes, held as an `image::RgbImage`.
#[verifier::external_body]
pub struct SheetImage {
    inner: image::RgbImage,
}

/// A rectangular region of a [`SheetImage`], held as an `image::SubImage`
/// that borrows the image.
#[verifier::external_body]
pub struct Sprite<'a> {
    inner: image::SubImage<&'a image::RgbImage>,
}

/// The pixels of an image: `image_rows(image)[y][x]` is the pixel in column
/// `x` of row `y`, as red, green and blue.
pub uninterp spec fn image_rows(image: SheetImage) -> Seq<Seq<(u8, u8, u8)>>;

/// The pixels of a region, counted from its own top left corner:
/// `sprite_rows(sprite)[y][x]` is the pixel in its column `x` of its row `y`.
pub uninterp spec fn sprite_rows(sprite: Sprite) -> Seq<Seq<(u8, u8, u8)>>;

/// Whether `rows` are `height` rows of `width` pixels each.
pub open spec fn is_raster(rows: Seq<Seq<(u8, u8, u8)>>, width: int, height: int) -> bool {
    &&& rows.len() == height
    &&& forall|y: int| 0 <= y < height ==> (#[trigger] rows[y]).len() == width
}

/// The length of the first row, or 0 where there is no row.
pub open spec fn raster_width(rows: Seq<Seq<(u8, u8, u8)>>) -> int {
    if rows.len() == 0 {
        0
    } else {
        rows[0].len() as int
    }
}

/// The pixel `(x, y)` of an image of `width` columns whose bytes are `data`:
/// three bytes a pixel, row after row.
pub open spec fn raw_pixel(data: Seq<u8>, width: int, x: int, y: int) -> (u8, u8, u8) {
    let at = 3 * (y * width + x);
    (data[at], data[at + 1], data[at + 2])
}

/// Whether `width * height` pixels of three bytes are at most `len` bytes,
/// and the bytes of one row can be counted in a `usize`.
pub open spec fn raw_fits(width: int, height: int, len: int) -> bool {
    3 * width <= usize::MAX && 3 * width * height <= len
}

impl View for SheetImage {
    type V = Seq<Seq<(u8, u8, u8)>>;

    /// The rows of pixels, from the top.
    open spec fn view(&self) -> Seq<Seq<(u8, u8, u8)>> {
        image_rows(*self)
    }
}

impl<'a> View for Sprite<'a> {
    type V = Seq<Seq<(u8, u8, u8)>>;

    /// The rows of pixels of the region, from its top.
    open spec fn view(&self) -> Seq<Seq<(u8, u8, u8)>> {
        sprite_rows(*self)
    }
}

impl SheetImage {
    /// The image of `width` columns and `height` rows whose pixels are the
    /// bytes of `data`, three a pixel and row after row; `None` where `data`
    /// holds too few bytes.
    pub fn from_raw(width: u32, height: u32, data: Vec<u8>) -> (image: Option<Self>)
        ensures
            image.is_some() <==> raw_fits(width as int, height as int, data@.len() as int),
            image matches Some(img) ==> {
                &&& is_raster(img@, width as int, height as int)
                &&& forall|x: int, y: int|
                    0 <= x < width && 0 <= y < height ==> #[trigger] img@[y][x] == raw_pixel(
                        data@,
                        width as int,
                        x,
                        y,
                    )
            },
    {
        image_from_raw(width, height, data)
    }

    /// The width and the height, in pixels.
    pub fn dimensions(&self) -> (d: (u32, u32))
        ensures
            is_raster(self@, d.0 as int, d.1 as int),
    {
        image_dimensions(self)
    }
}

impl<'a> Sprite<'a> {
    /// The width and the height of the region, in pixels.
    pub fn dimensions(&self) -> (d: (u32, u32))
        ensures
            is_raster(self@, d.0 as int, d.1 as int),
    {
        sprite_dimensions(self)
    }

    /// The red, green and blue of the pixel in column `at.0` of row `at.1` of
    /// the region.
    pub fn pixel(&self, at: (u32, u32)) -> (rgb: (u8, u8, u8))
        requires
            at.1 < self@.len(),
            at.0 < self@[at.1 as int].len(),
        ensures
            rgb == self@[at.1 as int][at.0 as int],
    {
        sprite_pixel(self, at.0, at.1)
    }
}

/// `image::ImageBuffer::from_raw`: the buffer is taken as it is where it holds
/// at least `3 * width * height` bytes, a count that the function makes with
/// checked multiplications in `usize`, and refused otherwise. Pixel `(x, y)`
/// of the image is then made of the three bytes from `3 * (y * width + x)` on.
#[verifier::external_body]
pub(crate) fn image_from_raw(width: u32, height: u32, data: Vec<u8>) -> (image: Option<SheetImage>)
    ensures
        image.is_some() <==> raw_fits(width as int, height as int, data@.len() as int),
        image matches Some(img) ==> {
            &&& is_raster(image_rows(img), width as int, height as int)
            &&& forall|x: int, y: int|
                0 <= x < width && 0 <= y < height ==> #[trigger] image_rows(img)[y][x] == raw_pixel(
                    data@,
                    width as int,
                    x,
                    y,
                )
        },
{
    match image::RgbImage::from_raw(width, height, data) {
        Some(inner) => Some(SheetImage { inner }),
        None => None,
    }
}

/// `image::ImageBuffer::dimensions`: the width and the height that the image
/// was made with; every row holds `width` pixels and there are `height` rows.
#[verifier::external_body]
pub(crate) fn image_dimensions(image: &SheetImage) -> (d: (u32, u32))
    ensures
        is_raster(image_rows(*image), d.0 as int, d.1 as int),
{
    image.inner.dimensions()
}

/// `image::GenericImageView::view` on an `image::RgbImage`: the region of
/// `width` by `height` pixels whose top left corner is the pixel `(x, y)` of
/// the image. The outside function panics where the region leaves the image;
/// a region of at least one row is asked for, so that the first row of the
/// image tells how wide the image is.
#[verifier::external_body]
pub(crate) fn image_view<'a>(image: &'a SheetImage, x: u32, y: u32, width: u32, height: u32) -> (sprite:
    Sprite<'a>)
    requires
        0 < height,
        y + height <= image_rows(*image).len(),
        x + width <= image_rows(*image)[0].len(),
    ensures
        is_raster(sprite_rows(sprite), width as int, height as int),
        forall|i: int, j: int|
            0 <= i < width && 0 <= j < height ==> #[trigger] sprite_rows(sprite)[j][i]
                == image_rows(*image)[y + j][x + i],
{
    Sprite { inner: image.inner.view(x, y, width, height) }
}

/// `image::GenericImageView::dimensions` on an `image::SubImage`: the width
/// and the height that the region was cut with.
#[verifier::external_body]
pub(crate) fn sprite_dimensions(sprite: &Sprite) -> (d: (u32, u32))
    ensures
        is_raster(sprite_rows(*sprite), d.0 as int, d.1 as int),
{
    sprite.inner.dimensions()
}

/// `image::GenericImageView::get_pixel` on an `image::SubImage`: the pixel in
/// column `x` of row `y` of the region, as its red, green and blue bytes.
#[verifier::external_body]
pub(crate) fn sprite_pixel(sprite: &Sprite, x: u32, y: u32) -> (rgb: (u8, u8, u8))
    requires
        y < sprite_rows(*sprite).len(),
        x < sprite_rows(*sprite)[y as int].len(),
    ensures
        rgb == sprite_rows(*sprite)[y as int][x as int],
{
    let pixel = sprite.inner.get_pixel(x, y);
    (pixel.0[0], pixel.0[1], pixel.0[2])
}

} // verus!
