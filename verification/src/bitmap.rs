//! The pixel buffer: packed colors in row-major order.

use vstd::arithmetic::div_mod::lemma_fundamental_div_mod_converse;
use vstd::arithmetic::mul::lemma_mul_inequality;
use vstd::prelude::*;

verus! {

/// A pixel buffer of `width * height` packed colors, row after row.
///
/// A color is `0x00RRGGBB`: red in bits 16 to 23, green in bits 8 to 15,
/// blue in bits 0 to 7.
pub struct Bitmap {
    buffer: Vec<u32>,
    width: usize,
    height: usize,
}

/// The color `0x00RRGGBB` of a red, green and blue byte.
pub open spec fn packed(rgb: (u8, u8, u8)) -> u32 {
    (rgb.0 * 0x1_0000 + rgb.1 * 0x100 + rgb.2) as u32
}

/// Packs a red, a green and a blue byte into the color `0x00RRGGBB`.
pub fn pack_rgb(red: u8, green: u8, blue: u8) -> (color: u32)
    ensures
        color == packed((red, green, blue)),
        color == (red as u32) << 16 | (green as u32) << 8 | (blue as u32),
{
    assert(((red as u32) * 0x1_0000 + (green as u32) * 0x100 + (blue as u32)) as u32 == (red as u32)
        << 16 | (green as u32) << 8 | (blue as u32)) by (bit_vector);
    (red as u32) * 0x1_0000 + (green as u32) * 0x100 + (blue as u32)
}

/// Buffer contents of the same length in which every pixel is `color`.
pub open spec fn filled(pixels: Seq<u32>, color: u32) -> Seq<u32> {
    Seq::new(pixels.len(), |i: int| color)
}

/// Whether `(x, y)` lies in the box from `(x1, y1)` to `(x2, y2)`, corners included.
pub open spec fn in_box(x: int, y: int, x1: int, y1: int, x2: int, y2: int) -> bool {
    x1 <= x <= x2 && y1 <= y <= y2
}

/// The contents `pixels`, read as rows of `width` pixels, after the box from
/// `(x1, y1)` to `(x2, y2)` took `color`; every other pixel is kept.
pub open spec fn painted(
    pixels: Seq<u32>,
    width: int,
    x1: int,
    y1: int,
    x2: int,
    y2: int,
    color: u32,
) -> Seq<u32> {
    Seq::new(
        pixels.len(),
        |i: int|
            if in_box(i % width, i / width, x1, y1, x2, y2) {
                color
            } else {
                pixels[i]
            },
    )
}

/// The pixel `(x, y)` of a buffer `width` wide has the index `x + y * width`,
/// and no other pixel has it.
pub proof fn lemma_pixel_index(x: int, y: int, width: int)
    requires
        0 <= x < width,
        0 <= y,
    ensures
        0 <= x + y * width,
        (x + y * width) % width == x,
        (x + y * width) / width == y,
{
    lemma_mul_inequality(0, y, width);
    lemma_fundamental_div_mod_converse(x + y * width, width, y, x);
}

/// A pixel inside a buffer of `width * height` pixels has an index below the
/// buffer's length.
pub proof fn lemma_pixel_index_bound(x: int, y: int, width: int, height: int)
    requires
        0 <= x < width,
        0 <= y < height,
    ensures
        0 <= x + y * width < width * height,
{
    lemma_mul_inequality(0, y, width);
    lemma_mul_inequality(y + 1, height, width);
    assert((y + 1) * width == y * width + width) by (nonlinear_arith);
    assert(height * width == width * height) by (nonlinear_arith);
}

/// A fill reaches every pixel: after it, each pixel `(x, y)` of a buffer of
/// `width * height` pixels has the color.
pub proof fn lemma_fill_covers(pixels: Seq<u32>, width: int, height: int, color: u32, x: int, y: int)
    requires
        pixels.len() == width * height,
        0 <= x < width,
        0 <= y < height,
    ensures
        0 <= x + y * width < filled(pixels, color).len(),
        filled(pixels, color)[x + y * width] == color,
{
    lemma_pixel_index_bound(x, y, width, height);
}

/// A second fill with the same color changes nothing.
pub proof fn lemma_fill_twice(pixels: Seq<u32>, color: u32)
    ensures
        filled(filled(pixels, color), color) == filled(pixels, color),
{
    assert(filled(filled(pixels, color), color) =~= filled(pixels, color));
}

impl View for Bitmap {
    type V = Seq<u32>;

    /// The pixels, row after row.
    closed spec fn view(&self) -> Seq<u32> {
        self.buffer@
    }
}

impl Bitmap {
    /// The number of pixels in a row.
    pub closed spec fn spec_width(&self) -> usize {
        self.width
    }

    /// The number of rows.
    pub closed spec fn spec_height(&self) -> usize {
        self.height
    }

    /// The buffer holds exactly `width * height` pixels.
    pub open spec fn wf(&self) -> bool {
        self@.len() == self.spec_width() * self.spec_height()
    }

    /// The color at column `x` of row `y`.
    pub open spec fn pixel(&self, x: int, y: int) -> u32 {
        self@[x + y * self.spec_width()]
    }

    /// Wraps `buffer` as a bitmap `width` wide and `height` high.
    pub fn from_vec(buffer: Vec<u32>, width: usize, height: usize) -> (bitmap: Self)
        requires
            width * height == buffer@.len(),
        ensures
            bitmap.wf(),
            bitmap@ == buffer@,
            bitmap.spec_width() == width,
            bitmap.spec_height() == height,
    {
        Self { buffer, width, height }
    }

    /// The pixels, row after row.
    pub fn as_vec(&self) -> (pixels: &Vec<u32>)
        ensures
            pixels@ == self@,
    {
        &self.buffer
    }

    /// The width and the height, in pixels.
    pub fn dimensions(&self) -> (d: (usize, usize))
        ensures
            d.0 == self.spec_width(),
            d.1 == self.spec_height(),
    {
        (self.width, self.height)
    }

    /// Overwrites every pixel with `color`.
    pub fn fill(&mut self, color: u32)
        ensures
            final(self)@ == filled(old(self)@, color),
            final(self).spec_width() == old(self).spec_width(),
            final(self).spec_height() == old(self).spec_height(),
    {
        let n: usize = self.buffer.len();
        let mut i: usize = 0;
        while i < n
            invariant
                i <= n,
                n == self.buffer@.len(),
                n == old(self).buffer@.len(),
                self.width == old(self).width,
                self.height == old(self).height,
                forall|j: int| 0 <= j < i ==> self.buffer@[j] == color,
            decreases n - i,
        {
            self.buffer[i] = color;
            i += 1;
        }
        assert(self.buffer@ =~= filled(old(self)@, color));
    }

    /// Sets the pixel at column `at.0` of row `at.1` to `color`.
    pub fn draw_pixel(&mut self, at: (usize, usize), color: u32)
        requires
            old(self).wf(),
            at.0 < old(self).spec_width(),
            at.1 < old(self).spec_height(),
        ensures
            final(self).wf(),
            final(self)@ == old(self)@.update(at.0 + at.1 * old(self).spec_width(), color),
            final(self).spec_width() == old(self).spec_width(),
            final(self).spec_height() == old(self).spec_height(),
    {
        let (x, y) = at;
        proof {
            lemma_pixel_index_bound(x as int, y as int, self.width as int, self.height as int);
            lemma_mul_inequality(0, y as int, self.width as int);
            assert(self.buffer@.len() == self.buffer.len());
        }
        let index: usize = x + y * self.width;
        self.buffer[index] = color;
    }

    /// Paints the box whose top left pixel is `top_left` and whose bottom
    /// right pixel is `bottom_right`, both included, with `color`.
    pub fn draw_rectangle_pixels(
        &mut self,
        top_left: (usize, usize),
        bottom_right: (usize, usize),
        color: u32,
    )
        requires
            old(self).wf(),
            top_left.0 < bottom_right.0,
            top_left.1 < bottom_right.1,
            bottom_right.0 < old(self).spec_width(),
            bottom_right.1 < old(self).spec_height(),
        ensures
            final(self).wf(),
            final(self)@ == painted(
                old(self)@,
                old(self).spec_width() as int,
                top_left.0 as int,
                top_left.1 as int,
                bottom_right.0 as int,
                bottom_right.1 as int,
                color,
            ),
            final(self).spec_width() == old(self).spec_width(),
            final(self).spec_height() == old(self).spec_height(),
    {
        let (x1, y1) = top_left;
        let (x2, y2) = bottom_right;
        let ghost before = self@;
        let ghost w = self.width as int;
        let mut x: usize = x1;
        while x <= x2
            invariant
                self.wf(),
                self.width == old(self).width,
                self.height == old(self).height,
                w == self.width,
                before == old(self)@,
                x1 <= x <= x2 + 1,
                x2 < self.width,
                y1 < y2 < self.height,
                self@ == painted(before, w, x1 as int, y1 as int, x - 1, y2 as int, color),
            decreases x2 + 1 - x,
        {
            let ghost columns = self@;
            let mut y: usize = y1;
            while y <= y2
                invariant
                    self.wf(),
                    self.width == old(self).width,
                    self.height == old(self).height,
                    w == self.width,
                    x1 <= x <= x2,
                    x2 < self.width,
                    y1 <= y <= y2 + 1,
                    y2 < self.height,
                    columns.len() == self@.len(),
                    self@ == painted(columns, w, x as int, y1 as int, x as int, y - 1, color),
                decreases y2 + 1 - y,
            {
                self.draw_pixel((x, y), color);
                proof {
                    lemma_pixel_index(x as int, y as int, w);
                    lemma_pixel_index_bound(x as int, y as int, w, self.height as int);
                    assert(self@ =~= painted(columns, w, x as int, y1 as int, x as int, y as int, color)) by {
                        assert forall|i: int| 0 <= i < self@.len() implies self@[i] == painted(
                            columns, w, x as int, y1 as int, x as int, y as int, color)[i] by {
                            if i != x + y * w {
                                lemma_index_differs(i, x as int, y as int, w);
                            }
                        }
                    }
                }
                y += 1;
            }
            assert(self@ =~= painted(before, w, x1 as int, y1 as int, x as int, y2 as int, color));
            x += 1;
        }
    }
}

/// An index other than that of the pixel `(x, y)` stands for another pixel.
proof fn lemma_index_differs(i: int, x: int, y: int, width: int)
    requires
        0 <= i,
        0 <= x < width,
        0 <= y,
        i != x + y * width,
    ensures
        i % width != x || i / width != y,
{
    vstd::arithmetic::div_mod::lemma_fundamental_div_mod(i, width);
    if i % width == x && i / width == y {
        assert(width * (i / width) == y * width) by (nonlinear_arith)
            requires
                i / width == y,
        ;
    }
}

} // verus!
