//! The grid of virtual pixels laid over a bitmap.
//!
//! The grid is scaled by one factor in both directions, so that its cells
//! stay square. Along one axis it spans the whole bitmap; along the other it
//! is centered, and what is left of the bitmap on both sides stays untouched.

use crate::bitmap::{
    in_box, lemma_pixel_index, lemma_pixel_index_bound, pack_rgb, packed, painted, Bitmap,
};
use crate::raster::{is_raster, raster_width, Sprite};
use crate::scaling::{
    cell_at, lemma_cell_at, lemma_scaled_fits, lemma_scaled_monotonic, lemma_scaled_step,
    lemma_scaled_whole, scaled,
};
use vstd::prelude::*;

verus! {

/// The axis along which a grid spans the whole bitmap.
#[derive(Clone, Copy, Debug, PartialEq, Eq, Structural)]
pub enum ClampType {
    /// The grid is as high as the bitmap and centered between left and right.
    Height,
    /// The grid is as wide as the bitmap and centered between top and bottom.
    Width,
}

/// A bitmap with a grid of `width` by `height` virtual pixels over it.
///
/// A virtual pixel is a square of `pixel_size` bitmap pixels a side, where
/// `pixel_size` is the smaller of the two ratios between a dimension of the
/// bitmap and the same dimension of the grid. It is kept as that exact ratio,
/// and every edge of a virtual pixel is the floor of a multiple of it.
pub struct PixelGrid {
    bitmap: Bitmap,
    width: usize,
    height: usize,
    /// the axis along which the grid spans the bitmap
    clamped_by: ClampType,
    /// the bitmap pixels left free before the grid along the other axis
    pixel_offset: usize,
}

/// The axis that clamps a grid of `width` by `height` virtual pixels on a
/// bitmap of `bitmap_width` by `bitmap_height` pixels: the width where
/// `bitmap_width / width` is less than `bitmap_height / height`, the height
/// otherwise.
pub open spec fn clamp_of(bitmap_width: int, bitmap_height: int, width: int, height: int) -> ClampType {
    if bitmap_width * height < bitmap_height * width {
        ClampType::Width
    } else {
        ClampType::Height
    }
}

/// The bitmap pixels that stay free before the grid along the axis that does
/// not clamp it: half of what the grid leaves of the bitmap, rounded down.
pub open spec fn centering_of(bitmap_width: int, bitmap_height: int, width: int, height: int) -> int {
    match clamp_of(bitmap_width, bitmap_height, width, height) {
        ClampType::Height => (bitmap_width - scaled(bitmap_height, height, width)) / 2,
        ClampType::Width => (bitmap_height - scaled(bitmap_width, width, height)) / 2,
    }
}

impl View for PixelGrid {
    type V = Seq<u32>;

    /// The pixels of the bitmap, row after row.
    closed spec fn view(&self) -> Seq<u32> {
        self.bitmap@
    }
}

impl PixelGrid {
    /// The width of the bitmap, in pixels.
    pub closed spec fn bitmap_width(&self) -> usize {
        self.bitmap.spec_width()
    }

    /// The height of the bitmap, in pixels.
    pub closed spec fn bitmap_height(&self) -> usize {
        self.bitmap.spec_height()
    }

    /// The width of the grid, in virtual pixels.
    pub closed spec fn spec_width(&self) -> usize {
        self.width
    }

    /// The height of the grid, in virtual pixels.
    pub closed spec fn spec_height(&self) -> usize {
        self.height
    }

    /// The axis along which the grid spans the bitmap.
    pub closed spec fn spec_clamped_by(&self) -> ClampType {
        self.clamped_by
    }

    /// The bitmap pixels left free before the grid along the other axis.
    pub closed spec fn spec_pixel_offset(&self) -> usize {
        self.pixel_offset
    }

    /// The bitmap is well formed, the grid has at least one virtual pixel
    /// each way, and it is clamped and centered as its dimensions and those of
    /// the bitmap demand.
    pub open spec fn wf(&self) -> bool {
        &&& self@.len() == self.bitmap_width() * self.bitmap_height()
        &&& self.spec_width() > 0
        &&& self.spec_height() > 0
        &&& self.spec_clamped_by() == clamp_of(
            self.bitmap_width() as int,
            self.bitmap_height() as int,
            self.spec_width() as int,
            self.spec_height() as int,
        )
        &&& self.spec_pixel_offset() == centering_of(
            self.bitmap_width() as int,
            self.bitmap_height() as int,
            self.spec_width() as int,
            self.spec_height() as int,
        )
    }

    /// Whether `other` is the same grid on a bitmap of the same dimensions,
    /// whatever the colors of the two bitmaps.
    pub open spec fn same_layout(&self, other: &Self) -> bool {
        &&& self.bitmap_width() == other.bitmap_width()
        &&& self.bitmap_height() == other.bitmap_height()
        &&& self.spec_width() == other.spec_width()
        &&& self.spec_height() == other.spec_height()
        &&& self.spec_clamped_by() == other.spec_clamped_by()
        &&& self.spec_pixel_offset() == other.spec_pixel_offset()
    }

    /// The numerator of the scale: the dimension of the bitmap that the grid
    /// spans.
    pub open spec fn scale_num(&self) -> int {
        match self.spec_clamped_by() {
            ClampType::Height => self.bitmap_height() as int,
            ClampType::Width => self.bitmap_width() as int,
        }
    }

    /// The denominator of the scale: the dimension of the grid along the
    /// axis that clamps it.
    pub open spec fn scale_den(&self) -> int {
        match self.spec_clamped_by() {
            ClampType::Height => self.spec_height() as int,
            ClampType::Width => self.spec_width() as int,
        }
    }

    /// The bitmap columns left free before the first column of the grid.
    pub open spec fn offset_x(&self) -> int {
        match self.spec_clamped_by() {
            ClampType::Height => self.spec_pixel_offset() as int,
            ClampType::Width => 0,
        }
    }

    /// The bitmap rows left free before the first row of the grid.
    pub open spec fn offset_y(&self) -> int {
        match self.spec_clamped_by() {
            ClampType::Height => 0,
            ClampType::Width => self.spec_pixel_offset() as int,
        }
    }

    /// The first bitmap column of the grid column `x`.
    pub open spec fn left(&self, x: int) -> int {
        scaled(self.scale_num(), self.scale_den(), x) + self.offset_x()
    }

    /// The last bitmap column of the grid column `x`: the one before the
    /// first of the next grid column.
    pub open spec fn right(&self, x: int) -> int {
        scaled(self.scale_num(), self.scale_den(), x + 1) - 1 + self.offset_x()
    }

    /// The first bitmap row of the grid row `y`.
    pub open spec fn top(&self, y: int) -> int {
        scaled(self.scale_num(), self.scale_den(), y) + self.offset_y()
    }

    /// The last bitmap row of the grid row `y`: the one before the first of
    /// the next grid row.
    pub open spec fn bottom(&self, y: int) -> int {
        scaled(self.scale_num(), self.scale_den(), y + 1) - 1 + self.offset_y()
    }

    /// The grid column on which the bitmap column `px` falls; a negative
    /// number for the bitmap columns before the grid.
    pub open spec fn column_of(&self, px: int) -> int {
        if px < self.offset_x() {
            -1
        } else {
            cell_at(self.scale_num(), self.scale_den(), px - self.offset_x())
        }
    }

    /// The grid row on which the bitmap row `py` falls; a negative number for
    /// the bitmap rows before the grid.
    pub open spec fn row_of(&self, py: int) -> int {
        if py < self.offset_y() {
            -1
        } else {
            cell_at(self.scale_num(), self.scale_den(), py - self.offset_y())
        }
    }

    /// Whether `x` is a column of the grid that is at least two bitmap
    /// columns wide.
    pub open spec fn column_paintable(&self, x: int) -> bool {
        0 <= x < self.spec_width() && self.left(x) < self.right(x)
    }

    /// Whether `y` is a row of the grid that is at least two bitmap rows high.
    pub open spec fn row_paintable(&self, y: int) -> bool {
        0 <= y < self.spec_height() && self.top(y) < self.bottom(y)
    }

    /// Whether `(x, y)` is a virtual pixel of the grid whose box on the
    /// bitmap has its top left corner strictly above and left of its bottom
    /// right corner, as painting a box asks.
    pub open spec fn paintable(&self, x: int, y: int) -> bool {
        self.column_paintable(x) && self.row_paintable(y)
    }

    /// The colors `pixels` of the bitmap after the image `rows` was drawn
    /// with its top left corner on the virtual pixel `(x, y)`: a bitmap pixel
    /// that falls on a virtual pixel under the image has the packed color of
    /// the image pixel that lies on that virtual pixel, and every other bitmap
    /// pixel keeps its color.
    pub open spec fn image_drawn(
        &self,
        pixels: Seq<u32>,
        x: int,
        y: int,
        rows: Seq<Seq<(u8, u8, u8)>>,
    ) -> Seq<u32> {
        self.image_drawn_until(pixels, x, y, rows, raster_width(rows), 0)
    }

    /// The colors `pixels` of the bitmap after the first `dx` columns of the
    /// image `rows`, and the first `dy` pixels of its next column, were drawn
    /// with the top left corner of the image on the virtual pixel `(x, y)`.
    pub open spec fn image_drawn_until(
        &self,
        pixels: Seq<u32>,
        x: int,
        y: int,
        rows: Seq<Seq<(u8, u8, u8)>>,
        dx: int,
        dy: int,
    ) -> Seq<u32> {
        Seq::new(
            pixels.len(),
            |i: int|
                {
                    let column = self.column_of(i % (self.bitmap_width() as int)) - x;
                    let row = self.row_of(i / (self.bitmap_width() as int)) - y;
                    if 0 <= column < raster_width(rows) && 0 <= row < rows.len() && (column < dx
                        || (column == dx && row < dy)) {
                        packed(rows[row][column])
                    } else {
                        pixels[i]
                    }
                },
        )
    }

    /// Whether an image of `width` by `height` pixels can be drawn with its
    /// top left corner on the virtual pixel `(x, y)`: it fits the grid, and
    /// every virtual pixel under it can be painted.
    pub open spec fn drawable(&self, x: int, y: int, width: int, height: int) -> bool {
        &&& 0 <= x && x + width <= self.spec_width()
        &&& 0 <= y && y + height <= self.spec_height()
        &&& height > 0 ==> forall|column: int|
            x <= column < x + width ==> #[trigger] self.column_paintable(column)
        &&& width > 0 ==> forall|row: int| y <= row < y + height ==> #[trigger] self.row_paintable(row)
    }
}

impl PixelGrid {
    /// Lays a grid of `width` by `height` virtual pixels over `bitmap`.
    pub fn new(bitmap: Bitmap, width: usize, height: usize) -> (grid: Self)
        requires
            bitmap.wf(),
            width > 0,
            height > 0,
        ensures
            grid.wf(),
            grid@ == bitmap@,
            grid.bitmap_width() == bitmap.spec_width(),
            grid.bitmap_height() == bitmap.spec_height(),
            grid.spec_width() == width,
            grid.spec_height() == height,
            grid.spec_clamped_by() == clamp_of(
                bitmap.spec_width() as int,
                bitmap.spec_height() as int,
                width as int,
                height as int,
            ),
            grid.spec_pixel_offset() == centering_of(
                bitmap.spec_width() as int,
                bitmap.spec_height() as int,
                width as int,
                height as int,
            ),
    {
        let (bitmap_width, bitmap_height) = bitmap.dimensions();
        // bitmap_width / width < bitmap_height / height, without a division
        let clamped_by = if wide_product(bitmap_width, height) < wide_product(bitmap_height, width) {
            ClampType::Width
        } else {
            ClampType::Height
        };
        // The scale times the extent is floored first; then comes the
        // subtraction, then the halving, which floors again.
        let pixel_offset = match clamped_by {
            ClampType::Height => {
                proof {
                    lemma_scaled_fits(
                        bitmap_height as int,
                        height as int,
                        width as int,
                        bitmap_width as int,
                    );
                }
                (bitmap_width - floor_scaled(bitmap_height, height, width)) / 2
            },
            ClampType::Width => {
                proof {
                    lemma_scaled_fits(
                        bitmap_width as int,
                        width as int,
                        height as int,
                        bitmap_height as int,
                    );
                }
                (bitmap_height - floor_scaled(bitmap_width, width, height)) / 2
            },
        };
        PixelGrid { bitmap, width, height, clamped_by, pixel_offset }
    }

    /// The bitmap under the grid.
    pub fn bitmap(&self) -> (bitmap: &Bitmap)
        ensures
            bitmap@ == self@,
            bitmap.spec_width() == self.bitmap_width(),
            bitmap.spec_height() == self.bitmap_height(),
    {
        &self.bitmap
    }

    /// The width and the height of the grid, in virtual pixels.
    pub fn dimensions(&self) -> (d: (usize, usize))
        ensures
            d.0 == self.spec_width(),
            d.1 == self.spec_height(),
    {
        (self.width, self.height)
    }

    /// The axis along which the grid spans the bitmap.
    pub fn clamped_by(&self) -> (axis: ClampType)
        ensures
            axis == self.spec_clamped_by(),
    {
        self.clamped_by
    }

    /// The bitmap pixels left free before the grid along the axis that does
    /// not clamp it.
    pub fn pixel_offset(&self) -> (offset: usize)
        ensures
            offset == self.spec_pixel_offset(),
    {
        self.pixel_offset
    }

    /// The scale as an exact ratio: the bitmap pixels, and the virtual pixels
    /// that share them, along the axis that clamps the grid.
    pub fn pixel_size(&self) -> (ratio: (usize, usize))
        ensures
            ratio.0 == self.scale_num(),
            ratio.1 == self.scale_den(),
    {
        let (bitmap_width, bitmap_height) = self.bitmap.dimensions();
        match self.clamped_by {
            ClampType::Height => (bitmap_height, self.height),
            ClampType::Width => (bitmap_width, self.width),
        }
    }

    /// The offset of the grid on the bitmap, in bitmap columns and rows.
    fn offsets(&self) -> (offsets: (usize, usize))
        ensures
            offsets.0 == self.offset_x(),
            offsets.1 == self.offset_y(),
    {
        match self.clamped_by {
            ClampType::Height => (self.pixel_offset, 0),
            ClampType::Width => (0, self.pixel_offset),
        }
    }

    /// Whether `x` is a column of the grid that is at least two bitmap
    /// columns wide.
    fn is_column_paintable(&self, x: usize) -> (paintable: bool)
        requires
            self.wf(),
        ensures
            paintable == self.column_paintable(x as int),
    {
        if x >= self.width {
            return false;
        }
        let (num, den) = self.pixel_size();
        proof {
            self.lemma_column_inside(x as int);
        }
        floor_scaled(num, den, x + 1) - floor_scaled(num, den, x) >= 2
    }

    /// Whether `y` is a row of the grid that is at least two bitmap rows high.
    fn is_row_paintable(&self, y: usize) -> (paintable: bool)
        requires
            self.wf(),
        ensures
            paintable == self.row_paintable(y as int),
    {
        if y >= self.height {
            return false;
        }
        let (num, den) = self.pixel_size();
        proof {
            self.lemma_row_inside(y as int);
        }
        floor_scaled(num, den, y + 1) - floor_scaled(num, den, y) >= 2
    }

    /// Whether the virtual pixel `at` lies in the grid and can be painted.
    pub fn is_paintable(&self, at: (usize, usize)) -> (paintable: bool)
        requires
            self.wf(),
        ensures
            paintable == self.paintable(at.0 as int, at.1 as int),
    {
        self.is_column_paintable(at.0) && self.is_row_paintable(at.1)
    }

    /// Whether an image of `size.0` by `size.1` pixels can be drawn with its
    /// top left corner on the virtual pixel `at`.
    pub fn can_draw(&self, at: (usize, usize), size: (usize, usize)) -> (fits: bool)
        requires
            self.wf(),
        ensures
            fits == self.drawable(at.0 as int, at.1 as int, size.0 as int, size.1 as int),
    {
        let (x, y) = at;
        let (width, height) = size;
        if width > self.width || x > self.width - width || height > self.height || y > self.height
            - height {
            return false;
        }
        if height > 0 {
            let mut column: usize = x;
            while column < x + width
                invariant
                    self.wf(),
                    at == (x, y),
                    size == (width, height),
                    height > 0,
                    x <= column <= x + width <= self.width,
                    forall|c: int| x <= c < column ==> #[trigger] self.column_paintable(c),
                decreases x + width - column,
            {
                if !self.is_column_paintable(column) {
                    return false;
                }
                column += 1;
            }
        }
        if width > 0 {
            let mut row: usize = y;
            while row < y + height
                invariant
                    self.wf(),
                    at == (x, y),
                    size == (width, height),
                    width > 0,
                    y <= row <= y + height <= self.height,
                    forall|r: int| y <= r < row ==> #[trigger] self.row_paintable(r),
                decreases y + height - row,
            {
                if !self.is_row_paintable(row) {
                    return false;
                }
                row += 1;
            }
        }
        true
    }

    /// The box of the virtual pixel `at` on the bitmap: its top left and its
    /// bottom right bitmap pixel.
    pub fn virtual_pixel_bounds(&self, at: (usize, usize)) -> (corners: (
        (usize, usize),
        (usize, usize),
    ))
        requires
            self.wf(),
            self.paintable(at.0 as int, at.1 as int),
        ensures
            corners.0.0 == self.left(at.0 as int),
            corners.0.1 == self.top(at.1 as int),
            corners.1.0 == self.right(at.0 as int),
            corners.1.1 == self.bottom(at.1 as int),
    {
        let (x, y) = at;
        let (num, den) = self.pixel_size();
        proof {
            self.lemma_column_inside(x as int);
            self.lemma_row_inside(y as int);
        }
        // every edge is floored on its own, before the offset is added
        let (x1, y1) = (floor_scaled(num, den, x), floor_scaled(num, den, y));
        let (x2, y2) = (floor_scaled(num, den, x + 1), floor_scaled(num, den, y + 1));
        let (x2, y2) = (x2 - 1, y2 - 1);
        let (dx, dy) = self.offsets();
        ((x1 + dx, y1 + dy), (x2 + dx, y2 + dy))
    }

    /// Paints the virtual pixel `at` with `color`: the box of bitmap pixels
    /// from column `left(x)` to `right(x)` and from row `top(y)` to
    /// `bottom(y)`.
    pub fn draw_virtual_pixel(&mut self, at: (usize, usize), color: u32)
        requires
            old(self).wf(),
            old(self).paintable(at.0 as int, at.1 as int),
        ensures
            final(self).wf(),
            final(self).same_layout(old(self)),
            final(self)@ == painted(
                old(self)@,
                old(self).bitmap_width() as int,
                old(self).left(at.0 as int),
                old(self).top(at.1 as int),
                old(self).right(at.0 as int),
                old(self).bottom(at.1 as int),
                color,
            ),
    {
        let (top_left, bottom_right) = self.virtual_pixel_bounds(at);
        proof {
            self.lemma_column_inside(at.0 as int);
            self.lemma_row_inside(at.1 as int);
        }
        self.bitmap.draw_rectangle_pixels(top_left, bottom_right, color);
    }

    /// Draws `image` with its top left corner on the virtual pixel `at`: the
    /// image pixel `(dx, dy)` gives its packed color to the virtual pixel
    /// `(at.0 + dx, at.1 + dy)`.
    pub fn draw_image(&mut self, at: (usize, usize), image: Sprite)
        requires
            old(self).wf(),
            old(self).drawable(at.0 as int, at.1 as int, raster_width(image@), image@.len() as int),
        ensures
            final(self).wf(),
            final(self).same_layout(old(self)),
            final(self)@ == old(self).image_drawn(old(self)@, at.0 as int, at.1 as int, image@),
    {
        let (x, y) = at;
        let (image_width, image_height) = image.dimensions();
        let ghost grid = *self;
        let ghost before = self@;
        let ghost rows = image@;
        assert(self@ =~= grid.image_drawn_until(before, x as int, y as int, rows, 0, 0));
        let mut dx: u32 = 0;
        while dx < image_width
            invariant
                grid.wf(),
                self.wf(),
                self.same_layout(&grid),
                rows == image@,
                before.len() == self@.len(),
                is_raster(rows, image_width as int, image_height as int),
                grid.drawable(x as int, y as int, raster_width(rows), rows.len() as int),
                dx <= image_width,
                self@ == grid.image_drawn_until(before, x as int, y as int, rows, dx as int, 0),
            decreases image_width - dx,
        {
            let mut dy: u32 = 0;
            while dy < image_height
                invariant
                    grid.wf(),
                    self.wf(),
                    self.same_layout(&grid),
                    rows == image@,
                    before.len() == self@.len(),
                    is_raster(rows, image_width as int, image_height as int),
                    grid.drawable(x as int, y as int, raster_width(rows), rows.len() as int),
                    dx < image_width,
                    dy <= image_height,
                    self@ == grid.image_drawn_until(
                        before,
                        x as int,
                        y as int,
                        rows,
                        dx as int,
                        dy as int,
                    ),
                decreases image_height - dy,
            {
                let rgb = image.pixel((dx, dy));
                let color = pack_rgb(rgb.0, rgb.1, rgb.2);
                proof {
                    assert(raster_width(rows) == image_width);
                    assert(grid.column_paintable(x + dx));
                    assert(grid.row_paintable(y + dy));
                }
                self.draw_virtual_pixel((x + dx as usize, y + dy as usize), color);
                proof {
                    grid.lemma_painted_scale(x + dx);
                    assert(self@ =~= grid.image_drawn_until(
                        before,
                        x as int,
                        y as int,
                        rows,
                        dx as int,
                        dy + 1,
                    )) by {
                        assert forall|i: int| 0 <= i < before.len() implies self@[i]
                            == grid.image_drawn_until(
                            before,
                            x as int,
                            y as int,
                            rows,
                            dx as int,
                            dy + 1,
                        )[i] by {
                            grid.lemma_pixel_cell(
                                x + dx,
                                y + dy,
                                i % (grid.bitmap_width() as int),
                                i / (grid.bitmap_width() as int),
                            );
                        }
                    }
                }
                dy += 1;
            }
            assert(self@ =~= grid.image_drawn_until(before, x as int, y as int, rows, dx + 1, 0));
            dx += 1;
        }
        assert(self@ =~= grid.image_drawn(before, x as int, y as int, rows));
    }
}

/// The floor of `num / den * cells`, where it fits a `usize`.
pub fn floor_scaled(num: usize, den: usize, cells: usize) -> (pixels: usize)
    requires
        den > 0,
        scaled(num as int, den as int, cells as int) <= usize::MAX,
    ensures
        pixels == scaled(num as int, den as int, cells as int),
{
    (wide_product(num, cells) / (den as u128)) as usize
}

/// The product of two sizes, which always fits 128 bits.
fn wide_product(a: usize, b: usize) -> (product: u128)
    ensures
        product == a * b,
{
    assert(a * b <= u128::MAX) by (nonlinear_arith)
        requires
            a <= u64::MAX,
            b <= u64::MAX,
    ;
    (a as u128) * (b as u128)
}

/// What holds of every well-formed grid.
impl PixelGrid {
    /// Every column of the grid lies inside the bitmap, after the columns
    /// that the centering leaves free.
    pub proof fn lemma_column_inside(&self, x: int)
        requires
            self.wf(),
            0 <= x < self.spec_width(),
        ensures
            0 <= self.offset_x() <= self.left(x) <= self.right(x) + 1 <= self.bitmap_width(),
    {
        let (num, den) = (self.scale_num(), self.scale_den());
        lemma_scaled_whole(num, den);
        lemma_scaled_monotonic(num, den, 0, x);
        lemma_scaled_monotonic(num, den, x, x + 1);
        lemma_scaled_monotonic(num, den, x + 1, self.spec_width() as int);
        if self.spec_clamped_by() == ClampType::Height {
            lemma_scaled_fits(num, den, self.spec_width() as int, self.bitmap_width() as int);
        }
    }

    /// Every row of the grid lies inside the bitmap, after the rows that the
    /// centering leaves free.
    pub proof fn lemma_row_inside(&self, y: int)
        requires
            self.wf(),
            0 <= y < self.spec_height(),
        ensures
            0 <= self.offset_y() <= self.top(y) <= self.bottom(y) + 1 <= self.bitmap_height(),
    {
        let (num, den) = (self.scale_num(), self.scale_den());
        lemma_scaled_whole(num, den);
        lemma_scaled_monotonic(num, den, 0, y);
        lemma_scaled_monotonic(num, den, y, y + 1);
        lemma_scaled_monotonic(num, den, y + 1, self.spec_height() as int);
        if self.spec_clamped_by() == ClampType::Width {
            lemma_scaled_fits(num, den, self.spec_height() as int, self.bitmap_height() as int);
        }
    }

    /// Neighbours touch: a column ends on the bitmap column before the one on
    /// which the next column starts, and a row on the bitmap row before the
    /// one on which the next row starts.
    pub proof fn lemma_neighbours_touch(&self, x: int, y: int)
        ensures
            self.right(x) == self.left(x + 1) - 1,
            self.bottom(y) == self.top(y + 1) - 1,
    {
    }

    /// Virtual pixels never overlap: a column ends before any later column
    /// starts, and a row before any later row.
    pub proof fn lemma_cells_apart(&self, a: int, b: int)
        requires
            self.wf(),
            a < b,
        ensures
            self.right(a) < self.left(b),
            self.bottom(a) < self.top(b),
    {
        lemma_scaled_monotonic(self.scale_num(), self.scale_den(), a + 1, b);
    }

    /// The letterbox. Along the axis that clamps it the grid spans the bitmap
    /// from its first pixel to its last. Along the other axis the grid and
    /// twice the centering offset never exceed the bitmap and leave at most
    /// one pixel of it: the margin after the grid is the margin before it, or
    /// one pixel more.
    pub proof fn lemma_letterbox(&self)
        requires
            self.wf(),
        ensures
            match self.spec_clamped_by() {
                ClampType::Height => {
                    let used = scaled(self.scale_num(), self.scale_den(), self.spec_width() as int);
                    &&& self.top(0) == 0
                    &&& self.bottom(self.spec_height() - 1) == self.bitmap_height() - 1
                    &&& used + 2 * self.spec_pixel_offset() <= self.bitmap_width() <= used + 2
                        * self.spec_pixel_offset() + 1
                    &&& self.left(0) == self.spec_pixel_offset()
                    &&& 0 <= self.bitmap_width() - 1 - self.right(self.spec_width() - 1)
                        - self.left(0) <= 1
                },
                ClampType::Width => {
                    let used = scaled(self.scale_num(), self.scale_den(), self.spec_height() as int);
                    &&& self.left(0) == 0
                    &&& self.right(self.spec_width() - 1) == self.bitmap_width() - 1
                    &&& used + 2 * self.spec_pixel_offset() <= self.bitmap_height() <= used + 2
                        * self.spec_pixel_offset() + 1
                    &&& self.top(0) == self.spec_pixel_offset()
                    &&& 0 <= self.bitmap_height() - 1 - self.bottom(self.spec_height() - 1)
                        - self.top(0) <= 1
                },
            },
    {
        let (num, den) = (self.scale_num(), self.scale_den());
        lemma_scaled_whole(num, den);
        match self.spec_clamped_by() {
            ClampType::Height => {
                lemma_scaled_fits(num, den, self.spec_width() as int, self.bitmap_width() as int);
            },
            ClampType::Width => {
                lemma_scaled_fits(num, den, self.spec_height() as int, self.bitmap_height() as int);
            },
        }
    }

    /// A grid that is no larger than its bitmap, each way, has a scale of at
    /// least one: every virtual pixel holds a bitmap pixel.
    pub proof fn lemma_scale_at_least_one(&self, x: int, y: int)
        requires
            self.wf(),
            self.spec_width() <= self.bitmap_width(),
            self.spec_height() <= self.bitmap_height(),
        ensures
            self.scale_num() >= self.scale_den(),
            self.left(x) <= self.right(x),
            self.top(y) <= self.bottom(y),
    {
        let (num, den) = (self.scale_num(), self.scale_den());
        assert(num >= den) by (nonlinear_arith)
            requires
                0 < self.spec_width() <= self.bitmap_width(),
                0 < self.spec_height() <= self.bitmap_height(),
                num == (if self.bitmap_width() * self.spec_height() < self.bitmap_height()
                    * self.spec_width() {
                    self.bitmap_width() as int
                } else {
                    self.bitmap_height() as int
                }),
                den == (if self.bitmap_width() * self.spec_height() < self.bitmap_height()
                    * self.spec_width() {
                    self.spec_width() as int
                } else {
                    self.spec_height() as int
                }),
        ;
        lemma_scaled_step(num, den, x, 1);
        lemma_scaled_step(num, den, y, 1);
    }

    /// At a scale of at least two every virtual pixel of the grid can be
    /// painted.
    pub proof fn lemma_coarse_grid_paintable(&self, x: int, y: int)
        requires
            self.wf(),
            self.scale_num() >= 2 * self.scale_den(),
            0 <= x < self.spec_width(),
            0 <= y < self.spec_height(),
        ensures
            self.paintable(x, y),
    {
        lemma_scaled_step(self.scale_num(), self.scale_den(), x, 2);
        lemma_scaled_step(self.scale_num(), self.scale_den(), y, 2);
    }

    /// At a scale of at least two every image that fits the grid can be
    /// drawn.
    pub proof fn lemma_coarse_grid_drawable(&self, x: int, y: int, width: int, height: int)
        requires
            self.wf(),
            self.scale_num() >= 2 * self.scale_den(),
            0 <= x && x + width <= self.spec_width(),
            0 <= y && y + height <= self.spec_height(),
        ensures
            self.drawable(x, y, width, height),
    {
        assert forall|column: int| x <= column < x + width implies #[trigger] self.column_paintable(
            column,
        ) by {
            self.lemma_coarse_grid_paintable(column, 0);
        }
        assert forall|row: int| y <= row < y + height implies #[trigger] self.row_paintable(row) by {
            self.lemma_coarse_grid_paintable(0, row);
        }
    }

    /// A bitmap pixel lies in the box of the virtual pixel `(x, y)` exactly
    /// if `column_of` and `row_of` name that virtual pixel.
    pub proof fn lemma_pixel_cell(&self, x: int, y: int, px: int, py: int)
        requires
            self.wf(),
            self.scale_num() > 0,
            0 <= x,
            0 <= y,
        ensures
            self.left(x) <= px <= self.right(x) <==> self.column_of(px) == x,
            self.top(y) <= py <= self.bottom(y) <==> self.row_of(py) == y,
            in_box(px, py, self.left(x), self.top(y), self.right(x), self.bottom(y)) <==> self.column_of(
                px,
            ) == x && self.row_of(py) == y,
    {
        let (num, den) = (self.scale_num(), self.scale_den());
        lemma_cell_at(num, den, x, px - self.offset_x());
        lemma_cell_at(num, den, y, py - self.offset_y());
        lemma_scaled_monotonic(num, den, 0, x);
        lemma_scaled_monotonic(num, den, 0, y);
        lemma_scaled_whole(num, den);
    }

    /// What a drawn image shows. After the image `rows` was drawn with its
    /// top left corner on the virtual pixel `(x, y)`, every bitmap pixel
    /// `(px, py)` in the box of the virtual pixel `(x + dx, y + dy)` has the
    /// packed color of the image pixel `(dx, dy)`, whatever the scale and the
    /// offset of the grid.
    pub proof fn lemma_image_shows(
        &self,
        pixels: Seq<u32>,
        x: int,
        y: int,
        rows: Seq<Seq<(u8, u8, u8)>>,
        dx: int,
        dy: int,
        px: int,
        py: int,
    )
        requires
            self.wf(),
            pixels.len() == self@.len(),
            0 <= x,
            0 <= y,
            0 <= dx < raster_width(rows),
            0 <= dy < rows.len(),
            self.paintable(x + dx, y + dy),
            in_box(
                px,
                py,
                self.left(x + dx),
                self.top(y + dy),
                self.right(x + dx),
                self.bottom(y + dy),
            ),
        ensures
            0 <= px < self.bitmap_width(),
            0 <= py < self.bitmap_height(),
            0 <= px + py * self.bitmap_width() < pixels.len(),
            self.image_drawn(pixels, x, y, rows)[px + py * self.bitmap_width()] == packed(
                rows[dy][dx],
            ),
    {
        let width = self.bitmap_width() as int;
        self.lemma_column_inside(x + dx);
        self.lemma_row_inside(y + dy);
        self.lemma_painted_scale(x + dx);
        self.lemma_pixel_cell(x + dx, y + dy, px, py);
        lemma_pixel_index(px, py, width);
        lemma_pixel_index_bound(px, py, width, self.bitmap_height() as int);
    }

    /// What a drawn image leaves alone. After the image `rows` was drawn
    /// with its top left corner on the virtual pixel `(x, y)`, every bitmap
    /// pixel outside the box that reaches from the first bitmap pixel of the
    /// virtual pixel `(x, y)` to the last bitmap pixel of the last virtual
    /// pixel under the image has the color that it had.
    pub proof fn lemma_image_keeps_rest(
        &self,
        pixels: Seq<u32>,
        x: int,
        y: int,
        rows: Seq<Seq<(u8, u8, u8)>>,
        px: int,
        py: int,
    )
        requires
            self.wf(),
            pixels.len() == self@.len(),
            self.drawable(x, y, raster_width(rows), rows.len() as int),
            0 <= px < self.bitmap_width(),
            0 <= py < self.bitmap_height(),
            !in_box(
                px,
                py,
                self.left(x),
                self.top(y),
                self.right(x + raster_width(rows) - 1),
                self.bottom(y + rows.len() - 1),
            ),
        ensures
            0 <= px + py * self.bitmap_width() < pixels.len(),
            self.image_drawn(pixels, x, y, rows)[px + py * self.bitmap_width()] == pixels[px + py
                * self.bitmap_width()],
    {
        let width = self.bitmap_width() as int;
        lemma_pixel_index(px, py, width);
        lemma_pixel_index_bound(px, py, width, self.bitmap_height() as int);
        let column = self.column_of(px);
        let row = self.row_of(py);
        if x <= column < x + raster_width(rows) && y <= row < y + rows.len() {
            assert(self.column_paintable(column));
            self.lemma_painted_scale(column);
            self.lemma_pixel_cell(column, row, px, py);
            let (num, den) = (self.scale_num(), self.scale_den());
            lemma_scaled_monotonic(num, den, x, column);
            lemma_scaled_monotonic(num, den, column + 1, x + raster_width(rows));
            lemma_scaled_monotonic(num, den, y, row);
            lemma_scaled_monotonic(num, den, row + 1, y + rows.len());
        }
    }

    /// Drawing an image twice on the same virtual pixel leaves the bitmap as
    /// drawing it once did.
    pub proof fn lemma_image_drawn_twice(
        &self,
        pixels: Seq<u32>,
        x: int,
        y: int,
        rows: Seq<Seq<(u8, u8, u8)>>,
    )
        ensures
            self.image_drawn(self.image_drawn(pixels, x, y, rows), x, y, rows) == self.image_drawn(
                pixels,
                x,
                y,
                rows,
            ),
    {
        assert(self.image_drawn(self.image_drawn(pixels, x, y, rows), x, y, rows)
            =~= self.image_drawn(pixels, x, y, rows));
    }

    /// Grids of the same layout draw an image alike.
    pub proof fn lemma_same_layout_draws_alike(
        &self,
        other: &Self,
        pixels: Seq<u32>,
        x: int,
        y: int,
        rows: Seq<Seq<(u8, u8, u8)>>,
    )
        requires
            self.same_layout(other),
        ensures
            self.image_drawn(pixels, x, y, rows) == other.image_drawn(pixels, x, y, rows),
    {
        assert(self.image_drawn(pixels, x, y, rows) =~= other.image_drawn(pixels, x, y, rows));
    }

    /// Where a virtual pixel can be painted, the scale is not zero.
    pub proof fn lemma_painted_scale(&self, x: int)
        requires
            self.left(x) < self.right(x),
        ensures
            self.scale_num() > 0,
    {
        let num = self.scale_num();
        if num == 0 {
            assert(num * x == 0 && num * (x + 1) == 0) by (nonlinear_arith)
                requires
                    num == 0,
            ;
        }
    }
}

} // verus!
