//! The grid of tiles: square blocks of virtual pixels, each filled with one
//! sprite of a sheet.

use crate::bitmap::{in_box, packed, Bitmap};
use crate::pixel_grid::PixelGrid;
use crate::raster::SheetImage;
use crate::sprite_sheet::{LinearLayout, SpriteLayout, SpriteSheet};
use vstd::prelude::*;

verus! {

/// A bitmap divided into `width` by `height` tiles of `tile_size` virtual
/// pixels a side, and the sheet whose sprites are drawn on the tiles: one
/// pixel of a sprite on one virtual pixel of a tile.
pub struct TileGrid<L: SpriteLayout> {
    pixel_grid: PixelGrid,
    width: usize,
    height: usize,
    // side length of a tile, in virtual pixels
    tile_size: usize,
    sprite_sheet: SpriteSheet<L>,
}

impl<L: SpriteLayout> View for TileGrid<L> {
    type V = Seq<u32>;

    /// The pixels of the bitmap, row after row.
    open spec fn view(&self) -> Seq<u32> {
        self.spec_pixel_grid()@
    }
}

impl<L: SpriteLayout> TileGrid<L> {
    /// The grid of virtual pixels under the tiles.
    pub closed spec fn spec_pixel_grid(&self) -> PixelGrid {
        self.pixel_grid
    }

    /// The width of the grid, in tiles.
    pub closed spec fn spec_width(&self) -> usize {
        self.width
    }

    /// The height of the grid, in tiles.
    pub closed spec fn spec_height(&self) -> usize {
        self.height
    }

    /// The side length of a tile, in virtual pixels.
    pub closed spec fn spec_tile_size(&self) -> usize {
        self.tile_size
    }

    /// The sheet that the sprites are cut from.
    pub closed spec fn spec_sprite_sheet(&self) -> SpriteSheet<L> {
        self.sprite_sheet
    }

    /// The grid of virtual pixels and the sheet are well formed, the tiles
    /// cover the grid of virtual pixels exactly, and a sprite is as large as
    /// a tile.
    pub open spec fn wf(&self) -> bool {
        &&& self.spec_pixel_grid().wf()
        &&& self.spec_sprite_sheet().wf()
        &&& self.spec_sprite_sheet().spec_sprite_size() == self.spec_tile_size()
        &&& self.spec_pixel_grid().spec_width() == self.spec_width() * self.spec_tile_size()
        &&& self.spec_pixel_grid().spec_height() == self.spec_height() * self.spec_tile_size()
    }

    /// Whether `other` has the same tiles on a bitmap of the same dimensions
    /// and the same sheet, whatever the colors of the two bitmaps.
    pub open spec fn same_scene(&self, other: &Self) -> bool {
        &&& self.spec_pixel_grid().same_layout(&other.spec_pixel_grid())
        &&& self.spec_width() == other.spec_width()
        &&& self.spec_height() == other.spec_height()
        &&& self.spec_tile_size() == other.spec_tile_size()
        &&& self.spec_sprite_sheet() == other.spec_sprite_sheet()
    }

    /// Whether the sprite `id` can be drawn on the tile `(tile_x, tile_y)`:
    /// the tile is one of the grid, the sprite lies on the sheet, and every
    /// virtual pixel of the tile can be painted.
    pub open spec fn tile_drawable(&self, tile_x: int, tile_y: int, id: usize) -> bool {
        &&& 0 <= tile_x < self.spec_width()
        &&& 0 <= tile_y < self.spec_height()
        &&& self.spec_sprite_sheet().has_sprite(id)
        &&& self.spec_pixel_grid().drawable(
            tile_x * self.spec_tile_size(),
            tile_y * self.spec_tile_size(),
            self.spec_tile_size() as int,
            self.spec_tile_size() as int,
        )
    }

    /// The colors `pixels` of the bitmap after the sprite `id` was drawn on
    /// the tile `(tile_x, tile_y)`.
    pub open spec fn tile_drawn(&self, pixels: Seq<u32>, tile_x: int, tile_y: int, id: usize) -> Seq<
        u32,
    > {
        self.spec_pixel_grid().image_drawn(
            pixels,
            tile_x * self.spec_tile_size(),
            tile_y * self.spec_tile_size(),
            self.spec_sprite_sheet().sprite_pixels(id),
        )
    }
}

impl TileGrid<LinearLayout> {
    /// Divides `bitmap` into `width` by `height` tiles of `tile_size` virtual
    /// pixels a side, to be filled from the sprites of `tile_size` pixels a
    /// side that stand side by side on `sheet_image`.
    pub fn new(
        bitmap: Bitmap,
        width: usize,
        height: usize,
        tile_size: usize,
        sheet_image: SheetImage,
    ) -> (grid: Self)
        requires
            bitmap.wf(),
            width > 0,
            height > 0,
            tile_size > 0,
            width * tile_size <= usize::MAX,
            height * tile_size <= usize::MAX,
        ensures
            grid.wf(),
            grid@ == bitmap@,
            grid.spec_pixel_grid().bitmap_width() == bitmap.spec_width(),
            grid.spec_pixel_grid().bitmap_height() == bitmap.spec_height(),
            grid.spec_width() == width,
            grid.spec_height() == height,
            grid.spec_tile_size() == tile_size,
            grid.spec_sprite_sheet()@ == sheet_image@,
            grid.spec_sprite_sheet().spec_layout() == LinearLayout,
    {
        Self::with_layout(bitmap, width, height, tile_size, sheet_image, LinearLayout)
    }
}

impl<L: SpriteLayout> TileGrid<L> {
    /// Divides `bitmap` into `width` by `height` tiles of `tile_size` virtual
    /// pixels a side, to be filled from the sprites of `tile_size` pixels a
    /// side that `layout` finds on `sheet_image`.
    pub fn with_layout(
        bitmap: Bitmap,
        width: usize,
        height: usize,
        tile_size: usize,
        sheet_image: SheetImage,
        layout: L,
    ) -> (grid: Self)
        requires
            bitmap.wf(),
            width > 0,
            height > 0,
            tile_size > 0,
            width * tile_size <= usize::MAX,
            height * tile_size <= usize::MAX,
        ensures
            grid.wf(),
            grid@ == bitmap@,
            grid.spec_pixel_grid().bitmap_width() == bitmap.spec_width(),
            grid.spec_pixel_grid().bitmap_height() == bitmap.spec_height(),
            grid.spec_width() == width,
            grid.spec_height() == height,
            grid.spec_tile_size() == tile_size,
            grid.spec_sprite_sheet()@ == sheet_image@,
            grid.spec_sprite_sheet().spec_layout() == layout,
    {
        proof {
            assert(width * tile_size > 0 && height * tile_size > 0) by (nonlinear_arith)
                requires
                    width > 0,
                    height > 0,
                    tile_size > 0,
            ;
        }
        // calculate the pixel_grid dimensions
        let pixel_grid_width = width * tile_size;
        let pixel_grid_height = height * tile_size;

        let pixel_grid = PixelGrid::new(bitmap, pixel_grid_width, pixel_grid_height);

        let sprite_sheet = SpriteSheet::with_layout(sheet_image, tile_size, layout);

        Self { pixel_grid, width, height, tile_size, sprite_sheet }
    }

    /// The width and the height of the grid, in tiles.
    pub fn dimensions(&self) -> (d: (usize, usize))
        ensures
            d.0 == self.spec_width(),
            d.1 == self.spec_height(),
    {
        (self.width, self.height)
    }

    /// The side length of a tile, in virtual pixels.
    pub fn tile_size(&self) -> (side: usize)
        ensures
            side == self.spec_tile_size(),
    {
        self.tile_size
    }

    /// The bitmap that the tiles are drawn on.
    pub fn bitmap(&self) -> (bitmap: &Bitmap)
        ensures
            bitmap@ == self@,
            bitmap.spec_width() == self.spec_pixel_grid().bitmap_width(),
            bitmap.spec_height() == self.spec_pixel_grid().bitmap_height(),
    {
        self.pixel_grid.bitmap()
    }

    /// The grid of virtual pixels under the tiles.
    pub fn pixel_grid(&self) -> (pixel_grid: &PixelGrid)
        ensures
            *pixel_grid == self.spec_pixel_grid(),
    {
        &self.pixel_grid
    }

    /// The sheet that the sprites are cut from.
    pub fn sprite_sheet(&self) -> (sprite_sheet: &SpriteSheet<L>)
        ensures
            *sprite_sheet == self.spec_sprite_sheet(),
    {
        &self.sprite_sheet
    }

    /// Whether the sprite `sprite_id` can be drawn on the tile `at`.
    pub fn can_draw_tile(&self, at: (usize, usize), sprite_id: usize) -> (fits: bool)
        requires
            self.wf(),
        ensures
            fits == self.tile_drawable(at.0 as int, at.1 as int, sprite_id),
    {
        let (tile_x, tile_y) = at;
        if tile_x >= self.width || tile_y >= self.height {
            return false;
        }
        if !self.sprite_sheet.contains(sprite_id) {
            return false;
        }
        proof {
            let side = self.tile_size as int;
            assert(0 <= tile_x * side <= self.width * side && 0 <= tile_y * side <= self.height
                * side) by (nonlinear_arith)
                requires
                    0 <= tile_x < self.width,
                    0 <= tile_y < self.height,
                    side > 0,
            ;
        }
        self.pixel_grid.can_draw(
            (tile_x * self.tile_size, tile_y * self.tile_size),
            (self.tile_size, self.tile_size),
        )
    }

    /// Draws the sprite `sprite_id` on the tile `at`: the sprite's pixel
    /// `(dx, dy)` gives its packed color to the virtual pixel
    /// `(at.0 * tile_size + dx, at.1 * tile_size + dy)`.
    pub fn draw_tile(&mut self, at: (usize, usize), sprite_id: usize)
        requires
            old(self).wf(),
            old(self).tile_drawable(at.0 as int, at.1 as int, sprite_id),
        ensures
            final(self).wf(),
            final(self).same_scene(old(self)),
            final(self)@ == old(self).tile_drawn(old(self)@, at.0 as int, at.1 as int, sprite_id),
    {
        let (tile_x, tile_y) = at;
        let sprite = self.sprite_sheet.sprite(sprite_id);

        proof {
            let side = self.tile_size as int;
            assert(0 <= tile_x * side <= self.width * side && 0 <= tile_y * side <= self.height
                * side) by (nonlinear_arith)
                requires
                    0 <= tile_x < self.width,
                    0 <= tile_y < self.height,
                    side > 0,
            ;
            assert(sprite@[0].len() == side);
        }
        // virtual pixel coordinates
        let (pixel_x, pixel_y) = (tile_x * self.tile_size, tile_y * self.tile_size);

        self.pixel_grid.draw_image((pixel_x, pixel_y), sprite);
    }
}

/// What holds of every well-formed grid of tiles.
impl<L: SpriteLayout> TileGrid<L> {
    /// At a scale of at least two every sprite of the sheet can be drawn on
    /// every tile of the grid.
    pub proof fn lemma_coarse_grid_drawable(&self, tile_x: int, tile_y: int, id: usize)
        requires
            self.wf(),
            self.spec_pixel_grid().scale_num() >= 2 * self.spec_pixel_grid().scale_den(),
            0 <= tile_x < self.spec_width(),
            0 <= tile_y < self.spec_height(),
            self.spec_sprite_sheet().has_sprite(id),
        ensures
            self.tile_drawable(tile_x, tile_y, id),
    {
        let side = self.spec_tile_size() as int;
        assert(0 <= tile_x * side && tile_x * side + side <= self.spec_width() * side && 0 <= tile_y
            * side && tile_y * side + side <= self.spec_height() * side) by (nonlinear_arith)
            requires
                0 <= tile_x < self.spec_width(),
                0 <= tile_y < self.spec_height(),
                side > 0,
        ;
        self.spec_pixel_grid().lemma_coarse_grid_drawable(tile_x * side, tile_y * side, side, side);
    }

    /// Drawing a tile is idempotent. Where `once` is the grid after the
    /// sprite `id` was drawn on a tile of `before`, and `twice` what drawing
    /// the same sprite on the same tile of `once` gives, the two bitmaps hold
    /// the same colors.
    pub proof fn lemma_draw_tile_twice(
        before: &Self,
        once: &Self,
        twice: &Self,
        tile_x: int,
        tile_y: int,
        id: usize,
    )
        requires
            once.same_scene(before),
            once@ == before.tile_drawn(before@, tile_x, tile_y, id),
            twice@ == once.tile_drawn(once@, tile_x, tile_y, id),
        ensures
            twice@ == once@,
    {
        let side = before.spec_tile_size();
        let rows = before.spec_sprite_sheet().sprite_pixels(id);
        once.spec_pixel_grid().lemma_same_layout_draws_alike(
            &before.spec_pixel_grid(),
            once@,
            tile_x * side,
            tile_y * side,
            rows,
        );
        before.spec_pixel_grid().lemma_image_drawn_twice(
            before@,
            tile_x * side,
            tile_y * side,
            rows,
        );
    }

    /// A drawn tile shows its sprite. After the sprite `id` was drawn on the
    /// tile `(tile_x, tile_y)`, every bitmap pixel `(px, py)` in the box of
    /// the tile's virtual pixel `(dx, dy)` has the packed color of the pixel
    /// `(dx, dy)` of the sprite, which is the pixel
    /// `(column * tile_size + dx, row * tile_size + dy)` of the sheet.
    pub proof fn lemma_tile_shows_sprite(
        &self,
        pixels: Seq<u32>,
        tile_x: int,
        tile_y: int,
        id: usize,
        dx: int,
        dy: int,
        px: int,
        py: int,
    )
        requires
            self.wf(),
            pixels.len() == self@.len(),
            self.tile_drawable(tile_x, tile_y, id),
            0 <= dx < self.spec_tile_size(),
            0 <= dy < self.spec_tile_size(),
            in_box(
                px,
                py,
                self.spec_pixel_grid().left(tile_x * self.spec_tile_size() + dx),
                self.spec_pixel_grid().top(tile_y * self.spec_tile_size() + dy),
                self.spec_pixel_grid().right(tile_x * self.spec_tile_size() + dx),
                self.spec_pixel_grid().bottom(tile_y * self.spec_tile_size() + dy),
            ),
        ensures
            0 <= px + py * self.spec_pixel_grid().bitmap_width() < pixels.len(),
            self.tile_drawn(pixels, tile_x, tile_y, id)[px + py
                * self.spec_pixel_grid().bitmap_width()] == packed(
                self.spec_sprite_sheet()@[self.spec_sprite_sheet().coords_of(id).1
                    * self.spec_tile_size() + dy][self.spec_sprite_sheet().coords_of(id).0
                    * self.spec_tile_size() + dx],
            ),
    {
        let side = self.spec_tile_size() as int;
        let rows = self.spec_sprite_sheet().sprite_pixels(id);
        assert(0 <= tile_x * side && 0 <= tile_y * side) by (nonlinear_arith)
            requires
                0 <= tile_x,
                0 <= tile_y,
                0 < side,
        ;
        assert(rows[0].len() == side);
        assert(self.spec_pixel_grid().column_paintable(tile_x * side + dx));
        assert(self.spec_pixel_grid().row_paintable(tile_y * side + dy));
        self.spec_pixel_grid().lemma_image_shows(
            pixels,
            tile_x * side,
            tile_y * side,
            rows,
            dx,
            dy,
            px,
            py,
        );
    }

    /// A drawn tile changes its own pixels only. After the sprite `id` was
    /// drawn on the tile `(tile_x, tile_y)`, every bitmap pixel outside the
    /// box that reaches from the first bitmap pixel of the tile to its last has
    /// the color that it had.
    pub proof fn lemma_tile_keeps_rest(
        &self,
        pixels: Seq<u32>,
        tile_x: int,
        tile_y: int,
        id: usize,
        px: int,
        py: int,
    )
        requires
            self.wf(),
            pixels.len() == self@.len(),
            self.tile_drawable(tile_x, tile_y, id),
            0 <= px < self.spec_pixel_grid().bitmap_width(),
            0 <= py < self.spec_pixel_grid().bitmap_height(),
            !in_box(
                px,
                py,
                self.spec_pixel_grid().left(tile_x * self.spec_tile_size()),
                self.spec_pixel_grid().top(tile_y * self.spec_tile_size()),
                self.spec_pixel_grid().right((tile_x + 1) * self.spec_tile_size() - 1),
                self.spec_pixel_grid().bottom((tile_y + 1) * self.spec_tile_size() - 1),
            ),
        ensures
            0 <= px + py * self.spec_pixel_grid().bitmap_width() < pixels.len(),
            self.tile_drawn(pixels, tile_x, tile_y, id)[px + py
                * self.spec_pixel_grid().bitmap_width()] == pixels[px + py
                * self.spec_pixel_grid().bitmap_width()],
    {
        let side = self.spec_tile_size() as int;
        let rows = self.spec_sprite_sheet().sprite_pixels(id);
        assert((tile_x + 1) * side == tile_x * side + side && (tile_y + 1) * side == tile_y * side
            + side) by (nonlinear_arith);
        assert(rows[0].len() == side);
        self.spec_pixel_grid().lemma_image_keeps_rest(
            pixels,
            tile_x * side,
            tile_y * side,
            rows,
            px,
            py,
        );
    }

    /// The order in which two tiles are drawn does not matter: tiles do not
    /// overlap.
    pub proof fn lemma_draw_order(
        &self,
        pixels: Seq<u32>,
        first: (int, int),
        first_id: usize,
        second: (int, int),
        second_id: usize,
    )
        requires
            self.wf(),
            first != second,
        ensures
            self.tile_drawn(
                self.tile_drawn(pixels, first.0, first.1, first_id),
                second.0,
                second.1,
                second_id,
            ) == self.tile_drawn(
                self.tile_drawn(pixels, second.0, second.1, second_id),
                first.0,
                first.1,
                first_id,
            ),
    {
        let side = self.spec_tile_size() as int;
        assert(first.0 < second.0 ==> first.0 * side + side <= second.0 * side)
            by (nonlinear_arith)
            requires
                side > 0,
        ;
        assert(second.0 < first.0 ==> second.0 * side + side <= first.0 * side)
            by (nonlinear_arith)
            requires
                side > 0,
        ;
        assert(first.1 < second.1 ==> first.1 * side + side <= second.1 * side)
            by (nonlinear_arith)
            requires
                side > 0,
        ;
        assert(second.1 < first.1 ==> second.1 * side + side <= first.1 * side)
            by (nonlinear_arith)
            requires
                side > 0,
        ;
        let first_rows = self.spec_sprite_sheet().sprite_pixels(first_id);
        let second_rows = self.spec_sprite_sheet().sprite_pixels(second_id);
        assert(first_rows.len() == side && first_rows[0].len() == side);
        assert(second_rows.len() == side && second_rows[0].len() == side);
        assert(self.tile_drawn(
            self.tile_drawn(pixels, first.0, first.1, first_id),
            second.0,
            second.1,
            second_id,
        ) =~= self.tile_drawn(
            self.tile_drawn(pixels, second.0, second.1, second_id),
            first.0,
            first.1,
            first_id,
        ));
    }
}

} // verus!
