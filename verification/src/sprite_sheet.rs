//! The sprite sheet: an image that holds square sprites of one size.

use crate::raster::{image_view, raster_width, SheetImage, Sprite};
use crate::scaling::lemma_floor_bounds;
use vstd::prelude::*;

verus! {

/// A layout of sprites on a sheet: the mapping from a sprite's id to its
/// column and row, counted in sprites.
///
/// `coords_of` is the mapping as the contracts of a sheet speak of it, and
/// `id_to_coords` computes it. A layout written without proofs gives both the
/// same body.
pub trait SpriteLayout {
    /// The column and the row of the sprite `sprite_id`.
    spec fn coords_of(&self, sprite_id: usize) -> (usize, usize);

    /// Computes the column and the row of the sprite `sprite_id`.
    fn id_to_coords(&self, sprite_id: usize) -> (coords: (usize, usize))
        ensures
            coords == self.coords_of(sprite_id),
    ;
}

/// The default layout: the sprites stand side by side in one row.
pub fn linear_translation(sprite_id: usize) -> (coords: (usize, usize))
    ensures
        coords == (sprite_id, 0usize),
{
    (sprite_id, 0)
}

/// The layout of [`linear_translation`].
#[derive(Clone, Copy, Debug)]
pub struct LinearLayout;

impl SpriteLayout for LinearLayout {
    open spec fn coords_of(&self, sprite_id: usize) -> (usize, usize) {
        (sprite_id, 0usize)
    }

    fn id_to_coords(&self, sprite_id: usize) -> (coords: (usize, usize)) {
        linear_translation(sprite_id)
    }
}

/// An image cut into square sprites of `sprite_size` pixels a side, and the
/// layout that says where on the image the sprite of an id stands.
pub struct SpriteSheet<L: SpriteLayout> {
    image: SheetImage,
    /// side length of a sprite, in pixels
    sprite_size: usize,
    layout: L,
}

impl<L: SpriteLayout> View for SpriteSheet<L> {
    type V = Seq<Seq<(u8, u8, u8)>>;

    /// The rows of pixels of the sheet image, from the top.
    closed spec fn view(&self) -> Seq<Seq<(u8, u8, u8)>> {
        self.image@
    }
}

impl SpriteSheet<LinearLayout> {
    /// The sheet of `image` with sprites of `sprite_size` pixels a side that
    /// stand side by side in one row.
    pub fn new(image: SheetImage, sprite_size: usize) -> (sheet: Self)
        requires
            sprite_size > 0,
        ensures
            sheet.wf(),
            sheet@ == image@,
            sheet.spec_sprite_size() == sprite_size,
            sheet.spec_layout() == LinearLayout,
    {
        SpriteSheet { image, sprite_size, layout: LinearLayout }
    }
}

impl<L: SpriteLayout> SpriteSheet<L> {
    /// The side length of a sprite, in pixels.
    pub closed spec fn spec_sprite_size(&self) -> usize {
        self.sprite_size
    }

    /// The layout of the sprites on the sheet.
    pub closed spec fn spec_layout(&self) -> L {
        self.layout
    }

    /// Sprites have a side of at least one pixel.
    pub open spec fn wf(&self) -> bool {
        self.spec_sprite_size() > 0
    }

    /// The column and the row of the sprite `id`, counted in sprites.
    pub open spec fn coords_of(&self, id: usize) -> (usize, usize) {
        self.spec_layout().coords_of(id)
    }

    /// Whether the sprite `id` lies on the sheet with all its pixels.
    pub open spec fn has_sprite(&self, id: usize) -> bool {
        &&& (self.coords_of(id).0 + 1) * self.spec_sprite_size() <= raster_width(self@)
        &&& (self.coords_of(id).1 + 1) * self.spec_sprite_size() <= self@.len()
    }

    /// The pixels of the sprite `id`: the square of `sprite_size` pixels a
    /// side whose top left corner is the pixel
    /// `(column * sprite_size, row * sprite_size)` of the sheet.
    pub open spec fn sprite_pixels(&self, id: usize) -> Seq<Seq<(u8, u8, u8)>> {
        let side = self.spec_sprite_size() as int;
        let (column, row) = self.coords_of(id);
        Seq::new(
            side as nat,
            |y: int| Seq::new(side as nat, |x: int| self@[row * side + y][column * side + x]),
        )
    }

    /// The sheet of `image` with sprites of `sprite_size` pixels a side, laid
    /// out as `layout` says.
    pub fn with_layout(image: SheetImage, sprite_size: usize, layout: L) -> (sheet: Self)
        requires
            sprite_size > 0,
        ensures
            sheet.wf(),
            sheet@ == image@,
            sheet.spec_sprite_size() == sprite_size,
            sheet.spec_layout() == layout,
    {
        SpriteSheet { image, sprite_size, layout }
    }

    /// The side length of a sprite, in pixels.
    pub fn sprite_size(&self) -> (side: usize)
        ensures
            side == self.spec_sprite_size(),
    {
        self.sprite_size
    }

    /// Whether the sprite `sprite_id` lies on the sheet with all its pixels.
    pub fn contains(&self, sprite_id: usize) -> (found: bool)
        requires
            self.wf(),
        ensures
            found == self.has_sprite(sprite_id),
    {
        let (sprite_x, sprite_y) = self.layout.id_to_coords(sprite_id);
        let (image_width, image_height) = self.image.dimensions();
        let side = self.sprite_size;
        if image_height == 0 {
            assert((sprite_y + 1) * side > 0) by (nonlinear_arith)
                requires
                    side > 0,
                    sprite_y >= 0,
            ;
            return false;
        }
        proof {
            lemma_floor_bounds(image_width as int, side as int, sprite_x + 1);
            lemma_floor_bounds(image_height as int, side as int, sprite_y + 1);
        }
        sprite_x < image_width as usize / side && sprite_y < image_height as usize / side
    }

    /// Cuts the sprite `sprite_id` out of the sheet.
    pub fn sprite(&self, sprite_id: usize) -> (sprite: Sprite<'_>)
        requires
            self.wf(),
            self.has_sprite(sprite_id),
        ensures
            sprite@ == self.sprite_pixels(sprite_id),
    {
        let (sprite_x, sprite_y) = self.layout.id_to_coords(sprite_id);
        let (image_width, image_height) = self.image.dimensions();
        let side = self.sprite_size;
        proof {
            assert(sprite_x * side + side == (sprite_x + 1) * side) by (nonlinear_arith);
            assert(sprite_y * side + side == (sprite_y + 1) * side) by (nonlinear_arith);
            assert(0 <= sprite_x * side && 0 <= sprite_y * side) by (nonlinear_arith);
        }
        // cut out the subimage containing the correct sprite
        let sprite = image_view(
            &self.image,
            (sprite_x * side) as u32,
            (sprite_y * side) as u32,
            side as u32,
            side as u32,
        );
        assert(sprite@ =~~= self.sprite_pixels(sprite_id));
        sprite
    }
}

} // verus!
