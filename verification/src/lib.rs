//! Pixelated, tile-based drawing into a raw pixel buffer.
//!
//! A [`Bitmap`] is the buffer. A [`PixelGrid`] lays a grid of square virtual
//! pixels over it, scaled by one factor both ways and centered. A
//! [`TileGrid`] divides that grid into tiles and fills a tile with a sprite
//! cut from a [`SpriteSheet`].

pub mod bitmap;
pub mod pixel_grid;
pub mod raster;
pub mod scaling;
pub mod sprite_sheet;
pub mod tile_grid;

pub use bitmap::Bitmap;
pub use pixel_grid::{ClampType, PixelGrid};
pub use raster::{SheetImage, Sprite};
pub use sprite_sheet::{linear_translation, LinearLayout, SpriteLayout, SpriteSheet};
pub use tile_grid::TileGrid;
