use tiley::bitmap::pack_rgb;
use tiley::sprite_sheet::{LinearLayout, SpriteLayout};
use tiley::{Bitmap, SheetImage, TileGrid};

/// A sheet image whose pixel `(x, y)` is `(x, y, 255 - x)`.
fn sheet_image(width: u32, height: u32) -> SheetImage {
    let mut data = Vec::new();
    for y in 0..height {
        for x in 0..width {
            data.push(x as u8);
            data.push(y as u8);
            data.push(255 - x as u8);
        }
    }
    SheetImage::from_raw(width, height, data).unwrap()
}

fn color_of(x: usize, y: usize) -> u32 {
    pack_rgb(x as u8, y as u8, 255 - x as u8)
}

/// 4 by 2 tiles of 8 virtual pixels on a bitmap of 100 by 48 pixels: scale
/// 3, and 2 bitmap columns free on each side.
fn grid() -> TileGrid<LinearLayout> {
    let bitmap = Bitmap::from_vec(vec![0xffffff; 100 * 48], 100, 48);
    TileGrid::new(bitmap, 4, 2, 8, sheet_image(24, 24))
}

struct Packed {
    columns: usize,
}

impl SpriteLayout for Packed {
    fn coords_of(&self, sprite_id: usize) -> (usize, usize) {
        self.id_to_coords(sprite_id)
    }

    fn id_to_coords(&self, sprite_id: usize) -> (usize, usize) {
        (sprite_id % self.columns, sprite_id / self.columns)
    }
}

#[test]
fn new_keeps_the_bitmap_and_the_dimensions() {
    let grid = grid();
    assert_eq!(grid.dimensions(), (4, 2));
    assert_eq!(grid.tile_size(), 8);
    assert_eq!(grid.pixel_grid().dimensions(), (32, 16));
    assert_eq!(grid.pixel_grid().pixel_size(), (48, 16));
    assert_eq!(grid.pixel_grid().pixel_offset(), 2);
    assert_eq!(grid.sprite_sheet().sprite_size(), 8);
    assert_eq!(grid.bitmap().dimensions(), (100, 48));
    assert!(grid.bitmap().as_vec().iter().all(|p| *p == 0xffffff));
}

#[test]
fn draw_tile_copies_the_sprite_onto_the_tile() {
    let mut grid = grid();
    grid.draw_tile((2, 1), 1);
    let pixels = grid.bitmap().as_vec();
    for py in 0..48 {
        for px in 0..100 {
            // the tile (2, 1) covers the columns 50 to 73 and the rows 24 to 47
            let inside = (50..74).contains(&px) && (24..48).contains(&py);
            let expected = if inside {
                let (dx, dy) = ((px - 50) / 3, (py - 24) / 3);
                color_of(8 + dx, dy)
            } else {
                0xffffff
            };
            assert_eq!(pixels[px + py * 100], expected, "pixel ({px}, {py})");
        }
    }
}

#[test]
fn draw_tile_fills_the_box_of_every_virtual_pixel() {
    let mut grid = grid();
    grid.draw_tile((3, 0), 2);
    for dy in 0..8 {
        for dx in 0..8 {
            let ((x1, y1), (x2, y2)) = grid.pixel_grid().virtual_pixel_bounds((24 + dx, dy));
            for py in y1..=y2 {
                for px in x1..=x2 {
                    assert_eq!(grid.bitmap().as_vec()[px + py * 100], color_of(16 + dx, dy));
                }
            }
        }
    }
}

#[test]
fn draw_tile_twice_is_draw_tile_once() {
    let mut once = grid();
    once.draw_tile((1, 1), 2);
    let mut twice = grid();
    twice.draw_tile((1, 1), 2);
    twice.draw_tile((1, 1), 2);
    assert_eq!(once.bitmap().as_vec(), twice.bitmap().as_vec());
}

#[test]
fn draw_tile_overwrites_what_the_tile_showed() {
    let mut grid = grid();
    grid.draw_tile((0, 0), 0);
    grid.draw_tile((0, 0), 1);
    let mut fresh = self::grid();
    fresh.draw_tile((0, 0), 1);
    assert_eq!(grid.bitmap().as_vec(), fresh.bitmap().as_vec());
}

#[test]
fn the_order_of_two_tiles_does_not_matter() {
    let mut one = grid();
    one.draw_tile((0, 0), 1);
    one.draw_tile((1, 0), 2);
    one.draw_tile((0, 1), 0);
    let mut other = grid();
    other.draw_tile((0, 1), 0);
    other.draw_tile((1, 0), 2);
    other.draw_tile((0, 0), 1);
    assert_eq!(one.bitmap().as_vec(), other.bitmap().as_vec());
}

#[test]
fn all_tiles_cover_the_grid_and_leave_the_letterbox() {
    let mut grid = grid();
    for tile_y in 0..2 {
        for tile_x in 0..4 {
            grid.draw_tile((tile_x, tile_y), 0);
        }
    }
    let pixels = grid.bitmap().as_vec();
    for py in 0..48 {
        for px in 0..100 {
            let inside = (2..98).contains(&px);
            assert_eq!(pixels[px + py * 100] == 0xffffff, !inside);
        }
    }
}

#[test]
fn can_draw_tile_tells_what_draw_tile_accepts() {
    let grid = grid();
    assert!(grid.can_draw_tile((0, 0), 0));
    assert!(grid.can_draw_tile((3, 1), 2));
    assert!(!grid.can_draw_tile((4, 0), 0));
    assert!(!grid.can_draw_tile((0, 2), 0));
    assert!(!grid.can_draw_tile((0, 0), 3));
}

#[test]
fn can_draw_tile_refuses_virtual_pixels_of_one_bitmap_pixel() {
    let bitmap = Bitmap::from_vec(vec![0; 32 * 16], 32, 16);
    let grid = TileGrid::new(bitmap, 4, 2, 8, sheet_image(24, 24));
    assert_eq!(grid.pixel_grid().pixel_size(), (16, 16));
    assert!(!grid.can_draw_tile((0, 0), 0));
}

#[test]
fn wide_bitmap_letterboxes_the_tiles() {
    let bitmap = Bitmap::from_vec(vec![0; 600 * 200], 600, 200);
    let mut grid = TileGrid::new(bitmap, 4, 2, 5, sheet_image(10, 5));
    assert_eq!(grid.pixel_grid().pixel_size(), (200, 10));
    assert_eq!(grid.pixel_grid().pixel_offset(), 100);
    grid.draw_tile((3, 1), 1);
    let pixels = grid.bitmap().as_vec();
    assert_eq!(pixels[400 + 100 * 600], color_of(5, 0));
    assert_eq!(pixels[499 + 199 * 600], color_of(9, 4));
    assert_eq!(pixels[399 + 100 * 600], 0);
    assert_eq!(pixels[400 + 99 * 600], 0);
    assert_eq!(pixels[500 + 199 * 600], 0);
}

#[test]
fn a_layout_of_the_caller_picks_the_sprite() {
    let bitmap = Bitmap::from_vec(vec![0; 100 * 48], 100, 48);
    let mut grid = TileGrid::with_layout(bitmap, 4, 2, 8, sheet_image(24, 24), Packed { columns: 3 });
    assert!(grid.can_draw_tile((0, 0), 8));
    assert!(!grid.can_draw_tile((0, 0), 9));
    grid.draw_tile((0, 0), 7);
    let pixels = grid.bitmap().as_vec();
    assert_eq!(pixels[2], color_of(8, 16));
    assert_eq!(pixels[25 + 23 * 100], color_of(15, 23));
    assert_eq!(pixels[1], 0);
    assert_eq!(pixels[26], 0);
}
