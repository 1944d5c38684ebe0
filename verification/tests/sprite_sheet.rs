use tiley::sprite_sheet::{linear_translation, LinearLayout, SpriteLayout, SpriteSheet};
use tiley::SheetImage;

/// The bytes of an image whose pixel `(x, y)` is `(x, y, x + y)`.
fn coordinates(width: u32, height: u32) -> Vec<u8> {
    let mut data = Vec::new();
    for y in 0..height {
        for x in 0..width {
            data.push(x as u8);
            data.push(y as u8);
            data.push((x + y) as u8);
        }
    }
    data
}

fn sheet(width: u32, height: u32, sprite_size: usize) -> SpriteSheet<LinearLayout> {
    let image = SheetImage::from_raw(width, height, coordinates(width, height)).unwrap();
    SpriteSheet::new(image, sprite_size)
}

/// Sprites in rows of `columns`, row after row.
struct Packed {
    columns: usize,
}

impl SpriteLayout for Packed {
    fn coords_of(&self, sprite_id: usize) -> (usize, usize) {
        self.id_to_coords(sprite_id)
    }

    fn id_to_coords(&self, sprite_id: usize) -> (usize, usize) {
        (sprite_id % self.columns, sprite_id / self.columns)
    }
}

#[test]
fn linear_translation_puts_the_sprites_in_one_row() {
    assert_eq!(linear_translation(0), (0, 0));
    assert_eq!(linear_translation(1), (1, 0));
    assert_eq!(linear_translation(41), (41, 0));
    assert_eq!(LinearLayout.id_to_coords(7), (7, 0));
}

#[test]
fn from_raw_takes_three_bytes_a_pixel() {
    let image = SheetImage::from_raw(4, 2, coordinates(4, 2)).unwrap();
    assert_eq!(image.dimensions(), (4, 2));
}

#[test]
fn from_raw_refuses_a_short_buffer() {
    assert!(SheetImage::from_raw(4, 2, vec![0; 23]).is_none());
    assert!(SheetImage::from_raw(4, 2, vec![0; 24]).is_some());
    assert!(SheetImage::from_raw(4, 2, vec![0; 25]).is_some());
    assert!(SheetImage::from_raw(1, 1, Vec::new()).is_none());
    assert!(SheetImage::from_raw(0, 0, Vec::new()).is_some());
    assert!(SheetImage::from_raw(u32::MAX, u32::MAX, vec![0; 16]).is_none());
}

#[test]
fn from_raw_agrees_with_the_image_it_was_taken_from() {
    let source = image::RgbImage::from_fn(5, 4, |x, y| image::Rgb([x as u8, 10 * y as u8, 3]));
    let image = SheetImage::from_raw(5, 4, source.clone().into_raw()).unwrap();
    let sheet = SpriteSheet::new(image, 1);
    for id in 0..5u32 {
        let sprite = sheet.sprite(id as usize);
        let rgb = sprite.pixel((0, 0));
        assert_eq!([rgb.0, rgb.1, rgb.2], source.get_pixel(id, 0).0);
    }
}

#[test]
fn sprite_one_of_a_three_by_three_sheet() {
    let sheet = sheet(24, 24, 8);
    let sprite = sheet.sprite(1);
    assert_eq!(sprite.dimensions(), (8, 8));
    for dy in 0..8u32 {
        for dx in 0..8u32 {
            let x = 8 + dx as u8;
            let y = dy as u8;
            assert_eq!(sprite.pixel((dx, dy)), (x, y, x + y));
        }
    }
}

#[test]
fn sprite_of_the_first_row_whatever_the_height_of_the_sheet() {
    let low = sheet(24, 8, 8);
    let high = sheet(24, 80, 8);
    for id in 0..3 {
        let (a, b) = (low.sprite(id), high.sprite(id));
        for dy in 0..8u32 {
            for dx in 0..8u32 {
                assert_eq!(a.pixel((dx, dy)), b.pixel((dx, dy)));
            }
        }
    }
}

#[test]
fn last_sprite_ends_on_the_last_column() {
    let sheet = sheet(24, 8, 8);
    let sprite = sheet.sprite(2);
    assert_eq!(sprite.pixel((7, 7)), (23, 7, 30));
    assert_eq!(sprite.pixel((0, 0)), (16, 0, 16));
}

#[test]
fn contains_tells_the_sprites_of_the_sheet() {
    let sheet = sheet(24, 24, 8);
    assert_eq!(sheet.sprite_size(), 8);
    assert!(sheet.contains(0));
    assert!(sheet.contains(2));
    assert!(!sheet.contains(3));
    assert!(!sheet.contains(usize::MAX));
}

#[test]
fn contains_counts_whole_sprites_only() {
    let sheet = sheet(23, 8, 8);
    assert!(sheet.contains(1));
    assert!(!sheet.contains(2));
    let low = self::sheet(24, 7, 8);
    assert!(!low.contains(0));
    let empty = SpriteSheet::new(SheetImage::from_raw(0, 0, Vec::new()).unwrap(), 8);
    assert!(!empty.contains(0));
}

#[test]
fn a_sprite_as_large_as_the_sheet() {
    let sheet = sheet(6, 6, 6);
    assert!(sheet.contains(0));
    assert!(!sheet.contains(1));
    let sprite = sheet.sprite(0);
    assert_eq!(sprite.dimensions(), (6, 6));
    assert_eq!(sprite.pixel((5, 5)), (5, 5, 10));
}

#[test]
fn a_layout_of_the_caller_places_the_sprites() {
    let image = SheetImage::from_raw(24, 24, coordinates(24, 24)).unwrap();
    let sheet = SpriteSheet::with_layout(image, 8, Packed { columns: 3 });
    assert!(sheet.contains(8));
    assert!(!sheet.contains(9));
    let sprite = sheet.sprite(5);
    assert_eq!(sprite.pixel((0, 0)), (16, 8, 24));
    assert_eq!(sprite.pixel((7, 7)), (23, 15, 38));
    let sprite = sheet.sprite(6);
    assert_eq!(sprite.pixel((1, 2)), (1, 18, 19));
}
