use tiley::pixel_grid::floor_scaled;
use tiley::{Bitmap, ClampType, PixelGrid};

fn grid(bitmap_width: usize, bitmap_height: usize, width: usize, height: usize) -> PixelGrid {
    let bitmap = Bitmap::from_vec(vec![0; bitmap_width * bitmap_height], bitmap_width, bitmap_height);
    PixelGrid::new(bitmap, width, height)
}

#[test]
fn wide_bitmap_clamps_the_grid_by_its_height() {
    let grid = grid(600, 200, 20, 10);
    assert_eq!(grid.clamped_by(), ClampType::Height);
    assert_eq!(grid.pixel_size(), (200, 10));
    assert_eq!(grid.pixel_offset(), 100);
    assert_eq!(grid.dimensions(), (20, 10));
    assert_eq!(grid.bitmap().dimensions(), (600, 200));
}

#[test]
fn wide_bitmap_maps_the_corner_cells() {
    let grid = grid(600, 200, 20, 10);
    assert_eq!(grid.virtual_pixel_bounds((0, 0)), ((100, 0), (119, 19)));
    assert_eq!(grid.virtual_pixel_bounds((19, 9)), ((480, 180), (499, 199)));
}

#[test]
fn high_bitmap_clamps_the_grid_by_its_width() {
    let grid = grid(200, 600, 10, 20);
    assert_eq!(grid.clamped_by(), ClampType::Width);
    assert_eq!(grid.pixel_size(), (200, 10));
    assert_eq!(grid.pixel_offset(), 100);
    assert_eq!(grid.virtual_pixel_bounds((0, 0)), ((0, 100), (19, 119)));
    assert_eq!(grid.virtual_pixel_bounds((9, 19)), ((180, 480), (199, 499)));
}

#[test]
fn equal_ratios_clamp_by_the_height() {
    let grid = grid(40, 20, 4, 2);
    assert_eq!(grid.clamped_by(), ClampType::Height);
    assert_eq!(grid.pixel_offset(), 0);
    assert_eq!(grid.virtual_pixel_bounds((3, 1)), ((30, 10), (39, 19)));
}

#[test]
fn the_offset_floors_the_product_then_the_half() {
    // scale 7 / 2: three cells span floor(10.5) = 10 pixels, and 90 are left
    let grid = grid(100, 7, 3, 2);
    assert_eq!(grid.clamped_by(), ClampType::Height);
    assert_eq!(grid.pixel_size(), (7, 2));
    assert_eq!(grid.pixel_offset(), 45);
    // scale 10 / 3: two cells span floor(6.67) = 6 rows, and 5 are left
    let grid = grid_of_rows();
    assert_eq!(grid.clamped_by(), ClampType::Width);
    assert_eq!(grid.pixel_offset(), 2);
}

fn grid_of_rows() -> PixelGrid {
    grid(10, 11, 3, 2)
}

#[test]
fn an_odd_rest_leaves_one_pixel_more_after_the_grid() {
    let grid = grid(601, 200, 20, 10);
    assert_eq!(grid.pixel_offset(), 100);
    let (_, (right, _)) = grid.virtual_pixel_bounds((19, 0));
    assert_eq!(right, 499);
    assert_eq!(601 - 1 - right, 101);
}

#[test]
fn a_fractional_scale_floors_every_edge() {
    let grid = grid(100, 7, 3, 2);
    assert_eq!(grid.virtual_pixel_bounds((0, 0)), ((45, 0), (47, 2)));
    assert_eq!(grid.virtual_pixel_bounds((1, 1)), ((48, 3), (51, 6)));
    assert_eq!(grid.virtual_pixel_bounds((2, 0)), ((52, 0), (54, 2)));
}

#[test]
fn neighbours_touch_at_every_scale() {
    for (bitmap_width, bitmap_height, width, height) in
        [(600, 200, 20, 10), (100, 70, 30, 20), (257, 101, 37, 13), (64, 64, 16, 16)]
    {
        let grid = grid(bitmap_width, bitmap_height, width, height);
        for x in 0..width - 1 {
            if grid.is_paintable((x, 0)) && grid.is_paintable((x + 1, 0)) {
                let (_, (right, _)) = grid.virtual_pixel_bounds((x, 0));
                let ((left, _), _) = grid.virtual_pixel_bounds((x + 1, 0));
                assert_eq!(right, left - 1);
            }
        }
        for y in 0..height - 1 {
            if grid.is_paintable((0, y)) && grid.is_paintable((0, y + 1)) {
                let (_, (_, bottom)) = grid.virtual_pixel_bounds((0, y));
                let ((_, top), _) = grid.virtual_pixel_bounds((0, y + 1));
                assert_eq!(bottom, top - 1);
            }
        }
    }
}

#[test]
fn the_grid_spans_the_clamped_axis_and_is_centered_on_the_other() {
    for (bitmap_width, bitmap_height, width, height) in
        [(600usize, 200usize, 20usize, 10usize), (257, 101, 37, 13), (90, 333, 7, 9), (1000, 999, 3, 3)]
    {
        let grid = grid(bitmap_width, bitmap_height, width, height);
        let ((left, top), _) = grid.virtual_pixel_bounds((0, 0));
        let (_, (right, bottom)) = grid.virtual_pixel_bounds((width - 1, height - 1));
        match grid.clamped_by() {
            ClampType::Height => {
                assert_eq!((top, bottom), (0, bitmap_height - 1));
                let after = bitmap_width - 1 - right;
                assert!(after == left || after == left + 1);
                assert_eq!(left, grid.pixel_offset());
            }
            ClampType::Width => {
                assert_eq!((left, right), (0, bitmap_width - 1));
                let after = bitmap_height - 1 - bottom;
                assert!(after == top || after == top + 1);
                assert_eq!(top, grid.pixel_offset());
            }
        }
    }
}

#[test]
fn a_grid_as_large_as_the_bitmap_has_no_paintable_cell() {
    let grid = grid(10, 10, 10, 10);
    assert_eq!(grid.pixel_size(), (10, 10));
    assert!(!grid.is_paintable((0, 0)));
    assert!(!grid.is_paintable((9, 9)));
}

#[test]
fn cells_outside_the_grid_are_not_paintable() {
    let grid = grid(600, 200, 20, 10);
    assert!(grid.is_paintable((19, 9)));
    assert!(!grid.is_paintable((20, 0)));
    assert!(!grid.is_paintable((0, 10)));
}

#[test]
fn a_scale_between_one_and_two_has_narrow_cells() {
    // scale 3 / 2: the cells are 1, 2, 1, 2 pixels long
    let grid = grid(6, 6, 4, 4);
    assert!(!grid.is_paintable((0, 1)));
    assert!(grid.is_paintable((1, 1)));
    assert!(!grid.is_paintable((1, 2)));
    assert_eq!(grid.virtual_pixel_bounds((1, 3)), ((1, 4), (2, 5)));
}

#[test]
fn can_draw_asks_for_room_and_for_paintable_cells() {
    let grid = grid(600, 200, 20, 10);
    assert!(grid.can_draw((0, 0), (20, 10)));
    assert!(grid.can_draw((12, 2), (8, 8)));
    assert!(!grid.can_draw((13, 2), (8, 8)));
    assert!(!grid.can_draw((12, 3), (8, 8)));
    assert!(grid.can_draw((20, 10), (0, 0)));
    assert!(!grid.can_draw((21, 0), (0, 0)));
    let narrow = self::grid(6, 6, 4, 4);
    assert!(narrow.can_draw((1, 1), (1, 1)));
    assert!(!narrow.can_draw((0, 1), (2, 1)));
    assert!(narrow.can_draw((0, 1), (2, 0)));
}

#[test]
fn draw_virtual_pixel_paints_its_box_only() {
    let mut grid = grid(600, 200, 20, 10);
    grid.draw_virtual_pixel((19, 9), 0xff0000);
    let pixels = grid.bitmap().as_vec();
    for y in 0..200 {
        for x in 0..600 {
            let inside = (480..=499).contains(&x) && (180..=199).contains(&y);
            assert_eq!(pixels[x + y * 600], if inside { 0xff0000 } else { 0 });
        }
    }
}

#[test]
fn draw_virtual_pixel_keeps_the_letterbox() {
    let mut grid = grid(600, 200, 20, 10);
    for x in 0..20 {
        for y in 0..10 {
            grid.draw_virtual_pixel((x, y), 1);
        }
    }
    let pixels = grid.bitmap().as_vec();
    for y in 0..200 {
        for x in 0..600 {
            let inside = (100..500).contains(&x);
            assert_eq!(pixels[x + y * 600], if inside { 1 } else { 0 });
        }
    }
}

#[test]
fn virtual_pixels_tile_the_grid_without_gap_or_overlap() {
    let mut grid = grid(257, 101, 37, 13);
    let mut count = 0u32;
    for y in 0..13 {
        for x in 0..37 {
            count += 1;
            grid.draw_virtual_pixel((x, y), count);
        }
    }
    let ((left, top), _) = grid.virtual_pixel_bounds((0, 0));
    let (_, (right, bottom)) = grid.virtual_pixel_bounds((36, 12));
    let pixels = grid.bitmap().as_vec();
    for py in 0..101 {
        for px in 0..257 {
            let inside = left <= px && px <= right && top <= py && py <= bottom;
            assert_eq!(pixels[px + py * 257] != 0, inside);
        }
    }
    count = 0;
    for y in 0..13 {
        for x in 0..37 {
            count += 1;
            let ((x1, y1), (x2, y2)) = grid.virtual_pixel_bounds((x, y));
            for py in y1..=y2 {
                for px in x1..=x2 {
                    assert_eq!(pixels[px + py * 257], count);
                }
            }
        }
    }
}

#[test]
fn floor_scaled_floors_the_exact_product() {
    assert_eq!(floor_scaled(200, 10, 19), 380);
    assert_eq!(floor_scaled(7, 2, 3), 10);
    assert_eq!(floor_scaled(10, 3, 2), 6);
    assert_eq!(floor_scaled(1, 49, 49), 1);
    assert_eq!(floor_scaled(1, 49, 48), 0);
    assert_eq!(floor_scaled(5, 1, 0), 0);
    assert_eq!(floor_scaled(usize::MAX, usize::MAX, usize::MAX), usize::MAX);
}
