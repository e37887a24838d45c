use quickcapture::errors::CoreError;
use quickcapture::raster::{Raster, Rgba};
use quickcapture::selection::{extract_region, SelectionRect};

const RED: Rgba = Rgba { r: 200, g: 10, b: 10, a: 255 };
const BLUE: Rgba = Rgba { r: 10, g: 10, b: 200, a: 255 };

fn checker(w: u32, h: u32) -> Raster {
    let mut r = Raster::new_filled(w, h, RED);
    for y in 0..h {
        for x in 0..w {
            if (x + y) % 2 == 0 {
                r.set_pixel(x, y, BLUE);
            }
        }
    }
    r
}

#[test]
fn selection_under_50_wide_is_too_small() {
    let r = Raster::new_filled(200, 200, RED);
    let sel = SelectionRect { x1: 0, y1: 0, x2: 49, y2: 100 };
    assert_eq!(
        extract_region(&r, &sel, 100, 0, 0).err(),
        Some(CoreError::SelectionTooSmall)
    );
}

#[test]
fn selection_under_50_high_is_too_small() {
    let r = Raster::new_filled(200, 200, RED);
    let sel = SelectionRect { x1: 0, y1: 0, x2: 120, y2: 49 };
    assert_eq!(
        extract_region(&r, &sel, 100, 0, 0).err(),
        Some(CoreError::SelectionTooSmall)
    );
}

#[test]
fn selection_of_exactly_50_is_accepted() {
    let r = Raster::new_filled(200, 200, RED);
    let sel = SelectionRect { x1: 10, y1: 10, x2: 60, y2: 60 };
    let cropped = extract_region(&r, &sel, 100, 0, 0).unwrap();
    assert_eq!(cropped.width, 50);
    assert_eq!(cropped.height, 50);
}

#[test]
fn corners_are_normalized_in_any_order() {
    let r = checker(200, 200);
    let a = extract_region(&r, &SelectionRect { x1: 20, y1: 30, x2: 90, y2: 110 }, 100, 0, 0)
        .unwrap();
    let b = extract_region(&r, &SelectionRect { x1: 90, y1: 110, x2: 20, y2: 30 }, 100, 0, 0)
        .unwrap();
    assert_eq!(a.width, b.width);
    assert_eq!(a.height, b.height);
    assert_eq!(a.data, b.data);
}

#[test]
fn extraction_copies_the_right_pixels() {
    let r = checker(100, 100);
    let sel = SelectionRect { x1: 10, y1: 20, x2: 70, y2: 80 };
    let c = extract_region(&r, &sel, 100, 0, 0).unwrap();
    assert_eq!(c.width, 60);
    assert_eq!(c.height, 60);
    for (i, j) in [(0u32, 0u32), (5, 7), (59, 59)] {
        assert_eq!(c.get_pixel(i, j), r.get_pixel(10 + i, 20 + j));
    }
}

#[test]
fn device_pixel_ratio_scales_the_selection() {
    // At 200% DPR a 10..60 logical selection covers 20..120 raster pixels.
    let r = checker(200, 200);
    let sel = SelectionRect { x1: 10, y1: 10, x2: 60, y2: 60 };
    let c = extract_region(&r, &sel, 200, 0, 0).unwrap();
    assert_eq!(c.width, 100);
    assert_eq!(c.height, 100);
    assert_eq!(c.get_pixel(0, 0), r.get_pixel(20, 20));
}

#[test]
fn selection_is_clamped_to_the_raster() {
    let r = Raster::new_filled(100, 100, RED);
    let sel = SelectionRect { x1: 60, y1: 60, x2: 180, y2: 180 };
    let c = extract_region(&r, &sel, 100, 0, 0).unwrap();
    assert_eq!(c.width, 40);
    assert_eq!(c.height, 40);
}

#[test]
fn stitched_origin_shifts_the_selection() {
    // With a stitched origin at -50, UI coordinate 0 is raster column 50.
    let r = checker(200, 200);
    let sel = SelectionRect { x1: 0, y1: 0, x2: 60, y2: 60 };
    let c = extract_region(&r, &sel, 100, -50, -50).unwrap();
    assert_eq!(c.get_pixel(0, 0), r.get_pixel(50, 50));
}
