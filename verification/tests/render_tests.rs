use quickcapture::crop::{remap_point_exec, CropRegion};
use quickcapture::painting::{to_canvas_point, PanelRect, Painting};
use quickcapture::raster::{Raster, Rgba};
use quickcapture::render::segment_coordinates;

const WHITE: Rgba = Rgba { r: 255, g: 255, b: 255, a: 255 };
const RED: Rgba = Rgba { r: 255, g: 0, b: 0, a: 255 };

#[test]
fn rasterize_draws_the_stroke_pixels() {
    // A hairline horizontal stroke across the middle of the raster: the
    // drawn row takes the stroke color, rows far away stay untouched.
    let mut eng = Painting::new(Raster::new_filled(100, 100, WHITE));
    let pr = PanelRect { min_x: 0, min_y: 0, width: 100, height: 100 };
    eng.set_style(0, RED);
    eng.freehand_point(10, 50, &pr);
    eng.freehand_point(90, 50, &pr);
    eng.pointer_released();
    let out = eng.generate_rgba_image();
    assert_eq!(out.width, 100);
    assert_eq!(out.height, 100);
    assert_eq!(out.get_pixel(10, 50), RED);
    assert_eq!(out.get_pixel(50, 50), RED);
    assert_eq!(out.get_pixel(90, 50), RED);
    assert_eq!(out.get_pixel(50, 10), WHITE);
    // The base raster is left untouched.
    assert_eq!(eng.raster.get_pixel(50, 50), WHITE);
}

#[test]
fn rasterize_ignores_single_point_strokes() {
    let mut eng = Painting::new(Raster::new_filled(50, 50, WHITE));
    let pr = PanelRect { min_x: 0, min_y: 0, width: 50, height: 50 };
    eng.set_style(0, RED);
    eng.freehand_point(25, 25, &pr);
    eng.pointer_released();
    let out = eng.generate_rgba_image();
    for y in 0..50 {
        for x in 0..50 {
            assert_eq!(out.get_pixel(x, y), WHITE);
        }
    }
}

#[test]
fn width_is_simulated_by_offset_repeats() {
    let mut eng = Painting::new(Raster::new_filled(100, 100, WHITE));
    let pr = PanelRect { min_x: 0, min_y: 0, width: 100, height: 100 };
    eng.set_style(4, RED);
    eng.freehand_point(10, 50, &pr);
    eng.freehand_point(90, 50, &pr);
    eng.pointer_released();
    let out = eng.generate_rgba_image();
    // The stroke is drawn at offsets 0..=4 below the half-width shift of 2.
    for dy in 2..=6 {
        assert_eq!(out.get_pixel(50, 50 + dy), RED, "dy={}", dy);
    }
    assert_eq!(out.get_pixel(50, 40), WHITE);
}

#[test]
fn cropping_translates_rendered_positions_exactly() {
    // A point inside the crop region is drawn on the cropped raster at its
    // old position minus the crop origin.
    let pr = PanelRect { min_x: 0, min_y: 0, width: 100, height: 80 };
    let p = to_canvas_point(40, 30, &pr);
    let region = CropRegion { x: 10, y: 5, width: 60, height: 50 };
    let q = remap_point_exec(&p, 100, 80, &region);
    let (ox, oy) = segment_coordinates(&p, 100, 80, 0, 0, 0);
    let (nx, ny) = segment_coordinates(&q, 60, 50, 0, 0, 0);
    assert_eq!(nx, ox - 10);
    assert_eq!(ny, oy - 5);
}

#[test]
fn crop_then_render_matches_render_then_crop() {
    // Draw a stroke well inside the crop region; baking after the crop
    // gives the same pixels as cropping the baked image.
    let base = Raster::new_filled(100, 80, WHITE);
    let pr = PanelRect { min_x: 0, min_y: 0, width: 100, height: 80 };
    let mut eng = Painting::new(base);
    eng.set_style(2, RED);
    eng.freehand_point(30, 30, &pr);
    eng.freehand_point(50, 40, &pr);
    eng.pointer_released();

    let baked_then_cropped = eng.generate_rgba_image().crop(10, 5, 60, 50);
    let region = CropRegion { x: 10, y: 5, width: 60, height: 50 };
    eng.apply_crop(&region).unwrap();
    let cropped_then_baked = eng.generate_rgba_image();

    assert_eq!(baked_then_cropped.width, cropped_then_baked.width);
    assert_eq!(baked_then_cropped.height, cropped_then_baked.height);
    assert_eq!(baked_then_cropped.data, cropped_then_baked.data);
}

#[test]
fn out_of_range_coordinates_are_clamped_before_drawing() {
    // A canvas point left of the raster is clamped to column zero, and one
    // past the right edge to the last column.
    let pr = PanelRect { min_x: 0, min_y: 0, width: 100, height: 100 };
    let inside = to_canvas_point(0, 0, &pr);
    let region = CropRegion { x: 50, y: 50, width: 50, height: 50 };
    let shifted = remap_point_exec(&inside, 100, 100, &region);
    // Its raster position is now (-50, -50); drawing clamps it to (0, 0).
    let (cx, cy) = segment_coordinates(&shifted, 50, 50, 0, 0, 0);
    assert_eq!((cx, cy), (0, 0));
    let far = to_canvas_point(100, 100, &pr);
    let (fx, fy) = segment_coordinates(&far, 50, 50, 0, 0, 0);
    assert_eq!((fx, fy), (49, 49));
}

#[test]
fn baking_leaves_unstroked_pixels_alone() {
    // A short stroke of width 2 near the center: every pixel outside the
    // stroke's drawn bounding rectangle keeps the base color.
    let mut eng = Painting::new(Raster::new_filled(60, 60, WHITE));
    let pr = PanelRect { min_x: 0, min_y: 0, width: 60, height: 60 };
    eng.set_style(2, RED);
    eng.freehand_point(20, 25, &pr);
    eng.freehand_point(30, 28, &pr);
    eng.pointer_released();
    let out = eng.generate_rgba_image();
    // Drawn coordinates span x in [21, 33] and y in [26, 33] (half-width
    // shift 1 plus offsets 0..=2); anything outside stays white.
    for y in 0..60u32 {
        for x in 0..60u32 {
            let inside = (21..=33).contains(&x) && (26..=33).contains(&y);
            if !inside {
                assert_eq!(out.get_pixel(x, y), WHITE, "({}, {})", x, y);
            }
        }
    }
    // And the stroke itself was drawn.
    assert_eq!(out.get_pixel(21, 26), RED);
}
