use quickcapture::crop::CropRegion;
use quickcapture::errors::CoreError;
use quickcapture::painting::{to_canvas_point, PanelRect, Painting};
use quickcapture::raster::{Raster, Rgba};
use quickcapture::strokes::DrawingShape;
use quickcapture::transform::CANVAS_UNITS;

const WHITE: Rgba = Rgba { r: 255, g: 255, b: 255, a: 255 };
const RED: Rgba = Rgba { r: 255, g: 0, b: 0, a: 255 };

fn panel(w: i64, h: i64) -> PanelRect {
    PanelRect { min_x: 0, min_y: 0, width: w, height: h }
}

#[test]
fn canvas_point_normalizes_into_the_unit_square() {
    let p = to_canvas_point(50, 25, &panel(100, 100));
    assert_eq!(p.x, CANVAS_UNITS / 2);
    assert_eq!(p.y, CANVAS_UNITS / 4);
    let corner = to_canvas_point(100, 100, &panel(100, 100));
    assert_eq!(corner.x, CANVAS_UNITS);
    assert_eq!(corner.y, CANVAS_UNITS);
}

#[test]
fn canvas_point_clamps_to_the_panel() {
    let p = to_canvas_point(-30, 500, &panel(100, 100));
    assert_eq!(p.x, 0);
    assert_eq!(p.y, CANVAS_UNITS);
}

#[test]
fn freehand_appends_and_dedups() {
    let mut eng = Painting::new(Raster::new_filled(100, 100, WHITE));
    let pr = panel(100, 100);
    eng.freehand_point(10, 10, &pr);
    eng.freehand_point(10, 10, &pr); // identical sample: deduplicated
    eng.freehand_point(20, 10, &pr);
    assert_eq!(eng.current.points.len(), 2);
}

#[test]
fn sealing_commits_and_resets_the_current_stroke() {
    let mut eng = Painting::new(Raster::new_filled(100, 100, WHITE));
    let pr = panel(100, 100);
    eng.freehand_point(10, 10, &pr);
    eng.freehand_point(20, 20, &pr);
    eng.pointer_released();
    assert_eq!(eng.history.committed.len(), 1);
    assert!(eng.current.points.is_empty());
    // A release with nothing drawn commits nothing.
    eng.pointer_released();
    assert_eq!(eng.history.committed.len(), 1);
}

#[test]
fn style_is_snapshotted_per_stroke() {
    let mut eng = Painting::new(Raster::new_filled(100, 100, WHITE));
    let pr = panel(100, 100);
    eng.set_style(5, RED);
    eng.freehand_point(10, 10, &pr);
    eng.freehand_point(20, 20, &pr);
    eng.pointer_released();
    // Later style changes never retroactively affect drawn strokes.
    eng.set_style(1, WHITE);
    assert_eq!(eng.history.committed[0].width, 5);
    assert_eq!(eng.history.committed[0].color, RED);
}

#[test]
fn straight_line_keeps_exactly_two_points() {
    let mut eng = Painting::new(Raster::new_filled(100, 100, WHITE));
    let pr = panel(100, 100);
    eng.set_shape(DrawingShape::StraightLine);
    eng.straight_line_anchor(10, 10, &pr);
    assert_eq!(eng.current.points.len(), 1);
    eng.straight_line_endpoint(50, 50, &pr);
    eng.straight_line_endpoint(70, 20, &pr);
    eng.straight_line_endpoint(80, 90, &pr);
    assert_eq!(eng.current.points.len(), 2);
    assert_eq!(eng.current.points[0], to_canvas_point(10, 10, &pr));
    assert_eq!(eng.current.points[1], to_canvas_point(80, 90, &pr));
    eng.pointer_released();
    assert_eq!(eng.history.committed[0].kind, DrawingShape::StraightLine);
}

#[test]
fn undo_redo_and_clear_through_the_engine() {
    let mut eng = Painting::new(Raster::new_filled(100, 100, WHITE));
    let pr = panel(100, 100);
    for k in 0..3 {
        eng.freehand_point(10 + k, 10, &pr);
        eng.freehand_point(20 + k, 20, &pr);
        eng.pointer_released();
    }
    assert_eq!(eng.history.committed.len(), 3);
    eng.undo();
    assert_eq!(eng.history.committed.len(), 2);
    eng.redo();
    assert_eq!(eng.history.committed.len(), 3);
    eng.clear();
    assert_eq!(eng.history.committed.len(), 0);
    eng.undo();
    assert_eq!(eng.history.committed.len(), 3);
}

#[test]
fn painting_size_fits_and_keeps_aspect() {
    let eng = Painting::new(Raster::new_filled(200, 100, WHITE));
    // Wide area: height limits; 2:1 aspect gives 160x80.
    assert_eq!(eng.painting_size(400, 80), (160, 80));
    // Tall area: width limits.
    assert_eq!(eng.painting_size(100, 400), (100, 50));
    // Exact fit.
    assert_eq!(eng.painting_size(200, 100), (200, 100));
}

#[test]
fn invalid_crop_leaves_everything_unchanged() {
    let mut eng = Painting::new(Raster::new_filled(100, 100, WHITE));
    let pr = panel(100, 100);
    eng.freehand_point(10, 10, &pr);
    eng.freehand_point(20, 20, &pr);
    eng.pointer_released();
    let before_points = eng.history.committed[0].points.clone();

    let empty = CropRegion { x: 10, y: 10, width: 0, height: 5 };
    assert_eq!(eng.apply_crop(&empty).err(), Some(CoreError::InvalidCropRegion));
    let out_of_bounds = CropRegion { x: 60, y: 0, width: 50, height: 50 };
    assert_eq!(eng.apply_crop(&out_of_bounds).err(), Some(CoreError::InvalidCropRegion));

    assert_eq!(eng.raster.width, 100);
    assert_eq!(eng.raster.height, 100);
    assert_eq!(eng.history.committed[0].points, before_points);
}

#[test]
fn crop_extracts_the_sub_image() {
    let mut base = Raster::new_filled(100, 100, WHITE);
    base.set_pixel(30, 40, RED);
    let mut eng = Painting::new(base);
    let region = CropRegion { x: 20, y: 20, width: 60, height: 60 };
    eng.apply_crop(&region).unwrap();
    assert_eq!(eng.raster.width, 60);
    assert_eq!(eng.raster.height, 60);
    assert_eq!(eng.raster.get_pixel(10, 20), RED);
    assert!(eng.history.cleared.is_empty());
    assert!(eng.history.undone.is_empty());
}

#[test]
fn panel_offset_is_subtracted_before_normalizing() {
    let shifted = PanelRect { min_x: 40, min_y: 20, width: 100, height: 100 };
    let at_origin = PanelRect { min_x: 0, min_y: 0, width: 100, height: 100 };
    assert_eq!(to_canvas_point(90, 70, &shifted), to_canvas_point(50, 50, &at_origin));
}
