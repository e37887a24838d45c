use quickcapture::errors::CoreError;
use quickcapture::monitor::MonitorDescriptor;
use quickcapture::raster::{Raster, Rgba};
use quickcapture::stitch::stitch;

fn solid(w: u32, h: u32, color: Rgba) -> Raster {
    Raster::new_filled(w, h, color)
}

const RED: Rgba = Rgba { r: 255, g: 0, b: 0, a: 255 };
const GREEN: Rgba = Rgba { r: 0, g: 255, b: 0, a: 255 };
const BLACK: Rgba = Rgba { r: 0, g: 0, b: 0, a: 255 };

#[test]
fn no_monitors_fails_the_session() {
    let res = stitch(&Vec::new(), &Vec::new());
    assert_eq!(res.err(), Some(CoreError::NoDisplaysCaptured));
}

#[test]
fn single_monitor_size_matches_bounding_box() {
    let m = MonitorDescriptor { id: 1, x: 0, y: 0, width: 640, height: 480, scale_pct: 100 };
    let r = stitch(&vec![m], &vec![solid(640, 480, RED)]).unwrap();
    assert_eq!(r.width, 640);
    assert_eq!(r.height, 480);
    assert_eq!(r.get_pixel(0, 0), RED);
    assert_eq!(r.get_pixel(639, 479), RED);
}

#[test]
fn two_monitors_stitch_side_by_side() {
    // Monitor 1 at x = 0, monitor 2 at x = 640; bounding box is 1280 x 480.
    let m1 = MonitorDescriptor { id: 1, x: 0, y: 0, width: 640, height: 480, scale_pct: 100 };
    let m2 = MonitorDescriptor { id: 2, x: 640, y: 0, width: 640, height: 480, scale_pct: 100 };
    let r = stitch(&vec![m1, m2], &vec![solid(640, 480, RED), solid(640, 480, GREEN)]).unwrap();
    assert_eq!(r.width, 1280);
    assert_eq!(r.height, 480);
    // Sampling inside each monitor's region matches that monitor's pixels.
    assert_eq!(r.get_pixel(10, 10), RED);
    assert_eq!(r.get_pixel(639, 479), RED);
    assert_eq!(r.get_pixel(640, 0), GREEN);
    assert_eq!(r.get_pixel(1279, 479), GREEN);
}

#[test]
fn uncovered_area_is_opaque_black() {
    // Two monitors of different heights leave a black gap under the short one.
    let m1 = MonitorDescriptor { id: 1, x: 0, y: 0, width: 100, height: 200, scale_pct: 100 };
    let m2 = MonitorDescriptor { id: 2, x: 100, y: 0, width: 100, height: 100, scale_pct: 100 };
    let r = stitch(&vec![m1, m2], &vec![solid(100, 200, RED), solid(100, 100, GREEN)]).unwrap();
    assert_eq!(r.width, 200);
    assert_eq!(r.height, 200);
    assert_eq!(r.get_pixel(150, 50), GREEN);
    assert_eq!(r.get_pixel(150, 150), BLACK);
}

#[test]
fn negative_origin_shifts_into_place() {
    // A monitor left of the primary gives a negative virtual origin.
    let m1 = MonitorDescriptor { id: 1, x: -100, y: 0, width: 100, height: 50, scale_pct: 100 };
    let m2 = MonitorDescriptor { id: 2, x: 0, y: 0, width: 100, height: 50, scale_pct: 100 };
    let r = stitch(&vec![m1, m2], &vec![solid(100, 50, GREEN), solid(100, 50, RED)]).unwrap();
    assert_eq!(r.width, 200);
    assert_eq!(r.get_pixel(0, 0), GREEN);
    assert_eq!(r.get_pixel(100, 0), RED);
}

#[test]
fn scaled_monitor_is_resampled_to_its_scaled_size() {
    // A 100x100 logical monitor at 200% occupies 200x200 physical pixels;
    // its 100x100 capture is resampled up, so every pixel keeps the color.
    let m = MonitorDescriptor { id: 1, x: 0, y: 0, width: 100, height: 100, scale_pct: 200 };
    let r = stitch(&vec![m], &vec![solid(100, 100, RED)]).unwrap();
    assert_eq!(r.width, 200);
    assert_eq!(r.height, 200);
    assert_eq!(r.get_pixel(0, 0), RED);
    assert_eq!(r.get_pixel(199, 199), RED);
}

#[test]
fn later_monitor_wins_on_overlap() {
    let m1 = MonitorDescriptor { id: 1, x: 0, y: 0, width: 100, height: 100, scale_pct: 100 };
    let m2 = MonitorDescriptor { id: 2, x: 50, y: 0, width: 100, height: 100, scale_pct: 100 };
    let r = stitch(&vec![m1, m2], &vec![solid(100, 100, RED), solid(100, 100, GREEN)]).unwrap();
    assert_eq!(r.width, 150);
    assert_eq!(r.get_pixel(25, 50), RED);
    assert_eq!(r.get_pixel(75, 50), GREEN);
    assert_eq!(r.get_pixel(125, 50), GREEN);
}

#[test]
fn resample_nearest_downscales_by_index() {
    // A 4x4 raster whose left half is red and right half green, shrunk to
    // 2x2: destination (i, j) reads source (i * 4 / 2, j * 4 / 2).
    let mut src = Raster::new_filled(4, 4, RED);
    for y in 0..4 {
        for x in 2..4 {
            src.set_pixel(x, y, GREEN);
        }
    }
    let small = src.resample_nearest(2, 2);
    assert_eq!(small.width, 2);
    assert_eq!(small.height, 2);
    assert_eq!(small.get_pixel(0, 0), RED);
    assert_eq!(small.get_pixel(1, 0), GREEN);
    assert_eq!(small.get_pixel(0, 1), RED);
    assert_eq!(small.get_pixel(1, 1), GREEN);
}

#[test]
fn fractional_scale_rounds_to_nearest() {
    // 101 logical pixels at 150% is 151.5 physical: rounded half up to 152.
    let m = MonitorDescriptor { id: 1, x: 0, y: 0, width: 101, height: 100, scale_pct: 150 };
    let r = stitch(&vec![m], &vec![solid(101, 100, RED)]).unwrap();
    assert_eq!(r.width, 152);
    assert_eq!(r.height, 150);
    assert_eq!(r.get_pixel(151, 149), RED);
}
