use quickcapture::transform::{
    clamp_i64, from_canvas_axis, rdiv_exec, to_canvas_axis, CANVAS_UNITS,
};

#[test]
fn rdiv_rounds_to_nearest() {
    assert_eq!(rdiv_exec(10, 4), 3); // 2.5 rounds half up
    assert_eq!(rdiv_exec(9, 4), 2); // 2.25 rounds down
    assert_eq!(rdiv_exec(11, 4), 3); // 2.75 rounds up
    assert_eq!(rdiv_exec(-10, 4), -2); // -2.5 rounds half up
    assert_eq!(rdiv_exec(-11, 4), -3); // -2.75 rounds down
    assert_eq!(rdiv_exec(0, 7), 0);
    assert_eq!(rdiv_exec(21, 7), 3);
}

#[test]
fn to_canvas_exact_values() {
    // The middle of a 200-pixel side is half the canvas span.
    assert_eq!(to_canvas_axis(100, 200), CANVAS_UNITS / 2);
    assert_eq!(to_canvas_axis(0, 200), 0);
    assert_eq!(to_canvas_axis(200, 200), CANVAS_UNITS);
    // 75 of 300 pixels is a quarter.
    assert_eq!(to_canvas_axis(75, 300), CANVAS_UNITS / 4);
}

#[test]
fn from_canvas_exact_values() {
    assert_eq!(from_canvas_axis(CANVAS_UNITS / 2, 200), 100);
    assert_eq!(from_canvas_axis(0, 200), 0);
    assert_eq!(from_canvas_axis(CANVAS_UNITS, 200), 200);
}

#[test]
fn round_trip_is_exact_for_every_coordinate() {
    for len in [1i64, 2, 3, 7, 100, 1279, 65_535] {
        for v in [0i64, 1, len / 3, len / 2, len - 1, len] {
            let c = to_canvas_axis(v, len);
            assert_eq!(from_canvas_axis(c, len), v, "len={} v={}", len, v);
        }
    }
}

#[test]
fn round_trip_outside_rectangle() {
    // The exactness extends to coordinates outside the mapped rectangle.
    let c = to_canvas_axis(-37, 640);
    assert_eq!(from_canvas_axis(c, 640), -37);
    let c2 = to_canvas_axis(900, 640);
    assert_eq!(from_canvas_axis(c2, 640), 900);
}

#[test]
fn clamp_behaviour() {
    assert_eq!(clamp_i64(-5, 0, 10), 0);
    assert_eq!(clamp_i64(5, 0, 10), 5);
    assert_eq!(clamp_i64(15, 0, 10), 10);
    assert_eq!(clamp_i64(0, 0, 0), 0);
}
