//! Selection rectangles and region extraction.
//!
//! A selection is two arbitrary corner points in UI logical pixel space
//! (their order is not guaranteed). It is normalized to (min, max), rejected
//! as too small under 50 logical pixels per side, mapped into raster pixel
//! space through the device pixel ratio and the stitched origin, clamped to
//! the raster, and cropped.

use vstd::prelude::*;
use crate::errors::CoreError;
use crate::monitor::{lemma_scaled_mono, scaled, MAX_COORD};
use crate::raster::Raster;
use crate::stitch::scaled_exec;
use crate::transform::{clamp_i64, clamp_spec};

verus! {

/// Two corner points of a user-dragged selection, in UI logical pixels.
/// The corners may come in any order.
#[derive(Clone, Copy, Debug, PartialEq, Eq, Structural)]
pub struct SelectionRect {
    pub x1: i64,
    pub y1: i64,
    pub x2: i64,
    pub y2: i64,
}

impl SelectionRect {
    pub open spec fn wf(self) -> bool {
        &&& -MAX_COORD as int <= self.x1 <= MAX_COORD as int
        &&& -MAX_COORD as int <= self.y1 <= MAX_COORD as int
        &&& -MAX_COORD as int <= self.x2 <= MAX_COORD as int
        &&& -MAX_COORD as int <= self.y2 <= MAX_COORD as int
    }

    pub open spec fn min_x(self) -> int {
        if self.x1 <= self.x2 {
            self.x1 as int
        } else {
            self.x2 as int
        }
    }

    pub open spec fn min_y(self) -> int {
        if self.y1 <= self.y2 {
            self.y1 as int
        } else {
            self.y2 as int
        }
    }

    pub open spec fn max_x(self) -> int {
        if self.x1 <= self.x2 {
            self.x2 as int
        } else {
            self.x1 as int
        }
    }

    pub open spec fn max_y(self) -> int {
        if self.y1 <= self.y2 {
            self.y2 as int
        } else {
            self.y1 as int
        }
    }

    /// Selection width in logical pixels.
    pub open spec fn width_spec(self) -> int {
        self.max_x() - self.min_x()
    }

    /// Selection height in logical pixels.
    pub open spec fn height_spec(self) -> int {
        self.max_y() - self.min_y()
    }

    /// Whether the selection meets the minimum practical size.
    pub open spec fn large_enough(self) -> bool {
        self.width_spec() >= 50 && self.height_spec() >= 50
    }
}

/// A UI logical coordinate mapped to raster pixel space: scaled by the
/// device pixel ratio, shifted by the stitched origin, clamped to the
/// raster.
pub open spec fn raster_coord(v: int, dpr_pct: int, origin: int, limit: int) -> int {
    clamp_spec(scaled(v, dpr_pct) - origin, 0, limit)
}

/// Crop the stitched raster to the user's selection.
///
/// Exactly the selections under 50 logical pixels wide or high are rejected
/// with `SelectionTooSmall`. Otherwise the selection corners are mapped to
/// raster pixel space (`ui * dpr - origin`, clamped to the raster) and the
/// raster is cropped to that rectangle: pixel `(i, j)` of the result is
/// pixel `(x0 + i, y0 + j)` of the input.
pub fn extract_region(
    raster: &Raster,
    sel: &SelectionRect,
    dpr_pct: i64,
    origin_x: i64,
    origin_y: i64,
) -> (res: Result<Raster, CoreError>)
    requires
        raster.wf(),
        sel.wf(),
        1 <= dpr_pct <= 400,
        -100_000_001 <= origin_x <= 100_000_001,
        -100_000_001 <= origin_y <= 100_000_001,
    ensures
        res is Err <==> !sel.large_enough(),
        res is Err ==> res == Result::<Raster, CoreError>::Err(CoreError::SelectionTooSmall),
        res is Ok ==> {
            let r = res->Ok_0;
            let x0 = raster_coord(sel.min_x(), dpr_pct as int, origin_x as int, raster.width as int);
            let x1 = raster_coord(sel.max_x(), dpr_pct as int, origin_x as int, raster.width as int);
            let y0 = raster_coord(
                sel.min_y(),
                dpr_pct as int,
                origin_y as int,
                raster.height as int,
            );
            let y1 = raster_coord(
                sel.max_y(),
                dpr_pct as int,
                origin_y as int,
                raster.height as int,
            );
            &&& r.wf()
            &&& r.width as int == x1 - x0
            &&& r.height as int == y1 - y0
            &&& forall|i: int, j: int|
                0 <= i < r.width && 0 <= j < r.height ==> r.spec_pixel(i, j) == raster.spec_pixel(
                    x0 + i,
                    y0 + j,
                )
        },
{
    let ax: i64 = if sel.x1 <= sel.x2 {
        sel.x1
    } else {
        sel.x2
    };
    let bx: i64 = if sel.x1 <= sel.x2 {
        sel.x2
    } else {
        sel.x1
    };
    let ay: i64 = if sel.y1 <= sel.y2 {
        sel.y1
    } else {
        sel.y2
    };
    let by: i64 = if sel.y1 <= sel.y2 {
        sel.y2
    } else {
        sel.y1
    };
    if bx - ax < 50 || by - ay < 50 {
        return Err(CoreError::SelectionTooSmall);
    }
    let rx0 = clamp_i64(scaled_exec(ax, dpr_pct) - origin_x, 0, raster.width as i64);
    let rx1 = clamp_i64(scaled_exec(bx, dpr_pct) - origin_x, 0, raster.width as i64);
    let ry0 = clamp_i64(scaled_exec(ay, dpr_pct) - origin_y, 0, raster.height as i64);
    let ry1 = clamp_i64(scaled_exec(by, dpr_pct) - origin_y, 0, raster.height as i64);
    proof {
        lemma_scaled_mono(ax as int, bx as int, dpr_pct as int);
        lemma_scaled_mono(ay as int, by as int, dpr_pct as int);
    }
    let cw: i64 = rx1 - rx0;
    let ch: i64 = ry1 - ry0;
    let cropped = raster.crop(rx0 as u32, ry0 as u32, cw as u32, ch as u32);
    Ok(cropped)
}

} // verus!
