//! Physical monitor descriptors and virtual-desktop geometry.
//!
//! Each monitor is an immutable snapshot: its origin in virtual-desktop
//! coordinates, its logical size, and its DPI scale factor held as a percent
//! (so a 1.5x display has `scale_pct == 150`). The scale is applied,
//! consistently to both offset and size, before any bounding-box
//! computation, with rounding to nearest.

use vstd::prelude::*;
use crate::transform::{rdiv, rdiv_exec, MAX_DIM};
use vstd::arithmetic::div_mod::lemma_div_is_ordered;

verus! {

/// Largest magnitude of a monitor origin coordinate, in logical pixels.
pub const MAX_COORD: i64 = 10_000_000;

/// A physical display, as reported by the display enumerator.
#[derive(Clone, Copy, Debug, PartialEq, Eq, Structural)]
pub struct MonitorDescriptor {
    pub id: u32,
    /// Origin in virtual-desktop coordinates, logical pixels.
    pub x: i64,
    pub y: i64,
    /// Logical size in pixels.
    pub width: i64,
    pub height: i64,
    /// DPI multiplier in percent (100 = no scaling).
    pub scale_pct: i64,
}

impl MonitorDescriptor {
    pub open spec fn wf(self) -> bool {
        &&& -MAX_COORD as int <= self.x <= MAX_COORD as int
        &&& -MAX_COORD as int <= self.y <= MAX_COORD as int
        &&& 1 <= self.width <= MAX_DIM as int
        &&& 1 <= self.height <= MAX_DIM as int
        &&& 100 <= self.scale_pct <= 400
    }
}

/// A coordinate scaled by a monitor's scale factor, rounded to nearest.
pub open spec fn scaled(v: int, pct: int) -> int {
    rdiv(v * pct, 100)
}

pub open spec fn scaled_x(m: MonitorDescriptor) -> int {
    scaled(m.x as int, m.scale_pct as int)
}

pub open spec fn scaled_y(m: MonitorDescriptor) -> int {
    scaled(m.y as int, m.scale_pct as int)
}

pub open spec fn scaled_w(m: MonitorDescriptor) -> int {
    scaled(m.width as int, m.scale_pct as int)
}

pub open spec fn scaled_h(m: MonitorDescriptor) -> int {
    scaled(m.height as int, m.scale_pct as int)
}

/// Scaling is monotone in the coordinate.
pub proof fn lemma_scaled_mono(v1: int, v2: int, pct: int)
    requires
        v1 <= v2,
        1 <= pct,
    ensures
        scaled(v1, pct) <= scaled(v2, pct),
{
    assert(v1 * pct <= v2 * pct) by (nonlinear_arith)
        requires
            v1 <= v2,
            1 <= pct,
    ;
    lemma_div_is_ordered(2 * (v1 * pct) + 100, 2 * (v2 * pct) + 100, 200);
}

/// A well-formed monitor's scaled size is at least its logical size.
pub proof fn lemma_scaled_dim_lower(v: int, pct: int)
    requires
        1 <= v,
        100 <= pct,
    ensures
        v <= scaled(v, pct),
{
    assert(v * 100 <= v * pct) by (nonlinear_arith)
        requires
            1 <= v,
            100 <= pct,
    ;
    lemma_div_is_ordered(2 * (v * 100) + 100, 2 * (v * pct) + 100, 200);
    assert(scaled(v, 100) == (200 * v + 100) / 200);
    assert((200 * v + 100) / 200 == v) by (nonlinear_arith);
}

/// Smallest scaled x origin among the monitors.
pub open spec fn min_sx(ms: Seq<MonitorDescriptor>) -> int
    recommends
        ms.len() >= 1,
    decreases ms.len(),
{
    if ms.len() <= 1 {
        scaled_x(ms[0])
    } else {
        let rest = min_sx(ms.drop_last());
        let v = scaled_x(ms[ms.len() - 1]);
        if v < rest {
            v
        } else {
            rest
        }
    }
}

/// Smallest scaled y origin among the monitors.
pub open spec fn min_sy(ms: Seq<MonitorDescriptor>) -> int
    recommends
        ms.len() >= 1,
    decreases ms.len(),
{
    if ms.len() <= 1 {
        scaled_y(ms[0])
    } else {
        let rest = min_sy(ms.drop_last());
        let v = scaled_y(ms[ms.len() - 1]);
        if v < rest {
            v
        } else {
            rest
        }
    }
}

/// Largest scaled right edge among the monitors.
pub open spec fn max_ex(ms: Seq<MonitorDescriptor>) -> int
    recommends
        ms.len() >= 1,
    decreases ms.len(),
{
    if ms.len() <= 1 {
        scaled_x(ms[0]) + scaled_w(ms[0])
    } else {
        let rest = max_ex(ms.drop_last());
        let v = scaled_x(ms[ms.len() - 1]) + scaled_w(ms[ms.len() - 1]);
        if v > rest {
            v
        } else {
            rest
        }
    }
}

/// Largest scaled bottom edge among the monitors.
pub open spec fn max_ey(ms: Seq<MonitorDescriptor>) -> int
    recommends
        ms.len() >= 1,
    decreases ms.len(),
{
    if ms.len() <= 1 {
        scaled_y(ms[0]) + scaled_h(ms[0])
    } else {
        let rest = max_ey(ms.drop_last());
        let v = scaled_y(ms[ms.len() - 1]) + scaled_h(ms[ms.len() - 1]);
        if v > rest {
            v
        } else {
            rest
        }
    }
}

/// Width of the virtual bounding box of the monitors.
pub open spec fn bbox_w(ms: Seq<MonitorDescriptor>) -> int {
    max_ex(ms) - min_sx(ms)
}

/// Height of the virtual bounding box of the monitors.
pub open spec fn bbox_h(ms: Seq<MonitorDescriptor>) -> int {
    max_ey(ms) - min_sy(ms)
}

/// Every monitor's scaled rectangle lies inside the virtual bounding box.
pub proof fn lemma_bbox_contains(ms: Seq<MonitorDescriptor>, k: int)
    requires
        0 <= k < ms.len(),
    ensures
        min_sx(ms) <= scaled_x(ms[k]),
        min_sy(ms) <= scaled_y(ms[k]),
        scaled_x(ms[k]) + scaled_w(ms[k]) <= max_ex(ms),
        scaled_y(ms[k]) + scaled_h(ms[k]) <= max_ey(ms),
    decreases ms.len(),
{
    if ms.len() > 1 && k < ms.len() - 1 {
        lemma_bbox_contains(ms.drop_last(), k);
    }
}

} // verus!
