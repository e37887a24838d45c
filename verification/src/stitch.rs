//! Stitching per-monitor captures into one virtual-desktop raster.
//!
//! The virtual bounding box is computed from the monitors' scaled
//! rectangles; the destination raster is allocated at exactly that size,
//! filled with opaque black, and each capture is resampled to its monitor's
//! scaled size and blitted at its scaled position. Later monitors win where
//! regions overlap.

use vstd::prelude::*;
use crate::errors::CoreError;
use crate::monitor::{
    bbox_h, bbox_w, lemma_bbox_contains, lemma_scaled_dim_lower, max_ex, max_ey, min_sx, min_sy,
    scaled, scaled_h, scaled_w, scaled_x, scaled_y, MonitorDescriptor, MAX_COORD,
};
use crate::raster::{Raster, Rgba, MAX_PIXELS};
use crate::transform::{rdiv_exec, MAX_DIM};
use vstd::arithmetic::div_mod::lemma_div_is_ordered;

verus! {

/// Opaque black, the deterministic background of a stitched raster.
pub open spec fn black() -> Rgba {
    Rgba { r: 0, g: 0, b: 0, a: 255 }
}

/// A coordinate scaled by a monitor scale factor, executable form.
pub fn scaled_exec(v: i64, pct: i64) -> (r: i64)
    requires
        -MAX_COORD as int <= v <= MAX_COORD as int,
        1 <= pct <= 400,
    ensures
        r == scaled(v as int, pct as int),
        -50_000_000 <= r <= 50_000_000,
{
    proof {
        assert(-4_000_000_000 <= (v as int) * (pct as int) <= 4_000_000_000) by (nonlinear_arith)
            requires
                -10_000_000 <= v as int <= 10_000_000,
                1 <= pct as int <= 400,
        ;
        lemma_div_is_ordered(2 * ((v as int) * (pct as int)) + 100, 8_000_000_100, 200);
        lemma_div_is_ordered(-7_999_999_900, 2 * ((v as int) * (pct as int)) + 100, 200);
    }
    rdiv_exec(v * pct, 100)
}

/// The monitor's placed column offset inside the stitched raster.
pub open spec fn placed_x(ms: Seq<MonitorDescriptor>, k: int) -> int {
    scaled_x(ms[k]) - min_sx(ms)
}

/// The monitor's placed row offset inside the stitched raster.
pub open spec fn placed_y(ms: Seq<MonitorDescriptor>, k: int) -> int {
    scaled_y(ms[k]) - min_sy(ms)
}

/// Whether stitched pixel `(i, j)` lies inside monitor `k`'s placed
/// rectangle.
pub open spec fn in_region(ms: Seq<MonitorDescriptor>, k: int, i: int, j: int) -> bool {
    &&& placed_x(ms, k) <= i < placed_x(ms, k) + scaled_w(ms[k])
    &&& placed_y(ms, k) <= j < placed_y(ms, k) + scaled_h(ms[k])
}

/// Whether some monitor with index in `[lo, hi)` covers stitched pixel
/// `(i, j)`.
pub open spec fn covered_range(
    ms: Seq<MonitorDescriptor>,
    lo: int,
    hi: int,
    i: int,
    j: int,
) -> bool {
    exists|k: int| lo <= k < hi && in_region(ms, k, i, j)
}

/// Extending the covered range by one monitor adds exactly that monitor's
/// region.
pub proof fn lemma_covered_range_extend(
    ms: Seq<MonitorDescriptor>,
    lo: int,
    hi: int,
    i: int,
    j: int,
)
    requires
        lo <= hi,
    ensures
        covered_range(ms, lo, hi + 1, i, j) <==> (covered_range(ms, lo, hi, i, j) || in_region(
            ms,
            hi,
            i,
            j,
        )),
{
    if covered_range(ms, lo, hi + 1, i, j) {
        let k = choose|k: int| lo <= k < hi + 1 && in_region(ms, k, i, j);
        if k < hi {
            assert(covered_range(ms, lo, hi, i, j));
        }
    }
    if covered_range(ms, lo, hi, i, j) {
        let k = choose|k: int| lo <= k < hi && in_region(ms, k, i, j);
        assert(lo <= k < hi + 1 && in_region(ms, k, i, j));
    }
    if in_region(ms, hi, i, j) {
        assert(lo <= hi < hi + 1 && in_region(ms, hi, i, j));
    }
}

/// The pixel monitor `k` contributes at stitched position `(i, j)`: its
/// capture, resampled to the monitor's scaled size, read at the offset
/// inside the placed rectangle.
pub open spec fn monitor_pixel(
    ms: Seq<MonitorDescriptor>,
    rs: Seq<Raster>,
    k: int,
    i: int,
    j: int,
) -> Rgba {
    let di = i - placed_x(ms, k);
    let dj = j - placed_y(ms, k);
    rs[k].spec_pixel(
        (di * rs[k].width as int) / scaled_w(ms[k]),
        (dj * rs[k].height as int) / scaled_h(ms[k]),
    )
}

/// For a monitor whose capture already has the monitor's scaled size,
/// resampling changes nothing: the stitched pixel inside its region is the
/// capture's own pixel at the corresponding offset.
pub proof fn lemma_monitor_pixel_unscaled(
    ms: Seq<MonitorDescriptor>,
    rs: Seq<Raster>,
    k: int,
    i: int,
    j: int,
)
    requires
        0 <= k < ms.len(),
        ms[k].wf(),
        rs[k].width as int == scaled_w(ms[k]),
        rs[k].height as int == scaled_h(ms[k]),
    ensures
        monitor_pixel(ms, rs, k, i, j) == rs[k].spec_pixel(
            i - placed_x(ms, k),
            j - placed_y(ms, k),
        ),
{
    let di = i - placed_x(ms, k);
    let dj = j - placed_y(ms, k);
    let w = scaled_w(ms[k]);
    let h = scaled_h(ms[k]);
    lemma_scaled_dim_lower(ms[k].width as int, ms[k].scale_pct as int);
    lemma_scaled_dim_lower(ms[k].height as int, ms[k].scale_pct as int);
    assert(di * w == w * di) by (nonlinear_arith);
    assert(dj * h == h * dj) by (nonlinear_arith);
    vstd::arithmetic::div_mod::lemma_div_multiples_vanish(di, w);
    vstd::arithmetic::div_mod::lemma_div_multiples_vanish(dj, h);
}

/// Composite the per-monitor captures into one virtual-desktop raster.
///
/// The result's size equals the virtual bounding box of the monitors'
/// scaled rectangles. A pixel inside monitor `k`'s placed rectangle and
/// outside every later monitor's rectangle holds monitor `k`'s resampled
/// source pixel at the corresponding offset; a pixel inside no monitor's
/// rectangle holds opaque black. With no monitor at all the capture session
/// failed and `NoDisplaysCaptured` is returned.
pub fn stitch(monitors: &Vec<MonitorDescriptor>, captures: &Vec<Raster>) -> (res: Result<
    Raster,
    CoreError,
>)
    requires
        monitors@.len() == captures@.len(),
        forall|k: int| 0 <= k < monitors@.len() ==> (#[trigger] monitors@[k]).wf(),
        forall|k: int|
            0 <= k < captures@.len() ==> (#[trigger] captures@[k]).wf() && 1 <= captures@[k].width
                && 1 <= captures@[k].height,
        monitors@.len() > 0 ==> bbox_w(monitors@) <= MAX_DIM as int && bbox_h(monitors@)
            <= MAX_DIM as int && bbox_w(monitors@) * bbox_h(monitors@) <= MAX_PIXELS as int,
    ensures
        res is Err <==> monitors@.len() == 0,
        res is Err ==> res == Result::<Raster, CoreError>::Err(CoreError::NoDisplaysCaptured),
        res is Ok ==> {
            let r = res->Ok_0;
            &&& r.wf()
            &&& r.width as int == bbox_w(monitors@)
            &&& r.height as int == bbox_h(monitors@)
            &&& forall|k: int, i: int, j: int|
                0 <= k < monitors@.len() && #[trigger] in_region(monitors@, k, i, j)
                    && !covered_range(monitors@, k + 1, monitors@.len() as int, i, j)
                    ==> r.spec_pixel(i, j) == monitor_pixel(monitors@, captures@, k, i, j)
            &&& forall|i: int, j: int|
                0 <= i < bbox_w(monitors@) && 0 <= j < bbox_h(monitors@) && !covered_range(
                    monitors@,
                    0,
                    monitors@.len() as int,
                    i,
                    j,
                ) ==> #[trigger] r.spec_pixel(i, j) == black()
        },
{
    let ghost ms = monitors@;
    let n: usize = monitors.len();
    if n == 0 {
        return Err(CoreError::NoDisplaysCaptured);
    }
    let m0 = monitors[0];
    let mut ox: i64 = scaled_exec(m0.x, m0.scale_pct);
    let mut oy: i64 = scaled_exec(m0.y, m0.scale_pct);
    let mut ex: i64 = ox + scaled_exec(m0.width, m0.scale_pct);
    let mut ey: i64 = oy + scaled_exec(m0.height, m0.scale_pct);
    proof {
        assert(ms.take(1) =~= seq![ms[0]]);
    }
    let mut k: usize = 1;
    while k < n
        invariant
            1 <= k <= n,
            n == ms.len(),
            ms == monitors@,
            forall|t: int| 0 <= t < ms.len() ==> (#[trigger] ms[t]).wf(),
            ox == min_sx(ms.take(k as int)),
            oy == min_sy(ms.take(k as int)),
            ex == max_ex(ms.take(k as int)),
            ey == max_ey(ms.take(k as int)),
            -100_000_001 <= ox <= 100_000_001,
            -100_000_001 <= oy <= 100_000_001,
            -100_000_001 <= ex <= 100_000_001,
            -100_000_001 <= ey <= 100_000_001,
        decreases n - k,
    {
        let m = monitors[k];
        let sx = scaled_exec(m.x, m.scale_pct);
        let sy = scaled_exec(m.y, m.scale_pct);
        let sw = scaled_exec(m.width, m.scale_pct);
        let sh = scaled_exec(m.height, m.scale_pct);
        proof {
            assert(ms.take(k as int + 1).drop_last() =~= ms.take(k as int));
            assert(ms.take(k as int + 1).last() == ms[k as int]);
        }
        if sx < ox {
            ox = sx;
        }
        if sy < oy {
            oy = sy;
        }
        if sx + sw > ex {
            ex = sx + sw;
        }
        if sy + sh > ey {
            ey = sy + sh;
        }
        k = k + 1;
    }
    proof {
        assert(ms.take(n as int) =~= ms);
        lemma_bbox_contains(ms, 0);
        lemma_scaled_dim_lower(ms[0].width as int, ms[0].scale_pct as int);
        lemma_scaled_dim_lower(ms[0].height as int, ms[0].scale_pct as int);
    }
    let bw: i64 = ex - ox;
    let bh: i64 = ey - oy;
    let mut base = Raster::new_filled(bw as u32, bh as u32, Rgba { r: 0, g: 0, b: 0, a: 255 });
    let mut t: usize = 0;
    while t < n
        invariant
            t <= n,
            n == ms.len(),
            ms == monitors@,
            monitors@.len() == captures@.len(),
            forall|u: int| 0 <= u < ms.len() ==> (#[trigger] ms[u]).wf(),
            forall|u: int|
                0 <= u < captures@.len() ==> (#[trigger] captures@[u]).wf() && 1 <= captures@[u].width
                    && 1 <= captures@[u].height,
            ox == min_sx(ms),
            oy == min_sy(ms),
            bw as int == bbox_w(ms),
            bh as int == bbox_h(ms),
            1 <= bw as int <= MAX_DIM as int,
            1 <= bh as int <= MAX_DIM as int,
            bw as int * bh as int <= MAX_PIXELS as int,
            -100_000_001 <= ox <= 100_000_001,
            -100_000_001 <= oy <= 100_000_001,
            base.wf(),
            base.width == bw as u32,
            base.height == bh as u32,
            forall|m: int, i: int, j: int|
                0 <= m < t && #[trigger] in_region(ms, m, i, j) && !covered_range(
                    ms,
                    m + 1,
                    t as int,
                    i,
                    j,
                ) ==> base.spec_pixel(i, j) == monitor_pixel(ms, captures@, m, i, j),
            forall|i: int, j: int|
                0 <= i < bw && 0 <= j < bh && !covered_range(ms, 0, t as int, i, j)
                    ==> #[trigger] base.spec_pixel(i, j) == black(),
        decreases n - t,
    {
        let m = monitors[t];
        let sx = scaled_exec(m.x, m.scale_pct);
        let sy = scaled_exec(m.y, m.scale_pct);
        let sw = scaled_exec(m.width, m.scale_pct);
        let sh = scaled_exec(m.height, m.scale_pct);
        let px: i64 = sx - ox;
        let py: i64 = sy - oy;
        proof {
            lemma_bbox_contains(ms, t as int);
            lemma_scaled_dim_lower(ms[t as int].width as int, ms[t as int].scale_pct as int);
            lemma_scaled_dim_lower(ms[t as int].height as int, ms[t as int].scale_pct as int);
            assert(0 <= px && px as int + sw as int <= bw as int);
            assert(0 <= py && py as int + sh as int <= bh as int);
            assert((sw as int) * (sh as int) <= (bw as int) * (bh as int)) by (nonlinear_arith)
                requires
                    1 <= sw as int <= bw as int,
                    1 <= sh as int <= bh as int,
            ;
        }
        let resized = captures[t].resample_nearest(sw as u32, sh as u32);
        let ghost before = base;
        base.blit(&resized, px as u32, py as u32);
        proof {
            let ti = t as int;
            let rs = captures@;
            assert forall|i: int, j: int| #[trigger] in_region(ms, ti, i, j) implies base.spec_pixel(
                i,
                j,
            ) == monitor_pixel(ms, rs, ti, i, j) by {
                let di = i - placed_x(ms, ti);
                let dj = j - placed_y(ms, ti);
                assert(base.spec_pixel((px as u32) as int + di, (py as u32) as int + dj)
                    == resized.spec_pixel(di, dj));
                assert(base.spec_pixel(i, j) == resized.spec_pixel(di, dj));
            }
            assert forall|i: int, j: int|
                0 <= i < bw && 0 <= j < bh && !in_region(ms, ti, i, j) implies base.spec_pixel(
                i,
                j,
            ) == before.spec_pixel(i, j) by {
                assert(!((px as u32) as int <= i < (px as u32) as int + resized.width
                    && (py as u32) as int <= j < (py as u32) as int + resized.height));
            }
            assert forall|m2: int, i: int, j: int|
                0 <= m2 < ti + 1 && #[trigger] in_region(ms, m2, i, j) && !covered_range(
                    ms,
                    m2 + 1,
                    ti + 1,
                    i,
                    j,
                ) implies base.spec_pixel(i, j) == monitor_pixel(ms, rs, m2, i, j) by {
                if m2 < ti {
                    lemma_covered_range_extend(ms, m2 + 1, ti, i, j);
                    assert(!in_region(ms, ti, i, j));
                    assert(0 <= i < bw && 0 <= j < bh) by {
                        lemma_bbox_contains(ms, m2);
                        lemma_scaled_dim_lower(ms[m2].width as int, ms[m2].scale_pct as int);
                        lemma_scaled_dim_lower(ms[m2].height as int, ms[m2].scale_pct as int);
                    }
                }
            }
            assert forall|i: int, j: int|
                0 <= i < bw && 0 <= j < bh && !covered_range(ms, 0, ti + 1, i, j) implies #[trigger] base.spec_pixel(
                i,
                j,
            ) == black() by {
                lemma_covered_range_extend(ms, 0, ti, i, j);
            }
        }
        t = t + 1;
    }
    Ok(base)
}

} // verus!
