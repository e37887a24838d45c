//! The crop transform: re-cropping an annotated raster while remapping
//! stroke coordinates consistently.
//!
//! A crop subtracts the crop origin from every point's raster-space
//! representation: each canvas coordinate is mapped to its pixel position,
//! translated by the crop origin, and mapped back into the canvas space of
//! the smaller raster. Because the canvas round trip is exact, a point
//! whose pixel position lies inside the crop region keeps its rendered
//! position exactly (`lemma_remap_keeps_position`).

use vstd::prelude::*;
use crate::render::seg_coord;
use crate::strokes::{strokes_view, DrawObj, Point, StrokeData};
use crate::transform::{
    clamp_i64, clamp_spec, from_canvas_axis, from_canvas_spec, lemma_axis_round_trip,
    lemma_to_canvas_range, to_canvas_axis, to_canvas_spec, CANVAS_BOUND, CANVAS_UNITS, MAX_DIM,
};

verus! {

/// A crop rectangle in raster pixel space.
#[derive(Clone, Copy, Debug, PartialEq, Eq, Structural)]
pub struct CropRegion {
    pub x: u32,
    pub y: u32,
    pub width: u32,
    pub height: u32,
}

impl CropRegion {
    /// Valid against a raster of the given size: non-empty and within
    /// bounds.
    pub open spec fn valid_for(self, w: int, h: int) -> bool {
        &&& 1 <= self.width
        &&& 1 <= self.height
        &&& self.x + self.width <= w
        &&& self.y + self.height <= h
    }
}

/// One canvas coordinate remapped by a crop: to pixel space of the old
/// rectangle side, translated by the crop origin, back to canvas space of
/// the new side, kept within the canvas bound.
pub open spec fn remap_coord(c: int, old_len: int, offset: int, new_len: int) -> int {
    clamp_spec(
        to_canvas_spec(from_canvas_spec(c, old_len) - offset, new_len),
        -CANVAS_BOUND as int,
        CANVAS_BOUND as int,
    )
}

/// A stroke point remapped by a crop.
pub open spec fn remap_point(p: Point, ow: int, oh: int, r: CropRegion) -> Point {
    Point {
        x: remap_coord(p.x as int, ow, r.x as int, r.width as int) as i64,
        y: remap_coord(p.y as int, oh, r.y as int, r.height as int) as i64,
    }
}

/// A stroke remapped by a crop: every point translated, the style kept.
pub open spec fn remap_stroke(s: StrokeData, ow: int, oh: int, r: CropRegion) -> StrokeData {
    StrokeData {
        points: s.points.map_values(|p: Point| remap_point(p, ow, oh, r)),
        width: s.width,
        color: s.color,
        kind: s.kind,
    }
}

/// All strokes remapped by a crop.
pub open spec fn remap_strokes(ss: Seq<StrokeData>, ow: int, oh: int, r: CropRegion) -> Seq<
    StrokeData,
> {
    ss.map_values(|s: StrokeData| remap_stroke(s, ow, oh, r))
}

/// Remap one point.
pub fn remap_point_exec(p: &Point, ow: u32, oh: u32, region: &CropRegion) -> (r: Point)
    requires
        p.wf(),
        1 <= ow,
        ow as int <= MAX_DIM as int,
        1 <= oh,
        oh as int <= MAX_DIM as int,
        region.valid_for(ow as int, oh as int),
    ensures
        r == remap_point(*p, ow as int, oh as int, *region),
        r.wf(),
{
    let fx = from_canvas_axis(p.x, ow as i64);
    let fy = from_canvas_axis(p.y, oh as i64);
    let cx = to_canvas_axis(fx - region.x as i64, region.width as i64);
    let cy = to_canvas_axis(fy - region.y as i64, region.height as i64);
    let rx = clamp_i64(cx, -CANVAS_BOUND, CANVAS_BOUND);
    let ry = clamp_i64(cy, -CANVAS_BOUND, CANVAS_BOUND);
    Point { x: rx, y: ry }
}

/// Remap one stroke.
pub fn remap_stroke_exec(d: &DrawObj, ow: u32, oh: u32, region: &CropRegion) -> (r: DrawObj)
    requires
        d@.wf(),
        1 <= ow,
        ow as int <= MAX_DIM as int,
        1 <= oh,
        oh as int <= MAX_DIM as int,
        region.valid_for(ow as int, oh as int),
    ensures
        r@ == remap_stroke(d@, ow as int, oh as int, *region),
        r@.wf(),
{
    let mut points: Vec<Point> = Vec::new();
    let n = d.points.len();
    let mut i: usize = 0;
    while i < n
        invariant
            d@.wf(),
            1 <= ow,
            ow as int <= MAX_DIM as int,
            1 <= oh,
            oh as int <= MAX_DIM as int,
            region.valid_for(ow as int, oh as int),
            n == d.points@.len(),
            i <= n,
            points@.len() == i,
            forall|k: int|
                0 <= k < i ==> points@[k] == remap_point(
                    d.points@[k],
                    ow as int,
                    oh as int,
                    *region,
                ) && (#[trigger] points@[k]).wf(),
        decreases n - i,
    {
        proof {
            assert(d@.points[i as int].wf());
        }
        let p = remap_point_exec(&d.points[i], ow, oh, region);
        points.push(p);
        i = i + 1;
    }
    let r = DrawObj { points, width: d.width, color: d.color, kind: d.kind };
    proof {
        assert(r@.points =~= remap_stroke(d@, ow as int, oh as int, *region).points);
    }
    r
}

/// Remap a whole stroke list.
pub fn remap_strokes_exec(v: &Vec<DrawObj>, ow: u32, oh: u32, region: &CropRegion) -> (r: Vec<
    DrawObj,
>)
    requires
        forall|i: int| 0 <= i < v@.len() ==> (#[trigger] v@[i]@).wf(),
        1 <= ow,
        ow as int <= MAX_DIM as int,
        1 <= oh,
        oh as int <= MAX_DIM as int,
        region.valid_for(ow as int, oh as int),
    ensures
        strokes_view(r@) == remap_strokes(strokes_view(v@), ow as int, oh as int, *region),
        forall|i: int| 0 <= i < r@.len() ==> (#[trigger] r@[i]@).wf(),
{
    let mut out: Vec<DrawObj> = Vec::new();
    let n = v.len();
    let mut i: usize = 0;
    while i < n
        invariant
            forall|k: int| 0 <= k < v@.len() ==> (#[trigger] v@[k]@).wf(),
            1 <= ow,
            ow as int <= MAX_DIM as int,
            1 <= oh,
            oh as int <= MAX_DIM as int,
            region.valid_for(ow as int, oh as int),
            n == v@.len(),
            i <= n,
            out@.len() == i,
            forall|k: int|
                0 <= k < i ==> (#[trigger] out@[k]@) == remap_stroke(
                    v@[k]@,
                    ow as int,
                    oh as int,
                    *region,
                ) && out@[k]@.wf(),
        decreases n - i,
    {
        let d = remap_stroke_exec(&v[i], ow, oh, region);
        out.push(d);
        i = i + 1;
    }
    proof {
        assert(strokes_view(out@) =~= remap_strokes(
            strokes_view(v@),
            ow as int,
            oh as int,
            *region,
        ));
    }
    out
}

/// Cropping then translating keeps positions: a point whose pixel position
/// lies inside the crop region is mapped, on the cropped raster, to exactly
/// its old pixel position minus the crop origin.
pub proof fn lemma_remap_keeps_position(c: int, old_len: int, offset: int, new_len: int)
    requires
        1 <= new_len < CANVAS_UNITS as int,
        0 <= offset,
        0 <= from_canvas_spec(c, old_len) - offset <= new_len,
    ensures
        from_canvas_spec(remap_coord(c, old_len, offset, new_len), new_len) == from_canvas_spec(
            c,
            old_len,
        ) - offset,
{
    let q = from_canvas_spec(c, old_len) - offset;
    lemma_to_canvas_range(q, new_len);
    lemma_axis_round_trip(q, new_len);
}

/// The rendered position after a crop is pixel-identical: where neither the
/// old nor the new raster clamps the drawn coordinate, the coordinate a
/// remapped point is drawn at on the cropped raster is its old drawn
/// coordinate minus the crop origin.
pub proof fn lemma_seg_coord_after_crop(
    c: int,
    old_len: int,
    offset: int,
    new_len: int,
    width: u8,
    off: int,
)
    requires
        1 <= new_len < CANVAS_UNITS as int,
        0 <= offset,
        0 <= off,
        0 <= from_canvas_spec(c, old_len) - offset <= new_len,
        from_canvas_spec(c, old_len) - offset + (width / 2) as int + off <= new_len - 1,
        from_canvas_spec(c, old_len) + (width / 2) as int + off <= old_len - 1,
    ensures
        seg_coord(remap_coord(c, old_len, offset, new_len), new_len, width, off) == seg_coord(
            c,
            old_len,
            width,
            off,
        ) - offset,
{
    lemma_remap_keeps_position(c, old_len, offset, new_len);
}

} // verus!
