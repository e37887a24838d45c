//! Strokes: resolution-independent polylines with a style snapshot.
//!
//! A stroke stores its points in the normalized canvas space of
//! `crate::transform`, together with the width, color and shape kind that
//! were current when it was drawn; later style changes never retroactively
//! affect drawn strokes.

use vstd::prelude::*;
use crate::raster::Rgba;
use crate::transform::CANVAS_BOUND;

verus! {

/// A stroke point in canvas units.
#[derive(Clone, Copy, Debug, PartialEq, Eq, Structural)]
pub struct Point {
    pub x: i64,
    pub y: i64,
}

impl Point {
    pub open spec fn wf(self) -> bool {
        &&& -CANVAS_BOUND as int <= self.x <= CANVAS_BOUND as int
        &&& -CANVAS_BOUND as int <= self.y <= CANVAS_BOUND as int
    }
}

/// The shape a stroke is drawn as: a free-hand polyline, or a straight
/// segment between an anchor and a live endpoint.
#[derive(Clone, Copy, Debug, PartialEq, Eq, Structural)]
pub enum DrawingShape {
    Line,
    StraightLine,
}

/// One drawn stroke: its points in canvas space and its own style
/// snapshot.
#[derive(Clone, Debug)]
pub struct DrawObj {
    pub points: Vec<Point>,
    pub width: u8,
    pub color: Rgba,
    pub kind: DrawingShape,
}

/// Mathematical view of a stroke.
#[verifier::ext_equal]
pub ghost struct StrokeData {
    pub points: Seq<Point>,
    pub width: u8,
    pub color: Rgba,
    pub kind: DrawingShape,
}

impl View for DrawObj {
    type V = StrokeData;

    open spec fn view(&self) -> StrokeData {
        StrokeData {
            points: self.points@,
            width: self.width,
            color: self.color,
            kind: self.kind,
        }
    }
}

impl StrokeData {
    /// All points lie within the canvas bound and the width is within the
    /// style range.
    pub open spec fn wf(self) -> bool {
        &&& forall|i: int| 0 <= i < self.points.len() ==> (#[trigger] self.points[i]).wf()
        &&& self.width <= 12
    }
}

/// The views of a sequence of strokes.
pub open spec fn strokes_view(v: Seq<DrawObj>) -> Seq<StrokeData> {
    v.map_values(|d: DrawObj| d@)
}

/// All strokes of a sequence are well-formed.
pub open spec fn strokes_wf(s: Seq<StrokeData>) -> bool {
    forall|i: int| 0 <= i < s.len() ==> (#[trigger] s[i]).wf()
}

impl DrawObj {
    /// An empty stroke carrying the given style snapshot.
    pub fn empty(width: u8, color: Rgba, kind: DrawingShape) -> (r: DrawObj)
        ensures
            r@.points == Seq::<Point>::empty(),
            r@.width == width,
            r@.color == color,
            r@.kind == kind,
    {
        let r = DrawObj { points: Vec::new(), width, color, kind };
        proof {
            assert(r@.points =~= Seq::<Point>::empty());
        }
        r
    }
}

} // verus!
