//! The annotation engine: one captured raster, its stroke history, the
//! current style, and the pointer-driven drawing state machine.
//!
//! Exactly one engine instance is bound to one raster; a new capture
//! replaces the engine entirely, and a crop rebuilds it, because stroke
//! coordinates are only meaningful relative to one canvas aspect ratio.

use vstd::prelude::*;
use crate::crop::{
    remap_stroke, remap_stroke_exec, remap_strokes, remap_strokes_exec, CropRegion,
};
use crate::errors::CoreError;
use crate::history::{
    clear_spec, commit_spec, lemma_clear_wf, lemma_commit_wf, lemma_redo_wf, lemma_undo_wf,
    redo_spec, undo_spec, RedoData, StrokeHistory,
};
use crate::monitor::MAX_COORD;
use crate::raster::{Raster, Rgba};
use crate::render::{rasterize_strokes, rasterized};
use crate::strokes::{strokes_view, DrawObj, DrawingShape, Point, StrokeData};
use crate::transform::{
    clamp_i64, clamp_spec, lemma_to_canvas_range, to_canvas_axis, to_canvas_spec, CANVAS_UNITS,
    MAX_DIM,
};
use vstd::arithmetic::div_mod::{
    lemma_div_is_ordered, lemma_div_multiples_vanish, lemma_div_pos_is_pos,
};

verus! {

/// The UI panel rectangle the raster is shown in, in UI pixels.
#[derive(Clone, Copy, Debug, PartialEq, Eq, Structural)]
pub struct PanelRect {
    pub min_x: i64,
    pub min_y: i64,
    pub width: i64,
    pub height: i64,
}

impl PanelRect {
    pub open spec fn wf(self) -> bool {
        &&& -MAX_COORD as int <= self.min_x <= MAX_COORD as int
        &&& -MAX_COORD as int <= self.min_y <= MAX_COORD as int
        &&& 1 <= self.width <= MAX_DIM as int
        &&& 1 <= self.height <= MAX_DIM as int
    }
}

/// The canvas point a UI pointer position maps to: made relative to the
/// panel, clamped into it, and normalized.
pub open spec fn canvas_point(ui_x: int, ui_y: int, panel: PanelRect) -> Point {
    Point {
        x: to_canvas_spec(
            clamp_spec(ui_x - panel.min_x, 0, panel.width as int),
            panel.width as int,
        ) as i64,
        y: to_canvas_spec(
            clamp_spec(ui_y - panel.min_y, 0, panel.height as int),
            panel.height as int,
        ) as i64,
    }
}

/// Map a UI pointer position into canvas space.
pub fn to_canvas_point(ui_x: i64, ui_y: i64, panel: &PanelRect) -> (p: Point)
    requires
        panel.wf(),
        -MAX_COORD as int <= ui_x <= MAX_COORD as int,
        -MAX_COORD as int <= ui_y <= MAX_COORD as int,
    ensures
        p == canvas_point(ui_x as int, ui_y as int, *panel),
        p.wf(),
        0 <= p.x <= CANVAS_UNITS,
        0 <= p.y <= CANVAS_UNITS,
{
    let dx = clamp_i64(ui_x - panel.min_x, 0, panel.width);
    let dy = clamp_i64(ui_y - panel.min_y, 0, panel.height);
    let cx = to_canvas_axis(dx, panel.width);
    let cy = to_canvas_axis(dy, panel.height);
    proof {
        lemma_to_canvas_range(dx as int, panel.width as int);
        lemma_to_canvas_range(dy as int, panel.height as int);
    }
    Point { x: cx, y: cy }
}

/// Mapping a pointer position into canvas space and back is exact: for any
/// position inside the panel rectangle, the pixel position recovered from
/// the stored canvas point equals the original position, with no tolerance
/// at all.
pub proof fn lemma_canvas_round_trip(ui_x: int, ui_y: int, panel: PanelRect)
    requires
        panel.wf(),
        panel.min_x <= ui_x <= panel.min_x + panel.width,
        panel.min_y <= ui_y <= panel.min_y + panel.height,
    ensures
        crate::transform::from_canvas_spec(
            canvas_point(ui_x, ui_y, panel).x as int,
            panel.width as int,
        ) == ui_x - panel.min_x,
        crate::transform::from_canvas_spec(
            canvas_point(ui_x, ui_y, panel).y as int,
            panel.height as int,
        ) == ui_y - panel.min_y,
{
    lemma_to_canvas_range(ui_x - panel.min_x, panel.width as int);
    lemma_to_canvas_range(ui_y - panel.min_y, panel.height as int);
    crate::transform::lemma_axis_round_trip(ui_x - panel.min_x, panel.width as int);
    crate::transform::lemma_axis_round_trip(ui_y - panel.min_y, panel.height as int);
}

/// The annotation engine bound to one captured raster.
pub struct Painting {
    pub raster: Raster,
    pub history: StrokeHistory,
    /// The stroke being drawn right now; empty between drags.
    pub current: DrawObj,
    pub stroke_width: u8,
    pub stroke_color: Rgba,
    pub selected_shape: DrawingShape,
}

impl Painting {
    pub open spec fn wf(self) -> bool {
        &&& self.raster.wf()
        &&& 1 <= self.raster.width
        &&& 1 <= self.raster.height
        &&& self.history@.wf()
        &&& self.current@.wf()
        &&& self.stroke_width <= 12
    }

    /// A fresh engine over a newly captured raster, with the default style
    /// and an empty history.
    pub fn new(raster: Raster) -> (p: Painting)
        requires
            raster.wf(),
            1 <= raster.width,
            1 <= raster.height,
        ensures
            p.wf(),
            p.raster == raster,
            p.history@.committed == Seq::<StrokeData>::empty(),
            p.history@.cleared == Seq::<Seq<StrokeData>>::empty(),
            p.history@.undone == Seq::<RedoData>::empty(),
            p.current@.points == Seq::<Point>::empty(),
            p.stroke_width == 3,
            p.selected_shape == DrawingShape::Line,
    {
        let color = Rgba { r: 18, g: 160, b: 215, a: 255 };
        Painting {
            raster,
            history: StrokeHistory::new(),
            current: DrawObj::empty(3, color, DrawingShape::Line),
            stroke_width: 3,
            stroke_color: color,
            selected_shape: DrawingShape::Line,
        }
    }

    /// An engine over a cropped raster that keeps an existing stroke list
    /// as its committed history.
    pub fn new_crop(raster: Raster, shapes: Vec<DrawObj>) -> (p: Painting)
        requires
            raster.wf(),
            1 <= raster.width,
            1 <= raster.height,
            forall|i: int| 0 <= i < shapes@.len() ==> (#[trigger] shapes@[i]@).wf(),
        ensures
            p.wf(),
            p.raster == raster,
            p.history@.committed == strokes_view(shapes@),
            p.history@.cleared == Seq::<Seq<StrokeData>>::empty(),
            p.history@.undone == Seq::<RedoData>::empty(),
            p.current@.points == Seq::<Point>::empty(),
            p.stroke_width == 3,
            p.selected_shape == DrawingShape::Line,
    {
        let color = Rgba { r: 18, g: 160, b: 215, a: 255 };
        let history = StrokeHistory { committed: shapes, cleared: Vec::new(), undone: Vec::new() };
        let p = Painting {
            raster,
            history,
            current: DrawObj::empty(3, color, DrawingShape::Line),
            stroke_width: 3,
            stroke_color: color,
            selected_shape: DrawingShape::Line,
        };
        proof {
            assert(p.history@.cleared =~= Seq::<Seq<StrokeData>>::empty());
            assert(p.history@.undone =~= Seq::<RedoData>::empty());
            assert forall|i: int|
                0 <= i < p.history@.committed.len() implies (
                #[trigger] p.history@.committed[i]).wf() by {
                assert(p.history@.committed[i] == p.history.committed@[i]@);
            }
        }
        p
    }

    /// Change the current style; drawn strokes keep their own snapshots.
    pub fn set_style(&mut self, width: u8, color: Rgba)
        requires
            old(self).wf(),
            width <= 12,
        ensures
            final(self).wf(),
            final(self).stroke_width == width,
            final(self).stroke_color == color,
            final(self).raster == old(self).raster,
            final(self).history == old(self).history,
            final(self).current == old(self).current,
            final(self).selected_shape == old(self).selected_shape,
    {
        self.stroke_width = width;
        self.stroke_color = color;
    }

    /// Choose the shape newly drawn strokes take.
    pub fn set_shape(&mut self, kind: DrawingShape)
        requires
            old(self).wf(),
        ensures
            final(self).wf(),
            final(self).selected_shape == kind,
            final(self).raster == old(self).raster,
            final(self).history == old(self).history,
            final(self).current == old(self).current,
            final(self).stroke_width == old(self).stroke_width,
            final(self).stroke_color == old(self).stroke_color,
    {
        self.selected_shape = kind;
    }

    /// A free-hand pointer sample: append the canvas point to the current
    /// stroke unless it repeats the previous point, snapshotting the
    /// current style.
    pub fn freehand_point(&mut self, ui_x: i64, ui_y: i64, panel: &PanelRect)
        requires
            old(self).wf(),
            panel.wf(),
            -MAX_COORD as int <= ui_x <= MAX_COORD as int,
            -MAX_COORD as int <= ui_y <= MAX_COORD as int,
        ensures
            final(self).wf(),
            final(self).raster == old(self).raster,
            final(self).history == old(self).history,
            final(self).stroke_width == old(self).stroke_width,
            final(self).stroke_color == old(self).stroke_color,
            final(self).selected_shape == old(self).selected_shape,
            ({
                let p = canvas_point(ui_x as int, ui_y as int, *panel);
                if old(self).current@.points.len() > 0 && old(self).current@.points.last() == p {
                    final(self).current == old(self).current
                } else {
                    final(self).current@.points == old(self).current@.points.push(p)
                        && final(self).current@.width == old(self).stroke_width
                        && final(self).current@.color == old(self).stroke_color
                        && final(self).current@.kind == DrawingShape::Line
                }
            }),
    {
        let p = to_canvas_point(ui_x, ui_y, panel);
        let n = self.current.points.len();
        if n > 0 {
            let last = self.current.points[n - 1];
            if last == p {
                return ;
            }
        }
        self.current.width = self.stroke_width;
        self.current.color = self.stroke_color;
        self.current.kind = DrawingShape::Line;
        self.current.points.push(p);
        proof {
            assert forall|i: int|
                0 <= i < self.current@.points.len() implies (
                #[trigger] self.current@.points[i]).wf() by {
                if i < old(self).current@.points.len() {
                    assert(old(self).current@.points[i].wf());
                }
            }
        }
    }

    /// A straight-line press: the current stroke becomes the single anchor
    /// point, with the current style.
    pub fn straight_line_anchor(&mut self, ui_x: i64, ui_y: i64, panel: &PanelRect)
        requires
            old(self).wf(),
            panel.wf(),
            -MAX_COORD as int <= ui_x <= MAX_COORD as int,
            -MAX_COORD as int <= ui_y <= MAX_COORD as int,
        ensures
            final(self).wf(),
            final(self).raster == old(self).raster,
            final(self).history == old(self).history,
            final(self).stroke_width == old(self).stroke_width,
            final(self).stroke_color == old(self).stroke_color,
            final(self).selected_shape == old(self).selected_shape,
            final(self).current@.points == seq![
                canvas_point(ui_x as int, ui_y as int, *panel),
            ],
            final(self).current@.width == old(self).stroke_width,
            final(self).current@.color == old(self).stroke_color,
            final(self).current@.kind == DrawingShape::StraightLine,
    {
        let p = to_canvas_point(ui_x, ui_y, panel);
        let mut points: Vec<Point> = Vec::new();
        points.push(p);
        self.current = DrawObj {
            points,
            width: self.stroke_width,
            color: self.stroke_color,
            kind: DrawingShape::StraightLine,
        };
        proof {
            assert(self.current@.points =~= seq![
                canvas_point(ui_x as int, ui_y as int, *panel),
            ]);
        }
    }

    /// A straight-line drag: replace the live endpoint, keeping the
    /// anchor; exactly two points ever exist.
    pub fn straight_line_endpoint(&mut self, ui_x: i64, ui_y: i64, panel: &PanelRect)
        requires
            old(self).wf(),
            panel.wf(),
            old(self).current@.points.len() >= 1,
            -MAX_COORD as int <= ui_x <= MAX_COORD as int,
            -MAX_COORD as int <= ui_y <= MAX_COORD as int,
        ensures
            final(self).wf(),
            final(self).raster == old(self).raster,
            final(self).history == old(self).history,
            final(self).stroke_width == old(self).stroke_width,
            final(self).stroke_color == old(self).stroke_color,
            final(self).selected_shape == old(self).selected_shape,
            final(self).current@.points == seq![
                old(self).current@.points[0],
                canvas_point(ui_x as int, ui_y as int, *panel),
            ],
            final(self).current@.width == old(self).current@.width,
            final(self).current@.color == old(self).current@.color,
            final(self).current@.kind == old(self).current@.kind,
    {
        let p = to_canvas_point(ui_x, ui_y, panel);
        self.current.points.truncate(1);
        self.current.points.push(p);
        proof {
            assert(old(self).current@.points[0].wf());
            assert(self.current@.points =~= seq![
                old(self).current@.points[0],
                canvas_point(ui_x as int, ui_y as int, *panel),
            ]);
        }
    }

    /// The pointer left the canvas or was released: seal the current
    /// stroke, committing it to history, and start a fresh empty one with
    /// the current style.
    pub fn pointer_released(&mut self)
        requires
            old(self).wf(),
        ensures
            final(self).wf(),
            final(self).raster == old(self).raster,
            final(self).stroke_width == old(self).stroke_width,
            final(self).stroke_color == old(self).stroke_color,
            final(self).selected_shape == old(self).selected_shape,
            old(self).current@.points.len() == 0 ==> final(self).history == old(self).history
                && final(self).current == old(self).current,
            old(self).current@.points.len() > 0 ==> final(self).history@ == commit_spec(
                old(self).history@,
                old(self).current@,
            ) && final(self).current@.points == Seq::<Point>::empty() && final(
                self).current@.width == old(self).stroke_width && final(self).current@.color == old(
                self).stroke_color && final(self).current@.kind == old(self).selected_shape,
    {
        if self.current.points.len() > 0 {
            let mut sealed = DrawObj::empty(self.stroke_width, self.stroke_color, self.selected_shape);
            std::mem::swap(&mut sealed, &mut self.current);
            self.history.commit(sealed);
            proof {
                lemma_commit_wf(old(self).history@, old(self).current@);
            }
        }
    }

    /// Undo one step.
    pub fn undo(&mut self)
        requires
            old(self).wf(),
        ensures
            final(self).wf(),
            final(self).history@ == undo_spec(old(self).history@),
            final(self).raster == old(self).raster,
            final(self).current == old(self).current,
            final(self).stroke_width == old(self).stroke_width,
            final(self).stroke_color == old(self).stroke_color,
            final(self).selected_shape == old(self).selected_shape,
    {
        self.history.undo();
        proof {
            lemma_undo_wf(old(self).history@);
        }
    }

    /// Redo one step.
    pub fn redo(&mut self)
        requires
            old(self).wf(),
        ensures
            final(self).wf(),
            final(self).history@ == redo_spec(old(self).history@),
            final(self).raster == old(self).raster,
            final(self).current == old(self).current,
            final(self).stroke_width == old(self).stroke_width,
            final(self).stroke_color == old(self).stroke_color,
            final(self).selected_shape == old(self).selected_shape,
    {
        self.history.redo();
        proof {
            lemma_redo_wf(old(self).history@);
        }
    }

    /// Clear the painting: all committed strokes move aside as one atomic
    /// group, so a single undo restores them all.
    pub fn clear(&mut self)
        requires
            old(self).wf(),
        ensures
            final(self).wf(),
            final(self).history@ == clear_spec(old(self).history@),
            final(self).raster == old(self).raster,
            final(self).current == old(self).current,
            final(self).stroke_width == old(self).stroke_width,
            final(self).stroke_color == old(self).stroke_color,
            final(self).selected_shape == old(self).selected_shape,
    {
        self.history.clear();
        proof {
            lemma_clear_wf(old(self).history@);
        }
    }

    /// Bake the committed strokes into a copy of the raster. A pixel no
    /// stroke can touch keeps its captured value.
    pub fn generate_rgba_image(&self) -> (r: Raster)
        requires
            self.wf(),
        ensures
            r.wf(),
            r.width == self.raster.width,
            r.height == self.raster.height,
            r.data@ == rasterized(self.raster, self.history@.committed),
            forall|i: int, j: int|
                0 <= i < self.raster.width && 0 <= j < self.raster.height
                    && !crate::render::strokes_box_contains(
                    self.history@.committed,
                    self.history@.committed.len() as int,
                    self.raster.width,
                    self.raster.height,
                    i,
                    j,
                ) ==> #[trigger] r.spec_pixel(i, j) == self.raster.spec_pixel(i, j),
    {
        proof {
            assert forall|i: int|
                0 <= i < self.history.committed@.len() implies (
                #[trigger] self.history.committed@[i]@).wf() by {
                assert(self.history@.committed[i] == self.history.committed@[i]@);
            }
        }
        rasterize_strokes(&self.raster, &self.history.committed)
    }

    /// Remap the committed strokes and the current stroke for a crop of
    /// this raster, subtracting the crop origin from every point's
    /// raster-space representation.
    pub fn shapes_remap(&mut self, region: &CropRegion)
        requires
            old(self).wf(),
            region.valid_for(old(self).raster.width as int, old(self).raster.height as int),
        ensures
            final(self).wf(),
            final(self).history@.committed == remap_strokes(
                old(self).history@.committed,
                old(self).raster.width as int,
                old(self).raster.height as int,
                *region,
            ),
            final(self).history@.cleared == old(self).history@.cleared,
            final(self).history@.undone == old(self).history@.undone,
            final(self).current@ == remap_stroke(
                old(self).current@,
                old(self).raster.width as int,
                old(self).raster.height as int,
                *region,
            ),
            final(self).raster == old(self).raster,
            final(self).stroke_width == old(self).stroke_width,
            final(self).stroke_color == old(self).stroke_color,
            final(self).selected_shape == old(self).selected_shape,
    {
        let ow = self.raster.width;
        let oh = self.raster.height;
        proof {
            assert forall|i: int|
                0 <= i < self.history.committed@.len() implies (
                #[trigger] self.history.committed@[i]@).wf() by {
                assert(self.history@.committed[i] == self.history.committed@[i]@);
            }
        }
        let committed = remap_strokes_exec(&self.history.committed, ow, oh, region);
        self.history.committed = committed;
        let cur = remap_stroke_exec(&self.current, ow, oh, region);
        self.current = cur;
        proof {
            assert forall|i: int|
                0 <= i < self.history@.committed.len() implies (
                #[trigger] self.history@.committed[i]).wf() by {
                assert(self.history@.committed[i] == self.history.committed@[i]@);
            }
            assert(self.history@.cleared =~= old(self).history@.cleared);
            assert(self.history@.undone =~= old(self).history@.undone);
            assert forall|i: int|
                0 <= i < self.history@.cleared.len() implies crate::strokes::strokes_wf(
                #[trigger] self.history@.cleared[i]) by {
                assert(self.history@.cleared[i] == old(self).history@.cleared[i]);
            }
            assert forall|i: int|
                0 <= i < self.history@.undone.len() implies crate::history::redo_entry_wf(
                #[trigger] self.history@.undone[i]) by {
                assert(self.history@.undone[i] == old(self).history@.undone[i]);
            }
        }
    }

    /// Crop the raster and remap the strokes in one atomic operation: on an
    /// invalid region nothing changes and `InvalidCropRegion` is returned;
    /// otherwise both the raster and every stroke are replaced together and
    /// the undo history, whose coordinates referred to the old raster, is
    /// discarded.
    pub fn apply_crop(&mut self, region: &CropRegion) -> (res: Result<(), CoreError>)
        requires
            old(self).wf(),
        ensures
            final(self).wf(),
            res is Err <==> !region.valid_for(
                old(self).raster.width as int,
                old(self).raster.height as int,
            ),
            res is Err ==> *final(self) == *old(self) && res == Result::<(), CoreError>::Err(
                CoreError::InvalidCropRegion,
            ),
            res is Ok ==> {
                &&& final(self).raster.width == region.width
                &&& final(self).raster.height == region.height
                &&& forall|i: int, j: int|
                    0 <= i < region.width && 0 <= j < region.height ==> final(
                        self).raster.spec_pixel(i, j) == old(self).raster.spec_pixel(
                        region.x + i,
                        region.y + j,
                    )
                &&& final(self).history@.committed == remap_strokes(
                    old(self).history@.committed,
                    old(self).raster.width as int,
                    old(self).raster.height as int,
                    *region,
                )
                &&& final(self).history@.cleared == Seq::<Seq<StrokeData>>::empty()
                &&& final(self).history@.undone == Seq::<RedoData>::empty()
                &&& final(self).current@ == remap_stroke(
                    old(self).current@,
                    old(self).raster.width as int,
                    old(self).raster.height as int,
                    *region,
                )
                &&& final(self).stroke_width == old(self).stroke_width
                &&& final(self).stroke_color == old(self).stroke_color
                &&& final(self).selected_shape == old(self).selected_shape
            },
    {
        let valid = region.width >= 1 && region.height >= 1 && (region.x as u64
            + region.width as u64 <= self.raster.width as u64) && (region.y as u64
            + region.height as u64 <= self.raster.height as u64);
        if !valid {
            return Err(CoreError::InvalidCropRegion);
        }
        self.shapes_remap(region);
        let new_raster = self.raster.crop(region.x, region.y, region.width, region.height);
        self.raster = new_raster;
        self.history.cleared = Vec::new();
        self.history.undone = Vec::new();
        proof {
            assert(self.history@.cleared =~= Seq::<Seq<StrokeData>>::empty());
            assert(self.history@.undone =~= Seq::<RedoData>::empty());
        }
        Ok(())
    }

    /// The largest size, within the available area, that keeps the
    /// raster's aspect ratio.
    pub fn painting_size(&self, avail_w: i64, avail_h: i64) -> (r: (i64, i64))
        requires
            self.wf(),
            1 <= avail_w <= MAX_DIM as int,
            1 <= avail_h <= MAX_DIM as int,
        ensures
            r.0 as int == painting_size_spec(
                self.raster.width as int,
                self.raster.height as int,
                avail_w as int,
                avail_h as int,
            ).0,
            r.1 as int == painting_size_spec(
                self.raster.width as int,
                self.raster.height as int,
                avail_w as int,
                avail_h as int,
            ).1,
            0 <= r.0 <= avail_w,
            0 <= r.1 <= avail_h,
    {
        let rw = self.raster.width as i64;
        let rh = self.raster.height as i64;
        proof {
            assert(1 <= (avail_w as int) * (rh as int) <= 4_295_098_369 && 1 <= (avail_h as int)
                * (rw as int) <= 4_295_098_369) by (nonlinear_arith)
                requires
                    1 <= avail_w as int <= 65_535,
                    1 <= avail_h as int <= 65_535,
                    1 <= rw as int <= 65_535,
                    1 <= rh as int <= 65_535,
            ;
        }
        let left: i64 = avail_w * rh;
        let right: i64 = avail_h * rw;
        if left <= right {
            let fit_h: i64 = ((left as u64) / (rw as u64)) as i64;
            proof {
                lemma_div_pos_is_pos(left as int, rw as int);
                lemma_div_is_ordered(left as int, right as int, rw as int);
                assert((avail_h as int) * (rw as int) == (rw as int) * (avail_h as int))
                    by (nonlinear_arith)
                ;
                lemma_div_multiples_vanish(avail_h as int, rw as int);
            }
            (avail_w, fit_h)
        } else {
            let fit_w: i64 = ((right as u64) / (rh as u64)) as i64;
            proof {
                lemma_div_pos_is_pos(right as int, rh as int);
                lemma_div_is_ordered(right as int, left as int, rh as int);
                assert((avail_w as int) * (rh as int) == (rh as int) * (avail_w as int))
                    by (nonlinear_arith)
                ;
                lemma_div_multiples_vanish(avail_w as int, rh as int);
            }
            (fit_w, avail_h)
        }
    }
}

/// The largest panel size inside the available area that preserves the
/// raster's `rw : rh` aspect ratio.
pub open spec fn painting_size_spec(rw: int, rh: int, aw: int, ah: int) -> (int, int) {
    if aw * rh <= ah * rw {
        (aw, (aw * rh) / rw)
    } else {
        ((ah * rw) / rh, ah)
    }
}

} // verus!
