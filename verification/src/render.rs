//! Baking strokes into raster pixels.
//!
//! Every committed stroke with at least two points is drawn segment by
//! segment. The underlying primitive draws hairlines only, so width is
//! simulated by repeating each segment at small offsets spanning
//! `[0, width]` — an approximation, not true thick-line rendering. All
//! raster coordinates are clamped to `[0, size - 1]` before drawing, so
//! rasterization never fails.

use vstd::prelude::*;
use crate::raster::{pixel_of, Raster, Rgba};
use crate::strokes::{strokes_view, DrawObj, Point, StrokeData};
use crate::transform::{clamp_i64, clamp_spec, from_canvas_axis, from_canvas_spec, MAX_DIM};

verus! {

/// What `imageproc`'s hairline draw leaves in a buffer: the pixels of the
/// clipped Bresenham segment from `(x0, y0)` to `(x1, y1)` set to the
/// color, everything else unchanged. The result depends on the arguments
/// alone.
pub uninterp spec fn line_pixels(
    data: Seq<u8>,
    w: u32,
    h: u32,
    x0: u32,
    y0: u32,
    x1: u32,
    y1: u32,
    cr: u8,
    cg: u8,
    cb: u8,
    ca: u8,
) -> Seq<u8>;

/// Whether `(i, j)` lies inside the axis-aligned bounding rectangle of the
/// two endpoints.
pub open spec fn in_segment_box(x0: u32, y0: u32, x1: u32, y1: u32, i: int, j: int) -> bool {
    &&& (if x0 <= x1 {
        x0 as int <= i <= x1 as int
    } else {
        x1 as int <= i <= x0 as int
    })
    &&& (if y0 <= y1 {
        y0 as int <= j <= y1 as int
    } else {
        y1 as int <= j <= y0 as int
    })
}

/// Relies on `imageproc::drawing::draw_line_segment_mut`: it draws the
/// clipped Bresenham segment in place, a pure function of the buffer, the
/// dimensions, the endpoints and the color; the buffer keeps its length,
/// and every pixel outside the endpoints' bounding rectangle keeps its
/// value, since the plotted pixels all lie between the endpoints.
#[verifier::external_body]
fn draw_line(data: &mut Vec<u8>, w: u32, h: u32, x0: u32, y0: u32, x1: u32, y1: u32, color: Rgba)
    requires
        old(data)@.len() == 4 * (w as int * h as int),
        w as int <= MAX_DIM as int,
        h as int <= MAX_DIM as int,
        x0 < w,
        y0 < h,
        x1 < w,
        y1 < h,
    ensures
        final(data)@ == line_pixels(old(data)@, w, h, x0, y0, x1, y1, color.r, color.g, color.b,
            color.a),
        final(data)@.len() == old(data)@.len(),
        forall|i: int, j: int|
            0 <= i < w && 0 <= j < h && !in_segment_box(x0, y0, x1, y1, i, j) ==> pixel_of(
                final(data)@,
                w as int,
                i,
                j,
            ) == pixel_of(old(data)@, w as int, i, j),
{
    let buf = std::mem::take(data);
    let mut img = image::RgbaImage::from_raw(w, h, buf).unwrap();
    imageproc::drawing::draw_line_segment_mut(
        &mut img,
        ((x0 as u16).into(), (y0 as u16).into()),
        ((x1 as u16).into(), (y1 as u16).into()),
        image::Rgba([color.r, color.g, color.b, color.a]),
    );
    *data = img.into_raw();
}

/// The raster coordinate a canvas coordinate is drawn at: mapped into the
/// raster, shifted by half the stroke width plus the repeat offset, clamped
/// into the raster.
pub open spec fn seg_coord(c: int, len: int, width: u8, off: int) -> int {
    clamp_spec(from_canvas_spec(c, len) + (width / 2) as int + off, 0, len - 1)
}

/// Executable form of `seg_coord`.
pub fn segment_coordinates(p: &Point, w: u32, h: u32, width: u8, off_x: u8, off_y: u8) -> (r: (
    u32,
    u32,
))
    requires
        p.wf(),
        1 <= w,
        w as int <= MAX_DIM as int,
        1 <= h,
        h as int <= MAX_DIM as int,
        width <= 12,
        off_x <= width,
        off_y <= width,
    ensures
        r.0 as int == seg_coord(p.x as int, w as int, width, off_x as int),
        r.1 as int == seg_coord(p.y as int, h as int, width, off_y as int),
        r.0 < w,
        r.1 < h,
{
    let fx = from_canvas_axis(p.x, w as i64);
    let fy = from_canvas_axis(p.y, h as i64);
    let cx = clamp_i64(fx + (width / 2 + off_x) as i64, 0, w as i64 - 1);
    let cy = clamp_i64(fy + (width / 2 + off_y) as i64, 0, h as i64 - 1);
    (cx as u32, cy as u32)
}

/// A larger repeat offset never moves the drawn coordinate left or up.
pub proof fn lemma_seg_coord_mono(c: int, len: int, width: u8, o1: int, o2: int)
    requires
        1 <= len,
        o1 <= o2,
    ensures
        seg_coord(c, len, width, o1) <= seg_coord(c, len, width, o2),
{
    let f = from_canvas_spec(c, len);
    assert(f + (width / 2) as int + o1 <= f + (width / 2) as int + o2);
    assert(clamp_spec(f + (width / 2) as int + o1, 0, len - 1) <= clamp_spec(
        f + (width / 2) as int + o2,
        0,
        len - 1,
    ));
}

/// Whether `(i, j)` can be touched when the segment between two stroke
/// points is drawn at any repeat offset: the bounding rectangle of the
/// drawn coordinates over offsets `0` to the stroke width.
pub open spec fn pair_box_contains(
    p0: Point,
    p1: Point,
    w: u32,
    h: u32,
    width: u8,
    i: int,
    j: int,
) -> bool {
    let ax0 = seg_coord(p0.x as int, w as int, width, 0);
    let ax1 = seg_coord(p1.x as int, w as int, width, 0);
    let bx0 = seg_coord(p0.x as int, w as int, width, width as int);
    let bx1 = seg_coord(p1.x as int, w as int, width, width as int);
    let ay0 = seg_coord(p0.y as int, h as int, width, 0);
    let ay1 = seg_coord(p1.y as int, h as int, width, 0);
    let by0 = seg_coord(p0.y as int, h as int, width, width as int);
    let by1 = seg_coord(p1.y as int, h as int, width, width as int);
    &&& (if ax0 <= ax1 {
        ax0
    } else {
        ax1
    }) <= i <= (if bx0 >= bx1 {
        bx0
    } else {
        bx1
    })
    &&& (if ay0 <= ay1 {
        ay0
    } else {
        ay1
    }) <= j <= (if by0 >= by1 {
        by0
    } else {
        by1
    })
}

/// Whether `(i, j)` can be touched by one of the first `n` consecutive
/// point pairs of a stroke.
pub open spec fn pairs_box_contains(
    pts: Seq<Point>,
    width: u8,
    n: int,
    w: u32,
    h: u32,
    i: int,
    j: int,
) -> bool {
    exists|k: int| 0 <= k < n && #[trigger] pair_box_contains(pts[k], pts[k + 1], w, h, width, i, j)
}

/// Whether `(i, j)` can be touched when the stroke is drawn.
pub open spec fn stroke_box_contains(s: StrokeData, w: u32, h: u32, i: int, j: int) -> bool {
    pairs_box_contains(s.points, s.width, s.points.len() - 1, w, h, i, j)
}

/// Whether `(i, j)` can be touched by one of the first `n` strokes.
pub open spec fn strokes_box_contains(
    ss: Seq<StrokeData>,
    n: int,
    w: u32,
    h: u32,
    i: int,
    j: int,
) -> bool {
    exists|t: int| 0 <= t < n && #[trigger] stroke_box_contains(ss[t], w, h, i, j)
}

/// Extending the pair range by one adds exactly that pair's rectangle.
pub proof fn lemma_pairs_box_extend(
    pts: Seq<Point>,
    width: u8,
    n: int,
    w: u32,
    h: u32,
    i: int,
    j: int,
)
    requires
        0 <= n,
    ensures
        pairs_box_contains(pts, width, n + 1, w, h, i, j) <==> (pairs_box_contains(
            pts,
            width,
            n,
            w,
            h,
            i,
            j,
        ) || pair_box_contains(pts[n], pts[n + 1], w, h, width, i, j)),
{
    if pairs_box_contains(pts, width, n + 1, w, h, i, j) {
        let k = choose|k: int| 0 <= k < n + 1 && #[trigger] pair_box_contains(pts[k], pts[k + 1], w, h, width, i, j);
        if k < n {
            assert(pairs_box_contains(pts, width, n, w, h, i, j));
        }
    }
    if pairs_box_contains(pts, width, n, w, h, i, j) {
        let k = choose|k: int| 0 <= k < n && #[trigger] pair_box_contains(pts[k], pts[k + 1], w, h, width, i, j);
        assert(0 <= k < n + 1 && pair_box_contains(pts[k], pts[k + 1], w, h, width, i, j));
    }
    if pair_box_contains(pts[n], pts[n + 1], w, h, width, i, j) {
        assert(0 <= n < n + 1 && pair_box_contains(pts[n], pts[n + 1], w, h, width, i, j));
    }
}

/// Extending the stroke range by one adds exactly that stroke's region.
pub proof fn lemma_strokes_box_extend(ss: Seq<StrokeData>, n: int, w: u32, h: u32, i: int, j: int)
    requires
        0 <= n,
    ensures
        strokes_box_contains(ss, n + 1, w, h, i, j) <==> (strokes_box_contains(ss, n, w, h, i, j)
            || stroke_box_contains(ss[n], w, h, i, j)),
{
    if strokes_box_contains(ss, n + 1, w, h, i, j) {
        let t = choose|t: int| 0 <= t < n + 1 && #[trigger] stroke_box_contains(ss[t], w, h, i, j);
        if t < n {
            assert(strokes_box_contains(ss, n, w, h, i, j));
        }
    }
    if strokes_box_contains(ss, n, w, h, i, j) {
        let t = choose|t: int| 0 <= t < n && #[trigger] stroke_box_contains(ss[t], w, h, i, j);
        assert(0 <= t < n + 1 && stroke_box_contains(ss[t], w, h, i, j));
    }
    if stroke_box_contains(ss[n], w, h, i, j) {
        assert(0 <= n < n + 1 && stroke_box_contains(ss[n], w, h, i, j));
    }
}

/// One hairline draw between two stroke points at the given offsets.
pub open spec fn draw_seg_at(
    data: Seq<u8>,
    w: u32,
    h: u32,
    p0: Point,
    p1: Point,
    width: u8,
    c: Rgba,
    ox: int,
    oy: int,
) -> Seq<u8> {
    line_pixels(
        data,
        w,
        h,
        seg_coord(p0.x as int, w as int, width, ox) as u32,
        seg_coord(p0.y as int, h as int, width, oy) as u32,
        seg_coord(p1.x as int, w as int, width, ox) as u32,
        seg_coord(p1.y as int, h as int, width, oy) as u32,
        c.r,
        c.g,
        c.b,
        c.a,
    )
}

/// The three draws made for one offset value: diagonal, vertical-only and
/// horizontal-only displacement, in that order.
pub open spec fn draw_triple(
    data: Seq<u8>,
    w: u32,
    h: u32,
    p0: Point,
    p1: Point,
    width: u8,
    c: Rgba,
    o: int,
) -> Seq<u8> {
    let d1 = draw_seg_at(data, w, h, p0, p1, width, c, o, o);
    let d2 = draw_seg_at(d1, w, h, p0, p1, width, c, 0, o);
    draw_seg_at(d2, w, h, p0, p1, width, c, o, 0)
}

/// The triples for offsets `0..=o`, applied in ascending order.
pub open spec fn draw_offsets(
    data: Seq<u8>,
    w: u32,
    h: u32,
    p0: Point,
    p1: Point,
    width: u8,
    c: Rgba,
    o: int,
) -> Seq<u8>
    decreases o + 1,
{
    if o < 0 {
        data
    } else {
        draw_triple(draw_offsets(data, w, h, p0, p1, width, c, o - 1), w, h, p0, p1, width, c, o)
    }
}

/// One whole segment: every offset from `0` to the stroke width.
pub open spec fn draw_segment_full(
    data: Seq<u8>,
    w: u32,
    h: u32,
    p0: Point,
    p1: Point,
    width: u8,
    c: Rgba,
) -> Seq<u8> {
    draw_offsets(data, w, h, p0, p1, width, c, width as int)
}

/// The first `n` consecutive point pairs of a stroke, drawn in order.
pub open spec fn draw_pairs(
    data: Seq<u8>,
    w: u32,
    h: u32,
    points: Seq<Point>,
    width: u8,
    c: Rgba,
    n: int,
) -> Seq<u8>
    decreases n,
{
    if n <= 0 {
        data
    } else {
        draw_segment_full(
            draw_pairs(data, w, h, points, width, c, n - 1),
            w,
            h,
            points[n - 1],
            points[n],
            width,
            c,
        )
    }
}

/// One stroke: all its consecutive point pairs, or nothing for a stroke
/// with fewer than two points.
pub open spec fn draw_stroke(data: Seq<u8>, w: u32, h: u32, s: StrokeData) -> Seq<u8> {
    if s.points.len() >= 2 {
        draw_pairs(data, w, h, s.points, s.width, s.color, s.points.len() - 1)
    } else {
        data
    }
}

/// The first `n` strokes, drawn in order.
pub open spec fn draw_strokes(data: Seq<u8>, w: u32, h: u32, ss: Seq<StrokeData>, n: int) -> Seq<
    u8,
>
    decreases n,
{
    if n <= 0 {
        data
    } else {
        draw_stroke(draw_strokes(data, w, h, ss, n - 1), w, h, ss[n - 1])
    }
}

/// The pixels of `base` after baking all the strokes into it.
pub open spec fn rasterized(base: Raster, ss: Seq<StrokeData>) -> Seq<u8> {
    draw_strokes(base.data@, base.width, base.height, ss, ss.len() as int)
}

/// Bake the strokes into a copy of the base raster, leaving the base
/// untouched. A pixel that no stroke can touch — outside every segment's
/// drawn bounding rectangle — keeps its base value.
pub fn rasterize_strokes(base: &Raster, strokes: &Vec<DrawObj>) -> (r: Raster)
    requires
        base.wf(),
        1 <= base.width,
        1 <= base.height,
        forall|i: int| 0 <= i < strokes@.len() ==> (#[trigger] strokes@[i]@).wf(),
    ensures
        r.wf(),
        r.width == base.width,
        r.height == base.height,
        r.data@ == rasterized(*base, strokes_view(strokes@)),
        forall|i: int, j: int|
            0 <= i < base.width && 0 <= j < base.height && !strokes_box_contains(
                strokes_view(strokes@),
                strokes@.len() as int,
                base.width,
                base.height,
                i,
                j,
            ) ==> #[trigger] r.spec_pixel(i, j) == base.spec_pixel(i, j),
{
    let w = base.width;
    let h = base.height;
    let mut data: Vec<u8> = base.data.clone();
    proof {
        assert forall|i: int| 0 <= i < base.data@.len() implies data@[i] == base.data@[i] by {}
        assert(data@ =~= base.data@);
    }
    let ghost sv = strokes_view(strokes@);
    let mut s: usize = 0;
    while s < strokes.len()
        invariant
            base.wf(),
            w == base.width,
            h == base.height,
            1 <= w,
            1 <= h,
            sv == strokes_view(strokes@),
            forall|i: int| 0 <= i < strokes@.len() ==> (#[trigger] strokes@[i]@).wf(),
            s <= strokes@.len(),
            data@.len() == base.data@.len(),
            data@ == draw_strokes(base.data@, w, h, sv, s as int),
            forall|i: int, j: int|
                0 <= i < w && 0 <= j < h && !strokes_box_contains(sv, s as int, w, h, i, j)
                    ==> #[trigger] pixel_of(data@, w as int, i, j) == pixel_of(
                    base.data@,
                    w as int,
                    i,
                    j,
                ),
        decreases strokes@.len() - s,
    {
        let stroke = &strokes[s];
        let ghost stroke_start = data@;
        let npts = stroke.points.len();
        if npts >= 2 {
            let width = stroke.width;
            let color = stroke.color;
            let mut k: usize = 0;
            while k < npts - 1
                invariant
                    base.wf(),
                    w == base.width,
                    h == base.height,
                    1 <= w,
                    1 <= h,
                    s < strokes@.len(),
                    stroke == &strokes@[s as int],
                    forall|i: int| 0 <= i < strokes@.len() ==> (#[trigger] strokes@[i]@).wf(),
                    npts == stroke.points@.len(),
                    2 <= npts,
                    width == stroke.width,
                    color == stroke.color,
                    k <= npts - 1,
                    data@.len() == base.data@.len(),
                    data@ == draw_pairs(stroke_start, w, h, stroke@.points, width, color, k as int),
                    forall|i: int, j: int|
                        0 <= i < w && 0 <= j < h && !pairs_box_contains(
                            stroke@.points,
                            width,
                            k as int,
                            w,
                            h,
                            i,
                            j,
                        ) ==> #[trigger] pixel_of(data@, w as int, i, j) == pixel_of(
                            stroke_start,
                            w as int,
                            i,
                            j,
                        ),
                decreases npts - 1 - k,
            {
                let p0 = stroke.points[k];
                let p1 = stroke.points[k + 1];
                let ghost pair_start = data@;
                proof {
                    assert(p0 == stroke@.points[k as int]);
                    assert(p1 == stroke@.points[k as int + 1]);
                }
                let mut o: u8 = 0;
                while o <= width
                    invariant
                        base.wf(),
                        w == base.width,
                        h == base.height,
                        1 <= w,
                        1 <= h,
                        s < strokes@.len(),
                        forall|i: int| 0 <= i < strokes@.len() ==> (#[trigger] strokes@[i]@).wf(),
                        stroke == &strokes@[s as int],
                        npts == stroke.points@.len(),
                        k < npts - 1,
                        width == stroke.width,
                        width <= 12,
                        color == stroke.color,
                        p0 == stroke.points@[k as int],
                        p1 == stroke.points@[k as int + 1],
                        p0.wf(),
                        p1.wf(),
                        o <= width + 1,
                        data@.len() == base.data@.len(),
                        data@ == draw_offsets(pair_start, w, h, p0, p1, width, color, o as int
                            - 1),
                        forall|i: int, j: int|
                            0 <= i < w && 0 <= j < h && !pair_box_contains(
                                p0,
                                p1,
                                w,
                                h,
                                width,
                                i,
                                j,
                            ) ==> #[trigger] pixel_of(data@, w as int, i, j) == pixel_of(
                                pair_start,
                                w as int,
                                i,
                                j,
                            ),
                    decreases width + 1 - o,
                {
                    let ghost iter_start = data@;
                    let (ax, ay) = segment_coordinates(&p0, w, h, width, o, o);
                    let (bx, by) = segment_coordinates(&p1, w, h, width, o, o);
                    draw_line(&mut data, w, h, ax, ay, bx, by, color);
                    let ghost d1 = data@;
                    let (ax2, ay2) = segment_coordinates(&p0, w, h, width, 0, o);
                    let (bx2, by2) = segment_coordinates(&p1, w, h, width, 0, o);
                    draw_line(&mut data, w, h, ax2, ay2, bx2, by2, color);
                    let ghost d2 = data@;
                    let (ax3, ay3) = segment_coordinates(&p0, w, h, width, o, 0);
                    let (bx3, by3) = segment_coordinates(&p1, w, h, width, o, 0);
                    draw_line(&mut data, w, h, ax3, ay3, bx3, by3, color);
                    proof {
                        assert(data@ == draw_triple(
                            draw_offsets(pair_start, w, h, p0, p1, width, color, o as int - 1),
                            w,
                            h,
                            p0,
                            p1,
                            width,
                            color,
                            o as int,
                        ));
                        assert forall|i: int, j: int|
                            0 <= i < w && 0 <= j < h && !pair_box_contains(
                                p0,
                                p1,
                                w,
                                h,
                                width,
                                i,
                                j,
                            ) implies pixel_of(data@, w as int, i, j) == pixel_of(
                            pair_start,
                            w as int,
                            i,
                            j,
                        ) by {
                            lemma_seg_coord_mono(p0.x as int, w as int, width, 0, o as int);
                            lemma_seg_coord_mono(p0.x as int, w as int, width, o as int, width as int);
                            lemma_seg_coord_mono(p1.x as int, w as int, width, 0, o as int);
                            lemma_seg_coord_mono(p1.x as int, w as int, width, o as int, width as int);
                            lemma_seg_coord_mono(p0.y as int, h as int, width, 0, o as int);
                            lemma_seg_coord_mono(p0.y as int, h as int, width, o as int, width as int);
                            lemma_seg_coord_mono(p1.y as int, h as int, width, 0, o as int);
                            lemma_seg_coord_mono(p1.y as int, h as int, width, o as int, width as int);
                            assert(!in_segment_box(ax, ay, bx, by, i, j));
                            assert(!in_segment_box(ax2, ay2, bx2, by2, i, j));
                            assert(!in_segment_box(ax3, ay3, bx3, by3, i, j));
                            assert(pixel_of(d1, w as int, i, j) == pixel_of(iter_start, w as int, i, j));
                            assert(pixel_of(d2, w as int, i, j) == pixel_of(d1, w as int, i, j));
                            assert(pixel_of(data@, w as int, i, j) == pixel_of(d2, w as int, i, j));
                        }
                    }
                    o = o + 1;
                }
                proof {
                    assert forall|i: int, j: int|
                        0 <= i < w && 0 <= j < h && !pairs_box_contains(
                            stroke@.points,
                            width,
                            k as int + 1,
                            w,
                            h,
                            i,
                            j,
                        ) implies pixel_of(data@, w as int, i, j) == pixel_of(
                        stroke_start,
                        w as int,
                        i,
                        j,
                    ) by {
                        lemma_pairs_box_extend(stroke@.points, width, k as int, w, h, i, j);
                        assert(pixel_of(data@, w as int, i, j) == pixel_of(
                            pair_start,
                            w as int,
                            i,
                            j,
                        ));
                        assert(pixel_of(pair_start, w as int, i, j) == pixel_of(
                            stroke_start,
                            w as int,
                            i,
                            j,
                        ));
                    }
                }
                k = k + 1;
            }
            proof {
                assert(data@ == draw_stroke(stroke_start, w, h, stroke@));
                assert forall|i: int, j: int|
                    0 <= i < w && 0 <= j < h && !stroke_box_contains(
                        stroke@,
                        w,
                        h,
                        i,
                        j,
                    ) implies pixel_of(data@, w as int, i, j) == pixel_of(
                    stroke_start,
                    w as int,
                    i,
                    j,
                ) by {
                    assert(!pairs_box_contains(
                        stroke@.points,
                        width,
                        npts as int - 1,
                        w,
                        h,
                        i,
                        j,
                    ));
                }
            }
        } else {
            proof {
                assert(data@ == draw_stroke(stroke_start, w, h, stroke@));
                assert forall|i: int, j: int|
                    0 <= i < w && 0 <= j < h && !stroke_box_contains(
                        stroke@,
                        w,
                        h,
                        i,
                        j,
                    ) implies pixel_of(data@, w as int, i, j) == pixel_of(
                    stroke_start,
                    w as int,
                    i,
                    j,
                ) by {}
            }
        }
        proof {
            assert(strokes_view(strokes@)[s as int] == stroke@);
            assert(data@ == draw_strokes(base.data@, w, h, sv, s as int + 1));
            assert forall|i: int, j: int|
                0 <= i < w && 0 <= j < h && !strokes_box_contains(
                    sv,
                    s as int + 1,
                    w,
                    h,
                    i,
                    j,
                ) implies pixel_of(data@, w as int, i, j) == pixel_of(
                base.data@,
                w as int,
                i,
                j,
            ) by {
                lemma_strokes_box_extend(sv, s as int, w, h, i, j);
                assert(pixel_of(data@, w as int, i, j) == pixel_of(stroke_start, w as int, i, j));
                assert(pixel_of(stroke_start, w as int, i, j) == pixel_of(
                    base.data@,
                    w as int,
                    i,
                    j,
                ));
            }
        }
        s = s + 1;
    }
    Raster { width: w, height: h, data }
}

} // verus!
