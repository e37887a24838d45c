//! The raster: an owned RGBA pixel buffer with its dimensions.
//!
//! Pixels are stored row-major, four bytes per pixel. `pixel_of` is the
//! mathematical view of one pixel of such a buffer; every operation on
//! rasters is specified pixel by pixel through it.

use vstd::prelude::*;
use crate::transform::MAX_DIM;

verus! {

/// Largest number of pixels a raster may hold (so byte counts fit `usize`
/// even on 32-bit machines).
pub const MAX_PIXELS: i64 = 268_435_456;

/// One RGBA color value.
#[derive(Clone, Copy, Debug, PartialEq, Eq, Structural)]
pub struct Rgba {
    pub r: u8,
    pub g: u8,
    pub b: u8,
    pub a: u8,
}

/// Byte index of the first channel of pixel `(x, y)` in a row-major RGBA
/// buffer of width `w`.
pub open spec fn pixel_index(w: int, x: int, y: int) -> int {
    4 * (y * w + x)
}

/// Channel `t` (0 = red, 1 = green, 2 = blue, 3 = alpha) of a color.
pub open spec fn channel_spec(c: Rgba, t: int) -> u8 {
    if t == 0 {
        c.r
    } else if t == 1 {
        c.g
    } else if t == 2 {
        c.b
    } else {
        c.a
    }
}

/// The pixel `(x, y)` of a row-major RGBA byte buffer of width `w`.
pub open spec fn pixel_of(data: Seq<u8>, w: int, x: int, y: int) -> Rgba {
    Rgba {
        r: data[pixel_index(w, x, y)],
        g: data[pixel_index(w, x, y) + 1],
        b: data[pixel_index(w, x, y) + 2],
        a: data[pixel_index(w, x, y) + 3],
    }
}

/// An owned RGBA image.
pub struct Raster {
    pub width: u32,
    pub height: u32,
    pub data: Vec<u8>,
}

impl Raster {
    /// Well-formedness: bounded dimensions and a buffer of exactly
    /// `4 * width * height` bytes.
    pub open spec fn wf(self) -> bool {
        &&& self.width as int <= MAX_DIM as int
        &&& self.height as int <= MAX_DIM as int
        &&& self.width as int * self.height as int <= MAX_PIXELS as int
        &&& self.data@.len() == 4 * (self.width as int * self.height as int)
    }

    /// The pixel `(x, y)` of this raster.
    pub open spec fn spec_pixel(self, x: int, y: int) -> Rgba {
        pixel_of(self.data@, self.width as int, x, y)
    }
}

/// The four byte indices of pixel `(x, y)` lie inside a `w` by `h` buffer.
pub proof fn lemma_pixel_index_bound(w: int, h: int, x: int, y: int)
    requires
        0 <= x < w,
        0 <= y < h,
    ensures
        0 <= pixel_index(w, x, y),
        pixel_index(w, x, y) + 4 <= 4 * (w * h),
        y * w + x < w * h,
{
    assert(0 <= y * w + x && y * w + x < w * h) by (nonlinear_arith)
        requires
            0 <= x < w,
            0 <= y < h,
    ;
}

/// Two distinct pixels occupy disjoint byte ranges.
pub proof fn lemma_pixel_index_disjoint(w: int, x1: int, y1: int, x2: int, y2: int)
    requires
        0 <= x1 < w,
        0 <= x2 < w,
        0 <= y1,
        0 <= y2,
        !(x1 == x2 && y1 == y2),
    ensures
        pixel_index(w, x1, y1) + 4 <= pixel_index(w, x2, y2)
            || pixel_index(w, x2, y2) + 4 <= pixel_index(w, x1, y1),
{
    assert(y1 * w + x1 + 1 <= y2 * w + x2 || y2 * w + x2 + 1 <= y1 * w + x1)
        by (nonlinear_arith)
        requires
            0 <= x1 < w,
            0 <= x2 < w,
            0 <= y1,
            0 <= y2,
            !(x1 == x2 && y1 == y2),
    ;
}

impl Raster {
    /// A raster of the given size with every pixel set to `color`.
    pub fn new_filled(width: u32, height: u32, color: Rgba) -> (r: Raster)
        requires
            width as int <= MAX_DIM as int,
            height as int <= MAX_DIM as int,
            width as int * height as int <= MAX_PIXELS as int,
        ensures
            r.wf(),
            r.width == width,
            r.height == height,
            forall|x: int, y: int|
                0 <= x < width && 0 <= y < height ==> r.spec_pixel(x, y) == color,
    {
        let total: u64 = (width as u64) * (height as u64);
        let mut data: Vec<u8> = Vec::new();
        let mut k: u64 = 0;
        while k < total
            invariant
                k <= total,
                total == width as int * height as int,
                total <= MAX_PIXELS as int,
                data@.len() == 4 * k,
                forall|i: int|
                    0 <= i < data@.len() ==> data@[i] == channel_spec(color, i % 4),
            decreases total - k,
        {
            data.push(color.r);
            data.push(color.g);
            data.push(color.b);
            data.push(color.a);
            k = k + 1;
        }
        let r = Raster { width, height, data };
        proof {
            assert forall|x: int, y: int|
                0 <= x < width && 0 <= y < height implies r.spec_pixel(x, y) == color by {
                lemma_pixel_index_bound(width as int, height as int, x, y);
                let idx = pixel_index(width as int, x, y);
                assert(idx % 4 == 0 && (idx + 1) % 4 == 1 && (idx + 2) % 4 == 2 && (idx + 3) % 4
                    == 3) by (nonlinear_arith)
                    requires
                        idx == 4 * (y * (width as int) + x),
                        0 <= y * (width as int) + x,
                ;
            }
        }
        r
    }

    /// Read pixel `(x, y)`.
    pub fn get_pixel(&self, x: u32, y: u32) -> (c: Rgba)
        requires
            self.wf(),
            x < self.width,
            y < self.height,
        ensures
            c == self.spec_pixel(x as int, y as int),
    {
        proof {
            lemma_pixel_index_bound(self.width as int, self.height as int, x as int, y as int);
        }
        let idx: usize = 4 * ((y as usize) * (self.width as usize) + (x as usize));
        Rgba {
            r: self.data[idx],
            g: self.data[idx + 1],
            b: self.data[idx + 2],
            a: self.data[idx + 3],
        }
    }

    /// Overwrite pixel `(x, y)` with `color`; every other pixel keeps its
    /// value.
    pub fn set_pixel(&mut self, x: u32, y: u32, color: Rgba)
        requires
            old(self).wf(),
            x < old(self).width,
            y < old(self).height,
        ensures
            final(self).wf(),
            final(self).width == old(self).width,
            final(self).height == old(self).height,
            final(self).spec_pixel(x as int, y as int) == color,
            forall|i: int, j: int|
                0 <= i < old(self).width && 0 <= j < old(self).height && !(i == x as int && j
                    == y as int) ==> final(self).spec_pixel(i, j) == old(self).spec_pixel(i, j),
    {
        proof {
            lemma_pixel_index_bound(self.width as int, self.height as int, x as int, y as int);
        }
        let idx: usize = 4 * ((y as usize) * (self.width as usize) + (x as usize));
        self.data[idx] = color.r;
        self.data[idx + 1] = color.g;
        self.data[idx + 2] = color.b;
        self.data[idx + 3] = color.a;
        proof {
            assert forall|i: int, j: int|
                0 <= i < self.width && 0 <= j < self.height && !(i == x as int && j
                    == y as int) implies self.spec_pixel(i, j) == old(self).spec_pixel(i, j) by {
                lemma_pixel_index_disjoint(self.width as int, i, j, x as int, y as int);
                lemma_pixel_index_bound(self.width as int, self.height as int, i, j);
            }
        }
    }
}

/// A completed pixel's bytes lie strictly before the pixel being written
/// when the buffer is built row-major.
pub proof fn lemma_pixel_index_before(w: int, x: int, y: int, x2: int, y2: int)
    requires
        0 <= x2 < w,
        0 <= y2,
        0 <= x,
        y2 < y || (y2 == y && x2 < x),
    ensures
        pixel_index(w, x2, y2) + 4 <= pixel_index(w, x, y),
{
    assert(y2 * w + x2 + 1 <= y * w + x) by (nonlinear_arith)
        requires
            0 <= x2 < w,
            0 <= y2,
            0 <= x,
            y2 < y || (y2 == y && x2 < x),
    ;
}

impl Raster {
    /// Nearest-neighbor resampling to a `dw` by `dh` raster: destination
    /// pixel `(i, j)` takes the source pixel `(i*sw/dw, j*sh/dh)`.
    pub fn resample_nearest(&self, dw: u32, dh: u32) -> (r: Raster)
        requires
            self.wf(),
            1 <= self.width,
            1 <= self.height,
            1 <= dw,
            dw as int <= MAX_DIM as int,
            1 <= dh,
            dh as int <= MAX_DIM as int,
            dw as int * dh as int <= MAX_PIXELS as int,
        ensures
            r.wf(),
            r.width == dw,
            r.height == dh,
            forall|i: int, j: int|
                0 <= i < dw && 0 <= j < dh ==> r.spec_pixel(i, j) == self.spec_pixel(
                    (i * self.width as int) / (dw as int),
                    (j * self.height as int) / (dh as int),
                ),
    {
        let sw = self.width;
        let sh = self.height;
        let mut data: Vec<u8> = Vec::new();
        let mut j: u32 = 0;
        while j < dh
            invariant
                self.wf(),
                sw == self.width,
                sh == self.height,
                1 <= sw,
                1 <= sh,
                1 <= dw,
                dw as int <= MAX_DIM as int,
                1 <= dh,
                dh as int <= MAX_DIM as int,
                dw as int * dh as int <= MAX_PIXELS as int,
                j <= dh,
                data@.len() == 4 * (j as int * dw as int),
                forall|i2: int, j2: int|
                    0 <= i2 < dw && 0 <= j2 < j ==> pixel_of(data@, dw as int, i2, j2)
                        == self.spec_pixel(
                        (i2 * sw as int) / (dw as int),
                        (j2 * sh as int) / (dh as int),
                    ),
            decreases dh - j,
        {
            let mut i: u32 = 0;
            while i < dw
                invariant
                    self.wf(),
                    sw == self.width,
                    sh == self.height,
                    1 <= sw,
                    1 <= sh,
                    1 <= dw,
                    dw as int <= MAX_DIM as int,
                    1 <= dh,
                    dh as int <= MAX_DIM as int,
                    dw as int * dh as int <= MAX_PIXELS as int,
                    j < dh,
                    i <= dw,
                    data@.len() == 4 * (j as int * dw as int + i as int),
                    forall|i2: int, j2: int|
                        (0 <= i2 < dw && 0 <= j2 < j) || (j2 == j as int && 0 <= i2 < i)
                            ==> pixel_of(data@, dw as int, i2, j2) == self.spec_pixel(
                            (i2 * sw as int) / (dw as int),
                            (j2 * sh as int) / (dh as int),
                        ),
                decreases dw - i,
            {
                proof {
                    assert((i as int) * (sw as int) < (dw as int) * (sw as int) && 0 <= (
                    i as int) * (sw as int) && (dw as int) * (sw as int) <= 10_000_000_000)
                        by (nonlinear_arith)
                        requires
                            0 <= (i as int) < (dw as int),
                            1 <= sw as int <= 100_000,
                            dw as int <= 100_000,
                    ;
                    assert((j as int) * (sh as int) < (dh as int) * (sh as int) && 0 <= (
                    j as int) * (sh as int) && (dh as int) * (sh as int) <= 10_000_000_000)
                        by (nonlinear_arith)
                        requires
                            0 <= (j as int) < (dh as int),
                            1 <= sh as int <= 100_000,
                            dh as int <= 100_000,
                    ;
                    vstd::arithmetic::div_mod::lemma_multiply_divide_lt(
                        (i as int) * (sw as int),
                        dw as int,
                        sw as int,
                    );
                    vstd::arithmetic::div_mod::lemma_multiply_divide_lt(
                        (j as int) * (sh as int),
                        dh as int,
                        sh as int,
                    );
                    vstd::arithmetic::div_mod::lemma_div_pos_is_pos(
                        (i as int) * (sw as int),
                        dw as int,
                    );
                    vstd::arithmetic::div_mod::lemma_div_pos_is_pos(
                        (j as int) * (sh as int),
                        dh as int,
                    );
                }
                let prod_x: u64 = (i as u64) * (sw as u64);
                let prod_y: u64 = (j as u64) * (sh as u64);
                proof {
                    assert(prod_x == (i as int) * (sw as int));
                    assert(prod_y == (j as int) * (sh as int));
                }
                let qx: u64 = prod_x / (dw as u64);
                let qy: u64 = prod_y / (dh as u64);
                proof {
                    assert(qx == ((i as int) * (sw as int)) / (dw as int));
                    assert(qy == ((j as int) * (sh as int)) / (dh as int));
                    assert(qx < sw && qy < sh);
                }
                let sx: u32 = qx as u32;
                let sy: u32 = qy as u32;
                let c = self.get_pixel(sx, sy);
                let ghost before = data@;
                data.push(c.r);
                data.push(c.g);
                data.push(c.b);
                data.push(c.a);
                proof {
                    let gl = before.len() as int;
                    assert(gl == pixel_index(dw as int, i as int, j as int));
                    assert(data@.len() == gl + 4);
                    assert(data@[gl] == c.r && data@[gl + 1] == c.g && data@[gl + 2] == c.b
                        && data@[gl + 3] == c.a);
                    assert forall|k: int| 0 <= k < gl implies data@[k] == before[k] by {}
                    assert(pixel_of(data@, dw as int, i as int, j as int) == c);
                    assert forall|i2: int, j2: int|
                        (0 <= i2 < dw && 0 <= j2 < j) || (j2 == j as int && 0 <= i2 < i
                            + 1) implies pixel_of(data@, dw as int, i2, j2) == self.spec_pixel(
                        (i2 * sw as int) / (dw as int),
                        (j2 * sh as int) / (dh as int),
                    ) by {
                        if j2 == j as int && i2 == i as int {
                            assert(pixel_of(data@, dw as int, i2, j2) == c);
                        } else {
                            lemma_pixel_index_before(dw as int, i as int, j as int, i2, j2);
                            assert(pixel_of(data@, dw as int, i2, j2) == pixel_of(
                                before,
                                dw as int,
                                i2,
                                j2,
                            ));
                            assert(pixel_of(before, dw as int, i2, j2) == self.spec_pixel(
                                (i2 * sw as int) / (dw as int),
                                (j2 * sh as int) / (dh as int),
                            ));
                        }
                    }
                }
                i = i + 1;
            }
            proof {
                assert((j as int) * (dw as int) + (dw as int) == (j as int + 1) * (
                dw as int)) by (nonlinear_arith);
            }
            j = j + 1;
        }
        proof {
            assert((dh as int) * (dw as int) == (dw as int) * (dh as int)) by (nonlinear_arith);
        }
        let r = Raster { width: dw, height: dh, data };
        r
    }
}

/// Relies on `image::imageops::crop_imm` and `image::SubImage::to_image`:
/// the result is the `cw` by `ch` sub-image of the source whose top-left
/// corner lies at `(x, y)` in the source.
#[verifier::external_body]
fn crop_pixels(data: &Vec<u8>, w: u32, h: u32, x: u32, y: u32, cw: u32, ch: u32) -> (r: Vec<u8>)
    requires
        data@.len() == 4 * (w as int * h as int),
        x + cw <= w,
        y + ch <= h,
    ensures
        r@.len() == 4 * (cw as int * ch as int),
        forall|i: int, j: int|
            0 <= i < cw && 0 <= j < ch ==> pixel_of(r@, cw as int, i, j) == pixel_of(
                data@,
                w as int,
                x + i,
                y + j,
            ),
{
    let img = image::RgbaImage::from_raw(w, h, data.clone()).unwrap();
    image::imageops::crop_imm(&img, x, y, cw, ch).to_image().into_raw()
}

/// Relies on `image::GenericImage::copy_from`: all pixels of the source are
/// copied into the destination with the source's top-left corner placed at
/// `(x, y)`; every destination pixel outside that region keeps its value.
#[verifier::external_body]
fn blit_pixels(dst: &mut Vec<u8>, dw: u32, dh: u32, src: &Vec<u8>, sw: u32, sh: u32, x: u32, y: u32)
    requires
        old(dst)@.len() == 4 * (dw as int * dh as int),
        src@.len() == 4 * (sw as int * sh as int),
        x + sw <= dw,
        y + sh <= dh,
    ensures
        final(dst)@.len() == old(dst)@.len(),
        forall|i: int, j: int|
            0 <= i < sw && 0 <= j < sh ==> pixel_of(final(dst)@, dw as int, x + i, y + j)
                == pixel_of(src@, sw as int, i, j),
        forall|i: int, j: int|
            0 <= i < dw && 0 <= j < dh && !(x <= i < x + sw && y <= j < y + sh) ==> pixel_of(
                final(dst)@,
                dw as int,
                i,
                j,
            ) == pixel_of(old(dst)@, dw as int, i, j),
{
    let buf = std::mem::take(dst);
    let mut d = image::RgbaImage::from_raw(dw, dh, buf).unwrap();
    let s = image::RgbaImage::from_raw(sw, sh, src.clone()).unwrap();
    let _ = image::GenericImage::copy_from(&mut d, &s, x, y);
    *dst = d.into_raw();
}

impl Raster {
    /// The sub-image of this raster with top-left corner `(x, y)` and size
    /// `cw` by `ch` (standard sub-image extraction).
    pub fn crop(&self, x: u32, y: u32, cw: u32, ch: u32) -> (r: Raster)
        requires
            self.wf(),
            x + cw <= self.width,
            y + ch <= self.height,
        ensures
            r.wf(),
            r.width == cw,
            r.height == ch,
            forall|i: int, j: int|
                0 <= i < cw && 0 <= j < ch ==> r.spec_pixel(i, j) == self.spec_pixel(
                    x + i,
                    y + j,
                ),
    {
        proof {
            assert(cw as int * ch as int <= self.width as int * self.height as int)
                by (nonlinear_arith)
                requires
                    0 <= cw <= self.width as int,
                    0 <= ch <= self.height as int,
            ;
        }
        let data = crop_pixels(&self.data, self.width, self.height, x, y, cw, ch);
        Raster { width: cw, height: ch, data }
    }

    /// Copy `src` into this raster with its top-left corner at `(x, y)`;
    /// pixels outside the copied region keep their value.
    pub fn blit(&mut self, src: &Raster, x: u32, y: u32)
        requires
            old(self).wf(),
            src.wf(),
            x + src.width <= old(self).width,
            y + src.height <= old(self).height,
        ensures
            final(self).wf(),
            final(self).width == old(self).width,
            final(self).height == old(self).height,
            forall|i: int, j: int|
                0 <= i < src.width && 0 <= j < src.height ==> final(self).spec_pixel(
                    x + i,
                    y + j,
                ) == src.spec_pixel(i, j),
            forall|i: int, j: int|
                0 <= i < old(self).width && 0 <= j < old(self).height && !(x <= i < x + src.width
                    && y <= j < y + src.height) ==> final(self).spec_pixel(i, j) == old(
                    self,
                ).spec_pixel(i, j),
    {
        let w = self.width;
        let h = self.height;
        blit_pixels(&mut self.data, w, h, &src.data, src.width, src.height, x, y);
    }
}

} // verus!
