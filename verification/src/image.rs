//! Frame preprocessing for the landmark model: crop to the ROI with
//! zero-padding outside the frame, convert BGR to RGB, resize to the
//! model's square input with bilinear interpolation, and normalize the
//! pixel values to roughly `[-1, 1]` on the 16.16 grid.
//!
//! The resulting tensor is channel-first: `size * size` values for R,
//! then G, then B.

use vstd::prelude::*;
use crate::fixed::{bounded, div_t, div_trunc, lemma_div_t_bound, FX_ONE};
use crate::geometry::RoiBox;
use vstd::arithmetic::div_mod::{
    lemma_div_is_ordered, lemma_div_multiples_vanish, lemma_div_pos_is_pos,
    lemma_fundamental_div_mod, lemma_mod_bound,
};

verus! {

/// Largest frame side length the preprocessor accepts.
pub const MAX_DIM: usize = 4096;

/// A captured frame: an interleaved 3-channel (BGR) pixel buffer.
pub struct Frame {
    /// Width in pixels.
    pub width: usize,
    /// Height in pixels.
    pub height: usize,
    /// Interleaved pixel data, `3 * width * height` bytes.
    pub data: Vec<u8>,
}

impl Frame {
    /// The buffer matches the declared dimensions.
    pub open spec fn wf(self) -> bool {
        &&& 1 <= self.width <= MAX_DIM
        &&& 1 <= self.height <= MAX_DIM
        &&& self.data@.len() == 3 * self.width * self.height
    }

    /// The channel `ch` value at pixel `(x, y)`, zero outside the frame.
    pub open spec fn sample_spec(self, x: int, y: int, ch: int) -> u8 {
        if 0 <= x < self.width && 0 <= y < self.height {
            self.data@[(y * self.width + x) * 3 + ch]
        } else {
            0
        }
    }

    /// Builds a frame, checking the buffer length against the
    /// dimensions.
    pub fn new(width: usize, height: usize, data: Vec<u8>) -> (r: Option<Frame>)
        ensures
            r is Some <==> {
                &&& 1 <= width <= MAX_DIM
                &&& 1 <= height <= MAX_DIM
                &&& data@.len() == 3 * width * height
            },
            r is Some ==> {
                let f = r->0;
                &&& f.width == width
                &&& f.height == height
                &&& f.data@ == data@
                &&& f.wf()
            },
    {
        if width < 1 || width > MAX_DIM || height < 1 || height > MAX_DIM {
            return None;
        }
        proof {
            assert(3 * width * height <= 0x3000_0000) by (nonlinear_arith)
                requires
                    width <= 4096,
                    height <= 4096,
            ;
        }
        if data.len() != 3 * width * height {
            return None;
        }
        Some(Frame { width, height, data })
    }
}

/// Fetches one channel value with zero-padding outside the frame.
fn sample(frame: &Frame, x: i64, y: i64, ch: usize) -> (v: u8)
    requires
        frame.wf(),
        ch < 3,
        bounded(x as int, 0x1_0000_0000),
        bounded(y as int, 0x1_0000_0000),
    ensures
        v == frame.sample_spec(x as int, y as int, ch as int),
{
    if x < 0 || y < 0 {
        return 0;
    }
    if x >= frame.width as i64 || y >= frame.height as i64 {
        return 0;
    }
    let xu = x as usize;
    let yu = y as usize;
    proof {
        assert(yu * frame.width + xu < frame.width * frame.height && (yu * frame.width + xu) * 3
            + ch < 3 * (frame.width * frame.height) && frame.width * frame.height <= 0x100_0000
            && 3 * (frame.width * frame.height) == 3 * frame.width * frame.height)
            by (nonlinear_arith)
            requires
                xu < frame.width,
                yu < frame.height,
                frame.width <= 4096,
                frame.height <= 4096,
                ch < 3,
        ;
    }
    frame.data[(yu * frame.width + xu) * 3 + ch]
}

/// The whole-pixel part of a fixed-point coordinate: the floor.
pub open spec fn floor_fx(a: int) -> int {
    a / (FX_ONE as int)
}

/// The fractional part of a fixed-point coordinate, in `[0, FX_ONE)`.
pub open spec fn frac_fx(a: int) -> int {
    a % (FX_ONE as int)
}

/// Splits a fixed-point coordinate into floor and fraction.
fn split_fx(a: i64) -> (r: (i64, i64))
    requires
        bounded(a as int, 0x1000_0000_0000),
    ensures
        r.0 as int == floor_fx(a as int),
        r.1 as int == frac_fx(a as int),
        0 <= r.1 < FX_ONE,
        bounded(r.0 as int, 0x1_0000_0000),
{
    proof {
        lemma_fundamental_div_mod(a as int, FX_ONE as int);
        lemma_mod_bound(a as int, FX_ONE as int);
        if a >= 0 {
            lemma_div_pos_is_pos(a as int, FX_ONE as int);
            lemma_div_is_ordered(a as int, 0x1000_0000_0000, FX_ONE as int);
            assert(0x1000_0000_0000int / (FX_ONE as int) == 0x1000_0000);
        } else {
            lemma_div_is_ordered(-0x1000_0000_0000, a as int, FX_ONE as int);
            assert((-0x1000_0000_0000int) / (FX_ONE as int) == -0x1000_0000);
            lemma_div_is_ordered(a as int, 0, FX_ONE as int);
            assert(0int / (FX_ONE as int) == 0);
        }
    }
    let q: i64;
    if a >= 0 {
        q = div_trunc(a as i128, FX_ONE as i128) as i64;
    } else {
        let n: i64 = -a;
        let t: i64 = div_trunc(n as i128, FX_ONE as i128) as i64;
        let m: i64 = n - t * FX_ONE;
        if m == 0 {
            q = -t;
        } else {
            q = -t - 1;
        }
        proof {
            lemma_fundamental_div_mod(n as int, FX_ONE as int);
            lemma_mod_bound(n as int, FX_ONE as int);
            assert(m as int == (n as int) % (FX_ONE as int));
            if m == 0 {
                vstd::arithmetic::div_mod::lemma_fundamental_div_mod_converse(
                    a as int,
                    FX_ONE as int,
                    -(t as int),
                    0,
                );
            } else {
                vstd::arithmetic::div_mod::lemma_fundamental_div_mod_converse(
                    a as int,
                    FX_ONE as int,
                    -(t as int) - 1,
                    FX_ONE - (m as int),
                );
            }
        }
    }
    let f: i64 = a - q * FX_ONE;
    (q, f)
}

/// The fixed-point source coordinate that output position `d` maps to,
/// along an axis whose ROI spans `lo .. hi`.
pub open spec fn src_coord_spec(lo: int, hi: int, size: int, d: int) -> int {
    lo + div_t(d * (hi - lo), size)
}

/// The bilinearly interpolated channel value at output position
/// `(dx, dy)`, on the 16.16 grid, in `[0, 255 * FX_ONE]`.
pub open spec fn blend_spec(frame: Frame, roi: RoiBox, size: int, ch: int, dy: int, dx: int)
    -> int {
    let sx = src_coord_spec(roi.x0 as int, roi.x1 as int, size, dx);
    let sy = src_coord_spec(roi.y0 as int, roi.y1 as int, size, dy);
    let x0 = floor_fx(sx);
    let y0 = floor_fx(sy);
    let fx = frac_fx(sx);
    let fy = frac_fx(sy);
    let p00 = frame.sample_spec(x0, y0, ch) as int;
    let p01 = frame.sample_spec(x0 + 1, y0, ch) as int;
    let p10 = frame.sample_spec(x0, y0 + 1, ch) as int;
    let p11 = frame.sample_spec(x0 + 1, y0 + 1, ch) as int;
    let h0 = p00 * (FX_ONE - fx) + p01 * fx;
    let h1 = p10 * (FX_ONE - fx) + p11 * fx;
    div_t(h0 * (FX_ONE - fy) + h1 * fy, FX_ONE as int)
}

/// The normalized tensor value at output position `(dx, dy)` of RGB
/// channel `c`: the interpolated pixel mapped through
/// `(v - 127.5) / 128`, on the 16.16 grid.  The R channel reads the
/// frame's third interleaved channel and vice versa.
pub open spec fn tensor_spec(frame: Frame, roi: RoiBox, size: int, c: int, dy: int, dx: int)
    -> int {
    div_t(2 * blend_spec(frame, roi, size, 2 - c, dy, dx) - 255 * FX_ONE, 256)
}

/// One bilinear blend, executable.
fn blend(frame: &Frame, roi: &RoiBox, size: i64, ch: usize, dy: i64, dx: i64) -> (v: i64)
    requires
        frame.wf(),
        ch < 3,
        64 <= size <= 1024,
        0 <= dx < size,
        0 <= dy < size,
        bounded(roi.x0 as int, 0x4_0000_0000),
        bounded(roi.y0 as int, 0x4_0000_0000),
        bounded(roi.x1 as int, 0x4_0000_0000),
        bounded(roi.y1 as int, 0x4_0000_0000),
    ensures
        v as int == blend_spec(*frame, *roi, size as int, ch as int, dy as int, dx as int),
        0 <= v <= 255 * FX_ONE,
{
    proof {
        assert(bounded(dx as int * ((roi.x1 - roi.x0) as int), 1024int * 0x8_0000_0000))
            by (nonlinear_arith)
            requires
                0 <= dx < 1024,
                bounded((roi.x1 - roi.x0) as int, 0x8_0000_0000),
        ;
        lemma_div_t_bound(dx as int * ((roi.x1 - roi.x0) as int), size as int, 0x80_0000_0000);
        assert(bounded(dy as int * ((roi.y1 - roi.y0) as int), 1024int * 0x8_0000_0000))
            by (nonlinear_arith)
            requires
                0 <= dy < 1024,
                bounded((roi.y1 - roi.y0) as int, 0x8_0000_0000),
        ;
        lemma_div_t_bound(dy as int * ((roi.y1 - roi.y0) as int), size as int, 0x80_0000_0000);
    }
    let sx: i64 = roi.x0 + div_trunc(
        (dx as i128) * ((roi.x1 - roi.x0) as i128),
        size as i128,
    ) as i64;
    let sy: i64 = roi.y0 + div_trunc(
        (dy as i128) * ((roi.y1 - roi.y0) as i128),
        size as i128,
    ) as i64;
    let (x0, fx) = split_fx(sx);
    let (y0, fy) = split_fx(sy);
    let p00: i64 = sample(frame, x0, y0, ch) as i64;
    let p01: i64 = sample(frame, x0 + 1, y0, ch) as i64;
    let p10: i64 = sample(frame, x0, y0 + 1, ch) as i64;
    let p11: i64 = sample(frame, x0 + 1, y0 + 1, ch) as i64;
    proof {
        lemma_blend_range(p00 as int, p01 as int, fx as int);
        lemma_blend_range(p10 as int, p11 as int, fx as int);
    }
    let h0: i64 = p00 * (FX_ONE - fx) + p01 * fx;
    let h1: i64 = p10 * (FX_ONE - fx) + p11 * fx;
    proof {
        lemma_blend_range_wide(h0 as int, h1 as int, fy as int);
        lemma_div_t_bound(
            h0 as int * ((FX_ONE - fy) as int) + h1 as int * (fy as int),
            FX_ONE as int,
            255 * FX_ONE as int,
        );
        lemma_div_pos_is_pos(
            h0 as int * ((FX_ONE - fy) as int) + h1 as int * (fy as int),
            FX_ONE as int,
        );
    }
    let t: i128 = (h0 as i128) * ((FX_ONE - fy) as i128) + (h1 as i128) * (fy as i128);
    div_trunc(t, FX_ONE as i128) as i64
}

/// A convex blend of two byte values with fixed-point weights stays in
/// `[0, 255 * FX_ONE]`.
proof fn lemma_blend_range(a: int, b: int, f: int)
    requires
        0 <= a <= 255,
        0 <= b <= 255,
        0 <= f < FX_ONE,
    ensures
        0 <= a * (FX_ONE - f) + b * f <= 255 * FX_ONE,
{
    assert(0 <= a * (FX_ONE - f) + b * f <= 255 * FX_ONE) by (nonlinear_arith)
        requires
            0 <= a <= 255,
            0 <= b <= 255,
            0 <= f < FX_ONE,
    ;
}

/// The same for the second, already-scaled blending stage.
proof fn lemma_blend_range_wide(a: int, b: int, f: int)
    requires
        0 <= a <= 255 * FX_ONE,
        0 <= b <= 255 * FX_ONE,
        0 <= f < FX_ONE,
    ensures
        0 <= a * (FX_ONE - f) + b * f <= 255 * FX_ONE * FX_ONE,
{
    assert(0 <= a * (FX_ONE - f) + b * f <= 255 * (FX_ONE as int) * (FX_ONE as int))
        by (nonlinear_arith)
        requires
            0 <= a <= 255 * FX_ONE,
            0 <= b <= 255 * FX_ONE,
            0 <= f < FX_ONE,
    ;
}

/// Crops the frame to the ROI (zero-padded outside), converts BGR to RGB,
/// resizes to the model's square input with bilinear interpolation, and
/// normalizes each value through `(v - 127.5) / 128`.
///
/// The tensor is channel-first: element `c * size * size + dy * size +
/// dx` is channel `c` at output position `(dx, dy)`, on the 16.16 grid,
/// within `[-255/256, 255/256]`.
pub fn preprocess(frame: &Frame, roi: &RoiBox, size: i64) -> (t: Vec<i64>)
    requires
        frame.wf(),
        64 <= size <= 1024,
        bounded(roi.x0 as int, 0x4_0000_0000),
        bounded(roi.y0 as int, 0x4_0000_0000),
        bounded(roi.x1 as int, 0x4_0000_0000),
        bounded(roi.y1 as int, 0x4_0000_0000),
    ensures
        t@.len() == 3 * size * size,
        forall|c: int, dy: int, dx: int|
            0 <= c < 3 && 0 <= dy < size && 0 <= dx < size ==> #[trigger] t@[c * size * size + dy
                * size + dx] as int == tensor_spec(*frame, *roi, size as int, c, dy, dx),
        forall|i: int| 0 <= i < t@.len() ==> bounded(#[trigger] t@[i] as int, 65280),
{
    let mut t: Vec<i64> = Vec::new();
    let mut c: usize = 0;
    let sz = size as usize;
    while c < 3
        invariant
            frame.wf(),
            64 <= size <= 1024,
            sz == size,
            bounded(roi.x0 as int, 0x4_0000_0000),
            bounded(roi.y0 as int, 0x4_0000_0000),
            bounded(roi.x1 as int, 0x4_0000_0000),
            bounded(roi.y1 as int, 0x4_0000_0000),
            0 <= c <= 3,
            t@.len() == c * size * size,
            forall|cc: int, dy: int, dx: int|
                0 <= cc < c && 0 <= dy < size && 0 <= dx < size ==> #[trigger] t@[cc * size * size
                    + dy * size + dx] as int == tensor_spec(
                    *frame,
                    *roi,
                    size as int,
                    cc,
                    dy,
                    dx,
                ),
            forall|i: int| 0 <= i < t@.len() ==> bounded(#[trigger] t@[i] as int, 65280),
        decreases 3 - c,
    {
        let bgr_ch: usize = 2 - c;
        let mut dy: usize = 0;
        while dy < sz
            invariant
                frame.wf(),
                64 <= size <= 1024,
                sz == size,
                bounded(roi.x0 as int, 0x4_0000_0000),
                bounded(roi.y0 as int, 0x4_0000_0000),
                bounded(roi.x1 as int, 0x4_0000_0000),
                bounded(roi.y1 as int, 0x4_0000_0000),
                0 <= c < 3,
                bgr_ch == 2 - c,
                0 <= dy <= sz,
                t@.len() == c * size * size + dy * size,
                forall|cc: int, yy: int, dx: int|
                    0 <= cc < c && 0 <= yy < size && 0 <= dx < size ==> #[trigger] t@[cc * size
                        * size + yy * size + dx] as int == tensor_spec(
                        *frame,
                        *roi,
                        size as int,
                        cc,
                        yy,
                        dx,
                    ),
                forall|yy: int, dx: int|
                    0 <= yy < dy && 0 <= dx < size ==> #[trigger] t@[c * size * size + yy * size
                        + dx] as int == tensor_spec(*frame, *roi, size as int, c as int, yy, dx),
                forall|i: int| 0 <= i < t@.len() ==> bounded(#[trigger] t@[i] as int, 65280),
            decreases sz - dy,
        {
            let mut dx: usize = 0;
            while dx < sz
                invariant
                    frame.wf(),
                    64 <= size <= 1024,
                    sz == size,
                    bounded(roi.x0 as int, 0x4_0000_0000),
                    bounded(roi.y0 as int, 0x4_0000_0000),
                    bounded(roi.x1 as int, 0x4_0000_0000),
                    bounded(roi.y1 as int, 0x4_0000_0000),
                    0 <= c < 3,
                    bgr_ch == 2 - c,
                    0 <= dy < sz,
                    0 <= dx <= sz,
                    t@.len() == c * size * size + dy * size + dx,
                    forall|cc: int, yy: int, xx: int|
                        0 <= cc < c && 0 <= yy < size && 0 <= xx < size ==> #[trigger] t@[cc * size
                            * size + yy * size + xx] as int == tensor_spec(
                            *frame,
                            *roi,
                            size as int,
                            cc,
                            yy,
                            xx,
                        ),
                    forall|yy: int, xx: int|
                        0 <= yy < dy && 0 <= xx < size ==> #[trigger] t@[c * size * size + yy
                            * size + xx] as int == tensor_spec(
                            *frame,
                            *roi,
                            size as int,
                            c as int,
                            yy,
                            xx,
                        ),
                    forall|xx: int|
                        0 <= xx < dx ==> #[trigger] t@[c * size * size + dy * size + xx] as int
                            == tensor_spec(*frame, *roi, size as int, c as int, dy as int, xx),
                    forall|i: int| 0 <= i < t@.len() ==> bounded(#[trigger] t@[i] as int, 65280),
                decreases sz - dx,
            {
                let v: i64 = blend(frame, roi, size, bgr_ch, dy as i64, dx as i64);
                proof {
                    lemma_div_t_bound(2 * (v as int) - 255 * (FX_ONE as int), 256, 65280);
                }
                let n: i64 = div_trunc((2 * v - 255 * FX_ONE) as i128, 256) as i64;
                t.push(n);
                proof {
                    let ci = c as int;
                    let dyi = dy as int;
                    let dxi = dx as int;
                    let szi = size as int;
                    let base = ci * szi * szi + dyi * szi + dxi;
                    assert(t@.len() == base + 1);
                    assert(t@[base] == n);
                    assert forall|cc: int, yy: int, xx: int|
                        0 <= cc < ci && 0 <= yy < szi && 0 <= xx < szi implies #[trigger] t@[cc
                        * szi * szi + yy * szi + xx] as int == tensor_spec(
                        *frame,
                        *roi,
                        szi,
                        cc,
                        yy,
                        xx,
                    ) by {
                        assert(0 <= cc * szi * szi + yy * szi + xx < base) by (nonlinear_arith)
                            requires
                                0 <= cc < ci,
                                0 <= yy < szi,
                                0 <= xx < szi,
                                0 <= dyi,
                                0 <= dxi,
                                1 <= szi,
                                base == ci * szi * szi + dyi * szi + dxi,
                        ;
                    }
                    assert forall|yy: int, xx: int|
                        0 <= yy < dyi && 0 <= xx < szi implies #[trigger] t@[ci * szi * szi + yy
                        * szi + xx] as int == tensor_spec(*frame, *roi, szi, ci, yy, xx) by {
                        assert(0 <= ci * szi * szi + yy * szi + xx < base) by (nonlinear_arith)
                            requires
                                0 <= yy < dyi,
                                0 <= xx < szi,
                                0 <= ci,
                                0 <= dxi,
                                1 <= szi,
                                base == ci * szi * szi + dyi * szi + dxi,
                        ;
                    }
                    assert forall|xx: int| 0 <= xx < dxi + 1 implies #[trigger] t@[ci * szi * szi
                        + dyi * szi + xx] as int == tensor_spec(*frame, *roi, szi, ci, dyi, xx)
                        by {
                        assert(0 <= ci * szi * szi + dyi * szi + xx <= base) by (nonlinear_arith)
                            requires
                                0 <= xx <= dxi,
                                0 <= ci,
                                0 <= dyi,
                                1 <= szi,
                                base == ci * szi * szi + dyi * szi + dxi,
                        ;
                    }
                }
                dx = dx + 1;
            }
            proof {
                assert((dy as int + 1) * (size as int) == dy as int * (size as int) + size as int)
                    by (nonlinear_arith);
            }
            dy = dy + 1;
        }
        proof {
            assert((c as int + 1) * (size as int) * (size as int) == c as int * (size as int) * (
            size as int) + (size as int) * (size as int)) by (nonlinear_arith);
        }
        c = c + 1;
    }
    t
}

} // verus!
