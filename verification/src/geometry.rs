//! ROI geometry: deriving the square crop region for the next inference
//! cycle, either from a face bounding box (first cycle of a session) or from
//! the previous cycle's reconstructed landmarks (every later cycle).
//!
//! All coordinates are 16.16 fixed point in source-image space.

use vstd::prelude::*;
use crate::errors::TrackError;
use crate::fixed::{bounded, div_t, div_trunc, fx_mul, lemma_div_t_bound, FX_ONE};

verus! {

/// Margin ratio by which the detected extent is expanded into the crop
/// square (fixed point; stands for about 1.58).
pub const ROI_EXPAND: i64 = 103547;

/// Downward shift of the crop centre as a fraction of the extent size
/// (fixed point; stands for about 0.14).
pub const ROI_CENTER_SHIFT: i64 = 9175;

/// Largest coordinate magnitude the ROI derivation accepts (fixed point).
pub const ROI_COORD_LIM: i64 = 0x10000000;

/// A square crop region in source-image coordinates, `x0 < x1`, `y0 < y1`.
#[derive(Clone, Copy, Debug, PartialEq, Eq, Structural)]
pub struct RoiBox {
    pub x0: i64,
    pub y0: i64,
    pub x1: i64,
    pub y1: i64,
}

/// Mean of width and height of the extent box, rounded toward zero.
pub open spec fn roi_old_size(x0: int, y0: int, x1: int, y1: int) -> int {
    div_t((x1 - x0) + (y1 - y0), 2)
}

/// Side length of the derived crop square: the mean extent expanded by
/// `ROI_EXPAND`.
pub open spec fn roi_pad_size(x0: int, y0: int, x1: int, y1: int) -> int {
    div_t(roi_old_size(x0, y0, x1, y1) * ROI_EXPAND, FX_ONE as int)
}

/// Horizontal centre of the extent box.
pub open spec fn roi_center_x(x0: int, x1: int) -> int {
    x0 + div_t(x1 - x0, 2)
}

/// Vertical centre of the extent box, shifted down by a fixed fraction of
/// the extent size.
pub open spec fn roi_center_y(x0: int, y0: int, x1: int, y1: int) -> int {
    y0 + div_t(y1 - y0, 2) + div_t(roi_old_size(x0, y0, x1, y1) * ROI_CENTER_SHIFT, FX_ONE as int)
}

/// The exact crop square derived from an extent box, when the derivation
/// succeeds.
pub open spec fn roi_spec(x0: int, y0: int, x1: int, y1: int) -> RoiBox {
    let size = roi_pad_size(x0, y0, x1, y1);
    let rx0 = roi_center_x(x0, x1) - div_t(size, 2);
    let ry0 = roi_center_y(x0, y0, x1, y1) - div_t(size, 2);
    RoiBox {
        x0: rx0 as i64,
        y0: ry0 as i64,
        x1: (rx0 + size) as i64,
        y1: (ry0 + size) as i64,
    }
}

/// Derives the square crop region from an extent box.  Succeeds exactly
/// when the padded size is strictly positive; a degenerate extent yields
/// `InvalidRoi` and the calling cycle is skipped.
fn pad_box(x0: i64, y0: i64, x1: i64, y1: i64) -> (r: Result<RoiBox, TrackError>)
    requires
        bounded(x0 as int, ROI_COORD_LIM as int),
        bounded(y0 as int, ROI_COORD_LIM as int),
        bounded(x1 as int, ROI_COORD_LIM as int),
        bounded(y1 as int, ROI_COORD_LIM as int),
    ensures
        r is Ok <==> roi_pad_size(x0 as int, y0 as int, x1 as int, y1 as int) > 0,
        r is Ok ==> r->Ok_0 == roi_spec(x0 as int, y0 as int, x1 as int, y1 as int),
        r is Err ==> r->Err_0 == TrackError::InvalidRoi,
{
    let ghost gx0 = x0 as int;
    let ghost gy0 = y0 as int;
    let ghost gx1 = x1 as int;
    let ghost gy1 = y1 as int;
    let extent: i64 = (x1 - x0) + (y1 - y0);
    let old_size: i64 = div_trunc(extent as i128, 2) as i64;
    proof {
        lemma_div_t_bound(extent as int, 2, 2 * ROI_COORD_LIM as int);
        assert(old_size as int == roi_old_size(gx0, gy0, gx1, gy1));
    }
    let size: i64 = fx_mul(old_size, ROI_EXPAND);
    proof {
        lemma_div_t_bound(
            old_size as int * (ROI_EXPAND as int),
            FX_ONE as int,
            0x80000000000,
        );
        assert(bounded(old_size as int * (ROI_EXPAND as int), 0x80000000000 * (FX_ONE as int)))
            by (nonlinear_arith)
            requires
                bounded(old_size as int, 0x20000000),
        ;
    }
    if size <= 0 {
        return Err(TrackError::InvalidRoi);
    }
    let shift: i64 = fx_mul(old_size, ROI_CENTER_SHIFT);
    proof {
        lemma_div_t_bound(
            old_size as int * (ROI_CENTER_SHIFT as int),
            FX_ONE as int,
            0x8000000000,
        );
        assert(bounded(old_size as int * (ROI_CENTER_SHIFT as int), 0x8000000000 * (FX_ONE as int)))
            by (nonlinear_arith)
            requires
                bounded(old_size as int, 0x20000000),
        ;
    }
    let half: i64 = div_trunc(size as i128, 2) as i64;
    proof {
        lemma_div_t_bound(size as int, 2, 0x80000000000);
    }
    let wx: i64 = x1 - x0;
    let wy: i64 = y1 - y0;
    let cx: i64 = x0 + div_trunc(wx as i128, 2) as i64;
    let cy0: i64 = y0 + div_trunc(wy as i128, 2) as i64;
    proof {
        lemma_div_t_bound(wx as int, 2, ROI_COORD_LIM as int);
        lemma_div_t_bound(wy as int, 2, ROI_COORD_LIM as int);
    }
    let cy: i64 = cy0 + shift;
    let rx0: i64 = cx - half;
    let ry0: i64 = cy - half;
    Ok(RoiBox { x0: rx0, y0: ry0, x1: rx0 + size, y1: ry0 + size })
}

/// The extremes of a non-empty bounded sequence are bounded too.
pub proof fn lemma_seq_extremes_bounded(s: Seq<i64>, lim: int)
    requires
        s.len() >= 1,
        0 <= lim,
        forall|i: int| 0 <= i < s.len() ==> bounded(#[trigger] s[i] as int, lim),
    ensures
        bounded(seq_min(s), lim),
        bounded(seq_max(s), lim),
    decreases s.len(),
{
    if s.len() == 1 {
    } else {
        lemma_seq_extremes_bounded(s.drop_last(), lim);
    }
}

/// A crop square derived from a bounded extent box has bounded
/// coordinates itself.
pub proof fn lemma_roi_spec_bounded(x0: int, y0: int, x1: int, y1: int)
    requires
        bounded(x0, ROI_COORD_LIM as int),
        bounded(y0, ROI_COORD_LIM as int),
        bounded(x1, ROI_COORD_LIM as int),
        bounded(y1, ROI_COORD_LIM as int),
    ensures
        bounded(roi_spec(x0, y0, x1, y1).x0 as int, 0x1_0000_0000),
        bounded(roi_spec(x0, y0, x1, y1).y0 as int, 0x1_0000_0000),
        bounded(roi_spec(x0, y0, x1, y1).x1 as int, 0x1_0000_0000),
        bounded(roi_spec(x0, y0, x1, y1).y1 as int, 0x1_0000_0000),
{
    let old_size = roi_old_size(x0, y0, x1, y1);
    lemma_div_t_bound((x1 - x0) + (y1 - y0), 2, 2 * ROI_COORD_LIM as int);
    assert(bounded(old_size * ROI_EXPAND, 0x4000_0000 * (FX_ONE as int))) by (nonlinear_arith)
        requires
            bounded(old_size, 0x2000_0000),
    ;
    lemma_div_t_bound(old_size * ROI_EXPAND, FX_ONE as int, 0x4000_0000);
    assert(bounded(old_size * ROI_CENTER_SHIFT, 0x800_0000 * (FX_ONE as int)))
        by (nonlinear_arith)
        requires
            bounded(old_size, 0x2000_0000),
    ;
    lemma_div_t_bound(old_size * ROI_CENTER_SHIFT, FX_ONE as int, 0x800_0000);
    lemma_div_t_bound(x1 - x0, 2, ROI_COORD_LIM as int);
    lemma_div_t_bound(y1 - y0, 2, ROI_COORD_LIM as int);
    lemma_div_t_bound(roi_pad_size(x0, y0, x1, y1), 2, 0x4000_0000);
}

/// Derives the first cycle's crop region from a face bounding box
/// `[x0, y0, x1, y1]`.  A degenerate box yields `InvalidRoi` without ending
/// the session.
pub fn roi_from_box(face_box: &[i64; 4]) -> (r: Result<RoiBox, TrackError>)
    requires
        forall|i: int| 0 <= i < 4 ==> bounded(#[trigger] face_box[i] as int, ROI_COORD_LIM as int),
    ensures
        r is Ok <==> roi_pad_size(
            face_box[0] as int,
            face_box[1] as int,
            face_box[2] as int,
            face_box[3] as int,
        ) > 0,
        r is Ok ==> r->Ok_0 == roi_spec(
            face_box[0] as int,
            face_box[1] as int,
            face_box[2] as int,
            face_box[3] as int,
        ),
        r is Err ==> r->Err_0 == TrackError::InvalidRoi,
{
    let x0 = face_box[0];
    let y0 = face_box[1];
    let x1 = face_box[2];
    let y1 = face_box[3];
    pad_box(x0, y0, x1, y1)
}

/// Smallest element of a sequence (0 for the empty sequence).
pub open spec fn seq_min(s: Seq<i64>) -> int
    decreases s.len(),
{
    if s.len() == 0 {
        0
    } else if s.len() == 1 {
        s[0] as int
    } else {
        let m = seq_min(s.drop_last());
        if (s.last() as int) < m {
            s.last() as int
        } else {
            m
        }
    }
}

/// Largest element of a sequence (0 for the empty sequence).
pub open spec fn seq_max(s: Seq<i64>) -> int
    decreases s.len(),
{
    if s.len() == 0 {
        0
    } else if s.len() == 1 {
        s[0] as int
    } else {
        let m = seq_max(s.drop_last());
        if (s.last() as int) > m {
            s.last() as int
        } else {
            m
        }
    }
}

/// Smallest element of a non-empty vector.
fn vec_min(v: &Vec<i64>, lim: i64) -> (r: i64)
    requires
        v@.len() >= 1,
        0 <= lim,
        forall|i: int| 0 <= i < v@.len() ==> bounded(#[trigger] v@[i] as int, lim as int),
    ensures
        r as int == seq_min(v@),
        bounded(r as int, lim as int),
{
    let mut m: i64 = v[0];
    let mut i: usize = 1;
    proof {
        assert(v@.take(1) =~= seq![v@[0]]);
    }
    while i < v.len()
        invariant
            1 <= i <= v@.len(),
            0 <= lim,
            forall|k: int| 0 <= k < v@.len() ==> bounded(#[trigger] v@[k] as int, lim as int),
            m as int == seq_min(v@.take(i as int)),
            bounded(m as int, lim as int),
        decreases v@.len() - i,
    {
        let x = v[i];
        proof {
            assert(v@.take(i as int + 1).drop_last() =~= v@.take(i as int));
            assert(v@.take(i as int + 1).last() == v@[i as int]);
        }
        if x < m {
            m = x;
        }
        i = i + 1;
    }
    proof {
        assert(v@.take(v@.len() as int) =~= v@);
    }
    m
}

/// Largest element of a non-empty vector.
fn vec_max(v: &Vec<i64>, lim: i64) -> (r: i64)
    requires
        v@.len() >= 1,
        0 <= lim,
        forall|i: int| 0 <= i < v@.len() ==> bounded(#[trigger] v@[i] as int, lim as int),
    ensures
        r as int == seq_max(v@),
        bounded(r as int, lim as int),
{
    let mut m: i64 = v[0];
    let mut i: usize = 1;
    proof {
        assert(v@.take(1) =~= seq![v@[0]]);
    }
    while i < v.len()
        invariant
            1 <= i <= v@.len(),
            0 <= lim,
            forall|k: int| 0 <= k < v@.len() ==> bounded(#[trigger] v@[k] as int, lim as int),
            m as int == seq_max(v@.take(i as int)),
            bounded(m as int, lim as int),
        decreases v@.len() - i,
    {
        let x = v[i];
        proof {
            assert(v@.take(i as int + 1).drop_last() =~= v@.take(i as int));
            assert(v@.take(i as int + 1).last() == v@[i as int]);
        }
        if x > m {
            m = x;
        }
        i = i + 1;
    }
    proof {
        assert(v@.take(v@.len() as int) =~= v@);
    }
    m
}

/// Derives the next cycle's crop region from the previous cycle's
/// reconstructed landmarks, given as three coordinate rows (x, y, z): the
/// same padding applied to the landmarks' bounding extent.
pub fn roi_from_landmarks(pts: &Vec<Vec<i64>>) -> (r: Result<RoiBox, TrackError>)
    requires
        pts@.len() == 3,
        pts@[0]@.len() >= 1,
        pts@[1]@.len() >= 1,
        forall|i: int| 0 <= i < pts@[0]@.len()
            ==> bounded(#[trigger] pts@[0]@[i] as int, ROI_COORD_LIM as int),
        forall|i: int| 0 <= i < pts@[1]@.len()
            ==> bounded(#[trigger] pts@[1]@[i] as int, ROI_COORD_LIM as int),
    ensures
        ({
            let bx0 = seq_min(pts@[0]@);
            let by0 = seq_min(pts@[1]@);
            let bx1 = seq_max(pts@[0]@);
            let by1 = seq_max(pts@[1]@);
            &&& (r is Ok <==> roi_pad_size(bx0, by0, bx1, by1) > 0)
            &&& (r is Ok ==> r->Ok_0 == roi_spec(bx0, by0, bx1, by1))
            &&& (r is Err ==> r->Err_0 == TrackError::InvalidRoi)
        }),
{
    let xs = &pts[0];
    let ys = &pts[1];
    let bx0 = vec_min(xs, ROI_COORD_LIM);
    let by0 = vec_min(ys, ROI_COORD_LIM);
    let bx1 = vec_max(xs, ROI_COORD_LIM);
    let by1 = vec_max(ys, ROI_COORD_LIM);
    pad_box(bx0, by0, bx1, by1)
}

} // verus!
