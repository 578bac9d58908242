//! The pose estimation engine: the learned linear model's reference data
//! and the per-cycle rescale / reconstruct computations.
//!
//! The engine owns the rescaling constants (`mean`, `std`) and the shape
//! basis matrices (`u_base`, `w_shp`, `w_exp`), all read-only after
//! construction.  Construction fails with `ModelLoadError` exactly when the
//! reference data does not have the expected dimensions or exceeds the
//! fixed-point magnitude limits.
//!
//! The landmark model itself (a neural network consuming the cropped image
//! tensor) runs outside the library; its 62-element output vector is handed
//! in as plain values.

use vstd::prelude::*;
use crate::errors::TrackError;
use crate::fixed::{bounded, div_t, div_trunc, dot, dot_prod, lemma_div_t_bound, FX_ONE};
use crate::geometry::{roi_from_box, roi_from_landmarks, roi_pad_size, roi_spec, seq_max, seq_min,
    RoiBox, ROI_COORD_LIM};

verus! {

/// Length of the landmark model's parameter vector.
pub const PARAM_LEN: usize = 62;

/// Number of reconstructed 3D landmarks.
pub const LANDMARK_COUNT: usize = 68;

/// Flat length of the base shape: three coordinates per landmark.
pub const FLAT_LEN: usize = 204;

/// Number of shape-variation components.
pub const SHP_DIM: usize = 40;

/// Number of expression-variation components.
pub const EXP_DIM: usize = 10;

/// Magnitude limit on the model's raw outputs (fixed point).
pub const LIM_RAW: i64 = 0x100000;

/// Magnitude limit on the rescaling constants (fixed point).
pub const LIM_SCALE: i64 = 0x1_0000_0000;

/// Magnitude limit on basis matrix entries (fixed point).
pub const LIM_BASIS: i64 = 0x100000;

/// Magnitude limit on base shape entries (fixed point).
pub const LIM_U: i64 = 0x1_0000_0000;

/// Magnitude limit on a processed parameter vector entry (fixed point).
pub const LIM_PARAM: i64 = 0x100_0000_0000;

/// Magnitude limit on a reconstructed landmark coordinate (fixed point).
pub const LIM_OUT: i64 = 0x100_0000_0000;

/// Magnitude limit on ROI coordinates fed to the reconstruction.
pub const LIM_ROI: i64 = 0x4_0000_0000;

/// Magnitude limit on a flat shape element before the rigid transform.
pub const LIM_PTS: i128 = 0x8_0000_0000_0000;

/// Magnitude limit on a coordinate after the rigid transform.
pub const LIM_WORLD: i128 = 0x4000_0000_0000_0000_0000;

/// Which policy derives the crop region for the current cycle.
#[derive(Clone, Copy, Debug, PartialEq, Eq, Structural)]
pub enum CropPolicy {
    /// Derive the ROI from a face bounding box (first cycle of a session).
    BoundingBox,
    /// Derive the ROI from the previous cycle's reconstructed landmarks.
    Landmark,
}

/// The dense face alignment engine: rescaling constants and shape basis,
/// all in 16.16 fixed point, read-only after construction.
#[derive(Debug)]
pub struct TDDFA {
    /// Side length of the model's square input, in pixels.
    pub size: i64,
    /// Per-element mean of the parameter vector.
    pub mean: Vec<i64>,
    /// Per-element scale of the parameter vector.
    pub std: Vec<i64>,
    /// Base shape, flat: three coordinates per landmark, column-major.
    pub u_base: Vec<i64>,
    /// Shape-variation basis, `FLAT_LEN` rows of `SHP_DIM` entries.
    pub w_shp: Vec<Vec<i64>>,
    /// Expression-variation basis, `FLAT_LEN` rows of `EXP_DIM` entries.
    pub w_exp: Vec<Vec<i64>>,
}

/// The dimension and magnitude conditions the reference data must meet for
/// the engine to construct.
pub open spec fn valid_reference_data(
    mean: Seq<i64>,
    std: Seq<i64>,
    u_base: Seq<i64>,
    w_shp: Seq<Vec<i64>>,
    w_exp: Seq<Vec<i64>>,
    size: int,
) -> bool {
    &&& mean.len() == PARAM_LEN
    &&& std.len() == PARAM_LEN
    &&& u_base.len() == FLAT_LEN
    &&& w_shp.len() == FLAT_LEN
    &&& w_exp.len() == FLAT_LEN
    &&& 64 <= size <= 1024
    &&& forall|i: int| 0 <= i < mean.len() ==> bounded(#[trigger] mean[i] as int, LIM_SCALE as int)
    &&& forall|i: int| 0 <= i < std.len() ==> bounded(#[trigger] std[i] as int, LIM_SCALE as int)
    &&& forall|i: int| 0 <= i < u_base.len() ==> bounded(#[trigger] u_base[i] as int, LIM_U as int)
    &&& forall|i: int| 0 <= i < w_shp.len() ==> (#[trigger] w_shp[i])@.len() == SHP_DIM
    &&& forall|i: int| 0 <= i < w_exp.len() ==> (#[trigger] w_exp[i])@.len() == EXP_DIM
    &&& forall|i: int, j: int| 0 <= i < w_shp.len() && 0 <= j < w_shp[i]@.len()
        ==> bounded(#[trigger] w_shp[i]@[j] as int, LIM_BASIS as int)
    &&& forall|i: int, j: int| 0 <= i < w_exp.len() && 0 <= j < w_exp[i]@.len()
        ==> bounded(#[trigger] w_exp[i]@[j] as int, LIM_BASIS as int)
}

/// Every entry of `v` has magnitude at most `lim`.
fn all_bounded(v: &Vec<i64>, lim: i64) -> (r: bool)
    requires
        0 <= lim,
    ensures
        r <==> forall|i: int| 0 <= i < v@.len() ==> bounded(#[trigger] v@[i] as int, lim as int),
{
    let mut i: usize = 0;
    while i < v.len()
        invariant
            0 <= i <= v@.len(),
            0 <= lim,
            forall|k: int| 0 <= k < i ==> bounded(#[trigger] v@[k] as int, lim as int),
        decreases v@.len() - i,
    {
        let x = v[i];
        if x > lim || x < -lim {
            return false;
        }
        i = i + 1;
    }
    true
}

/// `m` is a `rows` by `cols` matrix whose entries all have magnitude at
/// most `lim`.
fn matrix_ok(m: &Vec<Vec<i64>>, rows: usize, cols: usize, lim: i64) -> (r: bool)
    requires
        0 <= lim,
    ensures
        r <==> {
            &&& m@.len() == rows
            &&& forall|i: int| 0 <= i < m@.len() ==> (#[trigger] m@[i])@.len() == cols
            &&& forall|i: int, j: int| 0 <= i < m@.len() && 0 <= j < m@[i]@.len()
                ==> bounded(#[trigger] m@[i]@[j] as int, lim as int)
        },
{
    if m.len() != rows {
        return false;
    }
    let mut i: usize = 0;
    while i < m.len()
        invariant
            0 <= i <= m@.len(),
            m@.len() == rows,
            0 <= lim,
            forall|k: int| 0 <= k < i ==> (#[trigger] m@[k])@.len() == cols,
            forall|k: int, j: int| 0 <= k < i && 0 <= j < m@[k]@.len()
                ==> bounded(#[trigger] m@[k]@[j] as int, lim as int),
        decreases m@.len() - i,
    {
        let row = &m[i];
        if row.len() != cols {
            return false;
        }
        if !all_bounded(row, lim) {
            return false;
        }
        i = i + 1;
    }
    true
}

impl TDDFA {
    /// The engine's internal invariant: the reference data it holds is
    /// valid.
    pub open spec fn wf(self) -> bool {
        valid_reference_data(self.mean@, self.std@, self.u_base@, self.w_shp@, self.w_exp@,
            self.size as int)
    }

    /// Element `i` of the processed parameter vector:
    /// `raw[i] * std[i] + mean[i]` on the fixed-point grid.
    pub open spec fn rescaled_spec(self, raw: Seq<i64>, i: int) -> int {
        div_t(raw[i] * self.std@[i], FX_ONE as int) + self.mean@[i]
    }

    /// The shape coefficients: elements 12..52 of the parameter vector.
    pub open spec fn alpha_shp_spec(param: Seq<i64>) -> Seq<i64> {
        param.subrange(12, 52)
    }

    /// The expression coefficients: elements 52..62 of the parameter
    /// vector.
    pub open spec fn alpha_exp_spec(param: Seq<i64>) -> Seq<i64> {
        param.subrange(52, 62)
    }

    /// Flat element `i` of the reconstructed shape before the rigid
    /// transform: base shape plus the two basis contributions.
    pub open spec fn pts_flat_spec(self, param: Seq<i64>, i: int) -> int {
        self.u_base@[i] + div_t(
            dot(self.w_shp@[i]@, Self::alpha_shp_spec(param))
                + dot(self.w_exp@[i]@, Self::alpha_exp_spec(param)),
            FX_ONE as int,
        )
    }

    /// Coordinate `r` of landmark `c` after the rigid transform: the
    /// rotation sub-block of the parameter vector applied to the shape,
    /// plus the offset column.  The flat shape is read column-major:
    /// landmark `c` occupies flat elements `3c .. 3c + 2`.
    pub open spec fn world_spec(self, param: Seq<i64>, r: int, c: int) -> int {
        div_t(
            param[4 * r] * self.pts_flat_spec(param, 3 * c)
                + param[4 * r + 1] * self.pts_flat_spec(param, 3 * c + 1)
                + param[4 * r + 2] * self.pts_flat_spec(param, 3 * c + 2),
            FX_ONE as int,
        ) + param[4 * r + 3]
    }

    /// Final x of landmark `c`: similarity transform from the model's crop
    /// space into the ROI.
    pub open spec fn out_x_spec(self, param: Seq<i64>, roi: RoiBox, c: int) -> int {
        div_t(
            self.world_spec(param, 0, c) * (roi.x1 - roi.x0),
            self.size * FX_ONE,
        ) + roi.x0
    }

    /// Final y of landmark `c`: the vertical axis is flipped in crop space
    /// before scaling into the ROI.
    pub open spec fn out_y_spec(self, param: Seq<i64>, roi: RoiBox, c: int) -> int {
        div_t(
            (self.size * FX_ONE - self.world_spec(param, 1, c)) * (roi.y1 - roi.y0),
            self.size * FX_ONE,
        ) + roi.y0
    }

    /// Final z of landmark `c`: scaled by the mean of the two axis scales.
    pub open spec fn out_z_spec(self, param: Seq<i64>, roi: RoiBox, c: int) -> int {
        div_t(
            self.world_spec(param, 2, c) * ((roi.x1 - roi.x0) + (roi.y1 - roi.y0)),
            2 * self.size * FX_ONE,
        )
    }

    /// All reconstructed coordinates of landmark `c` fit the fixed-point
    /// output range.
    pub open spec fn out_in_range(self, param: Seq<i64>, roi: RoiBox, c: int) -> bool {
        &&& bounded(self.out_x_spec(param, roi, c), LIM_OUT as int)
        &&& bounded(self.out_y_spec(param, roi, c), LIM_OUT as int)
        &&& bounded(self.out_z_spec(param, roi, c), LIM_OUT as int)
    }

    /// Builds the engine from plain reference data.  Succeeds exactly when
    /// the data has the expected dimensions and magnitudes; anything else
    /// is a `ModelLoadError`, fatal to the session.
    pub fn new(
        mean: Vec<i64>,
        std: Vec<i64>,
        u_base: Vec<i64>,
        w_shp: Vec<Vec<i64>>,
        w_exp: Vec<Vec<i64>>,
        size: i64,
    ) -> (r: Result<TDDFA, TrackError>)
        ensures
            r is Ok <==> valid_reference_data(mean@, std@, u_base@, w_shp@, w_exp@, size as int),
            r is Ok ==> {
                let t = r->Ok_0;
                &&& t.mean@ == mean@
                &&& t.std@ == std@
                &&& t.u_base@ == u_base@
                &&& t.w_shp@ == w_shp@
                &&& t.w_exp@ == w_exp@
                &&& t.size == size
                &&& t.wf()
            },
            r is Err ==> r->Err_0 == TrackError::ModelLoadError,
    {
        if size < 64 || size > 1024 {
            return Err(TrackError::ModelLoadError);
        }
        if mean.len() != PARAM_LEN || !all_bounded(&mean, LIM_SCALE) {
            return Err(TrackError::ModelLoadError);
        }
        if std.len() != PARAM_LEN || !all_bounded(&std, LIM_SCALE) {
            return Err(TrackError::ModelLoadError);
        }
        if u_base.len() != FLAT_LEN || !all_bounded(&u_base, LIM_U) {
            return Err(TrackError::ModelLoadError);
        }
        if !matrix_ok(&w_shp, FLAT_LEN, SHP_DIM, LIM_BASIS) {
            return Err(TrackError::ModelLoadError);
        }
        if !matrix_ok(&w_exp, FLAT_LEN, EXP_DIM, LIM_BASIS) {
            return Err(TrackError::ModelLoadError);
        }
        Ok(TDDFA { size, mean, std, u_base, w_shp, w_exp })
    }

    /// Rescales the model's raw output elementwise by the fixed constants:
    /// `param[i] = raw[i] * std[i] + mean[i]`.
    pub fn rescale_param(&self, raw: &Vec<i64>) -> (r: Vec<i64>)
        requires
            self.wf(),
            raw@.len() == PARAM_LEN,
            forall|i: int| 0 <= i < raw@.len() ==> bounded(#[trigger] raw@[i] as int, LIM_RAW as int),
        ensures
            r@.len() == PARAM_LEN,
            forall|i: int| 0 <= i < r@.len()
                ==> #[trigger] r@[i] as int == self.rescaled_spec(raw@, i),
            forall|i: int| 0 <= i < r@.len() ==> bounded(#[trigger] r@[i] as int, LIM_PARAM as int),
    {
        let mut out: Vec<i64> = Vec::new();
        let mut i: usize = 0;
        while i < PARAM_LEN
            invariant
                self.wf(),
                raw@.len() == PARAM_LEN,
                forall|k: int| 0 <= k < raw@.len()
                    ==> bounded(#[trigger] raw@[k] as int, LIM_RAW as int),
                0 <= i <= PARAM_LEN,
                out@.len() == i,
                forall|k: int| 0 <= k < i
                    ==> #[trigger] out@[k] as int == self.rescaled_spec(raw@, k),
                forall|k: int| 0 <= k < i
                    ==> bounded(#[trigger] out@[k] as int, LIM_PARAM as int),
            decreases PARAM_LEN - i,
        {
            let a: i64 = raw[i];
            let s: i64 = self.std[i];
            proof {
                assert(bounded(a as int * (s as int), 0x10_0000_0000 * (FX_ONE as int)))
                    by (nonlinear_arith)
                    requires
                        bounded(a as int, LIM_RAW as int),
                        bounded(s as int, LIM_SCALE as int),
                ;
                lemma_div_t_bound(a as int * (s as int), FX_ONE as int, 0x10_0000_0000);
            }
            let p: i128 = (a as i128) * (s as i128);
            let q: i64 = div_trunc(p, FX_ONE as i128) as i64;
            let v: i64 = q + self.mean[i];
            out.push(v);
            i = i + 1;
        }
        out
    }

    /// Derives the crop region for the current cycle: from the face
    /// bounding box on the first cycle of a session, from the previous
    /// cycle's landmarks afterwards.
    pub fn derive_roi(
        &self,
        face_box: &[i64; 4],
        ver: &Vec<Vec<i64>>,
        crop_policy: CropPolicy,
    ) -> (r: Result<RoiBox, TrackError>)
        requires
            crop_policy == CropPolicy::BoundingBox ==> forall|i: int| 0 <= i < 4
                ==> bounded(#[trigger] face_box[i] as int, ROI_COORD_LIM as int),
            crop_policy == CropPolicy::Landmark ==> {
                &&& ver@.len() == 3
                &&& ver@[0]@.len() >= 1
                &&& ver@[1]@.len() >= 1
                &&& forall|i: int| 0 <= i < ver@[0]@.len()
                    ==> bounded(#[trigger] ver@[0]@[i] as int, ROI_COORD_LIM as int)
                &&& forall|i: int| 0 <= i < ver@[1]@.len()
                    ==> bounded(#[trigger] ver@[1]@[i] as int, ROI_COORD_LIM as int)
            },
        ensures
            ({
                let (bx0, by0, bx1, by1) = self.extent_spec(face_box, ver, crop_policy);
                &&& (r is Ok <==> roi_pad_size(bx0, by0, bx1, by1) > 0)
                &&& (r is Ok ==> r->Ok_0 == roi_spec(bx0, by0, bx1, by1))
                &&& (r is Err ==> r->Err_0 == TrackError::InvalidRoi)
            }),
    {
        match crop_policy {
            CropPolicy::BoundingBox => roi_from_box(face_box),
            CropPolicy::Landmark => roi_from_landmarks(ver),
        }
    }

    /// The extent box the chosen policy pads into the crop square.
    pub open spec fn extent_spec(
        self,
        face_box: &[i64; 4],
        ver: &Vec<Vec<i64>>,
        crop_policy: CropPolicy,
    ) -> (int, int, int, int) {
        match crop_policy {
            CropPolicy::BoundingBox => (
                face_box[0] as int,
                face_box[1] as int,
                face_box[2] as int,
                face_box[3] as int,
            ),
            CropPolicy::Landmark => (
                seq_min(ver@[0]@),
                seq_min(ver@[1]@),
                seq_max(ver@[0]@),
                seq_max(ver@[1]@),
            ),
        }
    }

    /// One parameter-production cycle, given the landmark model's raw
    /// output for the current crop: derives the ROI under the chosen
    /// policy and rescales the raw vector by the fixed constants.  Fails
    /// exactly when the ROI is degenerate, with `InvalidRoi`; the caller
    /// skips the cycle.
    pub fn run(
        &self,
        raw_param: &Vec<i64>,
        face_box: &[i64; 4],
        ver: &Vec<Vec<i64>>,
        crop_policy: CropPolicy,
    ) -> (r: Result<(Vec<i64>, RoiBox), TrackError>)
        requires
            self.wf(),
            raw_param@.len() == PARAM_LEN,
            forall|i: int| 0 <= i < raw_param@.len()
                ==> bounded(#[trigger] raw_param@[i] as int, LIM_RAW as int),
            crop_policy == CropPolicy::BoundingBox ==> forall|i: int| 0 <= i < 4
                ==> bounded(#[trigger] face_box[i] as int, ROI_COORD_LIM as int),
            crop_policy == CropPolicy::Landmark ==> {
                &&& ver@.len() == 3
                &&& ver@[0]@.len() >= 1
                &&& ver@[1]@.len() >= 1
                &&& forall|i: int| 0 <= i < ver@[0]@.len()
                    ==> bounded(#[trigger] ver@[0]@[i] as int, ROI_COORD_LIM as int)
                &&& forall|i: int| 0 <= i < ver@[1]@.len()
                    ==> bounded(#[trigger] ver@[1]@[i] as int, ROI_COORD_LIM as int)
            },
        ensures
            ({
                let (bx0, by0, bx1, by1) = self.extent_spec(face_box, ver, crop_policy);
                &&& (r is Ok <==> roi_pad_size(bx0, by0, bx1, by1) > 0)
                &&& (r is Ok ==> {
                    let (param, roi) = r->Ok_0;
                    &&& roi == roi_spec(bx0, by0, bx1, by1)
                    &&& param@.len() == PARAM_LEN
                    &&& forall|i: int| 0 <= i < param@.len()
                        ==> #[trigger] param@[i] as int == self.rescaled_spec(raw_param@, i)
                    &&& forall|i: int| 0 <= i < param@.len()
                        ==> bounded(#[trigger] param@[i] as int, LIM_PARAM as int)
                })
                &&& (r is Err ==> r->Err_0 == TrackError::InvalidRoi)
            }),
    {
        let roi = match self.derive_roi(face_box, ver, crop_policy) {
            Ok(roi) => roi,
            Err(e) => {
                return Err(e);
            },
        };
        let param = self.rescale_param(raw_param);
        Ok((param, roi))
    }

    /// Copies the sub-vector `param[from .. to]`.
    fn param_slice(param: &Vec<i64>, from: usize, to: usize) -> (r: Vec<i64>)
        requires
            from <= to <= param@.len(),
        ensures
            r@ == param@.subrange(from as int, to as int),
    {
        let mut out: Vec<i64> = Vec::new();
        let mut j: usize = from;
        while j < to
            invariant
                from <= j <= to <= param@.len(),
                out@ == param@.subrange(from as int, j as int),
            decreases to - j,
        {
            proof {
                assert(param@.subrange(from as int, j as int + 1)
                    =~= param@.subrange(from as int, j as int).push(param@[j as int]));
            }
            out.push(param[j]);
            j = j + 1;
        }
        out
    }

    /// Reconstructs the flat shape before the rigid transform: base shape
    /// plus the basis contributions weighted by the coefficient sub-blocks
    /// of the parameter vector.
    fn shape_points(&self, param: &Vec<i64>) -> (pts: Vec<i128>)
        requires
            self.wf(),
            param@.len() == PARAM_LEN,
            forall|i: int| 0 <= i < param@.len()
                ==> bounded(#[trigger] param@[i] as int, LIM_PARAM as int),
        ensures
            pts@.len() == FLAT_LEN,
            forall|i: int| 0 <= i < pts@.len()
                ==> #[trigger] pts@[i] as int == self.pts_flat_spec(param@, i),
            forall|i: int| 0 <= i < pts@.len() ==> bounded(#[trigger] pts@[i] as int, LIM_PTS as int),
    {
        let ashp: Vec<i64> = Self::param_slice(param, 12, 52);
        let aexp: Vec<i64> = Self::param_slice(param, 52, 62);
        proof {
            assert(ashp@ == Self::alpha_shp_spec(param@));
            assert(aexp@ == Self::alpha_exp_spec(param@));
            assert forall|k: int| 0 <= k < ashp@.len() implies bounded(
                #[trigger] ashp@[k] as int,
                LIM_PARAM as int,
            ) by {
                assert(ashp@[k] == param@[12 + k]);
            }
            assert forall|k: int| 0 <= k < aexp@.len() implies bounded(
                #[trigger] aexp@[k] as int,
                LIM_PARAM as int,
            ) by {
                assert(aexp@[k] == param@[52 + k]);
            }
        }
        let mut pts: Vec<i128> = Vec::new();
        let mut i: usize = 0;
        while i < FLAT_LEN
            invariant
                self.wf(),
                param@.len() == PARAM_LEN,
                forall|k: int| 0 <= k < param@.len()
                    ==> bounded(#[trigger] param@[k] as int, LIM_PARAM as int),
                ashp@ == Self::alpha_shp_spec(param@),
                aexp@ == Self::alpha_exp_spec(param@),
                forall|k: int| 0 <= k < ashp@.len()
                    ==> bounded(#[trigger] ashp@[k] as int, LIM_PARAM as int),
                forall|k: int| 0 <= k < aexp@.len()
                    ==> bounded(#[trigger] aexp@[k] as int, LIM_PARAM as int),
                0 <= i <= FLAT_LEN,
                pts@.len() == i,
                forall|k: int| 0 <= k < i
                    ==> #[trigger] pts@[k] as int == self.pts_flat_spec(param@, k),
                forall|k: int| 0 <= k < i
                    ==> bounded(#[trigger] pts@[k] as int, LIM_PTS as int),
            decreases FLAT_LEN - i,
        {
            let d1: i128 = dot_prod(&self.w_shp[i], &ashp, LIM_BASIS, LIM_PARAM);
            let d2: i128 = dot_prod(&self.w_exp[i], &aexp, LIM_BASIS, LIM_PARAM);
            let d: i128 = d1 + d2;
            proof {
                lemma_div_t_bound(d as int, FX_ONE as int, 0x4_0000_0000_0000);
            }
            let q: i128 = div_trunc(d, FX_ONE as i128);
            let v: i128 = (self.u_base[i] as i128) + q;
            pts.push(v);
            i = i + 1;
        }
        pts
    }

    /// One row of the rigid transform: the rotation row applied to landmark
    /// `c`'s shape coordinates, plus the offset entry.
    fn world_row(
        &self,
        param: &Vec<i64>,
        r: usize,
        p0: i128,
        p1: i128,
        p2: i128,
        Ghost(c): Ghost<int>,
    ) -> (w: i128)
        requires
            self.wf(),
            param@.len() == PARAM_LEN,
            forall|i: int| 0 <= i < param@.len()
                ==> bounded(#[trigger] param@[i] as int, LIM_PARAM as int),
            r < 3,
            0 <= c < LANDMARK_COUNT,
            p0 == self.pts_flat_spec(param@, 3 * c),
            p1 == self.pts_flat_spec(param@, 3 * c + 1),
            p2 == self.pts_flat_spec(param@, 3 * c + 2),
            bounded(p0 as int, LIM_PTS as int),
            bounded(p1 as int, LIM_PTS as int),
            bounded(p2 as int, LIM_PTS as int),
        ensures
            w == self.world_spec(param@, r as int, c),
            bounded(w as int, LIM_WORLD as int),
    {
        let a0: i64 = param[4 * r];
        let a1: i64 = param[4 * r + 1];
        let a2: i64 = param[4 * r + 2];
        let a3: i64 = param[4 * r + 3];
        proof {
            assert(bounded(a0 as int * (p0 as int), (LIM_PARAM as int) * (LIM_PTS as int)))
                by (nonlinear_arith)
                requires
                    bounded(a0 as int, LIM_PARAM as int),
                    bounded(p0 as int, LIM_PTS as int),
            ;
            assert(bounded(a1 as int * (p1 as int), (LIM_PARAM as int) * (LIM_PTS as int)))
                by (nonlinear_arith)
                requires
                    bounded(a1 as int, LIM_PARAM as int),
                    bounded(p1 as int, LIM_PTS as int),
            ;
            assert(bounded(a2 as int * (p2 as int), (LIM_PARAM as int) * (LIM_PTS as int)))
                by (nonlinear_arith)
                requires
                    bounded(a2 as int, LIM_PARAM as int),
                    bounded(p2 as int, LIM_PTS as int),
            ;
        }
        let s: i128 = (a0 as i128) * p0 + (a1 as i128) * p1 + (a2 as i128) * p2;
        proof {
            lemma_div_t_bound(s as int, FX_ONE as int, 0x2000_0000_0000_0000_0000);
        }
        let q: i128 = div_trunc(s, FX_ONE as i128);
        q + (a3 as i128)
    }

    /// Reconstructs the 68 landmarks from a processed parameter vector and
    /// the crop region it was produced under: shape basis combination,
    /// rigid transform, then the similarity transform from crop space into
    /// the ROI.  Succeeds exactly when every resulting coordinate fits the
    /// fixed-point output range; anything else is a recoverable
    /// `DecodeSkip` and the caller skips the cycle.
    ///
    /// The result holds three rows of 68 values: x, y and z.
    pub fn recon_vers(&self, param: &Vec<i64>, roi_box: &RoiBox) -> (r: Result<
        Vec<Vec<i64>>,
        TrackError,
    >)
        requires
            self.wf(),
            param@.len() == PARAM_LEN,
            forall|i: int| 0 <= i < param@.len()
                ==> bounded(#[trigger] param@[i] as int, LIM_PARAM as int),
            bounded(roi_box.x0 as int, LIM_ROI as int),
            bounded(roi_box.y0 as int, LIM_ROI as int),
            bounded(roi_box.x1 as int, LIM_ROI as int),
            bounded(roi_box.y1 as int, LIM_ROI as int),
        ensures
            (r is Ok <==> forall|c: int| 0 <= c < LANDMARK_COUNT
                ==> self.out_in_range(param@, *roi_box, c)),
            r is Ok ==> {
                let v = r->Ok_0;
                &&& v@.len() == 3
                &&& v@[0]@.len() == LANDMARK_COUNT
                &&& v@[1]@.len() == LANDMARK_COUNT
                &&& v@[2]@.len() == LANDMARK_COUNT
                &&& forall|c: int| 0 <= c < LANDMARK_COUNT
                    ==> #[trigger] v@[0]@[c] as int == self.out_x_spec(param@, *roi_box, c)
                &&& forall|c: int| 0 <= c < LANDMARK_COUNT
                    ==> #[trigger] v@[1]@[c] as int == self.out_y_spec(param@, *roi_box, c)
                &&& forall|c: int| 0 <= c < LANDMARK_COUNT
                    ==> #[trigger] v@[2]@[c] as int == self.out_z_spec(param@, *roi_box, c)
            },
            r is Err ==> r->Err_0 == TrackError::DecodeSkip,
    {
        let pts = self.shape_points(param);
        let den: i128 = (self.size as i128) * (FX_ONE as i128);
        let wx: i64 = roi_box.x1 - roi_box.x0;
        let wy: i64 = roi_box.y1 - roi_box.y0;
        let mut vx: Vec<i64> = Vec::new();
        let mut vy: Vec<i64> = Vec::new();
        let mut vz: Vec<i64> = Vec::new();
        let mut c: usize = 0;
        while c < LANDMARK_COUNT
            invariant
                self.wf(),
                param@.len() == PARAM_LEN,
                forall|k: int| 0 <= k < param@.len()
                    ==> bounded(#[trigger] param@[k] as int, LIM_PARAM as int),
                bounded(roi_box.x0 as int, LIM_ROI as int),
                bounded(roi_box.y0 as int, LIM_ROI as int),
                bounded(roi_box.x1 as int, LIM_ROI as int),
                bounded(roi_box.y1 as int, LIM_ROI as int),
                pts@.len() == FLAT_LEN,
                forall|k: int| 0 <= k < pts@.len()
                    ==> #[trigger] pts@[k] as int == self.pts_flat_spec(param@, k),
                forall|k: int| 0 <= k < pts@.len()
                    ==> bounded(#[trigger] pts@[k] as int, LIM_PTS as int),
                den == self.size * FX_ONE,
                64 * (FX_ONE as int) <= den <= 1024 * (FX_ONE as int),
                wx == roi_box.x1 - roi_box.x0,
                wy == roi_box.y1 - roi_box.y0,
                0 <= c <= LANDMARK_COUNT,
                vx@.len() == c,
                vy@.len() == c,
                vz@.len() == c,
                forall|k: int| 0 <= k < c
                    ==> #[trigger] vx@[k] as int == self.out_x_spec(param@, *roi_box, k),
                forall|k: int| 0 <= k < c
                    ==> #[trigger] vy@[k] as int == self.out_y_spec(param@, *roi_box, k),
                forall|k: int| 0 <= k < c
                    ==> #[trigger] vz@[k] as int == self.out_z_spec(param@, *roi_box, k),
                forall|k: int| 0 <= k < c ==> self.out_in_range(param@, *roi_box, k),
            decreases LANDMARK_COUNT - c,
        {
            let p0: i128 = pts[3 * c];
            let p1: i128 = pts[3 * c + 1];
            let p2: i128 = pts[3 * c + 2];
            let w0: i128 = self.world_row(param, 0, p0, p1, p2, Ghost(c as int));
            let w1: i128 = self.world_row(param, 1, p0, p1, p2, Ghost(c as int));
            let w2: i128 = self.world_row(param, 2, p0, p1, p2, Ghost(c as int));

            proof {
                assert(bounded(w0 as int * (wx as int), (LIM_WORLD as int) * 2 * (LIM_ROI as int)))
                    by (nonlinear_arith)
                    requires
                        bounded(w0 as int, LIM_WORLD as int),
                        bounded(wx as int, 2 * LIM_ROI as int),
                ;
            }
            let qx: i128 = div_trunc(w0 * (wx as i128), den);
            let ox: i128 = qx + (roi_box.x0 as i128);
            if ox > (LIM_OUT as i128) || ox < -(LIM_OUT as i128) {
                proof {
                    assert(!self.out_in_range(param@, *roi_box, c as int));
                }
                return Err(TrackError::DecodeSkip);
            }

            let t: i128 = den - w1;
            proof {
                assert(bounded(t as int * (wy as int), 2 * (LIM_WORLD as int) * 2 * (
                LIM_ROI as int))) by (nonlinear_arith)
                    requires
                        bounded(t as int, 2 * LIM_WORLD as int),
                        bounded(wy as int, 2 * LIM_ROI as int),
                ;
            }
            let qy: i128 = div_trunc(t * (wy as i128), den);
            let oy: i128 = qy + (roi_box.y0 as i128);
            if oy > (LIM_OUT as i128) || oy < -(LIM_OUT as i128) {
                proof {
                    assert(!self.out_in_range(param@, *roi_box, c as int));
                }
                return Err(TrackError::DecodeSkip);
            }

            let sw: i64 = wx + wy;
            proof {
                assert(bounded(w2 as int * (sw as int), (LIM_WORLD as int) * 4 * (LIM_ROI as int)))
                    by (nonlinear_arith)
                    requires
                        bounded(w2 as int, LIM_WORLD as int),
                        bounded(sw as int, 4 * LIM_ROI as int),
                ;
            }
            let oz: i128 = div_trunc(w2 * (sw as i128), 2 * den);
            if oz > (LIM_OUT as i128) || oz < -(LIM_OUT as i128) {
                proof {
                    assert(!self.out_in_range(param@, *roi_box, c as int));
                }
                return Err(TrackError::DecodeSkip);
            }

            vx.push(ox as i64);
            vy.push(oy as i64);
            vz.push(oz as i64);
            c = c + 1;
        }
        let mut out: Vec<Vec<i64>> = Vec::new();
        out.push(vx);
        out.push(vy);
        out.push(vz);
        Ok(out)
    }
}

} // verus!
