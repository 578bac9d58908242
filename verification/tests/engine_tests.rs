//! Engine tests: construction, rescaling, and landmark reconstruction.

use head_tracker::engine::{CropPolicy, TDDFA, EXP_DIM, FLAT_LEN, PARAM_LEN, SHP_DIM};
use head_tracker::errors::TrackError;
use head_tracker::geometry::RoiBox;

const FX: i64 = 65536;

fn synthetic_engine(size: i64) -> TDDFA {
    // Rotation block: R00 = 1, R11 = 1; offsets 10, 20, 30; no basis
    // variation.  std is zero so the processed parameters equal `mean`.
    let mut mean = vec![0i64; PARAM_LEN];
    mean[0] = FX;
    mean[5] = FX;
    mean[3] = 10 * FX;
    mean[7] = 20 * FX;
    mean[11] = 30 * FX;
    let std = vec![0i64; PARAM_LEN];
    let mut u_base = vec![0i64; FLAT_LEN];
    for i in 0..FLAT_LEN {
        u_base[i] = (i as i64) * 1000;
    }
    let w_shp = vec![vec![0i64; SHP_DIM]; FLAT_LEN];
    let w_exp = vec![vec![0i64; EXP_DIM]; FLAT_LEN];
    TDDFA::new(mean, std, u_base, w_shp, w_exp, size).unwrap()
}

#[test]
fn test() {
    // Two full estimate -> reconstruct cycles: the first under the box
    // policy, the second seeded by the first cycle's landmarks.
    let bfm = synthetic_engine(120);
    let face_box: [i64; 4] = [150 * FX, 150 * FX, 400 * FX, 400 * FX];
    let seed = vec![
        vec![1 * FX, 2 * FX, 3 * FX],
        vec![4 * FX, 5 * FX, 6 * FX],
        vec![7 * FX, 8 * FX, 9 * FX],
    ];
    let raw = vec![0i64; PARAM_LEN];

    let (param, roi_box) = bfm.run(&raw, &face_box, &seed, CropPolicy::BoundingBox).unwrap();
    let pts_3d = bfm.recon_vers(&param, &roi_box).unwrap();
    assert_eq!(pts_3d.len(), 3);
    assert_eq!(pts_3d[0].len(), 68);

    let (param, roi_box) = bfm.run(&raw, &face_box, &pts_3d, CropPolicy::Landmark).unwrap();
    let pts_3d = bfm.recon_vers(&param, &roi_box).unwrap();
    assert_eq!(pts_3d.len(), 3);
    assert_eq!(pts_3d[2].len(), 68);
}

#[test]
fn engine_rejects_dimension_mismatch() {
    let mean = vec![0i64; PARAM_LEN - 1];
    let std = vec![0i64; PARAM_LEN];
    let u_base = vec![0i64; FLAT_LEN];
    let w_shp = vec![vec![0i64; SHP_DIM]; FLAT_LEN];
    let w_exp = vec![vec![0i64; EXP_DIM]; FLAT_LEN];
    let r = TDDFA::new(mean, std, u_base, w_shp, w_exp, 120);
    assert_eq!(r.unwrap_err(), TrackError::ModelLoadError);

    let mean = vec![0i64; PARAM_LEN];
    let w_shp_bad = vec![vec![0i64; SHP_DIM - 1]; FLAT_LEN];
    let std = vec![0i64; PARAM_LEN];
    let u_base = vec![0i64; FLAT_LEN];
    let w_exp = vec![vec![0i64; EXP_DIM]; FLAT_LEN];
    let r = TDDFA::new(mean, std, u_base, w_shp_bad, w_exp, 120);
    assert_eq!(r.unwrap_err(), TrackError::ModelLoadError);
}

#[test]
fn rescale_exact_values() {
    // param[i] = raw[i] * std[i] + mean[i] on the 16.16 grid:
    // 1.0 * 2.0 + 0.5 = 2.5 exactly.
    let mean = vec![32768i64; PARAM_LEN];
    let std = vec![131072i64; PARAM_LEN];
    let u_base = vec![0i64; FLAT_LEN];
    let w_shp = vec![vec![0i64; SHP_DIM]; FLAT_LEN];
    let w_exp = vec![vec![0i64; EXP_DIM]; FLAT_LEN];
    let t = TDDFA::new(mean, std, u_base, w_shp, w_exp, 120).unwrap();
    let raw = vec![FX; PARAM_LEN];
    let param = t.rescale_param(&raw);
    assert_eq!(param.len(), PARAM_LEN);
    for v in &param {
        assert_eq!(*v, 163840);
    }
}

#[test]
fn recon_reproduces_expected_landmarks() {
    // A parameter vector built analytically (identity-like rotation,
    // known offsets, no basis variation) reproduces the expected 68 x 3
    // landmark set exactly.  The ROI spans the whole 120-pixel crop, so
    // the similarity transform is the identity on x and a flip on y.
    let t = synthetic_engine(120);
    let raw = vec![0i64; PARAM_LEN];
    let param = t.rescale_param(&raw);
    let roi = RoiBox { x0: 0, y0: 0, x1: 120 * FX, y1: 120 * FX };
    let pts = t.recon_vers(&param, &roi).unwrap();
    assert_eq!(pts.len(), 3);
    for c in 0..68 {
        let ci = c as i64;
        // x: base shape x plus the 10-pixel offset.
        assert_eq!(pts[0][c], 3000 * ci + 10 * FX);
        // y: flipped in crop space, then shifted by the 20-pixel offset.
        assert_eq!(pts[1][c], 120 * FX - (3000 * ci + 1000 + 20 * FX));
        // z: the constant 30-pixel offset.
        assert_eq!(pts[2][c], 30 * FX);
    }
}
