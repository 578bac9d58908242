//! Pose recovery tests: integer square root, arctangent and Euler angles.

use head_tracker::engine::PARAM_LEN;
use head_tracker::errors::TrackError;
use head_tracker::pose::{atan2_fx, calc_pose, gen_point2d, isqrt, ATAN_C1, PI_FX};

const FX: i64 = 65536;

#[test]
fn isqrt_exact_values() {
    assert_eq!(isqrt(0), 0);
    assert_eq!(isqrt(1), 1);
    assert_eq!(isqrt(15), 3);
    assert_eq!(isqrt(16), 4);
    assert_eq!(isqrt(1 << 40), 1 << 20);
    assert_eq!(isqrt((1 << 40) - 1), (1 << 20) - 1);
}

#[test]
fn atan2_axis_values() {
    // Along the positive x axis the angle is zero.
    assert_eq!(atan2_fx(0, FX), 0);
    // On the diagonal the polynomial gives exactly pi/4 on the grid.
    assert_eq!(atan2_fx(FX, FX), ATAN_C1);
    // Along the negative x axis the angle is pi.
    assert_eq!(atan2_fx(0, -FX), PI_FX);
    // Odd in y.
    assert_eq!(atan2_fx(-FX, FX), -ATAN_C1);
    // Everything stays within [-pi, pi].
    for &y in &[-3 * FX, -FX, 0, FX, 3 * FX] {
        for &x in &[-3 * FX, -FX, 0, FX, 3 * FX] {
            let a = atan2_fx(y, x);
            assert!(-PI_FX <= a && a <= PI_FX);
        }
    }
}

#[test]
fn calc_pose_identity_rotation() {
    // An identity-like pose block (unit first and second rows) has zero
    // yaw, pitch and roll.
    let mut param = vec![0i64; PARAM_LEN];
    param[0] = FX;
    param[5] = FX;
    let (rot, pose) = calc_pose(&param).unwrap();
    assert_eq!(rot.len(), 3);
    assert_eq!(rot[0], vec![FX, 0, 0]);
    assert_eq!(rot[1], vec![0, FX, 0]);
    assert_eq!(rot[2], vec![0, 0, FX]);
    assert_eq!(pose, vec![0, 0, 0]);
}

#[test]
fn calc_pose_degenerate_rows_skip() {
    // A zero pose block has no orientation: the cycle is skipped.
    let param = vec![0i64; PARAM_LEN];
    assert_eq!(calc_pose(&param).unwrap_err(), TrackError::DecodeSkip);
}

#[test]
fn calc_pose_quarter_roll() {
    // First row along +y: the frame is rolled by a quarter turn.
    let mut param = vec![0i64; PARAM_LEN];
    param[1] = FX;  // x row = (0, 1, 0)
    param[4] = -FX;  // y row = (-1, 0, 0)
    let (_rot, pose) = calc_pose(&param).unwrap();
    // roll = atan2(y_r[0], x_r[0]) = atan2(-1, 0) = -pi/2 on the grid.
    assert_eq!(pose[2], -102944);
}

#[test]
fn gen_point2d_identity_projection() {
    // Identity projection rows: the 2D points are the x and y landmark
    // coordinates; the depth proxy is the mean spread of the subset
    // (chin, both eye corners, nose tip).
    let rot = vec![vec![FX, 0, 0], vec![0, FX, 0], vec![0, 0, FX]];
    let mut xs = vec![0i64; 68];
    let mut ys = vec![0i64; 68];
    let zs = vec![0i64; 68];
    for c in 0..68 {
        xs[c] = (c as i64) * 1000;
        ys[c] = (c as i64) * 2000;
    }
    let pts = vec![xs, ys, zs];
    let (point2d, distance) = gen_point2d(&rot, &pts);
    assert_eq!(point2d.len(), 4);
    assert_eq!(point2d[0], vec![8000, 16000]);
    assert_eq!(point2d[1], vec![36000, 72000]);
    assert_eq!(point2d[2], vec![45000, 90000]);
    assert_eq!(point2d[3], vec![30000, 60000]);
    assert_eq!(distance, 55500);
}
