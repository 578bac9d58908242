//! ROI derivation tests: exact padding values and the degenerate case.

use head_tracker::errors::TrackError;
use head_tracker::geometry::{roi_from_box, roi_from_landmarks};

const FX: i64 = 65536;

#[test]
fn roi_degenerate_box_is_invalid() {
    // A zero-extent box cannot be padded into a crop square.
    let r = roi_from_box(&[0, 0, 0, 0]);
    assert_eq!(r.unwrap_err(), TrackError::InvalidRoi);
}

#[test]
fn roi_negative_extent_is_invalid() {
    // An inverted box has negative extent and is rejected too.
    let r = roi_from_box(&[100 * FX, 100 * FX, 0, 0]);
    assert_eq!(r.unwrap_err(), TrackError::InvalidRoi);
}

#[test]
fn roi_exact_padding_values() {
    // Box (0, 0) .. (100, 100): extent mean 100, expanded by ~1.58 and
    // centred with the fixed downward shift.
    let r = roi_from_box(&[0, 0, 100 * FX, 100 * FX]).unwrap();
    assert_eq!(r.x0, -1900550);
    assert_eq!(r.y0, -983050);
    assert_eq!(r.x1, 8454150);
    assert_eq!(r.y1, 9371650);
    // The crop region is exactly square.
    assert_eq!(r.x1 - r.x0, r.y1 - r.y0);
    assert!(r.x1 - r.x0 > 0);
}

#[test]
fn roi_from_landmarks_matches_extent_box() {
    // The landmark path pads the bounding extent of the points, so a
    // point set spanning (0,0)..(100,100) gives the same region as the
    // box above.
    let pts = vec![
        vec![0, 50 * FX, 100 * FX],
        vec![0, 25 * FX, 100 * FX],
        vec![0, 0, 0],
    ];
    let r = roi_from_landmarks(&pts).unwrap();
    assert_eq!(r.x0, -1900550);
    assert_eq!(r.y0, -983050);
    assert_eq!(r.x1, 8454150);
    assert_eq!(r.y1, 9371650);
}
