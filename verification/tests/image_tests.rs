//! Frame preprocessing tests: exact crop, channel order, interpolation
//! and normalization values.

use head_tracker::geometry::RoiBox;
use head_tracker::image::{preprocess, Frame};

const FX: i64 = 65536;

fn two_by_two() -> Frame {
    // BGR interleaved: (10,20,30) (40,50,60) / (70,80,90) (100,110,120).
    let data = vec![10, 20, 30, 40, 50, 60, 70, 80, 90, 100, 110, 120];
    Frame::new(2, 2, data).unwrap()
}

#[test]
fn frame_new_checks_buffer_length() {
    assert!(Frame::new(2, 2, vec![0; 12]).is_some());
    assert!(Frame::new(2, 2, vec![0; 11]).is_none());
    assert!(Frame::new(0, 2, vec![]).is_none());
}

#[test]
fn preprocess_exact_values() {
    let frame = two_by_two();
    // ROI spanning exactly one source pixel step, resized to 64.
    let roi = RoiBox { x0: 0, y0: 0, x1: FX, y1: FX };
    let t = preprocess(&frame, &roi, 64);
    assert_eq!(t.len(), 3 * 64 * 64);
    // Top-left output: R reads the third interleaved value (30):
    // (2*30 - 255) * 65536 / 256 = -49920.
    assert_eq!(t[0], -49920);
    // G channel plane starts at 64*64: value 20 -> -55040.
    assert_eq!(t[64 * 64], -55040);
    // B channel plane: value 10 -> -60160.
    assert_eq!(t[2 * 64 * 64], -60160);
    // Halfway across, R blends 30 and 60 to 45 -> -42240.
    assert_eq!(t[32], -42240);
    // Halfway down, R blends 30 and 90 to 60 -> -34560.
    assert_eq!(t[32 * 64], -34560);
}

#[test]
fn preprocess_zero_pads_outside_frame() {
    let frame = two_by_two();
    // An ROI entirely left of and above the frame samples only padding,
    // which normalizes to -255/256: (0 - 127.5)/128 on the 16.16 grid.
    let roi = RoiBox { x0: -100 * FX, y0: -100 * FX, x1: -99 * FX, y1: -99 * FX };
    let t = preprocess(&frame, &roi, 64);
    assert_eq!(t.len(), 3 * 64 * 64);
    for v in &t {
        assert_eq!(*v, -65280);
    }
}
