//! Signal filter tests: passthrough, convergence, and lag ordering.

use head_tracker::filter::{EuroDataFilter, OneEuroFilter, DEFAULT_D_CUTOFF, DEFAULT_RATE};

const FX: i64 = 65536;

#[test]
fn filter_passthrough_first_call() {
    // With min_cutoff = 0 and beta = 0 the very first call per channel
    // returns the input unchanged.
    let mut f = EuroDataFilter::new(0, 0);
    let data: [i64; 6] = [FX, 2 * FX, -3 * FX, 4 * FX, 5 * FX, -6 * FX];
    let out = f.filter_data(&data, None, None);
    assert_eq!(out.len(), 6);
    for i in 0..6 {
        assert_eq!(out[i], data[i]);
    }
}

#[test]
fn filter_constant_stream_converges() {
    // A constant input stream keeps returning the constant, whatever the
    // parameters.
    let mut f = EuroDataFilter::new(0, 0);
    let data: [i64; 6] = [7 * FX, 7 * FX, 7 * FX, 7 * FX, 7 * FX, 7 * FX];
    for _ in 0..50 {
        let out = f.filter_data(&data, None, None);
        for i in 0..6 {
            assert_eq!(out[i], data[i]);
        }
    }
    // The same holds with non-trivial parameters.
    let mut g = EuroDataFilter::new(FX, FX / 2);
    for _ in 0..50 {
        let out = g.filter_data(&data, None, None);
        for i in 0..6 {
            assert_eq!(out[i], data[i]);
        }
    }
}

#[test]
fn filter_lag_decreases_with_min_cutoff() {
    // For a fixed beta, a larger min_cutoff leaves the output closer to a
    // step input: less lag.
    let mut low = OneEuroFilter::new(0, 0, DEFAULT_D_CUTOFF, DEFAULT_RATE);
    let mut high = OneEuroFilter::new(100 * FX, 0, DEFAULT_D_CUTOFF, DEFAULT_RATE);
    // Initialize both at zero, then apply a unit step.
    assert_eq!(low.step(0), 0);
    assert_eq!(high.step(0), 0);
    let x: i64 = FX;
    let y_low = low.step(x);
    let y_high = high.step(x);
    // Zero cutoff with zero beta holds the previous value entirely.
    assert_eq!(y_low, 0);
    // The aggressive filter moves strictly closer to the step.
    assert!((x - y_high).abs() < (x - y_low).abs());
    assert!(y_high > 0);
    assert!(y_high <= x);
}

#[test]
fn filter_live_parameter_update() {
    // Updating min_cutoff mid-stream takes effect on the same call.
    let mut f = EuroDataFilter::new(0, 0);
    let zero: [i64; 6] = [0; 6];
    let step: [i64; 6] = [FX; 6];
    f.filter_data(&zero, None, None);
    // Still zero cutoff: a step is fully smoothed away.
    let held = f.filter_data(&step, None, None);
    assert_eq!(held[0], 0);
    // Raise the cutoff: the output now moves toward the input.
    let moved = f.filter_data(&step, Some(100 * FX), None);
    assert!(moved[0] > 0);
}
