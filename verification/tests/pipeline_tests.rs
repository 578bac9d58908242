//! End-to-end pipeline scenario: a synthetic frame source driven for N
//! ticks produces N 48-byte payloads whose angles decode to plausible
//! values.

use head_tracker::emitter::{decode, emit};
use head_tracker::engine::{TDDFA, EXP_DIM, FLAT_LEN, PARAM_LEN, SHP_DIM};
use head_tracker::errors::TrackError;
use head_tracker::filter::EuroDataFilter;
use head_tracker::orchestrator::{period_ms, Phase, ProcessHeadPose, Session, SessionConfig};

const FX: i64 = 65536;

fn synthetic_engine() -> TDDFA {
    let mut mean = vec![0i64; PARAM_LEN];
    mean[0] = FX;
    mean[5] = FX;
    mean[3] = 10 * FX;
    mean[7] = 20 * FX;
    mean[11] = 30 * FX;
    let std = vec![0i64; PARAM_LEN];
    // The base shape spans most of the 120-pixel crop, so the landmark
    // extent neither collapses nor explodes across cycles.
    let mut u_base = vec![0i64; FLAT_LEN];
    for i in 0..FLAT_LEN {
        u_base[i] = (i as i64) * 24000;
    }
    let w_shp = vec![vec![0i64; SHP_DIM]; FLAT_LEN];
    let w_exp = vec![vec![0i64; EXP_DIM]; FLAT_LEN];
    TDDFA::new(mean, std, u_base, w_shp, w_exp, 120).unwrap()
}

fn fx_to_f64(v: i64) -> f64 {
    (v as f64) / 65536.0
}

#[test]
fn end_to_end_synthetic_session() {
    // Start tracking with camera index 0, a fixed synthetic frame source,
    // min_cutoff = 1.0, beta = 0, destination 127.0.0.1:4242.  After N
    // ticks, N payloads of 48 bytes each have been produced, with
    // yaw/pitch/roll decoding to plausible values.
    let cfg = SessionConfig {
        camera_index: 0,
        min_cutoff: FX,
        beta: 0,
        fps: 60,
        ip: [127, 0, 0, 1],
        port: 4242,
    };
    let mut session = Session::new();
    assert!(session.request_start(cfg));

    // Constructing the sub-components succeeds, so the loop starts.
    let engine = synthetic_engine();
    let mut head_pose = ProcessHeadPose::new(engine);
    let mut filter = EuroDataFilter::new(cfg.min_cutoff, cfg.beta);
    session.mark_running();
    assert_eq!(session.phase, Phase::Running);

    let period = period_ms(cfg.fps);
    assert_eq!(period, 16);

    // The synthetic frame source always yields the same raw model output.
    let raw = vec![0i64; PARAM_LEN];

    let n_ticks = 10;
    let mut payloads: Vec<Vec<u8>> = Vec::new();
    for _ in 0..n_ticks {
        assert!(session.is_running());
        let data = head_pose.single_iter(&raw).unwrap();
        let arr: [i64; 6] = [data[0], data[1], data[2], data[3], data[4], data[5]];
        let filtered = filter.filter_data(&arr, None, None);
        let bits: [u64; 6] = [
            fx_to_f64(filtered[0]).to_bits(),
            fx_to_f64(filtered[1]).to_bits(),
            fx_to_f64(filtered[2]).to_bits(),
            fx_to_f64(filtered[3]).to_bits(),
            fx_to_f64(filtered[4]).to_bits(),
            fx_to_f64(filtered[5]).to_bits(),
        ];
        payloads.push(emit(&bits));
    }

    assert_eq!(payloads.len(), n_ticks);
    for p in &payloads {
        assert_eq!(p.len(), 48);
        let words = decode(p);
        let yaw = f64::from_bits(words[3]);
        let pitch = f64::from_bits(words[4]);
        let roll = f64::from_bits(words[5]);
        let pi = 3.1415926535897932;
        assert!(yaw.abs() <= pi);
        assert!(pitch.abs() <= pi);
        assert!(roll.abs() <= pi);
    }

    assert!(session.request_stop());
    session.finish_join();
    assert_eq!(session.phase, Phase::Idle);
}

#[test]
fn degenerate_first_cycle_skips_without_ending_session() {
    // A degenerate first-cycle face box yields InvalidRoi; the
    // orchestrator skips the tick and the session keeps running.
    let engine = synthetic_engine();
    let mut head_pose = ProcessHeadPose::new(engine);
    head_pose.face_box = [0, 0, 0, 0];
    let raw = vec![0i64; PARAM_LEN];
    let e = head_pose.single_iter(&raw).unwrap_err();
    assert_eq!(e, TrackError::InvalidRoi);
    assert!(!e.is_fatal());

    let cfg = SessionConfig {
        camera_index: 0,
        min_cutoff: FX,
        beta: 0,
        fps: 60,
        ip: [127, 0, 0, 1],
        port: 4242,
    };
    let mut session = Session::new();
    assert!(session.request_start(cfg));
    session.mark_running();
    session.on_tick_error(e);
    assert_eq!(session.phase, Phase::Running);
    assert!(session.is_running());
}
