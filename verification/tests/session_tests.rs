//! Session state machine and rate control tests.

use head_tracker::errors::TrackError;
use head_tracker::orchestrator::{period_ms, sleep_ms, Phase, Session, SessionConfig};

fn config() -> SessionConfig {
    SessionConfig {
        camera_index: 0,
        min_cutoff: 65536,
        beta: 0,
        fps: 60,
        ip: [127, 0, 0, 1],
        port: 4242,
    }
}

#[test]
fn stop_on_idle_session_is_noop() {
    // Stopping a session that never ran changes nothing and does not
    // panic.
    let mut s = Session::new();
    let was_active = s.request_stop();
    assert!(!was_active);
    assert_eq!(s.phase, Phase::Idle);
    assert!(!s.run_flag);
    assert!(s.read_last_error().is_none());
    // Stopping twice is just as harmless.
    assert!(!s.request_stop());
    assert_eq!(s.phase, Phase::Idle);
}

#[test]
fn session_lifecycle_start_stop() {
    let mut s = Session::new();
    assert!(s.request_start(config()));
    assert_eq!(s.phase, Phase::Starting);
    assert!(s.run_flag);
    // A second start while active is refused.
    assert!(!s.request_start(config()));
    s.mark_running();
    assert_eq!(s.phase, Phase::Running);
    assert!(s.is_running());
    assert!(s.request_stop());
    assert_eq!(s.phase, Phase::Stopping);
    assert!(!s.is_running());
    s.finish_join();
    assert_eq!(s.phase, Phase::Idle);
    // And stopping the now-idle session is again a no-op.
    assert!(!s.request_stop());
    assert_eq!(s.phase, Phase::Idle);
}

#[test]
fn construction_failure_faults_session() {
    let mut s = Session::new();
    assert!(s.request_start(config()));
    s.fail(TrackError::ModelLoadError);
    assert_eq!(s.phase, Phase::Faulted);
    assert!(!s.run_flag);
    assert_eq!(s.read_last_error(), Some(TrackError::ModelLoadError));
    assert!(!TrackError::ModelLoadError.message().is_empty());
    // A faulted session can be started again, which clears the error.
    assert!(s.request_start(config()));
    assert!(s.read_last_error().is_none());
}

#[test]
fn recoverable_tick_error_keeps_running() {
    let mut s = Session::new();
    assert!(s.request_start(config()));
    s.mark_running();
    s.on_tick_error(TrackError::InvalidRoi);
    assert_eq!(s.phase, Phase::Running);
    assert!(s.is_running());
    s.on_tick_error(TrackError::DecodeSkip);
    assert_eq!(s.phase, Phase::Running);
    // A send failure is fatal and winds the session down.
    s.on_tick_error(TrackError::SendFailed);
    assert_eq!(s.phase, Phase::Stopping);
    assert!(!s.is_running());
    assert_eq!(s.read_last_error(), Some(TrackError::SendFailed));
}

#[test]
fn rate_control_floor() {
    // A 60-tick target gives a 16 ms period; a 5 ms tick sleeps 11 ms, so
    // the spacing never undercuts the period.
    let period = period_ms(60);
    assert_eq!(period, 16);
    let sleep = sleep_ms(period, 5);
    assert_eq!(sleep, 11);
    assert!(5 + sleep >= period);
    // A slow tick sleeps nothing.
    assert_eq!(sleep_ms(period, 20), 0);
    assert_eq!(sleep_ms(period, 16), 0);
    // Exact bound: a zero-cost tick sleeps the whole period.
    assert_eq!(sleep_ms(period, 0), 16);
}

#[test]
fn error_taxonomy_fatality() {
    // Session-fatal errors end the session; recoverable ones only skip a
    // tick.  Every variant carries a human-readable message.
    let fatal = [
        TrackError::DeviceUnavailable,
        TrackError::ModelLoadError,
        TrackError::BindError,
        TrackError::SendFailed,
    ];
    let recoverable = [TrackError::DecodeSkip, TrackError::InvalidRoi];
    for e in fatal {
        assert!(e.is_fatal());
        assert!(!e.message().is_empty());
    }
    for e in recoverable {
        assert!(!e.is_fatal());
        assert!(!e.message().is_empty());
    }
}
