use ambilight::session::{pacing_delay, CaptureSession, SessionAction, SessionEvent, SessionState, FRAME_INTERVAL_MICROS};

#[test]
fn pacing_fills_the_interval() {
    assert_eq!(pacing_delay(6666, FRAME_INTERVAL_MICROS), 10000);
    assert_eq!(pacing_delay(0, FRAME_INTERVAL_MICROS), 16666);
}

#[test]
fn pacing_never_sleeps_when_late() {
    assert_eq!(pacing_delay(16666, FRAME_INTERVAL_MICROS), 0);
    assert_eq!(pacing_delay(40000, FRAME_INTERVAL_MICROS), 0);
    assert_eq!(pacing_delay(u128::MAX, FRAME_INTERVAL_MICROS), 0);
}

#[test]
fn pacing_period_converges_to_target() {
    // Work of varying length below the budget: work + sleep is always the target.
    for work in [1u128, 500, 9000, 16665] {
        assert_eq!(work + pacing_delay(work, FRAME_INTERVAL_MICROS) as u128, 16666);
    }
}

#[test]
fn toggle_twice_never_starts_twice() {
    let mut s = CaptureSession::new();
    assert_eq!(s.handle(SessionEvent::Toggle), SessionAction::Acquire);
    assert_eq!(s.state, SessionState::Starting);
    assert_eq!(s.handle(SessionEvent::Toggle), SessionAction::Nothing);
    assert_eq!(s.state, SessionState::Starting);
    assert_eq!(s.handle(SessionEvent::Acquired), SessionAction::Nothing);
    assert_eq!(s.handle(SessionEvent::Toggle), SessionAction::Release);
    assert_eq!(s.state, SessionState::Stopping);
    assert_eq!(s.handle(SessionEvent::Toggle), SessionAction::Nothing);
}

#[test]
fn session_full_lifecycle() {
    let mut s = CaptureSession::new();
    assert!(!s.is_active());
    assert_eq!(s.handle(SessionEvent::Toggle), SessionAction::Acquire);
    assert!(s.is_active());
    assert_eq!(s.handle(SessionEvent::Acquired), SessionAction::Nothing);
    assert_eq!(s.state, SessionState::Running);
    assert_eq!(s.handle(SessionEvent::Toggle), SessionAction::Release);
    assert!(s.is_active());
    assert_eq!(s.handle(SessionEvent::Released), SessionAction::NotifyStopped);
    assert_eq!(s.state, SessionState::Stopped);
    assert!(!s.is_active());
    assert_eq!(s.handle(SessionEvent::Toggle), SessionAction::Acquire);
}

#[test]
fn acquire_failure_returns_to_idle() {
    let mut s = CaptureSession::new();
    s.handle(SessionEvent::Toggle);
    assert_eq!(s.handle(SessionEvent::AcquireFailed), SessionAction::ReportAcquireError);
    assert_eq!(s.state, SessionState::Idle);
    assert!(!s.is_active());
}

#[test]
fn transport_failure_aborts_session() {
    let mut s = CaptureSession::new();
    s.handle(SessionEvent::Toggle);
    s.handle(SessionEvent::Acquired);
    assert_eq!(s.handle(SessionEvent::FrameFailed), SessionAction::Abort);
    assert_eq!(s.state, SessionState::Stopping);
    assert_eq!(s.handle(SessionEvent::Released), SessionAction::NotifyStopped);
    assert_eq!(s.state, SessionState::Stopped);
}

#[test]
fn source_closure_stops_session() {
    let mut s = CaptureSession::new();
    s.handle(SessionEvent::Toggle);
    s.handle(SessionEvent::Acquired);
    assert_eq!(s.handle(SessionEvent::SourceClosed), SessionAction::Release);
    assert_eq!(s.handle(SessionEvent::Released), SessionAction::NotifyStopped);
    assert_eq!(s.state, SessionState::Stopped);
}

#[test]
fn stray_events_are_ignored() {
    let mut s = CaptureSession::new();
    assert_eq!(s.handle(SessionEvent::Released), SessionAction::Nothing);
    assert_eq!(s.handle(SessionEvent::FrameFailed), SessionAction::Nothing);
    assert_eq!(s.handle(SessionEvent::Acquired), SessionAction::Nothing);
    assert_eq!(s.state, SessionState::Idle);
}
