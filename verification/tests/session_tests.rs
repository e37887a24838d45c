use quickcapture::session::{session_next, ScreenshotType, SessionEvent, SessionState};

#[test]
fn full_screen_capture_flow() {
    let mut s = SessionState::Idle;
    s = session_next(s, SessionEvent::CaptureRequested(ScreenshotType::FullScreen));
    assert_eq!(s, SessionState::Capturing);
    s = session_next(s, SessionEvent::CaptureDelivered);
    assert_eq!(s, SessionState::Annotating);
    s = session_next(s, SessionEvent::SaveRequested);
    assert_eq!(s, SessionState::Saving);
    s = session_next(s, SessionEvent::SaveFinished);
    assert_eq!(s, SessionState::Annotating);
}

#[test]
fn partial_screen_goes_through_selection() {
    let mut s = SessionState::Idle;
    s = session_next(s, SessionEvent::CaptureRequested(ScreenshotType::PartialScreen));
    assert_eq!(s, SessionState::Selecting);
    s = session_next(s, SessionEvent::SelectionAborted);
    assert_eq!(s, SessionState::Idle);
    s = session_next(s, SessionEvent::CaptureRequested(ScreenshotType::PartialScreen));
    s = session_next(s, SessionEvent::SelectionChosen);
    assert_eq!(s, SessionState::Capturing);
}

#[test]
fn failed_capture_returns_to_idle() {
    let s = session_next(SessionState::Capturing, SessionEvent::CaptureFailed);
    assert_eq!(s, SessionState::Idle);
}

#[test]
fn stray_events_change_nothing() {
    assert_eq!(
        session_next(SessionState::Idle, SessionEvent::SaveRequested),
        SessionState::Idle
    );
    assert_eq!(
        session_next(SessionState::Idle, SessionEvent::CaptureDelivered),
        SessionState::Idle
    );
    assert_eq!(
        session_next(SessionState::Capturing, SessionEvent::SelectionChosen),
        SessionState::Capturing
    );
}

#[test]
fn a_new_capture_can_start_from_annotating() {
    let s = session_next(
        SessionState::Annotating,
        SessionEvent::CaptureRequested(ScreenshotType::FullScreen),
    );
    assert_eq!(s, SessionState::Capturing);
}
