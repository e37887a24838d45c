//! The capture session as an explicit state machine.
//!
//! The application drives the machine with events; all decisions live here,
//! while the blocking work (the OS screen grab, the file write) happens
//! outside and reports back as an event. The machine enforces the ordering
//! guarantee that annotation input is never accepted before a stitched
//! raster has been installed: the only way into `Annotating` is a delivered
//! capture (`lemma_annotating_needs_delivery`).

use vstd::prelude::*;

verus! {

/// What kind of capture the caller requested.
#[derive(Clone, Copy, Debug, PartialEq, Eq, Structural)]
pub enum ScreenshotType {
    FullScreen,
    PartialScreen,
}

/// The states a capture session moves through.
#[derive(Clone, Copy, Debug, PartialEq, Eq, Structural)]
pub enum SessionState {
    /// Nothing in flight; annotation is possible only after a capture.
    Idle,
    /// The user is dragging a selection rectangle.
    Selecting,
    /// A capture request is running off the interactive thread.
    Capturing,
    /// A stitched raster is installed and accepts annotation input.
    Annotating,
    /// The annotated raster is being persisted.
    Saving,
}

/// The events the application reports to the machine.
#[derive(Clone, Copy, Debug, PartialEq, Eq, Structural)]
pub enum SessionEvent {
    /// The user asked for a capture of the given kind.
    CaptureRequested(ScreenshotType),
    /// A partial-screen drag produced an accepted selection.
    SelectionChosen,
    /// The selection was rejected or abandoned; the user may retry.
    SelectionAborted,
    /// The off-thread capture delivered a stitched raster.
    CaptureDelivered,
    /// Every monitor failed; the attempt is retryable.
    CaptureFailed,
    /// The user asked to persist the annotated raster.
    SaveRequested,
    /// The save finished, successfully or not; both return to annotation.
    SaveFinished,
}

/// The next state after an event. A full-screen request captures at once; a
/// partial-screen request first selects. Events that make no sense in the
/// current state leave it unchanged.
pub open spec fn session_step(s: SessionState, e: SessionEvent) -> SessionState {
    match (s, e) {
        (SessionState::Idle, SessionEvent::CaptureRequested(ScreenshotType::FullScreen)) =>
            SessionState::Capturing,
        (SessionState::Idle, SessionEvent::CaptureRequested(ScreenshotType::PartialScreen)) =>
            SessionState::Selecting,
        (SessionState::Annotating, SessionEvent::CaptureRequested(ScreenshotType::FullScreen)) =>
            SessionState::Capturing,
        (
            SessionState::Annotating,
            SessionEvent::CaptureRequested(ScreenshotType::PartialScreen),
        ) => SessionState::Selecting,
        (SessionState::Selecting, SessionEvent::SelectionChosen) => SessionState::Capturing,
        (SessionState::Selecting, SessionEvent::SelectionAborted) => SessionState::Idle,
        (SessionState::Capturing, SessionEvent::CaptureDelivered) => SessionState::Annotating,
        (SessionState::Capturing, SessionEvent::CaptureFailed) => SessionState::Idle,
        (SessionState::Annotating, SessionEvent::SaveRequested) => SessionState::Saving,
        (SessionState::Saving, SessionEvent::SaveFinished) => SessionState::Annotating,
        _ => s,
    }
}

/// Drive the machine one step.
pub fn session_next(s: SessionState, e: SessionEvent) -> (r: SessionState)
    ensures
        r == session_step(s, e),
{
    match (s, e) {
        (SessionState::Idle, SessionEvent::CaptureRequested(ScreenshotType::FullScreen)) =>
            SessionState::Capturing,
        (SessionState::Idle, SessionEvent::CaptureRequested(ScreenshotType::PartialScreen)) =>
            SessionState::Selecting,
        (SessionState::Annotating, SessionEvent::CaptureRequested(ScreenshotType::FullScreen)) =>
            SessionState::Capturing,
        (
            SessionState::Annotating,
            SessionEvent::CaptureRequested(ScreenshotType::PartialScreen),
        ) => SessionState::Selecting,
        (SessionState::Selecting, SessionEvent::SelectionChosen) => SessionState::Capturing,
        (SessionState::Selecting, SessionEvent::SelectionAborted) => SessionState::Idle,
        (SessionState::Capturing, SessionEvent::CaptureDelivered) => SessionState::Annotating,
        (SessionState::Capturing, SessionEvent::CaptureFailed) => SessionState::Idle,
        (SessionState::Annotating, SessionEvent::SaveRequested) => SessionState::Saving,
        (SessionState::Saving, SessionEvent::SaveFinished) => SessionState::Annotating,
        _ => s,
    }
}

/// The ordering guarantee: a session that was not already annotating (or
/// saving what it annotates) enters `Annotating` only through a delivered
/// capture. Annotation input therefore never precedes an installed raster.
pub proof fn lemma_annotating_needs_delivery(s: SessionState, e: SessionEvent)
    requires
        s != SessionState::Annotating,
        s != SessionState::Saving,
        session_step(s, e) == SessionState::Annotating,
    ensures
        s == SessionState::Capturing && e == SessionEvent::CaptureDelivered,
{
}

} // verus!
