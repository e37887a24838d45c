//! Error taxonomy of the capture-and-annotate core.

use vstd::prelude::*;

verus! {

/// Errors surfaced to the caller as typed results.
///
/// `NoDisplaysCaptured` is fatal to a capture attempt (retryable);
/// `SelectionTooSmall` and `InvalidCropRegion` are non-fatal and leave all
/// state unchanged; `SaveIoError` is fatal to a save operation only and is
/// produced by the unverified persistence layer around this crate.
#[derive(Clone, Copy, Debug, PartialEq, Eq, Structural)]
pub enum CoreError {
    NoDisplaysCaptured,
    SelectionTooSmall,
    InvalidCropRegion,
    SaveIoError,
}

} // verus!
