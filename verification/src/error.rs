use std::sync::atomic::AtomicBool;
use std::time::Duration;
use vstd::prelude::*;

verus! {

/// Operating-system failures are carried through unchanged.
#[verifier::external_type_specification]
#[verifier::external_body]
pub struct ExIoError(std::io::Error);

/// Result of a successful export.
#[derive(Clone, Copy, Debug, Eq, PartialEq, Structural)]
pub struct ExportOutcome {
    pub used_hardware_encoder: bool,
}

/// Notifications of a background export.
#[derive(Debug)]
pub enum ExportEvent {
    Progress(Duration),
    Finished(Result<ExportOutcome, ExportError>),
}

/// Why an export did not publish its target.
#[derive(Debug)]
pub enum ExportError {
    /// The export target must differ from the source path.
    SameAsSource,
    /// Trim times must be non-negative and start must be earlier than end.
    InvalidTrim,
    /// Timeline edits require a known duration and valid nonempty source intervals.
    InvalidTimeline,
    /// The encoder process could not be started.
    Start(std::io::Error),
    /// The export failed with the given message.
    Failed(String),
    /// The export was cancelled; existing files were not changed.
    Cancelled,
    /// The output could not be prepared or published.
    Output(std::io::Error),
}

/// Stops work once the shared flag has been raised. The flag is written by
/// another thread, so nothing is known of its value in advance.
pub fn check_cancelled(cancelled: &AtomicBool) -> (r: Result<(), ExportError>)
    ensures
        r is Ok || r matches Err(ExportError::Cancelled),
{
    cancellation(cancelled.load(std::sync::atomic::Ordering::Relaxed))
}

/// The outcome of a cancellation check on the flag's value: cancelled
/// exactly when the flag was raised.
pub fn cancellation(raised: bool) -> (r: Result<(), ExportError>)
    ensures
        raised ==> r matches Err(ExportError::Cancelled),
        !raised ==> r is Ok,
{
    if raised {
        Err(ExportError::Cancelled)
    } else {
        Ok(())
    }
}

} // verus!
