//! Error taxonomy of the recording coordinator.

use vstd::prelude::*;

verus! {

/// Every failure a public operation can report.
#[derive(Clone, Copy, Debug, PartialEq, Eq, Structural)]
pub enum RecError {
    /// `start` was called while a session was already active.
    AlreadyRecording,
    /// `stop` was called while no session was active.
    NotRecording,
    /// The submitted options structure was malformed.
    InvalidOptions,
    /// The external encoder process could not be spawned.
    EncoderLaunch,
    /// A filesystem create/read/write/delete failed, or an existing
    /// metadata file was present but corrupt.
    Filesystem,
    /// A helper tool (device listing, disk query) could not be run.
    ToolInvocation,
}

/// The wording of each error, as shown to a caller.
pub open spec fn spec_label(e: RecError) -> Seq<char> {
    match e {
        RecError::AlreadyRecording => "Already recording"@,
        RecError::NotRecording => "Not recording"@,
        RecError::InvalidOptions => "Invalid options"@,
        RecError::EncoderLaunch => "Failed to start encoder"@,
        RecError::Filesystem => "Filesystem error"@,
        RecError::ToolInvocation => "Failed to run helper tool"@,
    }
}

impl RecError {
    /// A short human-readable message for this error.
    pub fn label(&self) -> (r: String)
        ensures
            r@ == spec_label(*self),
    {
        match self {
            RecError::AlreadyRecording => "Already recording".to_owned(),
            RecError::NotRecording => "Not recording".to_owned(),
            RecError::InvalidOptions => "Invalid options".to_owned(),
            RecError::EncoderLaunch => "Failed to start encoder".to_owned(),
            RecError::Filesystem => "Filesystem error".to_owned(),
            RecError::ToolInvocation => "Failed to run helper tool".to_owned(),
        }
    }
}

} // verus!
