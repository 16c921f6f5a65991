//! Error types surfaced by the supervisor's command surface.

use vstd::prelude::*;

verus! {

/// Typed failure of a PTY session operation.
///
/// Spawn and validation failures carry a caller-visible description;
/// an operation addressed to a session id that is not registered fails
/// with `SessionNotFound`.
#[derive(Debug)]
pub enum PtyError {
    /// The shell could not be spawned (bad working directory, OS error).
    SpawnFailed(String),
    /// Resize dimensions were rejected before touching the OS layer.
    ResizeFailed(String),
    /// Writing to the PTY failed.
    WriteFailed(String),
    /// The addressed session is not registered.
    SessionNotFound(u32),
}

impl PtyError {
    /// A user-visible description of the failure.
    pub fn message(&self) -> (r: String)
        ensures
            r@ == self.spec_message(),
    {
        match self {
            PtyError::SpawnFailed(m) => m.clone(),
            PtyError::ResizeFailed(m) => m.clone(),
            PtyError::WriteFailed(m) => m.clone(),
            PtyError::SessionNotFound(_) => String::from_str("unknown session"),
        }
    }

    pub open spec fn spec_message(&self) -> Seq<char> {
        match self {
            PtyError::SpawnFailed(m) => m@,
            PtyError::ResizeFailed(m) => m@,
            PtyError::WriteFailed(m) => m@,
            PtyError::SessionNotFound(_) => "unknown session"@,
        }
    }
}

} // verus!
