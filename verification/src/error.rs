//! The error taxonomy of the library.

use vstd::prelude::*;

verus! {

use vstd::string::StringExecFns;

/// Everything that the codec, the secret-share engine and the orchestrator
/// can report to a caller.
#[derive(Debug, Clone, PartialEq, Eq)]
pub enum Error {
    /// A byte block whose length does not match the fixed word width.
    MalformedInput,
    /// The number of blinded values differs from the number of cached masks.
    ShapeMismatch,
    /// Masked input arrived before any masks were generated for its id.
    MasksNotFound,
    /// No collaboration is registered under this identifier.
    CollaborationNotFound { collab_id: i32 },
    /// The party is already registered for this collaboration.
    DuplicateParticipant,
    /// The party never registered for this collaboration.
    ParticipantNotRegistered,
    /// No computation result exists yet for this collaboration.
    ProcessingNotFinished,
    /// A started marker already exists: another caller won the trigger race.
    AlreadyStarted,
    /// The computation engine reported a failure; the message is terminal.
    MPCExecutionFailed(String),
    /// A request that cannot be processed, with the reason.
    Unprocessable { message: String },
    /// A failure of the store itself, such as an exhausted identifier space
    /// or a dangling configuration reference.
    Internal,
}

impl Error {
    /// The HTTP-level status that stands for this error.
    pub fn status_code(&self) -> (code: u16)
        ensures
            code == match self {
                Error::MalformedInput => 422u16,
                Error::ShapeMismatch => 422u16,
                Error::MasksNotFound => 422u16,
                Error::CollaborationNotFound { .. } => 404u16,
                Error::DuplicateParticipant => 208u16,
                Error::ParticipantNotRegistered => 404u16,
                Error::ProcessingNotFinished => 409u16,
                Error::AlreadyStarted => 409u16,
                Error::MPCExecutionFailed(_) => 500u16,
                Error::Unprocessable { .. } => 422u16,
                Error::Internal => 500u16,
            },
    {
        match self {
            Error::MalformedInput => 422,
            Error::ShapeMismatch => 422,
            Error::MasksNotFound => 422,
            Error::CollaborationNotFound { .. } => 404,
            Error::DuplicateParticipant => 208,
            Error::ParticipantNotRegistered => 404,
            Error::ProcessingNotFinished => 409,
            Error::AlreadyStarted => 409,
            Error::MPCExecutionFailed(_) => 500,
            Error::Unprocessable { .. } => 422,
            Error::Internal => 500,
        }
    }

    /// A human-readable message; the execution-failure message is carried
    /// through verbatim.
    pub fn message(&self) -> (msg: String)
        ensures
            self matches Error::MPCExecutionFailed(m) ==> msg@ == "MPC execution failed: "@ + m@,
            self matches Error::ProcessingNotFinished ==> msg@ == "Not waiting"@,
            self matches Error::Unprocessable { message } ==> msg@ == message@,
    {
        match self {
            Error::MalformedInput => String::from_str("malformed input"),
            Error::ShapeMismatch => String::from_str("shape mismatch between masks and blinded values"),
            Error::MasksNotFound => String::from_str("no input masks under this id"),
            Error::CollaborationNotFound { .. } => String::from_str("collaboration not found"),
            Error::DuplicateParticipant => String::from_str("already registered as participant"),
            Error::ParticipantNotRegistered => String::from_str("participant is not registered"),
            Error::ProcessingNotFinished => String::from_str("Not waiting"),
            Error::AlreadyStarted => String::from_str("execution already started"),
            Error::MPCExecutionFailed(m) => String::from_str("MPC execution failed: ").concat(m.as_str()),
            Error::Unprocessable { message } => message.clone(),
            Error::Internal => String::from_str("internal error"),
        }
    }
}

} // verus!
