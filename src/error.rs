use vstd::prelude::*;

verus! {

/// Failures of the session API.
#[derive(Debug)]
pub enum ServerError {
    /// A worker could not be started (or its port was already taken).
    ProverCreationError(String),
    /// No free port could be obtained for a new worker.
    PortError(String),
    /// The session id names no live session.
    SessionNotFound(String),
    /// Anything else, such as a failed process kill.
    Internal(String),
}

impl ServerError {
    /// The HTTP status the API answers this error with.
    pub fn status_code(&self) -> (r: u16)
        ensures
            r == match self {
                ServerError::SessionNotFound(_) => 404u16,
                ServerError::ProverCreationError(_) | ServerError::PortError(_) => 503u16,
                ServerError::Internal(_) => 500u16,
            },
    {
        match self {
            ServerError::SessionNotFound(_) => 404,
            ServerError::ProverCreationError(_) | ServerError::PortError(_) => 503,
            ServerError::Internal(_) => 500,
        }
    }
    /// The text the API reports for this error.
    pub fn message(&self) -> (r: String)
        ensures
            r@ == match self {
                ServerError::ProverCreationError(d) => "Failed to create prover instance: "@ + d@,
                ServerError::PortError(d) => "Failed to find available port: "@ + d@,
                ServerError::SessionNotFound(d) => "Session not found: "@ + d@,
                ServerError::Internal(d) => "Internal server error: "@ + d@,
            },
    {
        match self {
            ServerError::ProverCreationError(d) => "Failed to create prover instance: ".to_owned().concat(
                d.as_str(),
            ),
            ServerError::PortError(d) => "Failed to find available port: ".to_owned().concat(
                d.as_str(),
            ),
            ServerError::SessionNotFound(d) => "Session not found: ".to_owned().concat(d.as_str()),
            ServerError::Internal(d) => "Internal server error: ".to_owned().concat(d.as_str()),
        }
    }
}

} // verus!
