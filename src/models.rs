use vstd::prelude::*;

verus! {

/// A worker assigned to a session.
///
/// `process` is the handle of the external worker process; the library only
/// moves it around, and whoever receives it back from the manager is the one
/// that terminates it.
pub struct ProverInstance<W> {
    pub process: W,
    pub port: u16,
    /// Milliseconds on the caller's monotonic clock.
    pub last_active: u64,
    /// Whether the worker was taken from the warm pool, and so still holds
    /// one unit of the pool's capacity until it is terminated.
    pub from_pool: bool,
}

/// What a client gets back when a session is created.
#[derive(Debug)]
pub struct SessionResponse {
    pub session_id: String,
    pub prover_port: u16,
}

} // verus!
