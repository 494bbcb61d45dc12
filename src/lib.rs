//! Session pool manager for prover workers: a bounded warm pool of
//! pre-started workers, a registry of client sessions, and an idle reaper,
//! with the rules that hand workers between them proved. Also the pieces
//! of the worker side that are plain logic: its command line, its error
//! answers, and the document check it applies.

pub mod config;
pub mod decimal;
pub mod error;
pub mod laws;
pub mod models;
pub mod server_manager;
pub mod spawn;

pub mod document;
pub mod worker;
