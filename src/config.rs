//! Process-wide configuration, read once at startup.
use vstd::prelude::*;

use crate::decimal::{parse_u16, parse_u16_spec};

verus! {

/// The port the session API listens on when none is configured.
pub const DEFAULT_SERVER_PORT: u16 = 8080;

/// Settings of the session API and of the workers it starts.
pub struct Config {
    /// Proving-mode selector handed to each worker.
    pub sp1_prover: String,
    /// Credential handed to each worker.
    pub sp1_private_key: String,
    pub server_port: u16,
}

impl Config {
    /// The configuration from the values of `SP1_PROVER`, `SP1_PRIVATE_KEY`
    /// and `SERVER_PORT` (`None` where one is unset): the mode defaults to
    /// `local`, the credential to empty, and a port that is missing or does
    /// not parse to 8080.
    pub fn new(
        sp1_prover: Option<String>,
        sp1_private_key: Option<String>,
        server_port: Option<String>,
    ) -> (r: Config)
        ensures
            r.sp1_prover@ == match sp1_prover {
                Some(s) => s@,
                None => "local"@,
            },
            r.sp1_private_key@ == match sp1_private_key {
                Some(s) => s@,
                None => Seq::<char>::empty(),
            },
            r.server_port == match server_port {
                Some(s) => match parse_u16_spec(s@) {
                    Some(p) => p,
                    None => DEFAULT_SERVER_PORT,
                },
                None => DEFAULT_SERVER_PORT,
            },
    {
        let sp1_prover = match sp1_prover {
            Some(s) => s,
            None => "local".to_owned(),
        };
        let sp1_private_key = match sp1_private_key {
            Some(s) => s,
            None => String::new(),
        };
        let server_port = match server_port {
            Some(s) => match parse_u16(s.as_str()) {
                Some(p) => p,
                None => DEFAULT_SERVER_PORT,
            },
            None => DEFAULT_SERVER_PORT,
        };
        Config { sp1_prover, sp1_private_key, server_port }
    }
}

/// Sizing and timing of the warm pool and the idle reaper, in milliseconds.
pub struct PoolConfig {
    /// The most warm workers kept ready.
    pub capacity: usize,
    /// Pause between two replenishments; it also gives a new worker time to
    /// start before the next one is launched.
    pub maintenance_interval_ms: u64,
    /// A session idle for longer than this is reaped.
    pub idle_timeout_ms: u64,
    /// Pause between two reaper sweeps.
    pub reap_interval_ms: u64,
}

impl Default for PoolConfig {
    /// Three warm workers, replenished every 100 ms; sessions idle for an
    /// hour are reaped by a sweep every five minutes.
    fn default() -> (r: PoolConfig)
        ensures
            r.capacity == 3,
            r.maintenance_interval_ms == 100,
            r.idle_timeout_ms == 3_600_000,
            r.reap_interval_ms == 300_000,
    {
        PoolConfig {
            capacity: 3,
            maintenance_interval_ms: 100,
            idle_timeout_ms: 3_600_000,
            reap_interval_ms: 300_000,
        }
    }
}

} // verus!
