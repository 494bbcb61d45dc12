//! How a worker process is launched: program, arguments and environment.
use vstd::prelude::*;

use crate::config::Config;
use crate::decimal::{decimal_digits, decimal_text};

verus! {

/// Where the worker executable lives, relative to the manager's directory.
pub const WORKER_PROGRAM: &'static str = "../prover/target/release/prover";

/// Everything needed to start one worker process.
pub struct WorkerLaunch {
    pub program: String,
    pub args: Vec<String>,
    pub envs: Vec<(String, String)>,
}

/// The launch of a worker bound to `port`: `--port <port>`, with the proving
/// mode and credential of `config` and `info` logging in its environment.
pub fn worker_launch(config: &Config, port: u16) -> (r: WorkerLaunch)
    ensures
        r.program@ == WORKER_PROGRAM@,
        r.args@.len() == 2,
        r.args@[0]@ == "--port"@,
        r.args@[1]@ == decimal_digits(port as nat),
        r.envs@.len() == 3,
        r.envs@[0].0@ == "SP1_PROVER"@,
        r.envs@[0].1@ == config.sp1_prover@,
        r.envs@[1].0@ == "SP1_PRIVATE_KEY"@,
        r.envs@[1].1@ == config.sp1_private_key@,
        r.envs@[2].0@ == "RUST_LOG"@,
        r.envs@[2].1@ == "info"@,
{
    let mut args: Vec<String> = Vec::new();
    args.push("--port".to_owned());
    args.push(decimal_text(port as u64));
    let mut envs: Vec<(String, String)> = Vec::new();
    envs.push(("SP1_PROVER".to_owned(), config.sp1_prover.clone()));
    envs.push(("SP1_PRIVATE_KEY".to_owned(), config.sp1_private_key.clone()));
    envs.push(("RUST_LOG".to_owned(), "info".to_owned()));
    WorkerLaunch { program: WORKER_PROGRAM.to_owned(), args, envs }
}

} // verus!
