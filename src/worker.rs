//! Settings, answers and errors of the worker process that a session
//! addresses: it listens on the port given by `--port` and turns uploaded
//! documents into proofs.
use vstd::prelude::*;

use crate::decimal::{parse_u16, parse_u16_spec};

verus! {

/// The port a worker listens on when none is given.
pub const DEFAULT_WORKER_PORT: u16 = 8080;

/// The largest upload a worker accepts, in bytes.
pub const MAX_FILE_SIZE: u64 = 5_000_000;

/// Settings of the worker's HTTP server.
#[derive(Debug)]
pub struct ServerConfig {
    pub port: u16,
    pub max_file_size: u64,
}

/// The position of the first `--port` among `args`.
pub open spec fn port_flag_index(args: Seq<Seq<char>>) -> Option<int> {
    if exists|i: int| 0 <= i < args.len() && args[i] == "--port"@ {
        Some(
            choose|i: int|
                0 <= i < args.len() && args[i] == "--port"@ && forall|j: int|
                    0 <= j < i ==> args[j] != "--port"@,
        )
    } else {
        None
    }
}

/// The port that the command line `args` asks for: the argument after the
/// first `--port`, when there is one and it parses.
pub open spec fn port_from_args(args: Seq<Seq<char>>) -> u16 {
    match port_flag_index(args) {
        Some(i) if i + 1 < args.len() => match parse_u16_spec(args[i + 1]) {
            Some(p) => p,
            None => DEFAULT_WORKER_PORT,
        },
        _ => DEFAULT_WORKER_PORT,
    }
}

impl Default for ServerConfig {
    fn default() -> (r: ServerConfig)
        ensures
            r.port == DEFAULT_WORKER_PORT,
            r.max_file_size == MAX_FILE_SIZE,
    {
        ServerConfig { port: DEFAULT_WORKER_PORT, max_file_size: MAX_FILE_SIZE }
    }
}

impl ServerConfig {
    /// The settings for the command line `args` (program name included).
    pub fn from_args(args: &Vec<String>) -> (r: ServerConfig)
        ensures
            r.port == port_from_args(args@.map_values(|a: String| a@)),
            r.max_file_size == MAX_FILE_SIZE,
    {
        let ghost view = args@.map_values(|a: String| a@);
        let flag = "--port".to_owned();
        let mut i: usize = 0;
        while i < args.len()
            invariant
                i <= args@.len(),
                view == args@.map_values(|a: String| a@),
                flag@ == "--port"@,
                forall|j: int| 0 <= j < i ==> view[j] != "--port"@,
            ensures
                i <= args@.len(),
                forall|j: int| 0 <= j < i ==> view[j] != "--port"@,
                i < args@.len() ==> view[i as int] == "--port"@,
            decreases args@.len() - i,
        {
            if args[i] == flag {
                break;
            }
            i += 1;
        }
        let port = if i < args.len() {
            proof {
                assert(view[i as int] == "--port"@);
                let k = port_flag_index(view)->0;
                assert(port_flag_index(view) == Some(i as int)) by {
                    assert(0 <= k < view.len() && view[k] == "--port"@);
                    if k < i {
                    } else if k > i {
                        assert(view[i as int] == "--port"@);
                    }
                }
            }
            if i + 1 < args.len() {
                match parse_u16(args[i + 1].as_str()) {
                    Some(p) => p,
                    None => DEFAULT_WORKER_PORT,
                }
            } else {
                DEFAULT_WORKER_PORT
            }
        } else {
            DEFAULT_WORKER_PORT
        };
        ServerConfig { port, max_file_size: MAX_FILE_SIZE }
    }
}

/// Settings of the worker variant that also submits proofs to a chain node.
pub struct ProverConfig {
    pub max_file_size: u64,
    pub port: u16,
    pub hyle_base_path: String,
    pub proof_output_path: String,
}

impl ProverConfig {
    /// The defaults, with the node address taken from `HYLE_BASE_PATH`.
    pub fn new(hyle_base_path: String) -> (r: ProverConfig)
        ensures
            r.max_file_size == MAX_FILE_SIZE,
            r.port == DEFAULT_WORKER_PORT,
            r.hyle_base_path@ == hyle_base_path@,
            r.proof_output_path@ == "proof-with-pis.bin"@,
    {
        ProverConfig {
            max_file_size: MAX_FILE_SIZE,
            port: DEFAULT_WORKER_PORT,
            hyle_base_path,
            proof_output_path: "proof-with-pis.bin".to_owned(),
        }
    }
}

/// A proof returned for an uploaded document.
pub struct ProofResponse {
    pub success: bool,
    /// What the document check concluded.
    pub result: bool,
    pub proof: Vec<u8>,
    pub tx_hash: String,
    /// The verification key of the proving program.
    pub vk: String,
}

/// Failures of an upload.
#[derive(Debug)]
pub enum HandlerError {
    InvalidFileType(String),
    FileReadError(String),
    ProofGenerationError(String),
}

impl HandlerError {
    /// The HTTP status an upload fails with.
    pub fn status_code(&self) -> (r: u16)
        ensures
            r == match self {
                HandlerError::ProofGenerationError(_) => 500u16,
                _ => 400u16,
            },
    {
        match self {
            HandlerError::ProofGenerationError(_) => 500,
            _ => 400,
        }
    }

    /// The text an upload fails with.
    pub fn message(&self) -> (r: String)
        ensures
            r@ == match self {
                HandlerError::InvalidFileType(t) => "Invalid file type: "@ + t@,
                HandlerError::FileReadError(e) => "Error reading file: "@ + e@,
                HandlerError::ProofGenerationError(e) => "Error generating proof: "@ + e@,
            },
    {
        match self {
            HandlerError::InvalidFileType(t) => "Invalid file type: ".to_owned().concat(t.as_str()),
            HandlerError::FileReadError(e) => "Error reading file: ".to_owned().concat(e.as_str()),
            HandlerError::ProofGenerationError(e) => "Error generating proof: ".to_owned().concat(
                e.as_str(),
            ),
        }
    }
}

/// Failures of the worker's HTTP server.
#[derive(Debug)]
pub enum ServerError {
    ProverCreationError(String),
    PortError(String),
    SessionNotFound(String),
    InvalidFileType(String),
    FileReadError(String),
    Internal(String),
}

impl ServerError {
    /// The HTTP status and text a request fails with; details of internal
    /// failures are not shown.
    pub fn response(&self) -> (r: (u16, String))
        ensures
            match self {
                ServerError::InvalidFileType(t) => r.0 == 400 && r.1@ == "Invalid file type: "@
                    + t@,
                ServerError::FileReadError(e) => r.0 == 400 && r.1@ == "Error reading file: "@
                    + e@,
                _ => r.0 == 500 && r.1@ == "Internal Server Error"@,
            },
    {
        match self {
            ServerError::InvalidFileType(t) => (
                400,
                "Invalid file type: ".to_owned().concat(t.as_str()),
            ),
            ServerError::FileReadError(e) => (400, "Error reading file: ".to_owned().concat(e.as_str())),
            _ => (500, "Internal Server Error".to_owned()),
        }
    }
}

/// Where proofs are computed.
#[derive(Debug)]
pub enum Prover {
    Local,
    Network,
}

/// The lower-case form of `s`, as `str::to_lowercase` gives it.
pub uninterp spec fn lower_of(s: Seq<char>) -> Seq<char>;

/// Relies on `str::to_lowercase`: the result depends on the characters of
/// `s` alone.
#[verifier::external_body]
fn lowercase(s: &str) -> (r: String)
    ensures
        r@ == lower_of(s@),
{
    s.to_lowercase()
}

impl Prover {
    /// The prover that a lower-case mode selector names: `network` is the
    /// proving network; anything else is local.
    pub fn from_lowercase(lower: &str) -> (r: Prover)
        ensures
            r == if lower@ == "network"@ {
                Prover::Network
            } else {
                Prover::Local
            },
    {
        let lower = lower.to_owned();
        let network = "network".to_owned();
        if lower == network {
            Prover::Network
        } else {
            Prover::Local
        }
    }

    /// The prover that a mode selector names, in any case.
    pub fn from_str(s: &str) -> (r: Prover)
        ensures
            r == if lower_of(s@) == "network"@ {
                Prover::Network
            } else {
                Prover::Local
            },
    {
        let lower = lowercase(s);
        Prover::from_lowercase(lower.as_str())
    }
}

} // verus!
