use prover_pool::worker::{HandlerError, ProverConfig, Prover, ServerConfig, ServerError};

fn args(list: &[&str]) -> Vec<String> {
    list.iter().map(|s| s.to_string()).collect()
}

#[test]
fn port_from_command_line() {
    assert_eq!(ServerConfig::from_args(&args(&["prover", "--port", "5123"])).port, 5123);
    assert_eq!(ServerConfig::from_args(&args(&["prover"])).port, 8080);
    assert_eq!(ServerConfig::from_args(&args(&["prover", "--port"])).port, 8080);
    assert_eq!(ServerConfig::from_args(&args(&["prover", "--port", "x"])).port, 8080);
    assert_eq!(
        ServerConfig::from_args(&args(&["prover", "--port", "1", "--port", "2"])).port,
        1
    );
    assert_eq!(ServerConfig::from_args(&args(&["prover"])).max_file_size, 5_000_000);
}

#[test]
fn server_config_default() {
    let c = ServerConfig::default();
    assert_eq!(c.port, 8080);
    assert_eq!(c.max_file_size, 5_000_000);
}

#[test]
fn prover_config() {
    let c = ProverConfig::new("http://node".to_string());
    assert_eq!(c.port, 8080);
    assert_eq!(c.max_file_size, 5_000_000);
    assert_eq!(c.hyle_base_path, "http://node");
    assert_eq!(c.proof_output_path, "proof-with-pis.bin");
}

#[test]
fn prover_selection() {
    assert!(matches!(Prover::from_str("network"), Prover::Network));
    assert!(matches!(Prover::from_str("NetWork"), Prover::Network));
    assert!(matches!(Prover::from_str("local"), Prover::Local));
    assert!(matches!(Prover::from_str("networks"), Prover::Local));
}

#[test]
fn upload_errors() {
    let e = HandlerError::InvalidFileType("text/plain".into());
    assert_eq!(e.status_code(), 400);
    assert_eq!(e.message(), "Invalid file type: text/plain");
    let e = HandlerError::FileReadError("eof".into());
    assert_eq!(e.status_code(), 400);
    assert_eq!(e.message(), "Error reading file: eof");
    let e = HandlerError::ProofGenerationError("boom".into());
    assert_eq!(e.status_code(), 500);
    assert_eq!(e.message(), "Error generating proof: boom");
}

#[test]
fn server_error_responses() {
    let (code, msg) = ServerError::InvalidFileType("a".into()).response();
    assert_eq!((code, msg.as_str()), (400, "Invalid file type: a"));
    let (code, msg) = ServerError::FileReadError("b".into()).response();
    assert_eq!((code, msg.as_str()), (400, "Error reading file: b"));
    let (code, msg) = ServerError::Internal("secret detail".into()).response();
    assert_eq!((code, msg.as_str()), (500, "Internal Server Error"));
}

#[test]
fn prover_selection_after_lowering() {
    assert!(matches!(Prover::from_lowercase("network"), Prover::Network));
    assert!(matches!(Prover::from_lowercase("Network"), Prover::Local));
    assert!(matches!(Prover::from_lowercase(""), Prover::Local));
}
