use prover_pool::config::{Config, PoolConfig};
use prover_pool::decimal::parse_u16;
use prover_pool::error::ServerError;
use prover_pool::spawn::{worker_launch, WORKER_PROGRAM};

#[test]
fn error_statuses() {
    assert_eq!(ServerError::SessionNotFound("x".into()).status_code(), 404);
    assert_eq!(ServerError::ProverCreationError("x".into()).status_code(), 503);
    assert_eq!(ServerError::PortError("x".into()).status_code(), 503);
    assert_eq!(ServerError::Internal("x".into()).status_code(), 500);
}

#[test]
fn error_messages() {
    assert_eq!(
        ServerError::SessionNotFound("abc".into()).message(),
        "Session not found: abc"
    );
    assert_eq!(
        ServerError::ProverCreationError("no binary".into()).message(),
        "Failed to create prover instance: no binary"
    );
    assert_eq!(
        ServerError::PortError("busy".into()).message(),
        "Failed to find available port: busy"
    );
    assert_eq!(
        ServerError::Internal("kill".into()).message(),
        "Internal server error: kill"
    );
}

#[test]
fn config_defaults() {
    let c = Config::new(None, None, None);
    assert_eq!(c.sp1_prover, "local");
    assert_eq!(c.sp1_private_key, "");
    assert_eq!(c.server_port, 8080);
}

#[test]
fn config_values() {
    let c = Config::new(
        Some("network".into()),
        Some("SECRET-REDACTED".into()),
        Some("9090".into()),
    );
    assert_eq!(c.sp1_prover, "network");
    assert_eq!(c.sp1_private_key, "SECRET-REDACTED");
    assert_eq!(c.server_port, 9090);
    let bad = Config::new(None, None, Some("70000".into()));
    assert_eq!(bad.server_port, 8080);
    let junk = Config::new(None, None, Some("80a".into()));
    assert_eq!(junk.server_port, 8080);
}

#[test]
fn pool_config_default() {
    let p = PoolConfig::default();
    assert_eq!(p.capacity, 3);
    assert_eq!(p.maintenance_interval_ms, 100);
    assert_eq!(p.idle_timeout_ms, 3_600_000);
    assert_eq!(p.reap_interval_ms, 300_000);
}

#[test]
fn parse_u16_matches_std() {
    for s in ["0", "8080", "+42", "65535", "65536", "", "+", "-1", " 1", "1 ", "007", "99999999", "١٢"] {
        assert_eq!(parse_u16(s), s.parse::<u16>().ok(), "input {:?}", s);
    }
}

#[test]
fn worker_port_argument_is_decimal() {
    let c = Config::new(None, None, None);
    assert_eq!(worker_launch(&c, 0).args[1], "0");
    assert_eq!(worker_launch(&c, 65535).args[1], "65535");
}

#[test]
fn worker_launch_plan() {
    let c = Config::new(Some("network".into()), Some("k".into()), None);
    let l = worker_launch(&c, 5001);
    assert_eq!(l.program, WORKER_PROGRAM);
    assert_eq!(l.program, "../prover/target/release/prover");
    assert_eq!(l.args, vec!["--port".to_string(), "5001".to_string()]);
    assert_eq!(
        l.envs,
        vec![
            ("SP1_PROVER".to_string(), "network".to_string()),
            ("SP1_PRIVATE_KEY".to_string(), "k".to_string()),
            ("RUST_LOG".to_string(), "info".to_string()),
        ]
    );
}
