use prover_pool::error::ServerError;
use prover_pool::models::SessionResponse;
use prover_pool::server_manager::ServerManager;

fn filled(capacity: usize, ports: &[u16]) -> ServerManager<u32> {
    let mut m = ServerManager::new(capacity);
    for (k, p) in ports.iter().enumerate() {
        assert!(m.reserve_warm_slot());
        assert!(m.fill_warm_slot(100 + k as u32, *p).is_ok());
    }
    m
}

#[test]
fn warm_pool_serves_three_then_cold_start() {
    let mut m = filled(3, &[5001, 5002, 5003]);
    assert_eq!(m.warm_count(), 3);
    let a = m.create_instance(10).expect("warm worker");
    let b = m.create_instance(11).expect("warm worker");
    let c = m.create_instance(12).expect("warm worker");
    let mut ports = vec![a.prover_port, b.prover_port, c.prover_port];
    ports.sort();
    assert_eq!(ports, vec![5001, 5002, 5003]);
    assert_ne!(a.session_id, b.session_id);
    assert_ne!(b.session_id, c.session_id);
    assert_ne!(a.session_id, c.session_id);
    assert_eq!(m.warm_count(), 0);
    assert_eq!(m.session_count(), 3);
    // the fourth caller finds the pool empty and starts a worker itself
    assert!(m.create_instance(13).is_none());
    let d: SessionResponse = m.register_cold_instance(7, 6000, 13).expect("cold worker");
    assert_eq!(d.prover_port, 6000);
    assert!(!d.session_id.is_empty());
    assert!(m.has_session(&d.session_id));
    assert_eq!(m.session_count(), 4);
}

#[test]
fn session_ids_are_uuid_then_serial() {
    let mut m = filled(1, &[5001]);
    let a = m.create_instance(0).unwrap();
    assert_eq!(a.session_id.len(), 38);
    assert!(a.session_id.ends_with("-0"));
    assert_eq!(a.session_id.matches('-').count(), 5);
    let b = m.register_cold_instance(9, 6001, 0).unwrap();
    assert!(b.session_id.ends_with("-1"));
    assert_ne!(a.session_id, b.session_id);
}

#[test]
fn deleted_ids_are_never_handed_out_again() {
    let mut m: ServerManager<u32> = ServerManager::new(0);
    let a = m.adopt_cold_worker("t".to_string(), 1, 6001, 0).unwrap();
    assert_eq!(a.session_id, "t-0");
    m.cleanup_instance(&a.session_id).unwrap();
    // the same random token again still gives a new id
    let b = m.adopt_cold_worker("t".to_string(), 2, 6001, 0).unwrap();
    assert_eq!(b.session_id, "t-1");
    let c = m.adopt_cold_worker("t".to_string(), 3, 6002, 0).unwrap();
    assert_eq!(c.session_id, "t-2");
}

#[test]
fn delete_unknown_session_is_not_found() {
    let mut m = filled(2, &[5001, 5002]);
    let a = m.create_instance(0).unwrap();
    match m.cleanup_instance("never-created") {
        Err(ServerError::SessionNotFound(id)) => assert_eq!(id, "never-created"),
        other => panic!("unexpected: {:?}", other),
    }
    assert_eq!(m.session_count(), 1);
    assert_eq!(m.warm_count(), 1);
    assert!(m.has_session(&a.session_id));
}

#[test]
fn delete_twice_succeeds_then_not_found() {
    let mut m = filled(1, &[5001]);
    let a = m.create_instance(0).unwrap();
    assert_eq!(m.cleanup_instance(&a.session_id).unwrap(), 100);
    assert!(matches!(
        m.cleanup_instance(&a.session_id),
        Err(ServerError::SessionNotFound(_))
    ));
    assert_eq!(m.session_count(), 0);
}

#[test]
fn terminated_pool_worker_frees_its_slot() {
    let mut m = filled(2, &[5001, 5002]);
    assert_eq!(m.available_permits(), 0);
    let a = m.create_instance(0).unwrap();
    // a session still holds the worker's slot
    assert_eq!(m.available_permits(), 0);
    assert!(!m.reserve_warm_slot());
    m.cleanup_instance(&a.session_id).unwrap();
    assert_eq!(m.available_permits(), 1);
    assert!(m.reserve_warm_slot());
    assert!(m.fill_warm_slot(200, 5003).is_ok());
    assert_eq!(m.warm_count(), 2);
    assert_eq!(m.available_permits(), 0);
}

#[test]
fn cold_worker_holds_no_pool_slot() {
    let mut m = filled(1, &[5001]);
    let a = m.register_cold_instance(9, 6000, 0).unwrap();
    assert_eq!(m.available_permits(), 0);
    assert_eq!(m.cleanup_instance(&a.session_id).unwrap(), 9);
    assert_eq!(m.available_permits(), 0);
}

#[test]
fn refill_after_many_takes_and_terminations() {
    let mut m = filled(3, &[5001, 5002, 5003]);
    let mut ids = Vec::new();
    for t in 0..3 {
        ids.push(m.create_instance(t).unwrap().session_id);
    }
    for id in &ids {
        m.cleanup_instance(id).unwrap();
    }
    let mut port = 7000;
    while m.reserve_warm_slot() {
        assert!(m.fill_warm_slot(port as u32, port).is_ok());
        port += 1;
    }
    assert_eq!(m.warm_count(), m.capacity());
    assert_eq!(m.warm_count(), 3);
}

#[test]
fn failed_replenishment_gives_slot_back() {
    let mut m: ServerManager<u32> = ServerManager::new(1);
    assert!(m.reserve_warm_slot());
    assert_eq!(m.available_permits(), 0);
    m.release_warm_slot();
    assert_eq!(m.available_permits(), 1);
    // releasing with nothing in flight changes nothing
    m.release_warm_slot();
    assert_eq!(m.available_permits(), 1);
}

#[test]
fn fill_without_reservation_is_refused() {
    let mut m: ServerManager<u32> = ServerManager::new(1);
    assert_eq!(m.fill_warm_slot(1, 5001), Err(1));
    assert_eq!(m.warm_count(), 0);
}

#[test]
fn port_collisions_are_refused() {
    let mut m = filled(2, &[5001]);
    match m.register_cold_instance(9, 5001, 0) {
        Err((w, ServerError::ProverCreationError(_))) => assert_eq!(w, 9),
        other => panic!("unexpected: {:?}", other.map(|r| r.prover_port)),
    }
    assert!(m.reserve_warm_slot());
    assert_eq!(m.fill_warm_slot(10, 5001), Err(10));
    assert_eq!(m.available_permits(), 1);
    assert_eq!(m.warm_count(), 1);
}

#[test]
fn adopt_cold_worker_with_same_token_gets_new_id() {
    let mut m: ServerManager<u32> = ServerManager::new(0);
    let r = m.adopt_cold_worker("s".to_string(), 1, 6000, 5).unwrap();
    assert_eq!(r.session_id, "s-0");
    assert_eq!(r.prover_port, 6000);
    let r2 = m.adopt_cold_worker("s".to_string(), 2, 6001, 5).unwrap();
    assert_eq!(r2.session_id, "s-1");
    assert_eq!(m.session_count(), 2);
}

#[test]
fn adopt_warm_worker_takes_most_recent() {
    let mut m = filled(3, &[5001, 5002, 5003]);
    let r = m.adopt_warm_worker("w".to_string(), 3).unwrap();
    assert_eq!(r.prover_port, 5003);
    assert_eq!(r.session_id, "w-0");
    let r2 = m.adopt_warm_worker("w".to_string(), 4).unwrap();
    assert_eq!(r2.prover_port, 5002);
    assert_eq!(r2.session_id, "w-1");
    assert_eq!(m.warm_count(), 1);
    assert_eq!(m.last_active("w-0"), Some(3));
}

#[test]
fn adopt_warm_worker_on_empty_pool_is_refused() {
    let mut m: ServerManager<u32> = ServerManager::new(2);
    assert!(m.adopt_warm_worker("w".to_string(), 0).is_none());
    assert_eq!(m.session_count(), 0);
}

#[test]
fn reaper_removes_exactly_the_idle_sessions() {
    let mut m: ServerManager<u32> = ServerManager::new(0);
    let old = m.adopt_cold_worker("old".to_string(), 1, 6001, 0).unwrap().session_id;
    let edge = m.adopt_cold_worker("edge".to_string(), 2, 6002, 400).unwrap().session_id;
    let fresh = m.adopt_cold_worker("fresh".to_string(), 3, 6003, 900).unwrap().session_id;
    let older = m.adopt_cold_worker("older".to_string(), 4, 6004, 100).unwrap().session_id;
    // at 1000 with timeout 600: idle means more than 600 since last activity
    let removed = m.cleanup_inactive_sessions(1000, 600);
    assert_eq!(removed, vec![1, 4]);
    assert!(!m.has_session(&old));
    assert!(!m.has_session(&older));
    assert_eq!(m.last_active(&edge), Some(400));
    assert_eq!(m.last_active(&fresh), Some(900));
    assert_eq!(m.session_count(), 2);
}

#[test]
fn reaper_returns_pool_slots() {
    let mut m = filled(2, &[5001, 5002]);
    m.create_instance(0).unwrap();
    m.create_instance(50).unwrap();
    let removed = m.cleanup_inactive_sessions(100, 60);
    assert_eq!(removed.len(), 1);
    assert_eq!(m.available_permits(), 1);
    assert_eq!(m.session_count(), 1);
}

#[test]
fn heartbeat_extends_life() {
    let mut m: ServerManager<u32> = ServerManager::new(0);
    let s = m.adopt_cold_worker("s".to_string(), 1, 6001, 0).unwrap().session_id;
    m.update_last_active(&s, 1000).unwrap();
    assert_eq!(m.last_active(&s), Some(1000));
    // timeout 500: a sweep at 1000 + 500 - 1 keeps it
    assert!(m.cleanup_inactive_sessions(1499, 500).is_empty());
    assert!(m.has_session(&s));
    // a sweep at 1000 + 500 + 1 removes it
    assert_eq!(m.cleanup_inactive_sessions(1501, 500), vec![1]);
    assert!(!m.has_session(&s));
}

#[test]
fn heartbeat_never_moves_back() {
    let mut m: ServerManager<u32> = ServerManager::new(0);
    let s = m.adopt_cold_worker("s".to_string(), 1, 6001, 500).unwrap().session_id;
    m.update_last_active(&s, 200).unwrap();
    assert_eq!(m.last_active(&s), Some(500));
}

#[test]
fn heartbeat_unknown_session_is_not_found() {
    let mut m: ServerManager<u32> = ServerManager::new(0);
    match m.update_last_active("nope", 1) {
        Err(ServerError::SessionNotFound(id)) => assert_eq!(id, "nope"),
        other => panic!("unexpected: {:?}", other),
    }
}
