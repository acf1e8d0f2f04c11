use lease_pow::protocol::{encode_outcome, handle_request, parse_request, ProtocolError, Reply, Request};
use lease_pow::registry::{LeaseOutcome, UnitStatus, WorkUnitRegistry};

fn get_work(reg: &mut WorkUnitRegistry, peer: &str, now: u64) -> Reply {
    handle_request(reg, b"GET_WORK\n", peer.to_string(), now, 30)
}

fn answer_line(r: &Reply) -> Vec<u8> {
    match r {
        Reply::Answer { line, .. } => line.clone(),
        other => panic!("expected an answer, got {:?}", other),
    }
}

#[test]
fn three_workers_get_three_ranges_then_wait() {
    let mut reg = WorkUnitRegistry::new(3, 100);
    assert_eq!(answer_line(&get_work(&mut reg, "w1", 0)), b"0\n".to_vec());
    assert_eq!(answer_line(&get_work(&mut reg, "w2", 0)), b"100\n".to_vec());
    assert_eq!(answer_line(&get_work(&mut reg, "w3", 0)), b"200\n".to_vec());
    let r = get_work(&mut reg, "w4", 0);
    assert_eq!(answer_line(&r), b"WAIT\n".to_vec());
    assert!(!r.ends_session());
}

#[test]
fn all_completed_gives_no_work() {
    let mut reg = WorkUnitRegistry::new(3, 100);
    for _ in 0..3 {
        get_work(&mut reg, "w", 0);
    }
    for (s, e) in [(0, 100), (100, 200), (200, 300)] {
        let line = format!("RESULT_EMPTY {} {}\n", s, e);
        assert_eq!(handle_request(&mut reg, line.as_bytes(), "w".to_string(), 1, 30), Reply::Recorded);
    }
    let r = get_work(&mut reg, "w", 2);
    assert_eq!(answer_line(&r), b"NO_WORK\n".to_vec());
    assert!(r.ends_session());
}

#[test]
fn expired_lease_is_offered_again() {
    let mut reg = WorkUnitRegistry::new(3, 100);
    assert_eq!(answer_line(&get_work(&mut reg, "w1", 0)), b"0\n".to_vec());
    for s in [100u128, 200] {
        let line = format!("RESULT_EMPTY {} {}\n", s, s + 100);
        assert_eq!(handle_request(&mut reg, line.as_bytes(), "w".to_string(), 1, 30), Reply::Recorded);
    }
    assert_eq!(answer_line(&get_work(&mut reg, "w2", 5)), b"WAIT\n".to_vec());
    assert_eq!(reg.reclaim_expired(31, 30), 1);
    assert_eq!(reg.status(0), Some(UnitStatus::Available));
    assert_eq!(reg.timeout_count(0), Some(1));
    assert_eq!(answer_line(&get_work(&mut reg, "w2", 32)), b"0\n".to_vec());
}

#[test]
fn result_completes_the_range_holding_the_number() {
    let mut reg = WorkUnitRegistry::new(3, 100);
    let r = handle_request(&mut reg, b"RESULT Crefax150 150 00ab\n", "w".to_string(), 0, 30);
    assert_eq!(r, Reply::Recorded);
    assert_eq!(reg.status(100), Some(UnitStatus::Completed));
    assert_eq!(reg.status(0), Some(UnitStatus::Available));
}

#[test]
fn result_outside_the_registry_is_unknown_key() {
    let mut reg = WorkUnitRegistry::new(3, 100);
    let r = handle_request(&mut reg, b"RESULT x 350 00ab", "w".to_string(), 0, 30);
    assert_eq!(r, Reply::Rejected(ProtocolError::UnknownLeaseKey(300)));
    let r = handle_request(&mut reg, b"RESULT_EMPTY 50 150", "w".to_string(), 0, 30);
    assert_eq!(r, Reply::Rejected(ProtocolError::UnknownLeaseKey(50)));
}

#[test]
fn duplicate_result_is_accepted() {
    let mut reg = WorkUnitRegistry::new(1, 100);
    let line = b"RESULT_EMPTY 0 100\n";
    assert_eq!(handle_request(&mut reg, line, "w".to_string(), 0, 30), Reply::Recorded);
    assert_eq!(handle_request(&mut reg, line, "w".to_string(), 0, 30), Reply::Recorded);
    assert_eq!(reg.status(0), Some(UnitStatus::Completed));
}

#[test]
fn malformed_requests_change_nothing() {
    let mut reg = WorkUnitRegistry::new(2, 100);
    let bad: [&[u8]; 7] = [
        b"",
        b"HELLO",
        b"GET_WORK now",
        b"RESULT_EMPTY x 100",
        b"RESULT_EMPTY 0",
        b"RESULT a 1x b",
        b"RESULT a 1",
    ];
    for line in bad {
        let r = handle_request(&mut reg, line, "w".to_string(), 0, 30);
        assert_eq!(r, Reply::Rejected(ProtocolError::Malformed));
    }
    assert_eq!(reg.status(0), Some(UnitStatus::Available));
    assert_eq!(reg.status(100), Some(UnitStatus::Available));
}

#[test]
fn parse_request_reads_each_form() {
    assert_eq!(parse_request(b"  GET_WORK \r\n"), Ok(Request::GetWork));
    assert_eq!(
        parse_request(b"RESULT Crefax90 90 00d8\n"),
        Ok(Request::Result { combined: b"Crefax90".to_vec(), number: 90, hash: b"00d8".to_vec() })
    );
    assert_eq!(
        parse_request(b"RESULT_EMPTY 10000000 20000000\n"),
        Ok(Request::ResultEmpty { range_start: 10_000_000, range_end: 20_000_000 })
    );
    assert_eq!(parse_request(b"get_work"), Err(ProtocolError::Malformed));
}

#[test]
fn encode_outcome_lines() {
    let leased = LeaseOutcome::Leased { range_start: 20_000_000, range_end: 30_000_000 };
    assert_eq!(encode_outcome(leased), b"20000000\n".to_vec());
    assert_eq!(encode_outcome(LeaseOutcome::Busy), b"WAIT\n".to_vec());
    assert_eq!(encode_outcome(LeaseOutcome::Exhausted), b"NO_WORK\n".to_vec());
}
