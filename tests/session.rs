use lease_pow::protocol::{encode_outcome, parse_request, Request};
use lease_pow::registry::LeaseOutcome;
use lease_pow::session::{
    empty_report, format_found_report, next_action, parse_reply, report, retry_connect, ServerReply,
    WorkerAction,
};

#[test]
fn replies_are_read() {
    assert_eq!(parse_reply(b"NO_WORK\n"), Some(ServerReply::NoWork));
    assert_eq!(parse_reply(b"WAIT\n"), Some(ServerReply::Wait));
    assert_eq!(parse_reply(b"0\n"), Some(ServerReply::Lease(0)));
    assert_eq!(parse_reply(b"20000000\n"), Some(ServerReply::Lease(20_000_000)));
    assert_eq!(parse_reply(b"junk\n"), None);
    assert_eq!(parse_reply(b""), None);
}

#[test]
fn actions_follow_replies() {
    assert_eq!(
        next_action(Some(ServerReply::Lease(0)), 100),
        WorkerAction::Search { range_start: 0, range_end: 100 }
    );
    assert_eq!(next_action(Some(ServerReply::Wait), 100), WorkerAction::Backoff);
    assert_eq!(next_action(Some(ServerReply::NoWork), 100), WorkerAction::Stop);
    assert_eq!(next_action(None, 100), WorkerAction::Stop);
    assert_eq!(next_action(Some(ServerReply::Lease(u128::MAX)), 1), WorkerAction::Stop);
}

#[test]
fn connect_retries_are_bounded() {
    assert!(retry_connect(1, 5));
    assert!(retry_connect(4, 5));
    assert!(!retry_connect(5, 5));
}

#[test]
fn reports_are_formatted() {
    assert_eq!(empty_report(0, 100), b"RESULT_EMPTY 0 100\n".to_vec());
    assert_eq!(format_found_report(b"s", 7, b"00ff"), b"RESULT s7 7 00ff\n".to_vec());
    assert_eq!(report(b"Crefax", 0, 100, None), b"RESULT_EMPTY 0 100\n".to_vec());
    assert_eq!(
        report(b"Crefax", 0, 100, Some(90)),
        b"RESULT Crefax90 90 00d83ac5798477ef2daaa192c06f27e9afafd27058b268ccd26d4992e30b96de\n".to_vec()
    );
}

#[test]
fn reports_parse_back_on_the_coordinator() {
    assert_eq!(
        parse_request(&empty_report(100, 200)),
        Ok(Request::ResultEmpty { range_start: 100, range_end: 200 })
    );
    match parse_request(&report(b"Crefax", 0, 100, Some(90))).unwrap() {
        Request::Result { combined, number, .. } => {
            assert_eq!(combined, b"Crefax90".to_vec());
            assert_eq!(number, 90);
        }
        other => panic!("unexpected {:?}", other),
    }
}

#[test]
fn answers_read_back_as_the_same_outcome() {
    let leased = LeaseOutcome::Leased { range_start: 30_000_000, range_end: 40_000_000 };
    assert_eq!(parse_reply(&encode_outcome(leased)), Some(ServerReply::Lease(30_000_000)));
    assert_eq!(parse_reply(&encode_outcome(LeaseOutcome::Busy)), Some(ServerReply::Wait));
    assert_eq!(parse_reply(&encode_outcome(LeaseOutcome::Exhausted)), Some(ServerReply::NoWork));
}
