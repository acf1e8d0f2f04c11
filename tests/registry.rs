use lease_pow::registry::{LeaseOutcome, UnitStatus, UnknownLeaseKey, WorkUnitRegistry};
use lease_pow::work_unit::WorkPackage;

fn leased(start: u128, end: u128) -> LeaseOutcome {
    LeaseOutcome::Leased { range_start: start, range_end: end }
}

#[test]
fn fresh_registry_tiles_the_space() {
    let reg = WorkUnitRegistry::new(5, 100);
    assert_eq!(reg.len(), 5);
    assert_eq!(reg.step(), 100);
    for i in 0..5u128 {
        assert_eq!(reg.status(i * 100), Some(UnitStatus::Available));
        assert_eq!(reg.timeout_count(i * 100), Some(0));
    }
    assert_eq!(reg.status(50), None);
    assert_eq!(reg.status(500), None);
    assert_eq!(reg.timeout_count(250), None);
}

#[test]
fn empty_registry_is_exhausted() {
    let mut reg = WorkUnitRegistry::new(0, 100);
    assert_eq!(reg.acquire("w".to_string(), 0, 30), LeaseOutcome::Exhausted);
}

#[test]
fn acquire_hands_out_ranges_in_order() {
    let mut reg = WorkUnitRegistry::new(3, 100);
    assert_eq!(reg.acquire("a".to_string(), 0, 30), leased(0, 100));
    assert_eq!(reg.acquire("b".to_string(), 0, 30), leased(100, 200));
    assert_eq!(reg.acquire("c".to_string(), 0, 30), leased(200, 300));
    assert_eq!(reg.acquire("d".to_string(), 0, 30), LeaseOutcome::Busy);
    assert_eq!(reg.status(100), Some(UnitStatus::Assigned));
}

#[test]
fn live_lease_is_not_handed_out_again() {
    let mut reg = WorkUnitRegistry::new(2, 10);
    assert_eq!(reg.acquire("a".to_string(), 100, 30), leased(0, 10));
    assert_eq!(reg.acquire("b".to_string(), 130, 30), leased(10, 20));
    assert_eq!(reg.acquire("c".to_string(), 130, 30), LeaseOutcome::Busy);
    assert_eq!(reg.timeout_count(0), Some(0));
}

#[test]
fn reclaim_frees_expired_lease_once() {
    let mut reg = WorkUnitRegistry::new(2, 10);
    assert_eq!(reg.acquire("a".to_string(), 0, 30), leased(0, 10));
    assert_eq!(reg.reclaim_expired(30, 30), 0);
    assert_eq!(reg.status(0), Some(UnitStatus::Assigned));
    assert_eq!(reg.reclaim_expired(31, 30), 1);
    assert_eq!(reg.status(0), Some(UnitStatus::Available));
    assert_eq!(reg.timeout_count(0), Some(1));
    assert_eq!(reg.reclaim_expired(100, 30), 0);
    assert_eq!(reg.timeout_count(0), Some(1));
}

#[test]
fn reclaim_treats_clock_going_back_as_expired() {
    let mut reg = WorkUnitRegistry::new(1, 10);
    assert_eq!(reg.acquire("a".to_string(), 50, 30), leased(0, 10));
    assert_eq!(reg.reclaim_expired(40, 30), 1);
    assert_eq!(reg.timeout_count(0), Some(1));
}

#[test]
fn complete_is_idempotent() {
    let mut reg = WorkUnitRegistry::new(2, 10);
    assert_eq!(reg.complete(10, false), Ok(()));
    assert_eq!(reg.status(10), Some(UnitStatus::Completed));
    assert_eq!(reg.complete(10, true), Ok(()));
    assert_eq!(reg.status(10), Some(UnitStatus::Completed));
    assert_eq!(reg.status(0), Some(UnitStatus::Available));
}

#[test]
fn complete_unknown_key_is_reported() {
    let mut reg = WorkUnitRegistry::new(2, 10);
    assert_eq!(reg.complete(5, true), Err(UnknownLeaseKey { range_start: 5 }));
    assert_eq!(reg.complete(20, true), Err(UnknownLeaseKey { range_start: 20 }));
    assert_eq!(reg.status(0), Some(UnitStatus::Available));
    assert_eq!(reg.status(10), Some(UnitStatus::Available));
}

#[test]
fn completed_unit_is_not_reclaimed() {
    let mut reg = WorkUnitRegistry::new(1, 10);
    assert_eq!(reg.acquire("a".to_string(), 0, 30), leased(0, 10));
    assert_eq!(reg.complete(0, true), Ok(()));
    assert_eq!(reg.reclaim_expired(1000, 30), 0);
    assert_eq!(reg.acquire("b".to_string(), 1000, 30), LeaseOutcome::Exhausted);
}

#[test]
fn fewer_timeouts_win_over_earlier_range() {
    let mut reg = WorkUnitRegistry::new(3, 10);
    assert_eq!(reg.acquire("a".to_string(), 0, 30), leased(0, 10));
    assert_eq!(reg.reclaim_expired(31, 30), 1);
    assert_eq!(reg.timeout_count(0), Some(1));
    assert_eq!(reg.acquire("b".to_string(), 31, 30), leased(10, 20));
    assert_eq!(reg.acquire("c".to_string(), 31, 30), leased(20, 30));
    assert_eq!(reg.acquire("d".to_string(), 31, 30), leased(0, 10));
}

#[test]
fn expired_unit_is_the_unique_candidate() {
    let mut reg = WorkUnitRegistry::new(3, 100);
    assert_eq!(reg.acquire("a".to_string(), 0, 30), leased(0, 100));
    assert_eq!(reg.complete(100, false), Ok(()));
    assert_eq!(reg.complete(200, false), Ok(()));
    assert_eq!(reg.acquire("b".to_string(), 10, 30), LeaseOutcome::Busy);
    assert_eq!(reg.reclaim_expired(40, 30), 1);
    assert_eq!(reg.status(0), Some(UnitStatus::Available));
    assert_eq!(reg.timeout_count(0), Some(1));
    assert_eq!(reg.acquire("b".to_string(), 41, 30), leased(0, 100));
}

#[test]
fn acquire_reclaims_before_selecting() {
    let mut reg = WorkUnitRegistry::new(1, 10);
    assert_eq!(reg.acquire("a".to_string(), 0, 30), leased(0, 10));
    assert_eq!(reg.acquire("b".to_string(), 31, 30), leased(0, 10));
    assert_eq!(reg.timeout_count(0), Some(1));
}

#[test]
fn timeouts_countable_on_fresh_registry() {
    let reg = WorkUnitRegistry::new(3, 10);
    assert!(reg.timeouts_countable());
}

#[test]
fn work_package_lifecycle() {
    let mut p = WorkPackage::new();
    assert!(!p.is_completed());
    assert!(!p.is_assigned());
    assert!(!p.is_timed_out(1000, 30));
    p.assign(100, "peer".to_string());
    assert!(p.is_assigned());
    assert!(!p.is_timed_out(130, 30));
    assert!(p.is_timed_out(131, 30));
    assert!(p.is_timed_out(99, 30));
    p.reset_for_timeout();
    assert!(!p.is_assigned());
    assert_eq!(p.timeout_count(), 1);
    p.assign(200, "peer".to_string());
    p.mark_completed();
    assert!(p.is_completed());
    assert!(!p.is_assigned());
    assert!(!p.is_timed_out(10_000, 30));
    assert_eq!(p.timeout_count(), 1);
}
