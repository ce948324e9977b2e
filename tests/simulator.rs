use diagonator_server::simulator::{
    CurrentState, CurrentStateReason, Locks, SimulatorError, Simulator, StateChange,
    StateChangeKind,
};
use diagonator_server::time::Timestamp;

fn change(kind: StateChangeKind, secs: i64) -> StateChange {
    StateChange { kind, time: Timestamp(secs) }
}

fn run(changes: &[StateChange], target: i64) -> Result<diagonator_server::simulator::SimulatorResult, SimulatorError> {
    let mut sim = Simulator::new();
    for c in changes {
        sim.push(*c);
    }
    sim.run(Timestamp(target))
}

#[test]
fn empty_feed_is_unlocked_without_constraints() {
    let r = run(&[], 100).unwrap();
    assert_eq!(r.target_state, CurrentState::Unlocked);
    assert_eq!(r.until, None);
    assert_eq!(r.reason, CurrentStateReason::NoConstraints);
}

#[test]
fn unlockable_timer_has_no_scheduled_change() {
    let r = run(&[change(StateChangeKind::BreakTimerUnlockable, 0)], 0).unwrap();
    assert_eq!(r.target_state, CurrentState::Unlockable);
    assert_eq!(r.until, None);
    assert_eq!(r.reason, CurrentStateReason::BreakTimer);
}

#[test]
fn next_change_lies_after_target() {
    let feed = [
        change(StateChangeKind::BreakTimerLocked, 1500),
        change(StateChangeKind::RangeLocked(7), 600),
        change(StateChangeKind::RangeUnlocked(7), 900),
    ];
    for t in [0, 599, 600, 899, 900, 1499, 1500, 5000] {
        let r = run(&feed, t).unwrap();
        if let Some(u) = r.until {
            assert!(u.0 > t);
        }
    }
    let r = run(&feed, 0).unwrap();
    assert_eq!(r.target_state, CurrentState::Unlocked);
    assert_eq!(r.until, Some(Timestamp(600)));
    assert_eq!(r.reason, CurrentStateReason::LockedTimeRange { id: 7 });
    let r = run(&feed, 700).unwrap();
    assert_eq!(r.target_state, CurrentState::Locked);
    assert_eq!(r.until, Some(Timestamp(900)));
    assert_eq!(r.reason, CurrentStateReason::LockedTimeRange { id: 7 });
}

#[test]
fn result_is_stable_until_the_change() {
    let feed = [
        change(StateChangeKind::BreakTimerLocked, 1500),
        change(StateChangeKind::RequirementLocked(3), 2000),
    ];
    let first = run(&feed, 10).unwrap();
    let u = first.until.unwrap().0;
    assert_eq!(u, 1500);
    for t in [10, 11, 800, u - 1] {
        assert_eq!(run(&feed, t).unwrap(), first);
    }
    assert_ne!(run(&feed, u).unwrap(), first);
}

#[test]
fn due_requirement_is_the_reason() {
    let feed = [
        change(StateChangeKind::RequirementLocked(1), 500),
        change(StateChangeKind::RangeLocked(2), 100),
        change(StateChangeKind::RangeUnlocked(2), 900),
        change(StateChangeKind::BreakTimerLocked, 0),
        change(StateChangeKind::RequirementLocked(4), 700),
    ];
    let r = run(&feed, 800).unwrap();
    assert_eq!(r.target_state, CurrentState::Locked);
    assert_eq!(r.until, None);
    assert_eq!(r.reason, CurrentStateReason::RequirementNotMet { id: 1 });
}

#[test]
fn equal_times_credit_requirements_before_ranges() {
    let feed = [
        change(StateChangeKind::RequirementLocked(1), 500),
        change(StateChangeKind::RangeLocked(2), 500),
        change(StateChangeKind::BreakTimerLocked, 500),
    ];
    let r = run(&feed, 0).unwrap();
    assert_eq!(r.target_state, CurrentState::Unlocked);
    assert_eq!(r.until, Some(Timestamp(500)));
    assert_eq!(r.reason, CurrentStateReason::RequirementNotMet { id: 1 });
}

#[test]
fn duplicate_lock_is_refused() {
    let feed = [
        change(StateChangeKind::RangeLocked(2), 10),
        change(StateChangeKind::RangeLocked(2), 20),
    ];
    assert_eq!(run(&feed, 30), Err(SimulatorError::DuplicateLock(2)));
}

#[test]
fn unlocking_an_unknown_range_is_refused() {
    let feed = [change(StateChangeKind::RangeUnlocked(5), 10)];
    assert_eq!(run(&feed, 30), Err(SimulatorError::LockNotFound(5)));
}

#[test]
fn locks_keep_order_of_taking() {
    let mut locks = Locks::new();
    assert!(locks.is_empty());
    assert_eq!(locks.first(), None);
    locks.add_lock(4).unwrap();
    locks.add_lock(9).unwrap();
    assert_eq!(locks.add_lock(4), Err(SimulatorError::DuplicateLock(4)));
    assert_eq!(locks.first(), Some(4));
    locks.unlock(4).unwrap();
    assert_eq!(locks.first(), Some(9));
    assert_eq!(locks.unlock(4), Err(SimulatorError::LockNotFound(4)));
    locks.unlock(9).unwrap();
    assert!(locks.is_empty());
}
