use diagonator_server::break_timer::{BreakTimer, BreakTimerError, BreakTimerManager};
use diagonator_server::config::{DiagonatorConfig, DiagonatorManagerConfig, LockedTimeRangeConfig, RequirementConfig};
use diagonator_server::constraints::{ConstraintError, Constraints, Requirement, TimeRange};
use diagonator_server::manager::{reconcile, DiagonatorManager, EnforcerAction, IdGenerator, Response, NO_CACHE};
use diagonator_server::simulator::{CurrentState, CurrentStateReason};
use diagonator_server::time::{Duration, HourMinute, LocalDate, Timestamp};

fn manager_config(requirements: Vec<RequirementConfig>, ranges: Vec<LockedTimeRangeConfig>) -> DiagonatorManagerConfig {
    DiagonatorManagerConfig {
        diagonator_command: ("enforcer".to_string(), vec![]),
        requirements,
        locked_time_ranges: ranges,
        work_period_duration: Duration::from_minutes(25),
        break_duration: Duration::from_minutes(5),
    }
}

fn info_at(m: &mut DiagonatorManager, t: i64) -> (CurrentState, Option<Timestamp>, CurrentStateReason) {
    match m.get_info(Timestamp(t)).unwrap() {
        Response::Info { info } => (info.state, info.until, info.reason),
        other => panic!("unexpected response {:?}", other),
    }
}

fn error_text(r: Response) -> String {
    match r {
        Response::Error { msg } => msg,
        other => panic!("expected an error, got {:?}", other),
    }
}

fn day_of(secs: i64) -> LocalDate {
    Timestamp(secs).get_date().unwrap()
}

fn at(date: &LocalDate, hour: u32, minute: u32) -> i64 {
    Timestamp::from_date_hm(date, &HourMinute { hour, minute }).unwrap().0
}

#[test]
fn break_timer_cycle() {
    let mut bt = BreakTimerManager::new(Duration(1500), Duration(300));
    assert_eq!(bt.timer, BreakTimer::Unlockable);
    assert_eq!(bt.lock(Timestamp(0)), Err(BreakTimerError::NotUnlocked));
    assert_eq!(bt.unlock(Timestamp(0)), Ok(()));
    assert_eq!(bt.timer, BreakTimer::Unlocked { until: Timestamp(1500) });
    assert_eq!(bt.unlock(Timestamp(10)), Err(BreakTimerError::AlreadyUnlocked));
    bt.refresh(Timestamp(1600));
    assert_eq!(bt.timer, BreakTimer::Locked { until: Timestamp(1800) });
    assert_eq!(bt.unlock(Timestamp(1700)), Err(BreakTimerError::Locked));
    bt.refresh(Timestamp(1800));
    assert_eq!(bt.timer, BreakTimer::Unlockable);
}

#[test]
fn break_timer_refresh_chains_both_transitions() {
    let mut bt = BreakTimerManager::new(Duration(1500), Duration(300));
    bt.unlock(Timestamp(0)).unwrap();
    bt.refresh(Timestamp(10_000));
    assert_eq!(bt.timer, BreakTimer::Unlockable);
}

#[test]
fn lock_if_unlocked_starts_the_break_now() {
    let mut bt = BreakTimerManager::new(Duration(1500), Duration(300));
    bt.unlock(Timestamp(0)).unwrap();
    bt.lock_if_unlocked(Timestamp(100));
    assert_eq!(bt.timer, BreakTimer::Locked { until: Timestamp(400) });
    bt.lock_if_unlocked(Timestamp(200));
    assert_eq!(bt.timer, BreakTimer::Locked { until: Timestamp(400) });
    assert_eq!(BreakTimerError::Locked.message(), "Break timer is locked.");
}

#[test]
fn completing_twice_is_refused() {
    let mut c = Constraints {
        break_timer: BreakTimerManager::new(Duration(1500), Duration(300)),
        requirements: vec![Requirement { id: 3, name: "x".to_string(), due: Timestamp(50), complete: false }],
        locked_time_ranges: vec![],
    };
    assert_eq!(c.complete_requirement(9), Err(ConstraintError::NotFound(9)));
    assert_eq!(c.complete_requirement(3), Ok(()));
    assert!(c.requirements[0].complete);
    assert_eq!(c.complete_requirement(3), Err(ConstraintError::AlreadyCompleted(3)));
    assert_eq!(ConstraintError::AlreadyCompleted(3).message(), "Requirement 3 has already been completed.");
    assert_eq!(ConstraintError::NotFound(12).message(), "Requirement 12 not found.");
}

#[test]
fn overdue_requirement_outranks_range_and_timer() {
    let mut c = Constraints {
        break_timer: BreakTimerManager::new(Duration(1500), Duration(300)),
        requirements: vec![
            Requirement { id: 1, name: "done".to_string(), due: Timestamp(10), complete: true },
            Requirement { id: 2, name: "open".to_string(), due: Timestamp(100), complete: false },
        ],
        locked_time_ranges: vec![TimeRange { id: 3, start: None, end: Some(Timestamp(1000)) }],
    };
    let info = c.get_current_info(Timestamp(200)).unwrap();
    assert_eq!(info.state, CurrentState::Locked);
    assert_eq!(info.reason, CurrentStateReason::RequirementNotMet { id: 2 });
    assert_eq!(info.until, None);
    assert_eq!(info.requirements.len(), 2);
    assert_eq!(info.locked_time_ranges.len(), 1);
}

#[test]
fn range_priority_after_auto_lock() {
    let date = day_of(1_700_000_000);
    let (t900, t915, t930, t1000) = (at(&date, 9, 0), at(&date, 9, 15), at(&date, 9, 30), at(&date, 10, 0));
    let ranges = vec![LockedTimeRangeConfig {
        start: Some(HourMinute { hour: 9, minute: 0 }),
        end: Some(HourMinute { hour: 10, minute: 0 }),
    }];
    let mut m = DiagonatorManager::new(manager_config(vec![], ranges));
    m.constraints.break_timer.timer = BreakTimer::Unlocked { until: Timestamp(t930) };
    let (state, _, _) = info_at(&mut m, t915);
    assert_eq!(state, CurrentState::Locked);
    assert!(m.enforcer_required);
    assert_eq!(m.constraints.break_timer.timer, BreakTimer::Locked { until: Timestamp(t915 + 300) });
    assert_eq!(m.constraints.locked_time_ranges[0].start, Some(Timestamp(t900)));
    let id = m.constraints.locked_time_ranges[0].id;
    let (state, until, reason) = info_at(&mut m, t915 + 1);
    assert_eq!(state, CurrentState::Locked);
    assert_eq!(until, Some(Timestamp(t1000)));
    assert_eq!(reason, CurrentStateReason::LockedTimeRange { id });
    let (state, _, _) = info_at(&mut m, t1000);
    assert_eq!(state, CurrentState::Unlockable);
}

#[test]
fn unlock_path() {
    let mut m = DiagonatorManager::new(manager_config(vec![], vec![]));
    assert_eq!(info_at(&mut m, 0), (CurrentState::Unlockable, None, CurrentStateReason::BreakTimer));
    assert!(m.enforcer_required);
    assert!(matches!(m.unlock_timer(Timestamp(0)).unwrap(), Response::Success));
    assert!(!m.enforcer_required);
    assert_eq!(info_at(&mut m, 0), (CurrentState::Unlocked, Some(Timestamp(1500)), CurrentStateReason::BreakTimer));
    assert_eq!(info_at(&mut m, 1500), (CurrentState::Locked, Some(Timestamp(1800)), CurrentStateReason::BreakTimer));
    assert!(m.enforcer_required);
    assert_eq!(info_at(&mut m, 1800), (CurrentState::Unlockable, None, CurrentStateReason::BreakTimer));
}

#[test]
fn unlock_then_wait_a_work_period() {
    let mut m = DiagonatorManager::new(manager_config(vec![], vec![]));
    assert!(matches!(m.unlock_timer(Timestamp(100)).unwrap(), Response::Success));
    let (state, _, _) = info_at(&mut m, 100);
    assert_eq!(state, CurrentState::Unlocked);
    let (state, _, reason) = info_at(&mut m, 100 + 1500);
    assert_eq!(state, CurrentState::Locked);
    assert_eq!(reason, CurrentStateReason::BreakTimer);
}

#[test]
fn unlock_refused_during_break() {
    let mut m = DiagonatorManager::new(manager_config(vec![], vec![]));
    m.unlock_timer(Timestamp(0)).unwrap();
    assert!(matches!(m.lock_timer(Timestamp(10)).unwrap(), Response::Success));
    let before = m.constraints.break_timer.timer;
    assert_eq!(error_text(m.unlock_timer(Timestamp(20)).unwrap()), "Session is not unlockable.");
    assert_eq!(m.constraints.break_timer.timer, before);
    assert_eq!(error_text(m.lock_timer(Timestamp(30)).unwrap()), "Break timer is not unlocked.");
}

#[test]
fn requirement_dominates() {
    let date = day_of(1_700_000_000);
    let t = at(&date, 9, 0);
    let mut m = DiagonatorManager::new(manager_config(vec![], vec![]));
    let r = m.add_requirement(Timestamp(t - 20), "x".to_string(), HourMinute::parse("09:00").unwrap()).unwrap();
    assert!(matches!(r, Response::Success));
    let id = m.constraints.requirements[0].id;
    assert_eq!(m.constraints.requirements[0].due, Timestamp(t));
    assert!(matches!(m.unlock_timer(Timestamp(t - 10)).unwrap(), Response::Success));
    assert_eq!(info_at(&mut m, t - 1), (CurrentState::Unlocked, Some(Timestamp(t)), CurrentStateReason::RequirementNotMet { id }));
    let (state, _, reason) = info_at(&mut m, t);
    assert_eq!(state, CurrentState::Locked);
    assert_eq!(reason, CurrentStateReason::RequirementNotMet { id });
    assert!(matches!(m.complete_requirement(Timestamp(t), id).unwrap(), Response::Success));
    let (_, _, reason) = info_at(&mut m, t);
    assert_ne!(reason, CurrentStateReason::RequirementNotMet { id });
}

#[test]
fn duplicate_completion() {
    let date = day_of(1_700_000_000);
    let t = at(&date, 8, 0);
    let reqs = vec![RequirementConfig { name: "stretch".to_string(), due: HourMinute { hour: 12, minute: 0 } }];
    let mut m = DiagonatorManager::new(manager_config(reqs, vec![]));
    info_at(&mut m, t);
    let id = m.constraints.requirements[0].id;
    assert!(matches!(m.complete_requirement(Timestamp(t), id).unwrap(), Response::Success));
    assert_eq!(
        error_text(m.complete_requirement(Timestamp(t + 1), id).unwrap()),
        format!("Requirement {} has already been completed.", id)
    );
    assert_eq!(error_text(m.complete_requirement(Timestamp(t + 2), 999).unwrap()), "Requirement 999 not found.");
}

#[test]
fn day_rollover_gives_fresh_ids() {
    let d1 = day_of(1_700_000_000);
    let t1 = at(&d1, 8, 0);
    let t2 = t1 + 86_400;
    let reqs = vec![RequirementConfig { name: "walk".to_string(), due: HourMinute { hour: 18, minute: 0 } }];
    let mut m = DiagonatorManager::new(manager_config(reqs, vec![]));
    info_at(&mut m, t1);
    assert_eq!(m.constraints.requirements.len(), 1);
    assert_eq!(m.constraints.requirements[0].id, 1);
    info_at(&mut m, t2);
    assert_ne!(Timestamp(t2).get_date(), Some(d1));
    assert_eq!(m.constraints.requirements.len(), 1);
    assert!(m.constraints.requirements[0].id >= 2);
    assert_eq!(m.constraints.requirements[0].name, "walk");
    assert!(!m.constraints.requirements.iter().any(|r| r.id == 1));
}

#[test]
fn change_notification_versions() {
    let mut m = DiagonatorManager::new(manager_config(vec![], vec![]));
    let (info, v1) = m.get_info_if_changed(NO_CACHE, Timestamp(0)).unwrap().unwrap();
    assert_eq!(info.state, CurrentState::Unlockable);
    assert!(m.get_info_if_changed(v1, Timestamp(5)).unwrap().is_none());
    m.unlock_timer(Timestamp(10)).unwrap();
    let (info, v2) = m.get_info_if_changed(v1, Timestamp(10)).unwrap().unwrap();
    assert_eq!(info.state, CurrentState::Unlocked);
    assert_ne!(v1, v2);
}

#[test]
fn enforcer_reconciliation() {
    assert_eq!(reconcile(false, true), EnforcerAction::Start);
    assert_eq!(reconcile(true, false), EnforcerAction::Stop);
    assert_eq!(reconcile(true, true), EnforcerAction::Keep);
    assert_eq!(reconcile(false, false), EnforcerAction::Keep);
}

#[test]
fn ids_count_up() {
    let mut g = IdGenerator::new();
    assert_eq!(g.next_id(), Some(1));
    assert_eq!(g.next_id(), Some(2));
    g.last_id = u64::MAX;
    assert_eq!(g.next_id(), None);
}

#[test]
fn time_outside_the_range_is_not_accepted() {
    let m = DiagonatorManager::new(manager_config(vec![], vec![]));
    assert!(m.accepts_time(Timestamp(1_700_000_000)));
    assert!(!m.accepts_time(Timestamp(i64::MAX - 10)));
}

#[test]
fn config_durations_in_seconds() {
    let c = DiagonatorConfig {
        diagonator_path: "/bin/enforcer".to_string(),
        diagonator_args: vec!["-x".to_string()],
        socket_path: "/tmp/s.sock".to_string(),
        bind_on: "127.0.0.1:3000".to_string(),
        requirements: vec![],
        locked_time_ranges: vec![],
        work_period_minutes: 25,
        break_minutes: 5,
    };
    let mc = c.clone().into_manager_config().unwrap();
    assert_eq!(mc.work_period_duration, Duration(1500));
    assert_eq!(mc.break_duration, Duration(300));
    assert_eq!(mc.diagonator_command.0, "/bin/enforcer");
    let mut bad = c;
    bad.break_minutes = i64::MAX;
    assert!(bad.into_manager_config().is_none());
}

#[test]
fn exhausted_ids_fail_the_rollover() {
    let reqs = vec![RequirementConfig { name: "walk".to_string(), due: HourMinute { hour: 18, minute: 0 } }];
    let mut m = DiagonatorManager::new(manager_config(reqs, vec![]));
    m.id_generator.last_id = u64::MAX;
    let r = m.get_info(Timestamp(1_700_000_000));
    assert!(matches!(r, Err(diagonator_server::manager::ClientHandlingError::IdsExhausted)));
    assert!(m.constraints.requirements.is_empty());
}

#[test]
fn inverted_range_is_an_inconsistent_feed() {
    let ranges = vec![LockedTimeRangeConfig {
        start: Some(HourMinute { hour: 10, minute: 0 }),
        end: Some(HourMinute { hour: 9, minute: 0 }),
    }];
    let mut m = DiagonatorManager::new(manager_config(vec![], ranges));
    let date = day_of(1_700_000_000);
    let r = m.get_info(Timestamp(at(&date, 8, 0)));
    let id = m.constraints.locked_time_ranges[0].id;
    assert!(matches!(
        r,
        Err(diagonator_server::manager::ClientHandlingError::SimulatorError(
            diagonator_server::simulator::SimulatorError::LockNotFound(x)
        )) if x == id
    ));
}

#[test]
fn template_times_must_be_valid() {
    let good = manager_config(
        vec![RequirementConfig { name: "a".to_string(), due: HourMinute { hour: 23, minute: 59 } }],
        vec![LockedTimeRangeConfig { start: None, end: Some(HourMinute { hour: 0, minute: 0 }) }],
    );
    assert!(good.has_valid_templates());
    let bad_due = manager_config(
        vec![RequirementConfig { name: "a".to_string(), due: HourMinute { hour: 24, minute: 0 } }],
        vec![],
    );
    assert!(!bad_due.has_valid_templates());
    let bad_bound = manager_config(
        vec![],
        vec![LockedTimeRangeConfig { start: Some(HourMinute { hour: 9, minute: 60 }), end: None }],
    );
    assert!(!bad_bound.has_valid_templates());
}
