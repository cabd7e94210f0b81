use ocj::config::{Time, UpdateDuration};
use ocj::contest_time::{Hook, Service, State, TimerOp};
use ocj::error::{ContestError, OcjError};

fn ready_service(start: u64, duration: Option<u64>) -> (Service, u64) {
    let mut service = Service::init();
    let ops = service.ready(Time { start, duration }).unwrap();
    assert_eq!(ops.len(), 1);
    let starter = match ops[0] {
        TimerOp::SpawnStarter { id, at } => {
            assert_eq!(at, start);
            id
        }
        other => panic!("expected a start timer, got {:?}", other),
    };
    (service, starter)
}

#[test]
fn make_ready_twice_returns_already_ready_and_keeps_the_timer() {
    let (mut service, starter) = ready_service(1_000, None);
    let r = service.ready(Time { start: 2_000, duration: None });
    assert!(matches!(r, Err(OcjError::Contest(ContestError::AlreadyReady))));
    match service.current_state() {
        State::Ready { time, starter: kept } => {
            assert_eq!(time.start, 1_000);
            assert_eq!(*kept, starter);
        }
        _ => panic!("the contest should still be ready"),
    }
}

#[test]
fn update_duration_before_ready_is_still_in_develop() {
    let mut service = Service::init();
    let r = service.update_duration(UpdateDuration::Assign(60_000));
    assert!(matches!(r, Err(OcjError::Contest(ContestError::StillInDevelop))));
    assert!(matches!(service.current_state(), State::InDevelop));
}

#[test]
fn update_start_time_before_ready_is_still_in_develop() {
    let mut service = Service::init();
    let r = service.update_start_time(5);
    assert!(matches!(r, Err(OcjError::Contest(ContestError::StillInDevelop))));
}

#[test]
fn rescheduling_replaces_the_wake_up() {
    let (mut service, old_starter) = ready_service(1_000, None);
    let ops = service.update_start_time(5_000).unwrap();
    assert_eq!(ops.len(), 2);
    assert_eq!(ops[0], TimerOp::Abort(old_starter));
    let new_starter = match ops[1] {
        TimerOp::SpawnStarter { id, at } => {
            assert_eq!(at, 5_000);
            id
        }
        other => panic!("expected a start timer, got {:?}", other),
    };
    assert_ne!(old_starter, new_starter);
    // the cancelled timer firing late is a no-op
    let (ops, hook) = service.timer_fired(old_starter);
    assert!(ops.is_empty());
    assert!(hook.is_none());
    assert!(matches!(service.current_state(), State::Ready { .. }));
    // only the new wake-up starts the contest
    let (_, hook) = service.timer_fired(new_starter);
    assert_eq!(hook, Some(Hook::Start));
    assert!(matches!(service.current_state(), State::Going { .. }));
}

#[test]
fn start_timer_schedules_the_finish_when_a_duration_is_set() {
    let (mut service, starter) = ready_service(1_000, Some(60_000));
    let (ops, hook) = service.timer_fired(starter);
    assert_eq!(hook, Some(Hook::Start));
    assert_eq!(ops.len(), 1);
    let finisher = match ops[0] {
        TimerOp::SpawnFinisher { id, at } => {
            assert_eq!(at, 61_000);
            id
        }
        other => panic!("expected a finish timer, got {:?}", other),
    };
    let (ops, hook) = service.timer_fired(finisher);
    assert!(ops.is_empty());
    assert_eq!(hook, Some(Hook::Finish));
    assert!(matches!(service.current_state(), State::Finished));
}

#[test]
fn without_a_duration_the_contest_never_auto_finishes() {
    let (mut service, starter) = ready_service(1_000, None);
    let (ops, hook) = service.timer_fired(starter);
    assert!(ops.is_empty());
    assert_eq!(hook, Some(Hook::Start));
    // no pending finisher: a stray handle does nothing
    let (ops, hook) = service.timer_fired(starter);
    assert!(ops.is_empty());
    assert!(hook.is_none());
    assert!(matches!(service.current_state(), State::Going { .. }));
}

#[test]
fn duration_edits_apply_only_when_one_exists() {
    let (mut service, _starter) = ready_service(1_000, None);
    // Add on a missing duration leaves it missing
    service.update_duration(UpdateDuration::Add(5)).unwrap();
    match service.current_state() {
        State::Ready { time, .. } => assert_eq!(time.duration, None),
        _ => panic!("still ready"),
    }
    service.update_duration(UpdateDuration::Assign(100)).unwrap();
    service.update_duration(UpdateDuration::Add(50)).unwrap();
    service.update_duration(UpdateDuration::Sub(30)).unwrap();
    match service.current_state() {
        State::Ready { time, .. } => assert_eq!(time.duration, Some(120)),
        _ => panic!("still ready"),
    }
}

#[test]
fn setting_a_duration_while_running_reschedules_the_finish() {
    let (mut service, starter) = ready_service(1_000, Some(10));
    let (ops, _) = service.timer_fired(starter);
    let old_finisher = match ops[0] {
        TimerOp::SpawnFinisher { id, .. } => id,
        other => panic!("expected a finish timer, got {:?}", other),
    };
    let ops = service.update_duration(UpdateDuration::Assign(500)).unwrap();
    assert_eq!(ops.len(), 2);
    assert_eq!(ops[0], TimerOp::Abort(old_finisher));
    match ops[1] {
        TimerOp::SpawnFinisher { id, at } => {
            assert_ne!(id, old_finisher);
            assert_eq!(at, 1_500);
        }
        other => panic!("expected a finish timer, got {:?}", other),
    }
}

#[test]
fn edits_after_the_start_are_rejected_where_the_design_says_so() {
    let (mut service, starter) = ready_service(1_000, None);
    service.timer_fired(starter);
    let r = service.update_start_time(9_000);
    assert!(matches!(r, Err(OcjError::Contest(ContestError::AlreadyGoing))));
    // a finished contest rejects duration edits too
    let (mut service, starter) = ready_service(1_000, Some(1));
    let (ops, _) = service.timer_fired(starter);
    let finisher = match ops[0] {
        TimerOp::SpawnFinisher { id, .. } => id,
        other => panic!("expected a finish timer, got {:?}", other),
    };
    service.timer_fired(finisher);
    let r = service.update_duration(UpdateDuration::Assign(5));
    assert!(matches!(r, Err(OcjError::Contest(ContestError::AlreadyGoing))));
}
