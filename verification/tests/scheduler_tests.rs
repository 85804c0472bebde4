use ordito::errors::ApiError;
use ordito::model::{Recurrence, Schedule};
use ordito::scheduler::{advance_after_dispatch, skip_orphaned_dispatch, SchedulerManager};

const DAY: u64 = 86400;

fn daily_schedule(id: &str, max_executions: Option<u32>) -> Schedule {
    Schedule {
        id: String::from(id),
        group_id: String::from("g1"),
        command_id: None,
        recurrence: Recurrence::Daily,
        scheduled_time: 3600,
        is_active: true,
        created_at: 0,
        last_execution: None,
        next_execution: 3600,
        execution_count: 0,
        max_executions,
    }
}

#[test]
fn start_and_stop_lifecycle() {
    let mut m = SchedulerManager::new();
    assert!(!m.is_running());
    assert_eq!(m.start(), Ok(()));
    assert!(m.is_running());
    // A second start is refused and is a no-op.
    assert_eq!(m.start(), Err(ApiError::AlreadyRunning));
    assert!(m.is_running());
    // Stop is idempotent.
    m.stop();
    assert!(!m.is_running());
    m.stop();
    assert!(!m.is_running());
    assert_eq!(m.start(), Ok(()));
}

#[test]
fn add_assigns_fresh_id_and_first_fire() {
    let mut m = SchedulerManager::new();
    let id = m.add_schedule(daily_schedule("ignored", None), 1800).unwrap();
    assert_eq!(id.chars().count(), 36);
    let stored = m.get_schedule(&id).unwrap();
    assert_eq!(stored.id, id);
    assert_eq!(stored.next_execution, 3600);
    assert_eq!(m.get_schedules().len(), 1);
}

#[test]
fn add_rejects_spent_once() {
    let mut m = SchedulerManager::new();
    let mut s = daily_schedule("x", None);
    s.recurrence = Recurrence::Once;
    s.scheduled_time = 500;
    // The anchor is already past at creation: invalid configuration.
    assert_eq!(m.add_schedule(s, 1000), Err(ApiError::InvalidInput));
    assert_eq!(m.get_schedules().len(), 0);
}

#[test]
fn add_rejects_zero_interval() {
    let mut m = SchedulerManager::new();
    let mut s = daily_schedule("x", None);
    s.recurrence = Recurrence::Custom { interval_minutes: 0 };
    assert_eq!(m.add_schedule(s, 1000), Err(ApiError::InvalidInput));
}

#[test]
fn toggle_unknown_id_reports_not_found_and_changes_nothing() {
    let mut m = SchedulerManager::new();
    let id = m.add_schedule(daily_schedule("x", None), 1800).unwrap();
    let before = m.get_schedules();
    let missing = String::from("no-such-id");
    assert_eq!(m.toggle_schedule(&missing), Err(ApiError::NotFound));
    assert_eq!(m.get_schedules(), before);
    // A known id flips and reports the new value.
    assert_eq!(m.toggle_schedule(&id), Ok(false));
    assert_eq!(m.toggle_schedule(&id), Ok(true));
}

#[test]
fn remove_schedule_paths() {
    let mut m = SchedulerManager::new();
    let id = m.add_schedule(daily_schedule("x", None), 1800).unwrap();
    let missing = String::from("no-such-id");
    assert_eq!(m.remove_schedule(&missing), Err(ApiError::NotFound));
    assert_eq!(m.remove_schedule(&id), Ok(()));
    assert_eq!(m.get_schedules().len(), 0);
}

#[test]
fn update_schedule_paths() {
    let mut m = SchedulerManager::new();
    let id = m.add_schedule(daily_schedule("x", None), 1800).unwrap();
    let missing = String::from("no-such-id");
    assert_eq!(
        m.update_schedule(&missing, daily_schedule("y", None), 1800),
        Err(ApiError::NotFound)
    );
    let mut bad = daily_schedule("y", None);
    bad.recurrence = Recurrence::Custom { interval_minutes: 0 };
    assert_eq!(m.update_schedule(&id, bad, 1800), Err(ApiError::InvalidInput));
    let mut good = daily_schedule("y", None);
    good.scheduled_time = 7200;
    // Whatever identity and progress the update carries are ignored.
    good.created_at = 999;
    good.execution_count = 7;
    good.last_execution = Some(555);
    good.is_active = false;
    assert_eq!(m.update_schedule(&id, good, 1800), Ok(()));
    let stored = m.get_schedule(&id).unwrap();
    // The stored id wins over whatever the update carried.
    assert_eq!(stored.id, id);
    assert_eq!(stored.next_execution, 7200);
    // An edit replaces configuration only: progress is preserved.
    assert_eq!(stored.created_at, 0);
    assert_eq!(stored.execution_count, 0);
    assert_eq!(stored.last_execution, None);
    assert!(stored.is_active);
}

#[test]
fn update_preserves_progress_and_does_not_revive() {
    let mut m = SchedulerManager::new();
    let mut s = daily_schedule("s1", Some(5));
    s.created_at = 42;
    s.execution_count = 3;
    s.last_execution = Some(100);
    s.is_active = false;
    m.load_schedules(vec![s]);
    let id = String::from("s1");
    let mut cfg = daily_schedule("ignored", Some(5));
    cfg.recurrence = Recurrence::Custom { interval_minutes: 10 };
    assert_eq!(m.update_schedule(&id, cfg, 1800), Ok(()));
    let stored = m.get_schedule(&id).unwrap();
    // The fire instant is recomputed at the schedule's own progress...
    assert_eq!(stored.next_execution, 1800 + 600);
    assert_eq!(stored.recurrence, Recurrence::Custom { interval_minutes: 10 });
    // ...and nothing of that progress is reset: the count stays, and a
    // deactivated schedule is not revived by an edit.
    assert_eq!(stored.execution_count, 3);
    assert_eq!(stored.created_at, 42);
    assert_eq!(stored.last_execution, Some(100));
    assert!(!stored.is_active);
}

#[test]
fn update_refuses_configuration_exhausted_for_this_schedule() {
    let mut m = SchedulerManager::new();
    let mut s = daily_schedule("s1", None);
    s.execution_count = 3;
    m.load_schedules(vec![s]);
    let id = String::from("s1");
    // A cap at or below the schedule's progress yields no next fire.
    let cfg = daily_schedule("ignored", Some(3));
    assert_eq!(m.update_schedule(&id, cfg, 1800), Err(ApiError::InvalidInput));
    // The store is untouched.
    let stored = m.get_schedule(&id).unwrap();
    assert_eq!(stored.max_executions, None);
    assert_eq!(stored.execution_count, 3);
}

#[test]
fn orphaned_dispatch_parks_without_counting() {
    let mut s = daily_schedule("x", None);
    s.execution_count = 2;
    s.last_execution = Some(77);
    skip_orphaned_dispatch(&mut s);
    // Nothing ran: the count and the dispatch record are untouched; the
    // schedule is parked.
    assert!(!s.is_active);
    assert_eq!(s.execution_count, 2);
    assert_eq!(s.last_execution, Some(77));
    assert_eq!(s.next_execution, 3600);
}

#[test]
fn merge_schedules_keeps_existing_on_collision() {
    let mut m = SchedulerManager::new();
    m.load_schedules(vec![daily_schedule("a", None)]);
    let mut colliding = daily_schedule("a", None);
    colliding.scheduled_time = 7777;
    let fresh = daily_schedule("b", None);
    m.merge_schedules(vec![colliding, fresh]);
    let all = m.get_schedules();
    assert_eq!(all.len(), 2);
    // The standing schedule keeps its content.
    assert_eq!(all[0].id, "a");
    assert_eq!(all[0].scheduled_time, 3600);
    assert_eq!(all[1].id, "b");
}

#[test]
fn due_schedules_selects_active_arrived() {
    let mut m = SchedulerManager::new();
    let id_due = m.add_schedule(daily_schedule("a", None), 1800).unwrap();
    let mut later = daily_schedule("b", None);
    later.scheduled_time = 50000;
    let _id_later = m.add_schedule(later, 1800).unwrap();
    let id_off = m.add_schedule(daily_schedule("c", None), 1800).unwrap();
    m.toggle_schedule(&id_off).unwrap();
    // At 10000 only the first is both active and arrived (fire at 3600).
    let due = m.due_schedules(10000);
    assert_eq!(due.len(), 1);
    assert_eq!(due[0].id, id_due);
}

#[test]
fn cap_deactivates_exactly_on_nth_dispatch() {
    let mut s = daily_schedule("x", Some(2));
    // First dispatch: one of two allowed executions spent; still active.
    advance_after_dispatch(&mut s, 7200);
    assert_eq!(s.execution_count, 1);
    assert!(s.is_active);
    assert_eq!(s.last_execution, Some(7200));
    assert_eq!(s.next_execution, DAY + 3600);
    // Second dispatch reaches the cap: deactivated exactly now.
    advance_after_dispatch(&mut s, DAY + 7200);
    assert_eq!(s.execution_count, 2);
    assert!(!s.is_active);
}

#[test]
fn uncapped_schedule_keeps_running() {
    let mut s = daily_schedule("x", None);
    for k in 1..5u64 {
        advance_after_dispatch(&mut s, k * DAY);
        assert!(s.is_active);
        assert_eq!(u64::from(s.execution_count), k);
        assert!(s.next_execution > k * DAY);
    }
}

#[test]
fn corrupt_schedule_deactivates_instead_of_firing() {
    let mut s = daily_schedule("x", None);
    s.recurrence = Recurrence::Custom { interval_minutes: 0 };
    advance_after_dispatch(&mut s, 7200);
    assert!(!s.is_active);
}

#[test]
fn load_drops_repeated_ids() {
    let mut m = SchedulerManager::new();
    let a = daily_schedule("same", None);
    let mut b = daily_schedule("same", None);
    b.scheduled_time = 9999;
    let c = daily_schedule("other", None);
    m.load_schedules(vec![a, b, c]);
    let all = m.get_schedules();
    assert_eq!(all.len(), 2);
    // The first occurrence of a repeated id wins.
    assert_eq!(all[0].id, "same");
    assert_eq!(all[0].scheduled_time, 3600);
    assert_eq!(all[1].id, "other");
}

#[test]
fn extend_replaces_and_appends() {
    let mut m = SchedulerManager::new();
    m.load_schedules(vec![daily_schedule("a", None), daily_schedule("b", None)]);
    let mut replacement = daily_schedule("a", None);
    replacement.scheduled_time = 7777;
    let fresh = daily_schedule("c", None);
    m.extend_schedules(vec![replacement, fresh]);
    let all = m.get_schedules();
    assert_eq!(all.len(), 3);
    assert_eq!(all[0].id, "a");
    assert_eq!(all[0].scheduled_time, 7777);
    assert_eq!(all[1].id, "b");
    assert_eq!(all[2].id, "c");
}
