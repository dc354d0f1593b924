use lolzup::auth::{contains_str, has_required_scopes};
use lolzup::bump::{Action, BumpCycle, BumpError, Event};
use lolzup::scheduler::{Notice, Scheduler};
use lolzup::store::{StoreError, Task, TaskStore};

/// Drives one cycle with scripted answers and returns the actions asked for.
fn drive(thread_id: i64, answers: &[Event]) -> Vec<Action> {
    let (mut cycle, first) = BumpCycle::new(thread_id);
    let mut actions = vec![first];
    for ev in answers {
        assert!(cycle.accepts(*ev));
        actions.push(cycle.on_event(*ev));
    }
    actions
}

#[test]
fn create_twice_keeps_one_row() {
    let mut store = TaskStore::new();
    assert!(store.create(7, 100));
    assert!(!store.create(7, 200));
    let all = store.list_all();
    assert_eq!(all.len(), 1);
    assert_eq!(all[0], Task { id: 1, thread_id: 7, run_at: 100 });
}

#[test]
fn delete_reports_whether_a_row_went() {
    let mut store = TaskStore::new();
    assert!(store.create(1, 10));
    assert!(store.create(2, 20));
    assert!(store.delete(1));
    assert!(!store.delete(1));
    assert!(!store.contains_thread(1));
    assert_eq!(store.list_all(), vec![Task { id: 2, thread_id: 2, run_at: 20 }]);
    assert_eq!(store.next_id(), 3);
}

#[test]
fn list_due_selects_by_time_in_order() {
    let mut store = TaskStore::new();
    store.create(10, 50);
    store.create(11, 101);
    store.create(12, 100);
    store.create(13, 0);
    let due = store.list_due(100);
    let threads: Vec<i64> = due.iter().map(|t| t.thread_id).collect();
    assert_eq!(threads, vec![10, 12, 13]);
    assert!(store.list_due(-1).is_empty());
    assert_eq!(store.list_due(i64::MAX).len(), 4);
}

#[test]
fn update_of_deleted_task_is_not_found() {
    let mut store = TaskStore::new();
    store.create(5, 1);
    assert_eq!(store.update_due_at(1, 9), Ok(()));
    assert_eq!(store.list_all()[0].run_at, 9);
    store.delete(5);
    assert_eq!(store.update_due_at(1, 10), Err(StoreError::NotFound));
}

#[test]
fn cooldown_means_no_bump() {
    let actions = drive(3, &[Event::Fetched(Some(5000))]);
    assert_eq!(actions, vec![Action::FetchThread, Action::Finish(Ok((5000, false)))]);
    assert!(!actions.contains(&Action::Bump));
}

#[test]
fn bump_then_reschedule_to_new_cooldown() {
    let actions = drive(
        3,
        &[Event::Fetched(None), Event::Bumped(200), Event::Fetched(Some(7200))],
    );
    assert_eq!(
        actions,
        vec![Action::FetchThread, Action::Bump, Action::FetchThread, Action::Finish(Ok((7200, true)))]
    );
}

#[test]
fn missing_cooldown_after_bump_is_an_error() {
    let actions = drive(3, &[Event::Fetched(None), Event::Bumped(200), Event::Fetched(None)]);
    assert_eq!(actions.last(), Some(&Action::Finish(Err(BumpError::MissingTimestamp))));
}

#[test]
fn bad_status_is_an_error() {
    let actions = drive(3, &[Event::Fetched(None), Event::Bumped(429)]);
    assert_eq!(actions.last(), Some(&Action::Finish(Err(BumpError::Status(429)))));
}

#[test]
fn transport_failure_ends_the_cycle() {
    let (mut cycle, _) = BumpCycle::new(3);
    assert_eq!(cycle.on_event(Event::RemoteFailed), Action::Finish(Err(BumpError::Remote)));
    assert!(cycle.is_done());
    assert!(!cycle.accepts(Event::Fetched(None)));
}

#[test]
fn cycle_refuses_out_of_order_events() {
    let (cycle, _) = BumpCycle::new(3);
    assert!(!cycle.accepts(Event::Bumped(200)));
}

#[test]
fn reschedule_writes_the_new_time() {
    let mut s = Scheduler::new();
    s.create_task(9, 100);
    let due = s.begin_tick(100);
    assert_eq!(due.len(), 1);
    let report = s.finish(due[0], Ok((500, true)));
    assert!(report.stored);
    assert_eq!(report.notice, Notice::Bumped(9));
    assert_eq!(s.list_tasks()[0].run_at, 500);
}

#[test]
fn quiet_reschedule_on_cooldown() {
    let mut s = Scheduler::new();
    s.create_task(9, 100);
    let due = s.begin_tick(100);
    let report = s.finish(due[0], Ok((300, false)));
    assert!(report.stored);
    assert_eq!(report.notice, Notice::Quiet);
    assert_eq!(s.list_tasks()[0].run_at, 300);
}

#[test]
fn failure_keeps_the_old_time() {
    let mut s = Scheduler::new();
    s.create_task(9, 100);
    let due = s.begin_tick(100);
    let report = s.finish(due[0], Err(BumpError::MissingTimestamp));
    assert!(!report.stored);
    assert_eq!(report.notice, Notice::Failed(9, BumpError::MissingTimestamp));
    assert_eq!(s.list_tasks()[0].run_at, 100);
    // The task is due again on the next tick.
    assert_eq!(s.begin_tick(105).len(), 1);
}

#[test]
fn in_flight_thread_is_not_handed_out_twice() {
    let mut s = Scheduler::new();
    s.create_task(1, 10);
    s.create_task(2, 10);
    let first = s.begin_tick(10);
    assert_eq!(first.len(), 2);
    assert!(s.begin_tick(20).is_empty());
    s.finish(first[0], Err(BumpError::Remote));
    let second = s.begin_tick(30);
    assert_eq!(second.len(), 1);
    assert_eq!(second[0].thread_id, 1);
}

#[test]
fn result_for_deleted_task_is_not_stored() {
    let mut s = Scheduler::new();
    s.create_task(4, 0);
    let due = s.begin_tick(0);
    assert!(s.delete_task(4));
    let report = s.finish(due[0], Ok((60, true)));
    assert!(!report.stored);
    assert!(s.list_tasks().is_empty());
}

#[test]
fn end_to_end_tick_for_thread_42() {
    let now: i64 = 1_700_000_000;
    let mut s = Scheduler::new();
    assert!(s.create_task(42, now));
    let due = s.begin_tick(now);
    assert_eq!(due.len(), 1);
    let task = due[0];
    let (mut cycle, mut action) = BumpCycle::new(task.thread_id);
    let mut bumps = 0;
    let mut fetches = 0;
    let outcome = loop {
        action = match action {
            Action::FetchThread => {
                fetches += 1;
                let ev = if fetches == 1 { Event::Fetched(None) } else { Event::Fetched(Some(now + 3600)) };
                cycle.on_event(ev)
            }
            Action::Bump => {
                bumps += 1;
                cycle.on_event(Event::Bumped(200))
            }
            Action::Finish(r) => break r,
        };
    };
    assert_eq!(bumps, 1);
    let report = s.finish(task, outcome);
    assert_eq!(report.notice, Notice::Bumped(42));
    assert_eq!(s.list_tasks()[0].run_at, now + 3600);
    assert!(s.list_due(now).is_empty());
}

#[test]
fn tick_now_reads_the_clock() {
    let mut s = Scheduler::new();
    s.create_task(8, 0);
    let (now, due) = s.begin_tick_now();
    assert!(now > 1_600_000_000);
    assert_eq!(due.len(), 1);
}

#[test]
fn scopes_need_read_and_post() {
    assert!(has_required_scopes("basic read post"));
    assert!(!has_required_scopes("basic read"));
    assert!(!has_required_scopes("post"));
    assert!(!has_required_scopes(""));
    assert!(contains_str("conversate", "sat"));
    assert!(!contains_str("re ad", "read"));
    assert!(contains_str("abc", ""));
}
