use pomodoro_store::store::Store;
use pomodoro_store::types::StoreError;

fn ready_store() -> Store {
    let mut s = Store::new();
    s.migrate_database().unwrap();
    s
}

#[test]
fn create_task_has_documented_defaults() {
    let mut s = ready_store();
    let t = s.add_task(String::from("Write report")).unwrap();
    assert_eq!(t.text, "Write report");
    assert!(!t.completed);
    assert!(t.completed_at.is_none());
    assert_eq!(t.priority, 0);
    assert_eq!(t.estimated_pomodoros, 1);
    assert_eq!(t.actual_pomodoros, 0);
    assert_eq!(t.id.len(), 36);
}

#[test]
fn qualifying_completion_updates_task_and_day() {
    // create "Write report", run one 25-minute work session to completion
    let mut s = ready_store();
    let t = s.add_task(String::from("Write report")).unwrap();
    let sid = s
        .start_pomodoro_session(Some(t.id.clone()), String::from("work"), 25)
        .unwrap();
    s.complete_pomodoro_session(&sid, true, false).unwrap();

    let with_stats = s.get_task_with_stats(&t.id).unwrap();
    assert_eq!(with_stats.task.actual_pomodoros, 1);
    assert_eq!(with_stats.total_time_spent, 25);
    assert_eq!(with_stats.pomodoro_sessions.len(), 1);

    let days = s.get_daily_stats();
    assert_eq!(days.len(), 1);
    assert_eq!(days[0].pomodoros_completed, 1);
    assert_eq!(days[0].total_work_time, 25);
    assert_eq!(days[0].tasks_completed, 0);

    let heat = s.get_focus_heatmap(None).unwrap();
    assert_eq!(heat.len(), 1);
    assert_eq!(heat[0].count, 1);
    assert_eq!(heat[0].level, 1);
}

#[test]
fn interrupted_or_break_sessions_count_nothing() {
    let mut s = ready_store();
    let t = s.add_task(String::from("focus")).unwrap();
    let a = s
        .start_pomodoro_session(Some(t.id.clone()), String::from("work"), 25)
        .unwrap();
    s.complete_pomodoro_session(&a, true, true).unwrap();
    let b = s
        .start_pomodoro_session(Some(t.id.clone()), String::from("short_break"), 5)
        .unwrap();
    s.complete_pomodoro_session(&b, true, false).unwrap();
    let c = s
        .start_pomodoro_session(Some(t.id.clone()), String::from("work"), 25)
        .unwrap();
    s.complete_pomodoro_session(&c, false, true).unwrap();

    let with_stats = s.get_task_with_stats(&t.id).unwrap();
    assert_eq!(with_stats.task.actual_pomodoros, 0);
    assert!(s.get_daily_stats().iter().all(|d| d.pomodoros_completed == 0));
    assert!(s.get_focus_heatmap(None).unwrap().is_empty());
}

#[test]
fn actual_pomodoros_equals_number_of_qualifying_completions() {
    // three completed, uninterrupted work runs on one task read back as three
    let mut s = ready_store();
    let t = s.add_task(String::from("thesis")).unwrap();
    for _ in 0..3 {
        let sid = s
            .start_pomodoro_session(Some(t.id.clone()), String::from("work"), 25)
            .unwrap();
        s.complete_pomodoro_session(&sid, true, false).unwrap();
    }
    let with_stats = s.get_task_with_stats(&t.id).unwrap();
    assert_eq!(with_stats.task.actual_pomodoros, 3);
    assert_eq!(with_stats.total_time_spent, 75);
}

#[test]
fn completing_a_task_bumps_only_the_transition() {
    let mut s = ready_store();
    let t = s.add_task(String::from("inbox zero")).unwrap();
    s.complete_task(&t.id, true).unwrap();
    // already completed: no second bump
    s.complete_task(&t.id, true).unwrap();
    let days = s.get_daily_stats();
    assert_eq!(days.len(), 1);
    assert_eq!(days[0].tasks_completed, 1);
    // un-complete clears the timestamp but never decrements the day
    s.complete_task(&t.id, false).unwrap();
    let tasks = s.get_tasks();
    assert!(!tasks[0].completed);
    assert!(tasks[0].completed_at.is_none());
    assert_eq!(s.get_daily_stats()[0].tasks_completed, 1);
    // a fresh transition bumps again
    s.complete_task(&t.id, true).unwrap();
    assert_eq!(s.get_daily_stats()[0].tasks_completed, 2);
}

#[test]
fn update_task_leaves_completion_and_counters_alone() {
    let mut s = ready_store();
    let t = s.add_task(String::from("draft")).unwrap();
    let sid = s
        .start_pomodoro_session(Some(t.id.clone()), String::from("work"), 10)
        .unwrap();
    s.complete_pomodoro_session(&sid, true, false).unwrap();
    s.update_task(&t.id, String::from("final draft"), 7, 4).unwrap();
    let tasks = s.get_tasks();
    assert_eq!(tasks.len(), 1);
    assert_eq!(tasks[0].text, "final draft");
    assert_eq!(tasks[0].priority, 7);
    assert_eq!(tasks[0].estimated_pomodoros, 4);
    assert_eq!(tasks[0].actual_pomodoros, 1);
    assert!(!tasks[0].completed);
}

#[test]
fn deleting_a_task_keeps_its_sessions_with_link_cleared() {
    // sessions outlive the task: queryable, task id null, nothing errors
    let mut s = ready_store();
    let t = s.add_task(String::from("doomed")).unwrap();
    let a = s
        .start_pomodoro_session(Some(t.id.clone()), String::from("work"), 25)
        .unwrap();
    let b = s
        .start_pomodoro_session(Some(t.id.clone()), String::from("long_break"), 15)
        .unwrap();
    s.delete_task(&t.id).unwrap();
    assert!(s.get_tasks().is_empty());
    let snapshot = s.export_data();
    assert_eq!(snapshot.pomodoro_sessions.len(), 2);
    for sess in &snapshot.pomodoro_sessions {
        assert!(sess.task_id.is_none());
        assert!(sess.id == a || sess.id == b);
    }
}

#[test]
fn deleting_a_missing_task_is_a_quiet_no_op() {
    let mut s = ready_store();
    s.add_task(String::from("keep me")).unwrap();
    s.delete_task(&String::from("no-such-id")).unwrap();
    assert_eq!(s.get_tasks().len(), 1);
}

#[test]
fn start_rejects_kinds_outside_the_closed_set() {
    let mut s = ready_store();
    let r = s.start_pomodoro_session(None, String::from("nap"), 20);
    assert_eq!(r.unwrap_err(), StoreError::InvalidSessionKind);
}

#[test]
fn start_rejects_a_link_to_a_missing_task() {
    let mut s = ready_store();
    let r = s.start_pomodoro_session(
        Some(String::from("ghost-task")),
        String::from("work"),
        25,
    );
    assert_eq!(r.unwrap_err(), StoreError::NotFound);
}

#[test]
fn completing_a_missing_session_is_reported() {
    let mut s = ready_store();
    let r = s.complete_pomodoro_session(&String::from("ghost"), true, false);
    assert_eq!(r.unwrap_err(), StoreError::NotFound);
}

#[test]
fn a_session_is_finished_at_most_once() {
    let mut s = ready_store();
    let sid = s
        .start_pomodoro_session(None, String::from("work"), 25)
        .unwrap();
    s.complete_pomodoro_session(&sid, true, false).unwrap();
    let r = s.complete_pomodoro_session(&sid, true, false);
    assert_eq!(r.unwrap_err(), StoreError::AlreadyFinished);
    // the double call changed nothing
    assert_eq!(s.get_daily_stats()[0].pomodoros_completed, 1);
}

#[test]
fn completing_a_missing_task_is_reported() {
    let mut s = ready_store();
    let r = s.complete_task(&String::from("ghost"), true);
    assert_eq!(r.unwrap_err(), StoreError::NotFound);
}

#[test]
fn a_taken_identifier_is_refused() {
    let mut s = ready_store();
    let now = String::from("2024-03-01T09:00:00+00:00");
    s.create_task_at(String::from("one"), String::from("id-1"), now.clone())
        .unwrap();
    let r = s.create_task_at(String::from("two"), String::from("id-1"), now);
    assert_eq!(r.unwrap_err(), StoreError::DuplicateId);
}

#[test]
fn error_messages_describe_the_failure() {
    assert_eq!(
        StoreError::NotFound.message(),
        "no task or session with this id"
    );
    assert_eq!(StoreError::InvalidSessionKind.message(), "invalid session type");
    assert_eq!(StoreError::DuplicateId.message(), "identifier already in use");
    assert_eq!(
        StoreError::AlreadyFinished.message(),
        "session was already finished"
    );
    assert_eq!(
        StoreError::CounterOverflow.message(),
        "a counter would overflow"
    );
}
