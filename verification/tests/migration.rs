use pomodoro_store::store::Store;

fn stamp(date: &str) -> String {
    format!("{}T10:00:00+00:00", date)
}

#[test]
fn a_fresh_store_migrates_to_the_current_schema() {
    let mut s = Store::new();
    assert_eq!(s.version, 0);
    assert!(!s.tasks_table);
    s.migrate_database().unwrap();
    assert_eq!(s.version, 2);
    assert!(s.tasks_table);
    assert!(s.sessions_table);
    assert!(s.stats_table);
    assert!(s.settings_table);
    assert!(s.task_extras);
}

#[test]
fn rerunning_migration_is_a_no_op_on_rows() {
    let mut s = Store::new();
    s.migrate_database().unwrap();
    s.create_task_at(String::from("keep"), String::from("t1"), stamp("2024-01-01"))
        .unwrap();
    let sid = s
        .start_pomodoro_session_at(
            Some(String::from("t1")),
            String::from("work"),
            25,
            String::from("s1"),
            stamp("2024-01-02"),
        )
        .unwrap();
    s.complete_pomodoro_session_at(&sid, true, false, &stamp("2024-01-02")).unwrap();
    let before = s.export_data_at(String::from("x"));

    s.migrate_database().unwrap();
    let after = s.export_data_at(String::from("x"));
    assert_eq!(before.tasks, after.tasks);
    assert_eq!(before.pomodoro_sessions, after.pomodoro_sessions);
    assert_eq!(before.daily_stats, after.daily_stats);
    assert_eq!(s.version, 2);
}

#[test]
fn migration_from_older_versions_converges() {
    // a store as the first released schema left it: version 1, tasks only
    let mut old = Store::new();
    old.migrate_database().unwrap();
    old.create_task_at(String::from("carried"), String::from("t1"), stamp("2023-12-01"))
        .unwrap();
    old.version = 1;
    old.sessions_table = false;
    old.stats_table = false;
    old.settings_table = false;
    old.task_extras = false;

    old.migrate_database().unwrap();
    assert_eq!(old.version, 2);
    assert!(old.sessions_table && old.stats_table && old.settings_table && old.task_extras);
    // the pre-existing row answers queries as before
    let tasks = old.get_tasks();
    assert_eq!(tasks.len(), 1);
    assert_eq!(tasks[0].text, "carried");
    assert_eq!(tasks[0].priority, 0);
    assert_eq!(tasks[0].estimated_pomodoros, 1);
    assert_eq!(tasks[0].actual_pomodoros, 0);
}
