use pomodoro_store::store::Store;
use pomodoro_store::text::{audio_file_name, date_of_timestamp};
use pomodoro_store::settings::AppSettings;
use pomodoro_store::monk::MonkModeState;
use pomodoro_store::sounds::{
    generate_work_complete_sound, generate_break_complete_sound, generate_tick_sound,
};

fn ready_store() -> Store {
    let mut s = Store::new();
    s.migrate_database().unwrap();
    s
}

fn stamp(date: &str) -> String {
    format!("{}T10:00:00+00:00", date)
}

/// Starts and completes one uninterrupted work session dated `date`.
fn run_work_session(s: &mut Store, task: Option<String>, minutes: u32, id: &str, date: &str) {
    let sid = s
        .start_pomodoro_session_at(
            task,
            String::from("work"),
            minutes,
            String::from(id),
            stamp(date),
        )
        .unwrap();
    s.complete_pomodoro_session_at(&sid, true, false, &stamp(date)).unwrap();
}

#[test]
fn tasks_list_by_priority_then_creation() {
    let mut s = ready_store();
    s.create_task_at(
        String::from("old low"),
        String::from("t1"),
        stamp("2024-01-01"),
    )
    .unwrap();
    s.create_task_at(
        String::from("new low"),
        String::from("t2"),
        stamp("2024-02-01"),
    )
    .unwrap();
    s.create_task_at(
        String::from("high"),
        String::from("t3"),
        stamp("2023-01-01"),
    )
    .unwrap();
    s.update_task(&String::from("t3"), String::from("high"), 5, 1).unwrap();
    let tasks = s.get_tasks();
    let ids: Vec<&str> = tasks.iter().map(|t| t.id.as_str()).collect();
    assert_eq!(ids, vec!["t3", "t2", "t1"]);
}

#[test]
fn stats_for_a_blank_date_are_zero_not_an_error() {
    let s = ready_store();
    let d = s.get_daily_stats_by_date(String::from("2099-01-01"));
    assert_eq!(d.date, "2099-01-01");
    assert_eq!(d.pomodoros_completed, 0);
    assert_eq!(d.total_work_time, 0);
    assert_eq!(d.tasks_completed, 0);
}

#[test]
fn stats_for_date_count_exactly_the_qualifying_sessions() {
    let mut s = ready_store();
    // two qualifying work runs, one interrupted work run, one break: count 2
    run_work_session(&mut s, None, 25, "s1", "2024-05-10");
    run_work_session(&mut s, None, 15, "s2", "2024-05-10");
    let sid = s
        .start_pomodoro_session_at(
            None,
            String::from("work"),
            25,
            String::from("s3"),
            stamp("2024-05-10"),
        )
        .unwrap();
    s.complete_pomodoro_session_at(&sid, true, true, &stamp("2024-05-10")).unwrap();
    let bid = s
        .start_pomodoro_session_at(
            None,
            String::from("short_break"),
            5,
            String::from("s4"),
            stamp("2024-05-10"),
        )
        .unwrap();
    s.complete_pomodoro_session_at(&bid, true, false, &stamp("2024-05-10")).unwrap();

    let d = s.get_daily_stats_by_date(String::from("2024-05-10"));
    assert_eq!(d.pomodoros_completed, 2);
    assert_eq!(d.total_work_time, 40);
}

#[test]
fn distinct_completions_on_one_date_are_all_counted() {
    // a batch of separate sessions finishing on the same date loses none
    let mut s = ready_store();
    for i in 0..8 {
        run_work_session(&mut s, None, 25, &format!("s{}", i), "2024-06-01");
    }
    let d = s.get_daily_stats_by_date(String::from("2024-06-01"));
    assert_eq!(d.pomodoros_completed, 8);
    assert_eq!(d.total_work_time, 200);
}

#[test]
fn daily_stats_list_the_newest_thirty() {
    let mut s = ready_store();
    for i in 0..31 {
        let date = format!("2024-01-{:02}", i + 1);
        run_work_session(&mut s, None, 10, &format!("s{}", i), &date);
    }
    run_work_session(&mut s, None, 10, "f1", "2024-02-01");
    run_work_session(&mut s, None, 10, "f2", "2024-02-02");
    let days = s.get_daily_stats();
    assert_eq!(days.len(), 30);
    assert_eq!(days[0].date, "2024-02-02");
    assert_eq!(days[29].date, "2024-01-04");
    for w in days.windows(2) {
        assert!(w[0].date > w[1].date);
    }
}

#[test]
fn heatmap_buckets_counts_into_levels() {
    let mut s = ready_store();
    // one session on the first date, three on the second, six on the third,
    // ten on the fourth
    run_work_session(&mut s, None, 25, "a0", "2024-02-01");
    for i in 0..3 {
        run_work_session(&mut s, None, 25, &format!("b{}", i), "2024-02-02");
    }
    for i in 0..6 {
        run_work_session(&mut s, None, 25, &format!("c{}", i), "2024-02-03");
    }
    for i in 0..10 {
        run_work_session(&mut s, None, 25, &format!("d{}", i), "2024-02-04");
    }
    let heat = s.get_focus_heatmap_from(&String::from("2024-01-01")).unwrap();
    assert_eq!(heat.len(), 4);
    let expected = vec![
        ("2024-02-01", 1u32, 1u8),
        ("2024-02-02", 3, 2),
        ("2024-02-03", 6, 3),
        ("2024-02-04", 10, 4),
    ];
    for (point, (date, count, level)) in heat.iter().zip(expected.iter()) {
        assert_eq!(point.date, *date);
        assert_eq!(point.count, *count);
        assert_eq!(point.level, *level);
    }
}

#[test]
fn heatmap_window_drops_older_dates_and_buckets_by_start_date() {
    let mut s = ready_store();
    run_work_session(&mut s, None, 25, "old", "2023-01-01");
    run_work_session(&mut s, None, 25, "new", "2024-01-01");
    let heat = s.get_focus_heatmap_from(&String::from("2023-06-01")).unwrap();
    assert_eq!(heat.len(), 1);
    assert_eq!(heat[0].date, "2024-01-01");
    // interrupted or unfinished sessions never show
    let sid = s
        .start_pomodoro_session_at(
            None,
            String::from("work"),
            25,
            String::from("running"),
            stamp("2024-01-02"),
        )
        .unwrap();
    let heat = s.get_focus_heatmap_from(&String::from("2023-06-01")).unwrap();
    assert_eq!(heat.len(), 1);
    s.complete_pomodoro_session_at(&sid, true, false, &stamp("2024-01-02")).unwrap();
    let heat = s.get_focus_heatmap_from(&String::from("2023-06-01")).unwrap();
    assert_eq!(heat.len(), 2);
}

#[test]
fn export_holds_every_table_in_listing_order() {
    let mut s = ready_store();
    s.create_task_at(String::from("a"), String::from("t1"), stamp("2024-01-01"))
        .unwrap();
    s.create_task_at(String::from("b"), String::from("t2"), stamp("2024-03-01"))
        .unwrap();
    run_work_session(&mut s, Some(String::from("t1")), 25, "s1", "2024-04-01");
    run_work_session(&mut s, None, 25, "s2", "2024-04-02");
    let snapshot = s.export_data_at(String::from("2024-05-01T00:00:00+00:00"));
    assert_eq!(snapshot.exported_at, "2024-05-01T00:00:00+00:00");
    assert_eq!(snapshot.tasks.len(), 2);
    assert_eq!(snapshot.tasks[0].id, "t2");
    assert_eq!(snapshot.tasks[1].id, "t1");
    assert_eq!(snapshot.pomodoro_sessions.len(), 2);
    assert_eq!(snapshot.pomodoro_sessions[0].id, "s2");
    assert_eq!(snapshot.pomodoro_sessions[1].id, "s1");
    assert_eq!(snapshot.daily_stats.len(), 2);
    assert_eq!(snapshot.daily_stats[0].date, "2024-04-02");
    assert_eq!(snapshot.daily_stats[1].date, "2024-04-01");
}

#[test]
fn task_history_lists_newest_first() {
    let mut s = ready_store();
    s.create_task_at(String::from("a"), String::from("t1"), stamp("2024-01-01"))
        .unwrap();
    run_work_session(&mut s, Some(String::from("t1")), 10, "s1", "2024-01-02");
    run_work_session(&mut s, Some(String::from("t1")), 20, "s2", "2024-01-04");
    run_work_session(&mut s, Some(String::from("t1")), 30, "s3", "2024-01-03");
    run_work_session(&mut s, None, 40, "other", "2024-01-05");
    let with_stats = s.get_task_with_stats(&String::from("t1")).unwrap();
    let ids: Vec<&str> = with_stats
        .pomodoro_sessions
        .iter()
        .map(|x| x.id.as_str())
        .collect();
    assert_eq!(ids, vec!["s2", "s3", "s1"]);
    assert_eq!(with_stats.total_time_spent, 60);
}

#[test]
fn date_part_is_the_first_ten_characters() {
    assert_eq!(date_of_timestamp("2024-05-10T23:58:00+00:00"), "2024-05-10");
    assert_eq!(date_of_timestamp("short"), "short");
}

#[test]
fn sound_names_gain_an_extension_only_when_bare() {
    assert_eq!(audio_file_name("rain"), "rain.wav");
    assert_eq!(audio_file_name("rain.ogg"), "rain.ogg");
}

#[test]
fn settings_defaults_match_the_documentation() {
    let d = AppSettings::default();
    assert_eq!(d.theme, "light");
    assert_eq!(d.work_duration, 25);
    assert_eq!(d.break_duration, 5);
    assert_eq!(d.long_break_duration, 15);
    assert_eq!(d.sessions_until_long_break, 4);
    assert!(d.sound_enabled);
}

#[test]
fn monk_mode_toggles() {
    let mut m = MonkModeState::new();
    assert!(!m.is_enabled());
    m.set_enabled(true);
    assert!(m.is_enabled());
    m.set_enabled(false);
    assert!(!m.is_enabled());
}

#[test]
fn generated_sounds_have_their_fixed_sizes() {
    assert_eq!(generate_work_complete_sound().len(), 1000);
    assert_eq!(generate_break_complete_sound().len(), 1000);
    assert_eq!(generate_tick_sound().len(), 100);
    assert!(generate_tick_sound().iter().all(|b| *b == 0));
}
