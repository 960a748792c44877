use time_tracker::categorization::Categorization;
use time_tracker::config::AppConfig;
use time_tracker::data::{Task, TaskStatus, TimeChunk};
use time_tracker::lifecycle::{pause_task, start_task, stop_task};
use time_tracker::summary::{
    calculate_summary, format_duration, parse_period, period_window_seconds, summarize,
};

fn stopped_task(name: &str, chunks: &[(i64, i64)]) -> Task {
    Task {
        name: String::from(name),
        time_chunks: chunks
            .iter()
            .map(|&(s, e)| TimeChunk { start_time: s, end_time: Some(e) })
            .collect(),
        paused_duration: 0,
        status: TaskStatus::Stopped,
    }
}

#[test]
fn two_closed_chunks_of_60_and_120_seconds_accrue_exactly_180() {
    let task = stopped_task("t", &[(100, 160), (200, 320)]);
    assert_eq!(task.accrued_seconds(1000), 180);
    let tasks = vec![task];
    let (total, running, paused, stopped) = calculate_summary(&tasks, 1000);
    assert_eq!(total, 180);
    assert_eq!((running, paused, stopped), (0, 0, 1));
}

#[test]
fn a_running_task_accrues_the_time_since_its_open_chunk_started() {
    let task = Task {
        name: String::from("t"),
        time_chunks: vec![TimeChunk { start_time: 910, end_time: None }],
        paused_duration: 0,
        status: TaskStatus::Running,
    };
    let secs = task.accrued_seconds(1000);
    assert!(secs >= 90);
    assert_eq!(secs, 90);
}

#[test]
fn the_window_excludes_old_tasks_and_counts_partition_the_rest() {
    let day = 86400i64;
    let now = 100 * day;
    let mut store = Categorization::new();
    start_task(&mut store, "old #w", now - 40 * day);
    stop_task(&mut store, now - 40 * day + 600);
    start_task(&mut store, "fresh #w", now - 3600);

    let report = summarize(&store, Some(day), None, now);
    assert_eq!(report.len(), 1);
    let entry = &report[0];
    assert_eq!(entry.name, "#w");
    assert_eq!(entry.running, 1);
    assert_eq!(entry.paused, 0);
    assert_eq!(entry.stopped, 0);
    assert_eq!(entry.running + entry.paused + entry.stopped, 1);
    assert_eq!(entry.total_seconds, 3600);

    let unbounded = summarize(&store, None, None, now);
    assert_eq!(unbounded[0].running + unbounded[0].paused + unbounded[0].stopped, 2);
    assert_eq!(unbounded[0].total_seconds, 3600 + 600);
}

#[test]
fn the_window_looks_only_at_the_most_recent_chunk() {
    let day = 86400i64;
    let now = 100 * day;
    let mut store = Categorization::new();
    start_task(&mut store, "long paused", now - 40 * day);
    pause_task(&mut store, now - 39 * day);
    let report = summarize(&store, Some(day), None, now);
    assert_eq!(report.len(), 1);
    assert_eq!(report[0].running + report[0].paused + report[0].stopped, 0);
    assert_eq!(report[0].total_seconds, 0);
}

#[test]
fn the_category_filter_matches_exactly() {
    let mut store = Categorization::new();
    start_task(&mut store, "a #one", 100);
    pause_task(&mut store, 200);
    start_task(&mut store, "b #two", 300);

    let filter = String::from("#two");
    let report = summarize(&store, None, Some(&filter), 400);
    assert_eq!(report.len(), 1);
    assert_eq!(report[0].name, "#two");
    assert_eq!(report[0].running, 1);

    let missing = String::from("#three");
    let empty = summarize(&store, None, Some(&missing), 400);
    assert!(empty.is_empty());
}

#[test]
fn paused_and_stopped_tasks_count_only_their_closed_chunks() {
    let mut store = Categorization::new();
    start_task(&mut store, "p", 100);
    pause_task(&mut store, 160);
    let report = summarize(&store, None, None, 1000);
    assert_eq!(report[0].paused, 1);
    assert_eq!(report[0].total_seconds, 60);
}

#[test]
fn durations_format_zero_padded() {
    assert_eq!(format_duration(3723), "01h 02m 03s");
    assert_eq!(format_duration(0), "00h 00m 00s");
    assert_eq!(format_duration(59), "00h 00m 59s");
    assert_eq!(format_duration(360000), "100h 00m 00s");
}

#[test]
fn the_clock_display_is_colon_separated() {
    let task = stopped_task("t", &[(0, 90)]);
    assert_eq!(task.time_spent(1000), "00:01:30");
    let long = stopped_task("t", &[(0, 100 * 3600 + 62)]);
    assert_eq!(long.time_spent(1000000), "100:01:02");
}

#[test]
fn chrono_duration_adds_the_span_since_the_last_start() {
    let task = stopped_task("t", &[(100, 160)]);
    assert_eq!(task.chrono_duration(400), 60 + (400 - 100));
}

#[test]
fn period_literals_map_to_their_day_counts() {
    assert_eq!(parse_period("day"), 1);
    assert_eq!(parse_period("week"), 7);
    assert_eq!(parse_period("month"), 30);
    assert_eq!(parse_period("DAY"), 1);
    assert_eq!(parse_period("Week"), 7);
    assert_eq!(parse_period("MoNtH"), 30);
}

#[test]
fn numeric_periods_parse_and_junk_defaults_to_one_day() {
    assert_eq!(parse_period("5"), 5);
    assert_eq!(parse_period("+12"), 12);
    assert_eq!(parse_period("-3"), -3);
    assert_eq!(parse_period("0"), 0);
    assert_eq!(parse_period("junk"), 1);
    assert_eq!(parse_period(""), 1);
    assert_eq!(parse_period("12.5"), 1);
    assert_eq!(parse_period("99999999999999999999999"), 1);
    assert_eq!(parse_period("9223372036854775807"), i64::MAX);
    assert_eq!(parse_period("-9223372036854775808"), i64::MIN);
    assert_eq!(parse_period("9223372036854775808"), 1);
}

#[test]
fn windows_convert_to_seconds_and_saturate() {
    assert_eq!(period_window_seconds(1), 86400);
    assert_eq!(period_window_seconds(7), 7 * 86400);
    assert_eq!(period_window_seconds(0), 0);
    assert_eq!(period_window_seconds(i64::MAX), i64::MAX);
    assert_eq!(period_window_seconds(i64::MIN), i64::MIN);
}

#[test]
fn status_labels_round_trip() {
    for status in [TaskStatus::Running, TaskStatus::Paused, TaskStatus::Stopped] {
        let label = status.label();
        assert_eq!(TaskStatus::from_label(&label), Some(status));
    }
    assert_eq!(TaskStatus::from_label("Sleeping"), None);
    assert_eq!(TaskStatus::from_label("running"), None);
}

#[test]
fn a_fresh_config_has_no_storage_location() {
    let config = AppConfig::default();
    assert!(config.storage_location.is_none());
}
