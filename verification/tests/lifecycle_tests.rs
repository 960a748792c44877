use time_tracker::categorization::{Categorization, CategoryEntry};
use time_tracker::data::{Task, TaskStatus, TimeChunk};
use time_tracker::lifecycle::{
    clock, current_instant, latest_timestamp, pause_task, resume_task, start_task, stop_task,
    StartOutcome,
};

#[test]
fn start_on_a_new_name_creates_one_running_task_with_one_open_chunk() {
    let mut store = Categorization::new();
    let outcome = start_task(&mut store, "ship it #dev", 1000);
    assert!(matches!(outcome, StartOutcome::Created));
    assert_eq!(store.categories.len(), 1);
    assert_eq!(store.categories[0].name, "#dev");
    assert_eq!(store.categories[0].tasks.len(), 1);
    let task = &store.categories[0].tasks[0];
    assert_eq!(task.name, "ship it");
    assert!(matches!(task.status, TaskStatus::Running));
    assert_eq!(task.time_chunks.len(), 1);
    assert_eq!(task.time_chunks[0].start_time, 1000);
    assert!(task.time_chunks[0].end_time.is_none());
}

#[test]
fn untagged_start_files_under_uncategorized() {
    let mut store = Categorization::new();
    start_task(&mut store, "chores", 50);
    assert_eq!(store.categories.len(), 1);
    assert_eq!(store.categories[0].name, "Uncategorized");
    assert_eq!(store.categories[0].tasks[0].name, "chores");
}

#[test]
fn stop_closes_the_open_chunk_no_earlier_than_its_start() {
    let mut store = Categorization::new();
    start_task(&mut store, "work", 1000);
    let stopped = stop_task(&mut store, 1600);
    assert_eq!(stopped, Some(String::from("work")));
    let task = &store.categories[0].tasks[0];
    assert!(matches!(task.status, TaskStatus::Stopped));
    assert_eq!(task.time_chunks.len(), 1);
    assert_eq!(task.time_chunks[0].end_time, Some(1600));
    assert!(task.time_chunks[0].end_time.unwrap() >= task.time_chunks[0].start_time);
}

#[test]
fn stop_with_nothing_running_is_a_no_op() {
    let mut store = Categorization::new();
    start_task(&mut store, "work", 1000);
    stop_task(&mut store, 1600);
    let again = stop_task(&mut store, 1700);
    assert_eq!(again, None);
    let task = &store.categories[0].tasks[0];
    assert!(matches!(task.status, TaskStatus::Stopped));
    assert_eq!(task.time_chunks.len(), 1);
    assert_eq!(task.time_chunks[0].end_time, Some(1600));
}

#[test]
fn pause_then_resume_adds_exactly_one_chunk() {
    let mut store = Categorization::new();
    start_task(&mut store, "work", 1000);
    let paused = pause_task(&mut store, 1300);
    assert_eq!(paused, Some(String::from("work")));
    {
        let task = &store.categories[0].tasks[0];
        assert!(matches!(task.status, TaskStatus::Paused));
        assert_eq!(task.time_chunks.len(), 1);
        assert_eq!(task.time_chunks[0].end_time, Some(1300));
    }
    let resumed = resume_task(&mut store, 1500);
    assert_eq!(resumed, Some(String::from("work")));
    let task = &store.categories[0].tasks[0];
    assert!(matches!(task.status, TaskStatus::Running));
    assert_eq!(task.time_chunks.len(), 2);
    assert_eq!(task.time_chunks[0].end_time, Some(1300));
    assert_eq!(task.time_chunks[1].start_time, 1500);
    assert!(task.time_chunks[1].end_time.is_none());
}

#[test]
fn starting_a_running_task_changes_nothing() {
    let mut store = Categorization::new();
    start_task(&mut store, "work", 1000);
    let outcome = start_task(&mut store, "work", 1200);
    assert!(matches!(outcome, StartOutcome::AlreadyRunning));
    assert_eq!(store.categories[0].tasks.len(), 1);
    assert_eq!(store.categories[0].tasks[0].time_chunks.len(), 1);
}

#[test]
fn starting_a_stopped_task_opens_a_new_chunk() {
    let mut store = Categorization::new();
    start_task(&mut store, "work", 1000);
    stop_task(&mut store, 1600);
    let outcome = start_task(&mut store, "work", 2000);
    assert!(matches!(outcome, StartOutcome::Restarted));
    let task = &store.categories[0].tasks[0];
    assert!(matches!(task.status, TaskStatus::Running));
    assert_eq!(task.time_chunks.len(), 2);
    assert_eq!(task.time_chunks[1].start_time, 2000);
    assert!(task.time_chunks[1].end_time.is_none());
}

#[test]
fn starting_a_paused_task_resumes_it() {
    let mut store = Categorization::new();
    start_task(&mut store, "work", 1000);
    pause_task(&mut store, 1300);
    let outcome = start_task(&mut store, "work", 1500);
    assert!(matches!(outcome, StartOutcome::Resumed));
    let task = &store.categories[0].tasks[0];
    assert!(matches!(task.status, TaskStatus::Running));
    assert_eq!(task.time_chunks.len(), 2);
}

#[test]
fn starting_the_same_tagged_name_twice_creates_no_duplicate() {
    let mut store = Categorization::new();
    start_task(&mut store, "write report #work on Q3", 100);
    let outcome = start_task(&mut store, "write report #work on Q3", 200);
    assert!(matches!(outcome, StartOutcome::AlreadyRunning));
    assert_eq!(store.categories.len(), 1);
    assert_eq!(store.categories[0].tasks.len(), 1);
}

#[test]
fn resume_with_nothing_paused_is_a_no_op() {
    let mut store = Categorization::new();
    start_task(&mut store, "work", 1000);
    assert_eq!(resume_task(&mut store, 1100), None);
    assert_eq!(store.categories[0].tasks[0].time_chunks.len(), 1);
}

#[test]
fn pause_with_nothing_running_is_a_no_op() {
    let mut store = Categorization::new();
    assert_eq!(pause_task(&mut store, 1100), None);
    assert!(store.categories.is_empty());
}

#[test]
fn clock_reports_the_running_task_and_its_elapsed_seconds() {
    let mut store = Categorization::new();
    start_task(&mut store, "work", 1000);
    let report = clock(&store, 1090);
    assert_eq!(report, Some((String::from("work"), 90)));
}

#[test]
fn clock_reports_idle_when_nothing_runs() {
    let mut store = Categorization::new();
    start_task(&mut store, "work", 1000);
    stop_task(&mut store, 1090);
    assert_eq!(clock(&store, 2000), None);
}

#[test]
fn task_lifecycle_methods_match_the_store_operations() {
    let mut task = Task::new("solo", 10);
    assert!(matches!(task.status, TaskStatus::Running));
    task.pause(20);
    assert!(matches!(task.status, TaskStatus::Paused));
    assert_eq!(task.time_chunks[0].end_time, Some(20));
    task.resume(30);
    assert!(matches!(task.status, TaskStatus::Running));
    assert_eq!(task.time_chunks.len(), 2);
    task.stop(40);
    assert!(matches!(task.status, TaskStatus::Stopped));
    assert_eq!(task.time_chunks[1].end_time, Some(40));
}

#[test]
fn well_formedness_accepts_engine_output_and_rejects_broken_tasks() {
    let mut store = Categorization::new();
    start_task(&mut store, "work #a", 100);
    pause_task(&mut store, 200);
    assert!(store.is_well_formed());
    assert!(store.timestamps_at_or_before(200));
    assert!(!store.timestamps_at_or_before(199));

    let no_chunks = Task {
        name: String::from("bad"),
        time_chunks: vec![],
        paused_duration: 0,
        status: TaskStatus::Stopped,
    };
    assert!(!no_chunks.is_well_formed());

    let open_not_running = Task {
        name: String::from("bad"),
        time_chunks: vec![TimeChunk { start_time: 5, end_time: None }],
        paused_duration: 0,
        status: TaskStatus::Stopped,
    };
    assert!(!open_not_running.is_well_formed());

    let open_in_the_middle = Task {
        name: String::from("bad"),
        time_chunks: vec![
            TimeChunk { start_time: 5, end_time: None },
            TimeChunk { start_time: 9, end_time: None },
        ],
        paused_duration: 0,
        status: TaskStatus::Running,
    };
    assert!(!open_in_the_middle.is_well_formed());

    let ends_before_it_starts = Task {
        name: String::from("bad"),
        time_chunks: vec![TimeChunk { start_time: 9, end_time: Some(5) }],
        paused_duration: 0,
        status: TaskStatus::Stopped,
    };
    assert!(!ends_before_it_starts.is_well_formed());
}

#[test]
fn duplicate_category_names_are_rejected() {
    let store = Categorization {
        categories: vec![
            CategoryEntry { name: String::from("#a"), tasks: vec![] },
            CategoryEntry { name: String::from("#a"), tasks: vec![] },
        ],
    };
    assert!(!store.is_well_formed());
}

#[test]
fn the_reference_instant_never_precedes_recorded_time() {
    let mut store = Categorization::new();
    let far_ahead = time_tracker::data::MAX_TIMESTAMP;
    start_task(&mut store, "future", far_ahead);
    assert_eq!(latest_timestamp(&store), far_ahead);
    let t = current_instant(&store);
    assert_eq!(t, far_ahead);

    let empty = Categorization::new();
    assert_eq!(latest_timestamp(&empty), 0);
    assert!(current_instant(&empty) >= 0);
}
