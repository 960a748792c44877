use time_tracker::categorization::Categorization;
use time_tracker::data::{Task, TaskStatus};

fn extract(s: &str) -> (String, String) {
    Categorization::extract_category_from_description(s)
}

#[test]
fn tagged_description_splits_into_category_and_cleaned_name() {
    let (category, cleaned) = extract("write report #work on Q3");
    assert_eq!(category, "#work");
    assert_eq!(cleaned, "write report on Q3");
}

#[test]
fn description_without_tag_is_uncategorized_and_unchanged() {
    let (category, cleaned) = extract("just a plain task");
    assert_eq!(category, "Uncategorized");
    assert_eq!(cleaned, "just a plain task");
}

#[test]
fn re_extracting_a_cleaned_name_changes_nothing() {
    let (_, cleaned) = extract("write report #work on Q3");
    let (category2, cleaned2) = extract(&cleaned);
    assert_eq!(category2, "Uncategorized");
    assert_eq!(cleaned2, cleaned);
}

#[test]
fn only_the_first_tag_is_the_category() {
    let (category, cleaned) = extract("a #one b #two c");
    assert_eq!(category, "#one");
    assert_eq!(cleaned, "a b #two c");
}

#[test]
fn trailing_bare_hash_extracts_no_category() {
    let (category, cleaned) = extract("abc #");
    assert_eq!(category, "Uncategorized");
    assert_eq!(cleaned, "abc #");
}

#[test]
fn bare_hash_before_a_word_extracts_no_category() {
    let (category, cleaned) = extract("# hello");
    assert_eq!(category, "Uncategorized");
    assert_eq!(cleaned, "# hello");
}

#[test]
fn tag_at_the_start_leaves_only_the_rest() {
    let (category, cleaned) = extract("#work stuff");
    assert_eq!(category, "#work");
    assert_eq!(cleaned, "stuff");
}

#[test]
fn tag_alone_leaves_an_empty_name() {
    let (category, cleaned) = extract("#work");
    assert_eq!(category, "#work");
    assert_eq!(cleaned, "");
}

#[test]
fn empty_description_is_uncategorized() {
    let (category, cleaned) = extract("");
    assert_eq!(category, "Uncategorized");
    assert_eq!(cleaned, "");
}

#[test]
fn trailing_whitespace_before_tag_is_trimmed() {
    let (category, cleaned) = extract("fix bug   #dev later today");
    assert_eq!(category, "#dev");
    assert_eq!(cleaned, "fix bug later today");
}

#[test]
fn filing_a_task_rewrites_its_name_and_creates_the_category() {
    let mut store = Categorization::new();
    let task = Task::new("read papers #research", 1000);
    store.add_task_to_category(task);
    assert_eq!(store.categories.len(), 1);
    assert_eq!(store.categories[0].name, "#research");
    assert_eq!(store.categories[0].tasks.len(), 1);
    assert_eq!(store.categories[0].tasks[0].name, "read papers");
    assert!(matches!(store.categories[0].tasks[0].status, TaskStatus::Running));
}

#[test]
fn add_category_is_idempotent() {
    let mut store = Categorization::new();
    store.add_category(String::from("#a"));
    store.add_category(String::from("#a"));
    assert_eq!(store.categories.len(), 1);
    assert_eq!(store.categories[0].name, "#a");
    assert!(store.categories[0].tasks.is_empty());
}
