use std::cmp::Ordering;
use todo_list::commands::{
    add_task, delete_at, delete_task, list_tasks, mark_completed_at, mark_task_completed,
    sort_tasks, IndexOutcome,
};
use todo_list::index::{is_number, parse_index};
use todo_list::priority::Priority;
use todo_list::storage::{lines_of, load_tasks, parse_tasks, save_tasks};
use todo_list::task::Task;
use todo_list::text::{same_text, split_on};

fn task(description: &str, priority: Priority) -> Task {
    Task::new(description.to_string(), priority)
}

fn descriptions(tasks: &Vec<Task>) -> Vec<String> {
    tasks.iter().map(|t| t.description.clone()).collect()
}

fn three_tasks() -> Vec<Task> {
    vec![
        task("first", Priority::Low),
        task("second", Priority::Medium),
        task("third", Priority::High),
    ]
}

#[test]
fn sort_keeps_ties_in_order() {
    let mut tasks = vec![
        task("A", Priority::High),
        task("B", Priority::Low),
        task("C", Priority::Low),
        task("D", Priority::Medium),
    ];
    sort_tasks(&mut tasks);
    assert_eq!(descriptions(&tasks), vec!["B", "C", "D", "A"]);
    assert_eq!(tasks[0].priority, Priority::Low);
    assert_eq!(tasks[1].priority, Priority::Low);
    assert_eq!(tasks[2].priority, Priority::Medium);
    assert_eq!(tasks[3].priority, Priority::High);
}

#[test]
fn sort_empty_and_sorted_lists() {
    let mut empty: Vec<Task> = Vec::new();
    sort_tasks(&mut empty);
    assert!(empty.is_empty());
    let mut tasks = three_tasks();
    sort_tasks(&mut tasks);
    assert_eq!(descriptions(&tasks), vec!["first", "second", "third"]);
}

#[test]
fn mark_with_number_zero_or_too_large_changes_nothing() {
    let mut tasks = three_tasks();
    assert_eq!(mark_task_completed(&mut tasks, "0"), IndexOutcome::InvalidNumber);
    assert_eq!(mark_task_completed(&mut tasks, "4"), IndexOutcome::InvalidNumber);
    assert!(!mark_completed_at(&mut tasks, 0));
    assert!(!mark_completed_at(&mut tasks, 4));
    assert_eq!(descriptions(&tasks), vec!["first", "second", "third"]);
    assert!(tasks.iter().all(|t| !t.completed));
}

#[test]
fn delete_with_number_zero_or_too_large_changes_nothing() {
    let mut tasks = three_tasks();
    assert_eq!(delete_task(&mut tasks, "0"), IndexOutcome::InvalidNumber);
    assert_eq!(delete_task(&mut tasks, "4"), IndexOutcome::InvalidNumber);
    assert!(!delete_at(&mut tasks, 0));
    assert!(!delete_at(&mut tasks, 4));
    assert_eq!(descriptions(&tasks), vec!["first", "second", "third"]);
}

#[test]
fn commands_ignore_text_that_is_no_number() {
    let mut tasks = three_tasks();
    assert_eq!(mark_task_completed(&mut tasks, "two"), IndexOutcome::NotANumber);
    assert_eq!(delete_task(&mut tasks, ""), IndexOutcome::NotANumber);
    assert_eq!(delete_task(&mut tasks, "-1"), IndexOutcome::NotANumber);
    assert_eq!(tasks.len(), 3);
    assert!(tasks.iter().all(|t| !t.completed));
}

#[test]
fn mark_sets_only_the_named_task() {
    let mut tasks = three_tasks();
    assert_eq!(mark_task_completed(&mut tasks, "2"), IndexOutcome::Done);
    assert!(!tasks[0].completed);
    assert!(tasks[1].completed);
    assert!(!tasks[2].completed);
    assert_eq!(descriptions(&tasks), vec!["first", "second", "third"]);
    assert_eq!(tasks[1].priority, Priority::Medium);
}

#[test]
fn delete_shifts_later_tasks() {
    let mut tasks = three_tasks();
    assert_eq!(delete_task(&mut tasks, "2"), IndexOutcome::Done);
    assert_eq!(descriptions(&tasks), vec!["first", "third"]);
    assert_eq!(mark_task_completed(&mut tasks, "2"), IndexOutcome::Done);
    assert!(tasks[1].completed);
    assert_eq!(tasks[1].description, "third");
    assert_eq!(delete_task(&mut tasks, "3"), IndexOutcome::InvalidNumber);
}

#[test]
fn add_with_unknown_priority_defaults_to_low() {
    let mut tasks: Vec<Task> = Vec::new();
    assert!(!add_task(&mut tasks, "call".to_string(), "7"));
    assert_eq!(tasks.len(), 1);
    assert_eq!(tasks[0].description, "call");
    assert!(!tasks[0].completed);
    assert_eq!(tasks[0].priority, Priority::Low);
}

#[test]
fn add_with_known_priorities() {
    let mut tasks: Vec<Task> = Vec::new();
    assert!(add_task(&mut tasks, "a".to_string(), "1"));
    assert!(add_task(&mut tasks, "b".to_string(), "2"));
    assert!(add_task(&mut tasks, "".to_string(), "3"));
    assert_eq!(descriptions(&tasks), vec!["a", "b", ""]);
    assert_eq!(tasks[0].priority, Priority::Low);
    assert_eq!(tasks[1].priority, Priority::Medium);
    assert_eq!(tasks[2].priority, Priority::High);
}

#[test]
fn load_without_file_is_empty() {
    assert!(load_tasks(None).is_empty());
    assert!(load_tasks(Some("")).is_empty());
}

#[test]
fn unknown_stored_tokens_default() {
    let tasks = parse_tasks("X|Weird|Unknown");
    assert_eq!(tasks.len(), 1);
    assert_eq!(tasks[0].description, "X");
    assert!(!tasks[0].completed);
    assert_eq!(tasks[0].priority, Priority::Low);
}

#[test]
fn save_writes_one_line_per_task() {
    let mut tasks = vec![task("A", Priority::High), task("B", Priority::Low)];
    assert!(mark_completed_at(&mut tasks, 2));
    assert_eq!(save_tasks(&tasks), "A|Pending|High\nB|Completed|Low\n");
    assert_eq!(save_tasks(&Vec::new()), "");
}

#[test]
fn save_then_load_gives_same_tasks() {
    let mut tasks = vec![
        task("buy milk", Priority::Medium),
        task("", Priority::High),
        task("write ümlaut notes", Priority::Low),
    ];
    assert!(mark_completed_at(&mut tasks, 1));
    let text = save_tasks(&tasks);
    let back = load_tasks(Some(&text));
    assert_eq!(back.len(), 3);
    for (a, b) in tasks.iter().zip(back.iter()) {
        assert_eq!(a.description, b.description);
        assert_eq!(a.completed, b.completed);
        assert_eq!(a.priority, b.priority);
    }
}

#[test]
fn malformed_lines_are_dropped() {
    let text = "a|b\nx|Completed|Medium|extra\nok|Completed|Medium\n\nlast|Pending|High";
    let tasks = parse_tasks(text);
    assert_eq!(descriptions(&tasks), vec!["ok", "last"]);
    assert!(tasks[0].completed);
    assert_eq!(tasks[0].priority, Priority::Medium);
    assert!(!tasks[1].completed);
    assert_eq!(tasks[1].priority, Priority::High);
}

#[test]
fn status_and_priority_are_case_sensitive() {
    let tasks = parse_tasks("a|completed|high\nb|Completed|High\r\n");
    assert!(!tasks[0].completed);
    assert_eq!(tasks[0].priority, Priority::Low);
    assert!(tasks[1].completed);
    assert_eq!(tasks[1].priority, Priority::High);
}

#[test]
fn lines_follow_line_endings() {
    assert_eq!(lines_of(""), Vec::<String>::new());
    assert_eq!(lines_of("a\n"), vec!["a"]);
    assert_eq!(lines_of("a\r\nb"), vec!["a", "b"]);
    assert_eq!(lines_of("a\n\nb\n"), vec!["a", "", "b"]);
    assert_eq!(lines_of("\n"), vec![""]);
    assert_eq!(lines_of("a\r"), vec!["a\r"]);
}

#[test]
fn split_keeps_empty_pieces() {
    assert_eq!(split_on("a|b|c", '|'), vec!["a", "b", "c"]);
    assert_eq!(split_on("", '|'), vec![""]);
    assert_eq!(split_on("|x|", '|'), vec!["", "x", ""]);
}

#[test]
fn index_text_reads_as_usize() {
    assert_eq!(parse_index("3"), Some(3));
    assert_eq!(parse_index("+4"), Some(4));
    assert_eq!(parse_index("007"), Some(7));
    assert_eq!(parse_index(""), None);
    assert_eq!(parse_index("+"), None);
    assert_eq!(parse_index(" 3"), None);
    assert_eq!(parse_index("3a"), None);
    assert_eq!(parse_index(&usize::MAX.to_string()), Some(usize::MAX));
    let too_big = format!("{}0", usize::MAX);
    assert_eq!(parse_index(&too_big), None);
    for s in ["0", "12", "+9", "x", "-2", "99999999999999999999999"] {
        assert_eq!(parse_index(s), s.parse::<usize>().ok());
    }
}

#[test]
fn priority_order_and_names() {
    assert_eq!(Priority::Low.cmp(&Priority::Medium), Ordering::Less);
    assert_eq!(Priority::High.cmp(&Priority::Medium), Ordering::Greater);
    assert_eq!(Priority::High.cmp(&Priority::High), Ordering::Equal);
    assert!(Priority::Low < Priority::High);
    assert!(Priority::Medium == Priority::Medium);
    assert_eq!(Priority::Low.get_priority_str(), "Low");
    assert_eq!(Priority::Medium.get_priority_str(), "Medium");
    assert_eq!(Priority::High.get_priority_str(), "High");
    assert_eq!(Priority::from_name("Medium"), Priority::Medium);
    assert_eq!(Priority::from_name("Low"), Priority::Low);
    assert_eq!(Priority::from_name("Urgent"), Priority::Low);
    assert_eq!(Priority::from_choice("2"), Some(Priority::Medium));
    assert_eq!(Priority::from_choice("4"), None);
    assert_eq!(Priority::High.rank(), 2);
}

#[test]
fn task_labels() {
    let mut t = task("x", Priority::Medium);
    assert_eq!(t.get_status_str(), "Pending");
    assert_eq!(t.get_priority_str(), "Medium");
    t.mark_completed();
    assert!(t.completed);
    assert_eq!(t.get_status_str(), "Completed");
    assert!(same_text("abc", "abc"));
    assert!(!same_text("abc", "abd"));
    assert!(!same_text("ab", "abc"));
}

#[test]
fn listing_numbers_tasks_from_one() {
    let mut tasks = three_tasks();
    assert!(mark_completed_at(&mut tasks, 3));
    let entries = list_tasks(&tasks);
    assert_eq!(entries.len(), 3);
    assert_eq!(entries[0].number, 1);
    assert_eq!(entries[2].number, 3);
    assert_eq!(entries[0].description, "first");
    assert_eq!(entries[0].status, "Pending");
    assert_eq!(entries[2].status, "Completed");
    assert!(entries[2].completed);
    assert_eq!(entries[1].priority, Priority::Medium);
    assert!(list_tasks(&Vec::new()).is_empty());
}

#[test]
fn numbers_too_large_for_usize_name_no_task() {
    let huge = format!("{}0", usize::MAX);
    let mut tasks = three_tasks();
    assert_eq!(mark_task_completed(&mut tasks, &huge), IndexOutcome::InvalidNumber);
    assert_eq!(delete_task(&mut tasks, &huge), IndexOutcome::InvalidNumber);
    assert_eq!(
        delete_task(&mut tasks, "+99999999999999999999999999"),
        IndexOutcome::InvalidNumber
    );
    assert_eq!(descriptions(&tasks), vec!["first", "second", "third"]);
    assert!(tasks.iter().all(|t| !t.completed));
}

#[test]
fn number_text_is_sign_then_digits() {
    assert!(is_number("12"));
    assert!(is_number("+0"));
    assert!(is_number("99999999999999999999999999"));
    assert!(!is_number(""));
    assert!(!is_number("+"));
    assert!(!is_number("-3"));
    assert!(!is_number("1 2"));
}
