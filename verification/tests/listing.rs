use std::path::PathBuf;
use task_tracker::deadline::Deadline;
use task_tracker::listing::{
    append_pad, append_styled, carries_all, format_row, header_line, is_shown, measure,
    render_listing, rule_line, task_style, Style, Widths,
};
use task_tracker::order::{is_due_before, sort_by_deadline};
use task_tracker::task::Task;
use task_tracker::tracker::{PlainTextTaskTracker, TaskTracker};

fn at(text: &str) -> Deadline {
    Deadline::parse_from_rfc3339(text).unwrap()
}

fn task(name: &str, tags: &[&str], deadline: Option<&str>, complete: bool) -> Task {
    Task {
        name: name.to_string(),
        tags: if tags.is_empty() {
            None
        } else {
            Some(tags.iter().map(|t| t.to_string()).collect())
        },
        deadline: deadline.map(at),
        complete,
    }
}

fn sample() -> Vec<Task> {
    vec![
        task("Task 1", &["ugh"], Some("2025-03-17T22:00:00Z"), false),
        task("Task 22", &["project", "time"], Some("2025-03-19T22:00:00Z"), true),
        task("Later on", &["project"], Some("2025-03-20T22:00:00Z"), false),
        task("Some day", &[], None, false),
    ]
}

fn red(text: &str) -> String {
    format!("\x1b[31m{}\x1b[0m", text)
}

fn done(text: &str) -> String {
    format!("\x1b[32m\x1b[9m{}\x1b[0m\x1b[0m", text)
}

#[test]
fn listing_of_all_tasks() {
    let tasks = sample();
    let now = at("2025-03-18T00:00:00Z");
    let lines = render_listing(&tasks, true, false, &None, &now);
    let expected = vec![
        format!("Name{}Tags{}Due", " ".repeat(8), " ".repeat(13)),
        "-".repeat(8 + 13 + 16 + 8),
        format!(
            "{}{}{}{}{}",
            red("Task 1"),
            " ".repeat(6),
            red("ugh"),
            " ".repeat(14),
            red(&tasks[0].local_deadline())
        ),
        format!(
            "{}{}{}{}{}",
            done("Task 22"),
            " ".repeat(5),
            done("project, time"),
            " ".repeat(4),
            done(&tasks[1].local_deadline())
        ),
        format!(
            "Later on{}project{}{}",
            " ".repeat(4),
            " ".repeat(10),
            tasks[2].local_deadline()
        ),
        format!("Some day{}{}", " ".repeat(4), " ".repeat(17)),
    ];
    assert_eq!(lines, expected);
}

#[test]
fn listing_of_incomplete_tasks_has_ids() {
    let tasks = sample();
    let now = at("2025-03-18T00:00:00Z");
    let lines = render_listing(&tasks, false, false, &None, &now);
    let expected = vec![
        format!("Id{}Name{}Tags{}Due", " ".repeat(4), " ".repeat(8), " ".repeat(7)),
        "-".repeat(8 + 7 + 2 + 16 + 12),
        format!(
            "{}{}{}{}{}{}{}",
            red("0"),
            " ".repeat(5),
            red("Task 1"),
            " ".repeat(6),
            red("ugh"),
            " ".repeat(8),
            red(&tasks[0].local_deadline())
        ),
        format!(
            "1{}Later on{}project{}{}",
            " ".repeat(5),
            " ".repeat(4),
            " ".repeat(4),
            tasks[2].local_deadline()
        ),
        format!("2{}Some day{}{}", " ".repeat(5), " ".repeat(4), " ".repeat(11)),
    ];
    assert_eq!(lines, expected);
}

#[test]
fn overdue_listing_keeps_the_ids() {
    let tasks = sample();
    let now = at("2025-03-20T22:00:00Z");
    let lines = render_listing(&tasks, false, true, &None, &now);
    let expected = vec![
        format!("Id{}Name{}Tags{}Due", " ".repeat(4), " ".repeat(8), " ".repeat(7)),
        "-".repeat(8 + 7 + 2 + 16 + 12),
        format!(
            "{}{}{}{}{}{}{}",
            red("0"),
            " ".repeat(5),
            red("Task 1"),
            " ".repeat(6),
            red("ugh"),
            " ".repeat(8),
            red(&tasks[0].local_deadline())
        ),
        format!(
            "1{}Later on{}project{}{}",
            " ".repeat(5),
            " ".repeat(4),
            " ".repeat(4),
            tasks[2].local_deadline()
        ),
    ];
    assert_eq!(lines, expected);
    let lines = render_listing(&tasks, true, true, &None, &at("2025-03-30T00:00:00Z"));
    assert_eq!(lines.len(), 4);
}

#[test]
fn tag_filter_wants_every_tag() {
    let tasks = sample();
    let now = at("2025-03-01T00:00:00Z");
    let wanted = Some(vec!["project".to_string()]);
    let lines = render_listing(&tasks, true, false, &wanted, &now);
    assert_eq!(lines.len(), 4);
    assert_eq!(
        lines[2],
        format!("{}{}{}{}{}", done("Task 22"), " ".repeat(5), done("project, time"), " ".repeat(4),
            done(&tasks[1].local_deadline()))
    );
    let wanted = Some(vec!["project".to_string(), "time".to_string()]);
    assert_eq!(render_listing(&tasks, true, false, &wanted, &now).len(), 3);
    let wanted = Some(vec!["project".to_string(), "ugh".to_string()]);
    assert_eq!(render_listing(&tasks, true, false, &wanted, &now).len(), 2);
    let wanted = Some(Vec::new());
    assert_eq!(render_listing(&tasks, true, false, &wanted, &now).len(), 6);
}

#[test]
fn widths_follow_the_rows_that_are_shown() {
    let tasks = sample();
    let now = at("2025-03-18T00:00:00Z");
    let w = measure(&tasks, true, false, &None, &now);
    assert_eq!((w.id, w.name, w.tags), (2, 8, 13));
    let w = measure(&tasks, false, false, &None, &now);
    assert_eq!((w.id, w.name, w.tags), (2, 8, 7));
    let w = measure(&tasks, false, true, &None, &now);
    assert_eq!((w.id, w.name, w.tags), (2, 6, 4));
    let w = measure(&Vec::new(), false, false, &None, &now);
    assert_eq!((w.id, w.name, w.tags), (2, 4, 4));
}

#[test]
fn id_column_grows_with_the_ids() {
    let mut tasks = Vec::new();
    for _ in 0..1001 {
        tasks.push(task("t", &[], None, false));
    }
    let now = at("2025-03-18T00:00:00Z");
    let w = measure(&tasks, false, false, &None, &now);
    assert_eq!((w.id, w.name, w.tags), (4, 4, 4));
    let w = measure(&tasks, true, false, &None, &now);
    assert_eq!(w.id, 4);
    let lines = render_listing(&tasks, false, false, &None, &now);
    assert_eq!(lines.len(), 1003);
    assert_eq!(lines[0], format!("Id{}Name{}Tags{}Due", " ".repeat(6), " ".repeat(4), " ".repeat(4)));
    assert_eq!(lines[1], "-".repeat(4 + 4 + 4 + 16 + 12));
    assert_eq!(lines[2], format!("0{}t{}{}", " ".repeat(7), " ".repeat(7), " ".repeat(8)));
    assert_eq!(lines[1002], format!("1000{}t{}{}", " ".repeat(4), " ".repeat(7), " ".repeat(8)));
}

#[test]
fn empty_listing_has_header_and_rule() {
    let now = at("2025-03-18T00:00:00Z");
    assert_eq!(
        render_listing(&Vec::new(), true, false, &None, &now),
        vec![format!("Name{}Tags{}Due", " ".repeat(4), " ".repeat(4)), "-".repeat(32)]
    );
    assert_eq!(
        render_listing(&Vec::new(), false, false, &None, &now),
        vec![
            format!("Id{}Name{}Tags{}Due", " ".repeat(4), " ".repeat(4), " ".repeat(4)),
            "-".repeat(38)
        ]
    );
    assert_eq!(header_line(&Widths { id: 3, name: 5, tags: 6 }, false),
        format!("Id{}Name{}Tags{}Due", " ".repeat(5), " ".repeat(5), " ".repeat(6)));
    assert_eq!(rule_line(&Widths { id: 3, name: 5, tags: 6 }, true), "-".repeat(35));
    assert_eq!(rule_line(&Widths { id: 3, name: 5, tags: 6 }, false), "-".repeat(42));
}

#[test]
fn row_with_a_given_deadline_text() {
    let now = at("2025-03-18T00:00:00Z");
    let widths = Widths { id: 3, name: 10, tags: 5 };
    let t = task("größe", &["a", "b"], Some("2025-03-19T22:00:00Z"), false);
    assert_eq!(
        format_row(&t, Some(12), "soon", &widths, &now),
        format!("12{}größe{}a, b{}soon", " ".repeat(5), " ".repeat(7), " ".repeat(5))
    );
    assert_eq!(
        format_row(&t, None, "soon", &widths, &now),
        format!("größe{}a, b{}soon", " ".repeat(7), " ".repeat(5))
    );
    let narrow = Widths { id: 0, name: 0, tags: 0 };
    assert_eq!(
        format_row(&t, Some(12), "soon", &narrow, &now),
        format!("12{}größe{}a, b{}soon", " ".repeat(4), " ".repeat(4), " ".repeat(4))
    );
    let late = at("2025-03-19T22:00:00.000000001Z");
    assert_eq!(
        format_row(&t, Some(0), "x", &widths, &late),
        format!("{}{}{}{}{}{}{}", red("0"), " ".repeat(6), red("größe"), " ".repeat(7), red("a, b"),
            " ".repeat(5), red("x"))
    );
}

#[test]
fn styles_and_filters() {
    let now = at("2025-03-18T00:00:00Z");
    let open = task("a", &["x"], Some("2025-03-18T00:00:00Z"), false);
    let past = task("a", &["x"], Some("2025-03-17T23:59:59.999999999Z"), false);
    let closed = task("a", &["x"], Some("2025-03-17T00:00:00Z"), true);
    let free = task("a", &[], None, false);
    assert!(matches!(task_style(&open, &now), Style::Plain));
    assert!(matches!(task_style(&past, &now), Style::Late));
    assert!(matches!(task_style(&closed, &now), Style::Done));
    assert!(matches!(task_style(&free, &now), Style::Plain));
    assert!(is_shown(&open, false, true, &None, &now));
    assert!(is_shown(&past, false, true, &None, &now));
    assert!(!is_shown(&closed, true, true, &None, &now));
    assert!(is_shown(&closed, true, false, &None, &now));
    assert!(!is_shown(&closed, false, false, &None, &now));
    assert!(!is_shown(&free, false, true, &None, &now));
    assert!(is_shown(&free, false, false, &None, &now));
    assert!(!is_shown(&task("a", &[], Some("2025-03-18T00:00:01Z"), false), true, true, &None, &now));
    assert!(carries_all(&open, &Some(vec!["x".to_string()])));
    assert!(!carries_all(&open, &Some(vec!["x".to_string(), "y".to_string()])));
    assert!(!carries_all(&free, &Some(vec!["x".to_string()])));
    assert!(carries_all(&free, &Some(Vec::new())));
    assert!(carries_all(&free, &None));
}

#[test]
fn cells_and_padding() {
    let mut out = String::from(">");
    append_styled(&mut out, "a", &Style::Plain);
    append_pad(&mut out, 3, 1);
    append_styled(&mut out, "b", &Style::Late);
    append_pad(&mut out, 1, 3);
    append_styled(&mut out, "c", &Style::Done);
    assert_eq!(out, format!(">a{}{}{}{}", " ".repeat(6), red("b"), " ".repeat(4), done("c")));
}

#[test]
fn list_task_loads_sorts_and_lists() {
    let tracker = PlainTextTaskTracker::new(PathBuf::from("./database"));
    let file = "| b | x | false | 2025-03-19T08:00:00Z |\n| a | | false | 2025-03-17T08:00:00Z |\n| c | | true | 2025-03-18T08:00:00Z |\n";
    let now = at("2025-03-18T00:00:00Z");
    let a = task("a", &[], Some("2025-03-17T08:00:00Z"), false);
    let b = task("b", &["x"], Some("2025-03-19T08:00:00Z"), false);
    let lines = tracker.list_task(file, false, false, None, &now).unwrap();
    let expected = vec![
        format!("Id{}Name{}Tags{}Due", " ".repeat(4), " ".repeat(4), " ".repeat(4)),
        "-".repeat(4 + 4 + 2 + 16 + 12),
        format!(
            "{}{}{}{}{}{}{}",
            red("0"),
            " ".repeat(5),
            red("a"),
            " ".repeat(7),
            red(""),
            " ".repeat(8),
            red(&a.local_deadline())
        ),
        format!("1{}b{}x{}{}", " ".repeat(5), " ".repeat(7), " ".repeat(7), b.local_deadline()),
    ];
    assert_eq!(lines, expected);
    let lines = tracker.list_task(file, true, false, Some(vec!["x".to_string()]), &now).unwrap();
    assert_eq!(lines.len(), 3);
    assert_eq!(lines[2], format!("b{}x{}{}", " ".repeat(7), " ".repeat(7), b.local_deadline()));
}

#[test]
fn sort_is_stable() {
    let tasks = vec![
        task("n1", &[], None, false),
        task("b1", &[], Some("2025-03-02T13:00:00Z"), false),
        task("a1", &[], Some("2025-03-01T22:00:00Z"), true),
        task("b2", &[], Some("2025-03-02T13:00:00Z"), true),
        task("n2", &[], None, true),
        task("a2", &[], Some("2025-03-01T22:00:00Z"), false),
        task("b3", &[], Some("2025-03-02T15:00:00+02:00"), false),
    ];
    let sorted = sort_by_deadline(tasks);
    let names: Vec<&str> = sorted.iter().map(|t| t.name.as_str()).collect();
    assert_eq!(names, vec!["a1", "a2", "b1", "b2", "b3", "n1", "n2"]);
    assert_eq!(sort_by_deadline(Vec::new()), Vec::new());
}

#[test]
fn due_before_puts_missing_deadlines_last() {
    let a = task("a", &[], Some("2025-03-01T22:00:00Z"), false);
    let b = task("b", &[], Some("2025-03-01T22:00:00.5Z"), false);
    let n = task("n", &[], None, false);
    assert!(is_due_before(&a, &b));
    assert!(!is_due_before(&b, &a));
    assert!(!is_due_before(&a, &a));
    assert!(is_due_before(&a, &n));
    assert!(!is_due_before(&n, &a));
    assert!(!is_due_before(&n, &n));
}
