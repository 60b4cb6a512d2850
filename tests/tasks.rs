use std::cmp::Ordering;

use chrono::Datelike;

use effitask::date::Date;
use effitask::list::List;
use effitask::note::Note;
use effitask::period::Period;
use effitask::recurrence::Recurrence;
use effitask::task::{DateType, ParseError, Task};

fn ymd(y: i32, m: u32, d: u32) -> Date {
    Date::from_ymd(y, m, d).unwrap()
}

fn strings(v: &[&str]) -> Vec<String> {
    v.iter().map(|s| s.to_string()).collect()
}

#[test]
fn markup_escape() {
    let mut task = Task::new();
    task.entry.subject = "P&T keep focus on long term +HoWE".to_string();

    assert_eq!(
        task.markup_subject(),
        "P&amp;T keep focus on long term <b>+HoWE</b>"
    );
}

#[test]
fn markup_subject_links_urls() {
    let mut task = Task::new();
    task.entry.subject = "see https://example.com/a?b=1&c=2 now @home".to_string();

    assert_eq!(
        task.markup_subject(),
        "see <a href=\"https://example.com/a?b=1&amp;c=2\">https://example.com/a?b=1&amp;c=2</a> now <b>@home</b>"
    );
}

#[test]
fn markup_escape_characters() {
    assert_eq!(
        effitask::markup::markup_escape("<a href='x'>\"q\"</a>\u{1}\u{1f}"),
        "&lt;a href=&apos;x&apos;&gt;&quot;q&quot;&lt;/a&gt;&#x1;&#x1f;"
    );
}

#[test]
fn parse_fields() {
    let t = Task::parse(
        "(B) 2024-01-01 Call mom +family @phone due:2024-01-05 t:2024-01-03 rec:+1w note:abc.txt f:1 key:value",
        "note",
    )
    .unwrap();

    assert!(!t.entry.finished);
    assert_eq!(t.entry.priority, 1);
    assert_eq!(t.entry.create_date, Some(ymd(2024, 1, 1)));
    assert_eq!(t.entry.finish_date, None);
    assert_eq!(t.entry.subject, "Call mom +family @phone");
    assert_eq!(t.entry.projects, strings(&["family"]));
    assert_eq!(t.entry.contexts, strings(&["phone"]));
    assert_eq!(t.entry.due_date, Some(ymd(2024, 1, 5)));
    assert_eq!(t.entry.threshold_date, Some(ymd(2024, 1, 3)));
    assert_eq!(
        t.entry.tags,
        vec![("key".to_string(), "value".to_string())]
    );
    assert_eq!(
        t.recurrence,
        Some(Recurrence { num: 1, period: Period::Week, strict: true })
    );
    assert_eq!(t.note, Note::Short("abc.txt".to_string()));
    assert!(t.flagged);
    assert!(!t.hidden);
    assert_eq!(t.id, 0);
}

#[test]
fn parse_done_task() {
    let t = Task::parse("x 2024-02-02 2024-01-01 Done thing", "note").unwrap();

    assert!(t.entry.finished);
    assert_eq!(t.entry.finish_date, Some(ymd(2024, 2, 2)));
    assert_eq!(t.entry.create_date, Some(ymd(2024, 1, 1)));
    assert_eq!(t.entry.priority, 26);
    assert_eq!(t.entry.subject, "Done thing");
}

#[test]
fn parse_bad_recurrence_is_dropped() {
    let t = Task::parse("Water plants rec:often", "note").unwrap();

    assert_eq!(t.recurrence, None);
    assert!(t.entry.tags.is_empty());
}

#[test]
fn parse_errors() {
    assert_eq!(Task::parse("", "note"), Err(ParseError::Empty));
    assert_eq!(Task::parse("  \t ", "note"), Err(ParseError::Empty));
    assert_eq!(
        Task::parse("Far away due:+9999999d", "note"),
        Err(ParseError::DateOutOfRange)
    );
    assert_eq!(
        Task::parse("Someday t:123456w", "note"),
        Err(ParseError::DateOutOfRange)
    );
    let t = Task::parse("Renew passport due:20300115", "note").unwrap();
    assert_eq!(t.entry.due_date, None);
    assert!(Task::parse("Someday t:1234567", "note").is_ok());
    let t = Task::parse("Far but fine due:+99999y", "note").unwrap();
    assert!(t.entry.due_date.is_some());
    assert!(Task::parse("Call 5551234567 tomorrow", "note").is_ok());
    assert!(Task::parse("call ref:123456", "note").is_ok());
    assert!(Task::parse("see https://example.com/issues/12345678", "note").is_ok());
    assert!(Task::parse("xdue:+9999999d is not a due date", "note").is_ok());
}

#[test]
fn text_round_trip() {
    let lines = [
        "x (A) 2024-01-02 2024-01-01 Call mom +family @phone due:2024-01-05 t:2024-01-03 key:value note:abc.txt rec:+1w f:1",
        "Buy milk +shopping @errands due:2042-01-01",
        "(C) Plain task",
        "2024-03-01 Report +work rec:2m h:1",
    ];

    for line in lines {
        let t = Task::parse(line, "note").unwrap();
        let text = t.to_text("note");
        assert_eq!(text, line);
        assert_eq!(Task::parse(&text, "note").unwrap(), t);
    }
}

#[test]
fn custom_note_tag() {
    let t = Task::parse("Read book memo:b12.md", "memo").unwrap();

    assert_eq!(t.note, Note::Short("b12.md".to_string()));
    assert_eq!(t.to_text("memo"), "Read book memo:b12.md");
}

#[test]
fn complete_and_uncomplete() {
    let mut t = Task::parse("2024-01-01 Write report", "note").unwrap();

    t.complete(ymd(2024, 1, 10));
    assert!(t.entry.finished);
    assert_eq!(t.entry.finish_date, Some(ymd(2024, 1, 10)));
    assert_eq!(t.to_text("note"), "x 2024-01-10 2024-01-01 Write report");

    t.uncomplete();
    assert!(!t.entry.finished);
    assert_eq!(t.entry.finish_date, None);

    let mut u = Task::parse("Write report", "note").unwrap();
    u.complete(ymd(2024, 1, 10));
    assert!(u.entry.finished);
    assert_eq!(u.entry.finish_date, Some(ymd(2024, 1, 10)));
    assert_eq!(u.entry.create_date, Some(ymd(2024, 1, 10)));
    let text = u.to_text("note");
    assert_eq!(text, "x 2024-01-10 2024-01-10 Write report");
    assert_eq!(Task::parse(&text, "note").unwrap(), u);
}

#[test]
fn display_order() {
    let due_soon = Task::parse("b due:2024-01-01", "note").unwrap();
    let due_late = Task::parse("a due:2024-06-01", "note").unwrap();
    let no_due = Task::parse("(A) a", "note").unwrap();
    let prio_a = Task::parse("(A) z due:2024-01-01", "note").unwrap();
    let prio_none = Task::parse("a due:2024-01-01", "note").unwrap();

    assert_eq!(due_soon.compare(&due_late), Ordering::Less);
    assert_eq!(no_due.compare(&due_late), Ordering::Greater);
    assert_eq!(due_late.compare(&no_due), Ordering::Less);
    assert_eq!(prio_a.compare(&due_soon), Ordering::Less);
    assert_eq!(prio_none.compare(&due_soon), Ordering::Less);
    assert_eq!(due_soon.compare(&due_soon), Ordering::Equal);
}

#[test]
fn list_ids_follow_files() {
    let todo = strings(&["First", "", "Second +p", "   ", "Third @c"]);
    let done = strings(&["x 2024-01-02 2024-01-01 Old", "x Older"]);
    let list = List::from_files("/t/todo.txt", &todo, "/t/done.txt", &done, "note");

    assert_eq!(list.tasks.len(), 5);
    for (i, t) in list.tasks.iter().enumerate() {
        assert_eq!(t.id, i);
    }
    assert_eq!(list.tasks[0].entry.subject, "First");
    assert_eq!(list.tasks[2].entry.subject, "Third @c");
    assert!(!list.tasks[2].entry.finished);
    assert!(list.tasks[3].entry.finished);
    assert_eq!(list.tasks[4].entry.subject, "Older");
    assert_eq!(list.todo, "/t/todo.txt");
    assert_eq!(list.done, "/t/done.txt");
}

#[test]
fn list_skips_refused_lines() {
    let todo = strings(&["Fine", "Too far due:9999999d", "Also fine ref:123456"]);
    let list = List::from_files("a", &todo, "b", &Vec::new(), "note");

    assert_eq!(list.tasks.len(), 2);
    assert_eq!(list.tasks[1].entry.subject, "Also fine");
    assert_eq!(list.tasks[1].entry.tags, vec![("ref".to_string(), "123456".to_string())]);
    assert_eq!(list.tasks[1].id, 1);
}

#[test]
fn add_task_scenario() {
    let mut list = List::from_files(
        "/t/todo.txt",
        &strings(&["Existing task"]),
        "/t/done.txt",
        &Vec::new(),
        "note",
    );
    let today = ymd(2024, 5, 1);

    let r = list.add("Buy milk +shopping @errands due:2042-01-01", today, "note");
    assert_eq!(r, Ok(()));
    assert_eq!(list.tasks.len(), 2);

    let t = &list.tasks[1];
    assert_eq!(t.id, 1);
    assert_eq!(t.entry.projects, strings(&["shopping"]));
    assert_eq!(t.entry.contexts, strings(&["errands"]));
    assert_eq!(t.entry.due_date, Some(ymd(2042, 1, 1)));
    assert_eq!(t.entry.create_date, Some(today));

    assert_eq!(
        list.file_text(false, "note"),
        "Existing task\n2024-05-01 Buy milk +shopping @errands due:2042-01-01\n"
    );
    assert_eq!(list.file_text(true, "note"), "");
}

#[test]
fn add_refuses_blank_text() {
    let mut list = List::new();

    assert_eq!(list.add("   ", ymd(2024, 5, 1), "note"), Err(ParseError::Empty));
    assert!(list.tasks.is_empty());
}

#[test]
fn complete_repeating_task() {
    let mut list = List::from_files(
        "a",
        &strings(&["2024-01-01 Pay rent due:2024-01-15 rec:1m"]),
        "b",
        &Vec::new(),
        "note",
    );
    let today = ymd(2024, 1, 15);

    list.complete(0, today);

    assert_eq!(list.tasks.len(), 2);
    assert!(list.tasks[0].entry.finished);
    assert_eq!(list.tasks[0].entry.finish_date, Some(today));
    let next = &list.tasks[1];
    assert!(!next.entry.finished);
    assert_eq!(next.entry.due_date, Some(ymd(2024, 2, 15)));
    assert_eq!(next.entry.create_date, Some(today));
    assert_eq!(next.id, 1);
    assert_eq!(next.recurrence, list.tasks[0].recurrence);

    list.complete(0, today);
    assert!(!list.tasks[0].entry.finished);
    assert_eq!(list.tasks.len(), 2);
}

#[test]
fn complete_strict_repeat_counts_from_due_date() {
    let mut list = List::from_files(
        "a",
        &strings(&["Standup due:2024-01-15 t:2024-01-10 rec:+1w"]),
        "b",
        &Vec::new(),
        "note",
    );

    list.complete(0, ymd(2024, 1, 20));

    assert_eq!(list.tasks.len(), 2);
    assert_eq!(list.tasks[1].entry.due_date, Some(ymd(2024, 1, 22)));
    assert_eq!(list.tasks[1].entry.threshold_date, Some(ymd(2024, 1, 17)));
}

#[test]
fn complete_unknown_id_does_nothing() {
    let mut list = List::from_files("a", &strings(&["One"]), "b", &Vec::new(), "note");

    list.complete(5, ymd(2024, 1, 20));
    assert_eq!(list.tasks.len(), 1);
    assert!(!list.tasks[0].entry.finished);
}

#[test]
fn file_text_routes_by_done_mark() {
    let mut list = List::from_files(
        "a",
        &strings(&["2024-01-01 One", "Two"]),
        "b",
        &strings(&["x Three"]),
        "note",
    );
    list.complete(0, ymd(2024, 1, 3));

    assert_eq!(list.file_text(false, "note"), "Two\n");
    assert_eq!(
        list.file_text(true, "note"),
        "x 2024-01-03 2024-01-01 One\nx Three\n"
    );
}

#[test]
fn from_entry_takes_out_annotations() {
    let mut t = Task::new();
    t.entry.subject = "Plan".to_string();
    t.entry.tags = vec![
        ("f".to_string(), "1".to_string()),
        ("k".to_string(), "v".to_string()),
        ("note".to_string(), "n1.txt".to_string()),
        ("rec".to_string(), "2d".to_string()),
    ];

    let task = Task::from_entry(t.entry.clone(), "note");
    assert_eq!(task.entry.tags, vec![("k".to_string(), "v".to_string())]);
    assert!(task.flagged);
    assert!(!task.hidden);
    assert_eq!(task.note, Note::Short("n1.txt".to_string()));
    assert_eq!(
        task.recurrence,
        Some(Recurrence { num: 2, period: Period::Day, strict: false })
    );
    assert_eq!(task.annotations("note"), " note:n1.txt rec:2d f:1");
}

#[test]
fn update_dates() {
    let mut t = Task::new();

    t.update_date(DateType::Due, Some(ymd(2024, 3, 1)));
    assert_eq!(t.entry.due_date, Some(ymd(2024, 3, 1)));
    t.update_date(DateType::Threshold, Some(ymd(2024, 2, 1)));
    assert_eq!(t.entry.threshold_date, Some(ymd(2024, 2, 1)));
    t.update_date(DateType::Finish, Some(ymd(2024, 3, 2)));
    assert!(t.entry.finished);
    t.update_date(DateType::Finish, None);
    assert!(!t.entry.finished);
    assert_eq!(t.entry.finish_date, None);
}

#[test]
fn due_days_of_a_month() {
    let todo = strings(&["a due:2024-03-05", "b due:2024-04-05", "c due:2024-03-20", "d"]);
    let list = List::from_files("a", &todo, "b", &Vec::new(), "note");

    assert_eq!(list.due_days(2024, 3), vec![5, 20]);
    assert!(list.due_days(2025, 3).is_empty());
}

#[test]
fn edit_replaces_task_in_place() {
    let mut list = List::from_files("a", &strings(&["One", "Two"]), "b", &Vec::new(), "note");

    let mut t = Task::parse("(A) Two, revised", "note").unwrap();
    t.id = 1;
    list.edit(t);
    assert_eq!(list.tasks[1].entry.subject, "Two, revised");
    assert_eq!(list.tasks[1].entry.priority, 0);
    assert_eq!(list.tasks[1].id, 1);

    let mut stray = Task::parse("Nowhere", "note").unwrap();
    stray.id = 7;
    list.edit(stray);
    assert_eq!(list.tasks.len(), 2);
}

#[test]
fn complete_long_day_repeat() {
    let mut list = List::from_files(
        "a",
        &strings(&["2024-01-01 Long wait due:2024-01-15 rec:+300000d"]),
        "b",
        &Vec::new(),
        "note",
    );

    list.complete(0, ymd(2024, 1, 20));

    assert_eq!(list.tasks.len(), 2);
    let expected = chrono::NaiveDate::from_ymd_opt(2024, 1, 15).unwrap()
        + chrono::Duration::days(300000);
    assert_eq!(
        list.tasks[1].entry.due_date,
        Some(ymd(expected.year(), expected.month(), expected.day()))
    );
}
