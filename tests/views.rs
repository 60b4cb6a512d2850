use effitask::date::Date;
use effitask::env::{get_default_todo_dir, EffiEnvironment, Environment};
use effitask::list::List;
use effitask::markup::{render_events, Markup, MdEvent};
use effitask::note::{Note, NoteSave};
use effitask::store::{self, Store};
use effitask::task::Task;
use effitask::views::{has_filter, Preferences, Selection, Type};

fn ymd(y: i32, m: u32, d: u32) -> Date {
    Date::from_ymd(y, m, d).unwrap()
}

fn strings(v: &[&str]) -> Vec<String> {
    v.iter().map(|s| s.to_string()).collect()
}

fn task_with_context(id: usize, context: &str, done: bool) -> Task {
    let mut t = Task::new();
    t.id = id;
    t.entry.subject = format!("task {id}");
    t.entry.contexts = vec![context.to_string()];
    t.entry.finished = done;
    t
}

fn subjects(v: &[Task]) -> Vec<String> {
    v.iter().map(|t| t.entry.subject.clone()).collect()
}

#[test]
fn aggregation_rolls_up_and_hides_resolved_tags() {
    let mut list = List::new();
    list.tasks = vec![
        task_with_context(0, "work", false),
        task_with_context(1, "work/reports", true),
        task_with_context(2, "work/reports", true),
        task_with_context(3, "home", false),
        task_with_context(4, "home", false),
    ];
    let today = ymd(2024, 1, 1);

    assert_eq!(list.contexts(today), strings(&["home", "work"]));
    assert_eq!(list.progress(Type::Contexts, "work"), (2, 3));
    assert_eq!(list.progress(Type::Contexts, "work/reports"), (2, 2));
    assert_eq!(list.progress(Type::Contexts, "home"), (0, 2));
    assert_eq!(list.progress(Type::Contexts, "wor"), (0, 0));
    assert_eq!(
        list.tag_progress(Type::Contexts, today),
        vec![("home".to_string(), 0, 2), ("work".to_string(), 2, 3)]
    );
}

#[test]
fn tag_progress_drops_fully_done_tags() {
    let mut list = List::new();
    let mut open = task_with_context(0, "errands", false);
    open.entry.contexts = strings(&["errands", "phone"]);
    list.tasks = vec![open, task_with_context(1, "phone", true)];

    let p = list.tag_progress(Type::Contexts, ymd(2024, 1, 1));
    assert_eq!(
        p,
        vec![("errands".to_string(), 0, 1), ("phone".to_string(), 1, 2)]
    );

    list.tasks[0].entry.finished = true;
    assert!(list.tag_progress(Type::Contexts, ymd(2024, 1, 1)).is_empty());
}

#[test]
fn projects_are_distinct_sorted_and_actionable() {
    let todo = strings(&[
        "Write +zeta +alpha",
        "Plan +beta +alpha",
        "Later +gamma t:2024-06-01",
        "Now +delta t:2024-01-01",
    ]);
    let done = strings(&["x Old +omega"]);
    let list = List::from_files("a", &todo, "b", &done, "note");

    assert_eq!(
        list.projects(ymd(2024, 1, 1)),
        strings(&["alpha", "beta", "delta", "zeta"])
    );
    assert_eq!(
        list.projects(ymd(2024, 6, 1)),
        strings(&["alpha", "beta", "delta", "gamma", "zeta"])
    );
    assert!(list.contexts(ymd(2024, 1, 1)).is_empty());
}

#[test]
fn inbox_flag_done_views() {
    let todo = strings(&[
        "Loose end",
        "Project task +p",
        "Flagged f:1",
        "Deferred t:2024-02-01",
    ]);
    let done = strings(&["x Finished f:1"]);
    let list = List::from_files("a", &todo, "b", &done, "note");
    let today = ymd(2024, 1, 1);
    let prefs = Preferences::new();

    assert_eq!(
        subjects(&list.inbox_tasks(today, prefs)),
        strings(&["Loose end", "Flagged"])
    );
    let all = Preferences { defered: true, done: true };
    assert_eq!(
        subjects(&list.inbox_tasks(today, all)),
        strings(&["Loose end", "Flagged", "Deferred"])
    );
    assert_eq!(subjects(&list.flagged_tasks(today, prefs)), strings(&["Flagged"]));
    assert_eq!(
        subjects(&list.flagged_tasks(today, all)),
        strings(&["Flagged", "Finished"])
    );
    assert_eq!(subjects(&list.done_tasks(today)), strings(&["Finished"]));
}

#[test]
fn tagged_view_filters() {
    let todo = strings(&["A @home", "B @work", "C", "D @home @work"]);
    let list = List::from_files("a", &todo, "b", &Vec::new(), "note");
    let today = ymd(2024, 1, 1);
    let prefs = Preferences::new();

    assert_eq!(
        subjects(&list.tagged_tasks(Type::Contexts, &Vec::new(), today, prefs)),
        strings(&["A @home", "B @work", "D @home @work"])
    );
    assert_eq!(
        subjects(&list.tagged_tasks(Type::Contexts, &strings(&["work"]), today, prefs)),
        strings(&["B @work", "D @home @work"])
    );
    assert!(has_filter(&strings(&["a", "b"]), &strings(&["c", "b"])));
    assert!(!has_filter(&strings(&["a"]), &strings(&["c"])));
    assert!(has_filter(&Vec::new(), &Vec::new()));
}

#[test]
fn agenda_windows() {
    let todo = strings(&[
        "Past due:2023-12-31",
        "Today due:2024-01-01",
        "Tomorrow due:2024-01-02",
        "Week start due:2024-01-03",
        "Week end due:2024-01-07",
        "Month start due:2024-01-08",
        "Month end due:2024-01-28",
        "Later due:2024-01-29",
        "No date",
    ]);
    let list = List::from_files("a", &todo, "b", &Vec::new(), "note");
    let today = ymd(2024, 1, 1);
    let prefs = Preferences::new();

    assert_eq!(subjects(&list.past_tasks(today, prefs)), strings(&["Past"]));
    assert_eq!(subjects(&list.today_tasks(today, prefs)), strings(&["Today"]));
    assert_eq!(subjects(&list.tomorrow_tasks(today, prefs)), strings(&["Tomorrow"]));
    assert_eq!(
        subjects(&list.week_tasks(today, prefs)),
        strings(&["Week start", "Week end"])
    );
    assert_eq!(
        subjects(&list.month_tasks(today, prefs)),
        strings(&["Month start", "Month end"])
    );
    assert_eq!(
        subjects(&list.agenda_tasks(None, None, today, prefs)).len(),
        8
    );
}

#[test]
fn agenda_hides_done_and_deferred() {
    let todo = strings(&["Deferred due:2024-01-01 t:2024-01-05"]);
    let done = strings(&["x Done due:2024-01-01"]);
    let list = List::from_files("a", &todo, "b", &done, "note");
    let today = ymd(2024, 1, 1);

    assert!(list.today_tasks(today, Preferences::new()).is_empty());
    let all = Preferences { defered: true, done: true };
    assert_eq!(
        subjects(&list.today_tasks(today, all)),
        strings(&["Deferred", "Done"])
    );
}

#[test]
fn agenda_hides_tasks_deferred_past_today() {
    let todo = strings(&["Later due:2024-01-10 t:2024-01-05", "Open due:2024-01-10"]);
    let list = List::from_files("a", &todo, "b", &Vec::new(), "note");
    let today = ymd(2024, 1, 1);

    assert_eq!(subjects(&list.month_tasks(today, Preferences::new())), strings(&["Open"]));
    assert_eq!(
        subjects(&list.month_tasks(today, Preferences { defered: true, done: false })),
        strings(&["Later", "Open"])
    );
    assert_eq!(
        subjects(&list.month_tasks(ymd(2024, 1, 5), Preferences::new())).len(),
        0
    );
}

#[test]
fn search_ignores_case() {
    let todo = strings(&["Buy MILK", "Call Bob", "milkshake"]);
    let list = List::from_files("a", &todo, "b", &Vec::new(), "note");
    let today = ymd(2024, 1, 1);

    assert_eq!(
        subjects(&list.search("Milk", today)),
        strings(&["Buy MILK", "milkshake"])
    );
    assert_eq!(subjects(&list.search("", today)).len(), 3);
    assert!(list.search("xyz", today).is_empty());
    let sel = Selection::Search("bob".to_string());
    assert_eq!(
        subjects(&list.select(&sel, today, Preferences::new())),
        strings(&["Call Bob"])
    );
}

#[test]
fn note_content_and_reference() {
    assert_eq!(Note::Empty.content(), None);
    assert_eq!(Note::Short("x".to_string()).content(), Some("x".to_string()));
    let long = Note::Long { filename: "ab1.txt".to_string(), content: "text".to_string() };
    assert_eq!(long.content(), Some("text".to_string()));
    assert_eq!(long.reference(), Some("ab1.txt".to_string()));

    assert_eq!(Note::from_file("", Some("x".to_string())), Note::Empty);
    assert_eq!(Note::from_file("n.txt", None), Note::Short("n.txt".to_string()));
    assert_eq!(Note::from_file("n.txt", Some("body".to_string())), long_named("n.txt", "body"));
}

fn long_named(f: &str, c: &str) -> Note {
    Note::Long { filename: f.to_string(), content: c.to_string() }
}

#[test]
fn note_save_plans() {
    assert_eq!(Note::Empty.save_plan("new.txt"), (Note::Empty, NoteSave::Nothing));
    assert_eq!(
        Note::Short("hello".to_string()).save_plan("new.txt"),
        (
            long_named("new.txt", "hello"),
            NoteSave::Write { filename: "new.txt".to_string(), content: "hello".to_string() }
        )
    );
    assert_eq!(
        Note::Short(String::new()).save_plan("new.txt"),
        (Note::Empty, NoteSave::Nothing)
    );
    assert_eq!(
        long_named("old.txt", "").save_plan("new.txt"),
        (Note::Empty, NoteSave::Delete("old.txt".to_string()))
    );
    assert_eq!(
        long_named("old.txt", "body").save_plan("new.txt"),
        (
            long_named("old.txt", "body"),
            NoteSave::Write { filename: "old.txt".to_string(), content: "body".to_string() }
        )
    );
}

#[test]
fn note_paths_and_names() {
    assert_eq!(Note::note_file(None, Some("/n"), "a.txt"), None);
    assert_eq!(
        Note::note_file(Some("/todo"), None, "a.txt"),
        Some("/todo/notes/a.txt".to_string())
    );
    assert_eq!(
        Note::note_file(Some("/todo"), Some("/n"), "a.txt"),
        Some("/n/a.txt".to_string())
    );

    let name = Note::new_filename(".txt");
    assert_eq!(name.chars().count(), 7);
    assert!(name.ends_with(".txt"));
    assert!(name.chars().take(3).all(|c| c.is_ascii_alphanumeric()));
}

#[test]
fn note_markup() {
    let events = vec![
        MdEvent::Heading(1),
        MdEvent::Text("Title & more".to_string()),
        MdEvent::HeadingEnd,
        MdEvent::Paragraph,
        MdEvent::Emphasis,
        MdEvent::Text("em".to_string()),
        MdEvent::EmphasisEnd,
        MdEvent::Link("http://x".to_string(), "t".to_string()),
        MdEvent::Text("link".to_string()),
        MdEvent::LinkEnd,
        MdEvent::ParagraphEnd,
        MdEvent::Other,
    ];
    assert_eq!(
        render_events(&events),
        "<markup><span font_size='x-large'><u>Title &amp; more</u></span>\n\n<span><i>em</i><a href='http://x' title='t'>link</a></span>\n</markup>"
    );
    assert_eq!(Note::Empty.markup(&events), None);
    assert_eq!(
        Note::Short("# x".to_string()).markup(&vec![MdEvent::Item, MdEvent::ItemEnd]),
        Some("<markup>\u{b7} \n</markup>".to_string())
    );
}

#[test]
fn store_get_replace_add() {
    let mut s = Store::new();
    assert!(!s.preferences.done && !s.preferences.defered);

    let r = store::add(&mut s, "New task +p", ymd(2024, 1, 1), "note");
    assert_eq!(r, Ok(()));
    let mut copy = store::get(&s);
    assert_eq!(copy.tasks.len(), 1);
    assert_eq!(copy.tasks[0].entry.create_date, Some(ymd(2024, 1, 1)));

    copy.complete(0, ymd(2024, 1, 2));
    assert!(!s.tasks.tasks[0].entry.finished);
    store::replace(&mut s, copy);
    assert!(s.tasks.tasks[0].entry.finished);
}

#[test]
fn test_new_non_default_todo_dir_files_set() {
    let environment = Environment::for_dir("/tmp/todo");

    assert_eq!(environment.todo_dir, "/tmp/todo");
    assert_eq!(environment.todo_file, "/tmp/todo/todo.txt");
    assert_eq!(environment.done_file, "/tmp/todo/done.txt");
}

#[test]
fn default_todo_dir_under_home() {
    assert_eq!(get_default_todo_dir("/home/u"), "/home/u/.local/opt/share/todo");
    let e = EffiEnvironment::for_home("/home/u");
    assert_eq!(e.todo_file_path, "/home/u/.local/opt/share/todo/todo.txt");
    assert_eq!(e.done_file_path, "/home/u/.local/opt/share/todo/done.txt");
}
