use vstd::prelude::*;
use chrono::Datelike;
use crate::date::{Date, date_lt, valid_ymd};
use crate::note::Note;
use crate::recurrence::{rec_of, rec_text, rec_text_ok, Recurrence};
use crate::text::{
    all_digits, blank, chars_of, compare_text, digits_value, is_blank, is_digit, is_space, lex_cmp,
    push_str, strings_view,
};

verus! {

/// The todo.txt part of a task line.
#[derive(Clone, Debug, PartialEq, Eq)]
pub struct Entry {
    pub subject: String,
    /// 0 stands for `A`, 25 for `Z`, 26 for no priority.
    pub priority: u8,
    pub create_date: Option<Date>,
    pub finish_date: Option<Date>,
    pub finished: bool,
    pub threshold_date: Option<Date>,
    pub due_date: Option<Date>,
    pub contexts: Vec<String>,
    pub projects: Vec<String>,
    pub hashtags: Vec<String>,
    /// `key:value` annotations, in order of their keys.
    pub tags: Vec<(String, String)>,
}

/// An `Entry` seen as mathematical values.
pub struct EntryView {
    pub subject: Seq<char>,
    pub priority: u8,
    pub create_date: Option<Date>,
    pub finish_date: Option<Date>,
    pub finished: bool,
    pub threshold_date: Option<Date>,
    pub due_date: Option<Date>,
    pub contexts: Seq<Seq<char>>,
    pub projects: Seq<Seq<char>>,
    pub hashtags: Seq<Seq<char>>,
    pub tags: Seq<(Seq<char>, Seq<char>)>,
}

/// Annotations seen as pairs of character sequences.
pub open spec fn tags_view(v: Seq<(String, String)>) -> Seq<(Seq<char>, Seq<char>)> {
    v.map_values(|p: (String, String)| (p.0@, p.1@))
}

impl View for Entry {
    type V = EntryView;

    open spec fn view(&self) -> EntryView {
        EntryView {
            subject: self.subject@,
            priority: self.priority,
            create_date: self.create_date,
            finish_date: self.finish_date,
            finished: self.finished,
            threshold_date: self.threshold_date,
            due_date: self.due_date,
            contexts: strings_view(self.contexts@),
            projects: strings_view(self.projects@),
            hashtags: strings_view(self.hashtags@),
            tags: tags_view(self.tags@),
        }
    }
}

/// A date, where there is one, exists.
pub open spec fn opt_date_wf(d: Option<Date>) -> bool {
    d.is_some() ==> d->0.wf()
}

impl Entry {
    pub open spec fn wf(&self) -> bool {
        &&& self.priority <= 26
        &&& opt_date_wf(self.create_date)
        &&& opt_date_wf(self.finish_date)
        &&& opt_date_wf(self.threshold_date)
        &&& opt_date_wf(self.due_date)
    }
}

/// What the todo.txt grammar reads from a line: the entry, and the texts of
/// its `due:` and `t:` annotations. The entry's due and threshold dates are
/// not part of it: a relative date (`due:+3d`) is read against the clock.
pub struct LineView {
    pub entry: EntryView,
    pub due_text: Option<Seq<char>>,
    pub threshold_text: Option<Seq<char>>,
}

/// What the todo.txt grammar reads from a line.
pub uninterp spec fn todo_line(s: Seq<char>) -> LineView;

/// Value of the decimal digits of `v` from `a` to `b`.
pub open spec fn digits_at(v: Seq<char>, a: int, b: int) -> int {
    digits_value(v.subrange(a, b))
}

/// An absolute date written `YYYY-MM-DD`.
pub open spec fn ymd_text(v: Seq<char>) -> bool {
    &&& v.len() == 10
    &&& all_digits(v.subrange(0, 4)) && all_digits(v.subrange(5, 7)) && all_digits(v.subrange(8, 10))
    &&& v[4] == '-' && v[7] == '-'
    &&& valid_ymd(digits_at(v, 0, 4), digits_at(v, 5, 7), digits_at(v, 8, 10))
}

/// The date that `YYYY-MM-DD` writes.
pub open spec fn ymd_of(v: Seq<char>) -> Date {
    Date {
        year: digits_at(v, 0, 4) as i32,
        month: digits_at(v, 5, 7) as u32,
        day: digits_at(v, 8, 10) as u32,
    }
}

/// `d` is the date that the annotation text `text` gives, where it is
/// absolute; there is no date without the annotation.
pub open spec fn date_read(text: Option<Seq<char>>, d: Option<Date>) -> bool {
    match text {
        None => d.is_none(),
        Some(v) => ymd_text(v) ==> d == Some(ymd_of(v)),
    }
}

/// The todo.txt line that writes an entry.
pub uninterp spec fn todo_text(e: EntryView) -> Seq<char>;

/// `v` with the given due and threshold dates.
pub open spec fn with_dates(v: EntryView, due: Option<Date>, threshold: Option<Date>) -> EntryView {
    EntryView { due_date: due, threshold_date: threshold, ..v }
}

/// White space as the todo.txt grammar's patterns know it (Unicode
/// `White_Space`).
pub open spec fn is_white(c: char) -> bool {
    is_space(c) || c == '\u{b}' || c == '\u{85}' || c == '\u{a0}' || c == '\u{1680}' || ('\u{2000}'
        <= c && c <= '\u{200a}') || c == '\u{2028}' || c == '\u{2029}' || c == '\u{202f}' || c
        == '\u{205f}' || c == '\u{3000}'
}

/// Position `i` starts a token: the line starts there or white space
/// precedes it.
pub open spec fn token_start(s: Seq<char>, i: int) -> bool {
    i == 0 || (0 < i <= s.len() && is_white(s[i - 1]))
}

/// Where the value of a `due:` or `t:` annotation starting at `i` begins;
/// -1 where none starts there.
pub open spec fn date_value_start(s: Seq<char>, i: int) -> int {
    if 0 <= i && i + 4 <= s.len() && s[i] == 'd' && s[i + 1] == 'u' && s[i + 2] == 'e' && s[i + 3]
        == ':' {
        i + 4
    } else if 0 <= i && i + 2 <= s.len() && s[i] == 't' && s[i + 1] == ':' {
        i + 2
    } else {
        -1
    }
}

/// Letter of a unit of time in a relative date: days, weeks, months, years.
pub open spec fn is_unit(c: char) -> bool {
    c == 'd' || c == 'w' || c == 'm' || c == 'y'
}

/// Six digits at `k` and a unit letter right after them, with no white
/// space between `v` and `k`.
pub open spec fn value_run(s: Seq<char>, v: int, k: int) -> bool {
    &&& 0 <= v <= k
    &&& k + 7 <= s.len()
    &&& forall|j: int| v <= j < k ==> !is_space(#[trigger] s[j])
    &&& forall|j: int| k <= j < k + 6 ==> is_digit(#[trigger] s[j])
    &&& is_unit(s[k + 6])
}

/// A token `due:...` or `t:...` starting at `i` whose value holds, at `k`,
/// six digits in a row followed by a unit letter.
pub open spec fn date_run(s: Seq<char>, i: int, k: int) -> bool {
    &&& token_start(s, i)
    &&& date_value_start(s, i) >= 0
    &&& value_run(s, date_value_start(s, i), k)
}

/// A line with a due or threshold date that counts six or more digits of
/// units from today (`due:+999999y`). The grammar reads such a relative date
/// against the clock; the largest of them (about 260,000 years, or eight
/// digits of days) leave the calendar and stop the program, while a count of
/// five digits never does.
pub open spec fn long_date_offset(s: Seq<char>) -> bool {
    exists|i: int, k: int| date_run(s, i, k)
}

/// Whether six digits in a row followed by a unit letter follow position
/// `start`, with no white space in between.
fn has_value_run(v: &Vec<char>, start: usize) -> (r: bool)
    requires
        start <= v.len(),
    ensures
        r == exists|k: int| value_run(v@, start as int, k),
{
    let ghost s = v@;
    let mut run: usize = 0;
    let mut p: usize = start;
    while p < v.len()
        invariant
            s == v@,
            start <= p <= v.len(),
            run <= p - start,
            forall|j: int| start <= j < p ==> !is_space(#[trigger] s[j]),
            forall|j: int| p - run <= j < p ==> is_digit(#[trigger] s[j]),
            p - run == start || !is_digit(s[p - run - 1]),
            forall|k: int| k + 7 <= p ==> !value_run(s, start as int, k),
        decreases v.len() - p,
    {
        let c = v[p];
        if c == ' ' || c == '\t' || c == '\n' || c == '\r' || c == '\x0C' {
            proof {
                assert forall|k: int| !value_run(s, start as int, k) by {
                    if value_run(s, start as int, k) && k + 7 > p {
                        if k + 6 == p {
                            assert(is_unit(s[p as int]));
                        } else if k <= p {
                            assert(is_digit(s[p as int]));
                        } else {
                            assert(!is_space(s[p as int]));
                        }
                    }
                }
            }
            return false;
        }
        if (c == 'd' || c == 'w' || c == 'm' || c == 'y') && run >= 6 {
            proof {
                assert(value_run(s, start as int, p - 6));
            }
            return true;
        }
        let ghost old_run = run;
        if '0' <= c && c <= '9' {
            run = run + 1;
        } else {
            run = 0;
        }
        proof {
            let q = p + 1;
            assert forall|k: int| k + 7 <= q implies !value_run(s, start as int, k) by {
                if k + 7 == q && value_run(s, start as int, k) {
                    assert(old_run < 6);
                    assert(is_digit(s[p - old_run - 1]));
                }
            }
        }
        p = p + 1;
    }
    proof {
        assert forall|k: int| !value_run(s, start as int, k) by {
            if value_run(s, start as int, k) && k + 7 > p {
            }
        }
    }
    false
}

/// Whether the line holds a `due:` or `t:` token whose value holds six
/// digits in a row followed by a unit letter.
pub fn has_long_date_offset(line: &str) -> (r: bool)
    ensures
        r == long_date_offset(line@),
{
    let v = chars_of(line);
    let ghost s = line@;
    let n = v.len();
    let mut i: usize = 0;
    while i < n
        invariant
            v@ == s,
            s == line@,
            n == v.len(),
            0 <= i <= n,
            forall|a: int, k: int| a < i ==> !date_run(s, a, k),
        decreases n - i,
    {
        let starts = i == 0 || {
            let c = v[i - 1];
            c == ' ' || c == '\t' || c == '\n' || c == '\r' || c == '\x0C' || c == '\u{b}' || c
                == '\u{85}' || c == '\u{a0}' || c == '\u{1680}' || ('\u{2000}' <= c && c <= '\u{200a}')
                || c == '\u{2028}' || c == '\u{2029}' || c == '\u{202f}' || c == '\u{205f}' || c
                == '\u{3000}'
        };
        let value: Option<usize> = if n - i >= 4 && v[i] == 'd' && v[i + 1] == 'u' && v[i + 2] == 'e'
            && v[i + 3] == ':' {
            Some(i + 4)
        } else if n - i >= 2 && v[i] == 't' && v[i + 1] == ':' {
            Some(i + 2)
        } else {
            None
        };
        proof {
            assert(starts == token_start(s, i as int));
            assert(value.is_some() == (date_value_start(s, i as int) >= 0));
            assert(value.is_some() ==> value->0 == date_value_start(s, i as int));
        }
        if starts {
            if let Some(start) = value {
                if has_value_run(&v, start) {
                    proof {
                        let k = choose|k: int| value_run(s, start as int, k);
                        assert(date_run(s, i as int, k));
                    }
                    return true;
                }
            }
        }
        i = i + 1;
    }
    proof {
        assert forall|a: int, k: int| !date_run(s, a, k) by {
            if a >= n {
                assert(date_value_start(s, a) == -1);
            }
        }
    }
    false
}

/// Why a line does not make a task.
#[derive(Clone, Copy, Debug, PartialEq, Eq, Structural)]
pub enum ParseError {
    /// The line is empty or white space.
    Empty,
    /// A `due:` or `t:` value counts six or more digits of days, weeks,
    /// months or years from today; the largest such counts leave the
    /// calendar, so these lines are refused.
    DateOutOfRange,
}

/// Relies on `todo_txt::parser::task`, the todo.txt grammar, and on chrono's
/// dates being valid calendar days within chrono's range. The grammar reads a
/// `due:` or `t:` value first as `%Y-%m-%d` (chrono's `parse_from_str`), else
/// as a date relative to the clock; of those two dates only the absolute
/// case and their validity are stated.
#[verifier::external_body]
fn parse_entry(s: &str) -> (r: Entry)
    requires
        !long_date_offset(s@),
    ensures
        r@ == with_dates(todo_line(s@).entry, r.due_date, r.threshold_date),
        date_read(todo_line(s@).due_text, r.due_date),
        date_read(todo_line(s@).threshold_text, r.threshold_date),
        r.wf(),
{
    let t = todo_txt::parser::task(s);
    let ymd = |d: chrono::NaiveDate| Date { year: d.year(), month: d.month(), day: d.day() };
    Entry {
        subject: t.subject,
        priority: u8::from(t.priority),
        create_date: t.create_date.map(ymd),
        finish_date: t.finish_date.map(ymd),
        finished: t.finished,
        threshold_date: t.threshold_date.map(ymd),
        due_date: t.due_date.map(ymd),
        contexts: t.contexts,
        projects: t.projects,
        hashtags: t.hashtags,
        tags: t.tags.into_iter().collect(),
    }
}

/// Relies on the `Display` of `todo_txt::task::Simple`, which writes a
/// todo.txt line; chrono accepts every valid date of the supported range.
#[verifier::external_body]
fn entry_text(e: &Entry) -> (r: String)
    requires
        e.wf(),
    ensures
        r@ == todo_text(e@),
{
    let naive = |d: &Date| chrono::NaiveDate::from_ymd_opt(d.year, d.month, d.day).unwrap();
    todo_txt::task::Simple {
        subject: e.subject.clone(),
        priority: todo_txt::Priority::from(e.priority),
        create_date: e.create_date.as_ref().map(naive),
        finish_date: e.finish_date.as_ref().map(naive),
        finished: e.finished,
        threshold_date: e.threshold_date.as_ref().map(naive),
        due_date: e.due_date.as_ref().map(naive),
        contexts: e.contexts.clone(),
        projects: e.projects.clone(),
        hashtags: e.hashtags.clone(),
        tags: e.tags.iter().cloned().collect(),
    }.to_string()
}

} // verus!

verus! {

/// Value of the first annotation with key `k`.
pub open spec fn first_value(t: Seq<(Seq<char>, Seq<char>)>, k: Seq<char>) -> Option<Seq<char>>
    decreases t.len(),
{
    if t.len() == 0 {
        None
    } else {
        let f = first_value(t.drop_last(), k);
        if f.is_some() {
            f
        } else if t.last().0 == k {
            Some(t.last().1)
        } else {
            None
        }
    }
}

/// The annotations whose key is not `k`, in order.
pub open spec fn drop_key(t: Seq<(Seq<char>, Seq<char>)>, k: Seq<char>) -> Seq<(Seq<char>, Seq<char>)>
    decreases t.len(),
{
    if t.len() == 0 {
        t
    } else {
        let r = drop_key(t.drop_last(), k);
        if t.last().0 == k {
            r
        } else {
            r.push(t.last())
        }
    }
}

/// Removes the annotations of key `key` and returns the value of the first.
pub fn take_tag(tags: &mut Vec<(String, String)>, key: &str) -> (r: Option<String>)
    ensures
        r.is_some() == first_value(tags_view(old(tags)@), key@).is_some(),
        r.is_some() ==> r->0@ == first_value(tags_view(old(tags)@), key@)->0,
        tags_view(final(tags)@) == drop_key(tags_view(old(tags)@), key@),
{
    let k = key.to_owned();
    let ghost t = tags_view(tags@);
    let mut kept: Vec<(String, String)> = Vec::new();
    let mut found: Option<String> = None;
    let mut i: usize = 0;
    while i < tags.len()
        invariant
            0 <= i <= tags.len(),
            k@ == key@,
            t == tags_view(tags@),
            tags_view(kept@) == drop_key(t.subrange(0, i as int), key@),
            found.is_some() == first_value(t.subrange(0, i as int), key@).is_some(),
            found.is_some() ==> found->0@ == first_value(t.subrange(0, i as int), key@)->0,
        decreases tags.len() - i,
    {
        let ghost pre = t.subrange(0, i as int);
        proof {
            assert(t.subrange(0, i + 1).drop_last() =~= pre);
        }
        if tags[i].0 == k {
            if found.is_none() {
                found = Some(tags[i].1.clone());
            }
        } else {
            let a = tags[i].0.clone();
            let b = tags[i].1.clone();
            let ghost before = kept@;
            kept.push((a, b));
            proof {
                assert(tags_view(kept@) =~= tags_view(before).push(t[i as int]));
            }
        }
        i = i + 1;
    }
    proof {
        assert(t.subrange(0, tags.len() as int) =~= t);
    }
    *tags = kept;
    found
}

/// One task: a todo.txt line with its note, repeat rule and flags, and the
/// number it has in the list it was loaded into.
#[derive(Clone, Debug, PartialEq, Eq)]
pub struct Task {
    pub entry: Entry,
    pub note: Note,
    pub recurrence: Option<Recurrence>,
    pub flagged: bool,
    pub hidden: bool,
    pub id: usize,
}

/// Key of the repeat rule annotation.
pub open spec fn key_rec() -> Seq<char> {
    seq!['r', 'e', 'c']
}

/// Key of the flag annotation.
pub open spec fn key_flag() -> Seq<char> {
    seq!['f']
}

/// Key of the hiding annotation.
pub open spec fn key_hidden() -> Seq<char> {
    seq!['h']
}

/// The note that a note annotation's value refers to, before its file is
/// read: the reference itself as inline text.
pub open spec fn note_of(v: Option<Seq<char>>, n: Note) -> bool {
    match v {
        None => n == Note::Empty,
        Some(s) => if s.len() == 0 {
            n == Note::Empty
        } else {
            n is Short && n->Short_0@ == s
        },
    }
}

/// The repeat rule that a `rec` annotation's value stands for.
pub open spec fn rec_value(v: Option<Seq<char>>) -> Option<Recurrence> {
    match v {
        None => None,
        Some(s) => if rec_text_ok(s) {
            Some(rec_of(s))
        } else {
            None
        },
    }
}

/// `t` is the task that the todo.txt entry `e` makes, with `tag` the key of
/// note annotations: the entry, less the annotations of the note, of the
/// repeat rule (`rec`), of the flag (`f`) and of hiding (`h`), which become
/// the task's own fields.
pub open spec fn extended_from(t: Task, e: EntryView, tag: Seq<char>) -> bool {
    let t0 = e.tags;
    let t1 = drop_key(t0, tag);
    let t2 = drop_key(t1, key_rec());
    let t3 = drop_key(t2, key_flag());
    let t4 = drop_key(t3, key_hidden());
    &&& t.entry@ == (EntryView { tags: t4, ..e })
    &&& note_of(first_value(t0, tag), t.note)
    &&& t.recurrence == rec_value(first_value(t1, key_rec()))
    &&& t.flagged == first_value(t2, key_flag()).is_some()
    &&& t.hidden == first_value(t3, key_hidden()).is_some()
    &&& t.id == 0
}

/// `t` is the task that `line` reads as, with `tag` the key of note
/// annotations.
pub open spec fn parsed_as(t: Task, line: Seq<char>, tag: Seq<char>) -> bool {
    &&& extended_from(
        t,
        with_dates(todo_line(line).entry, t.entry.due_date, t.entry.threshold_date),
        tag,
    )
    &&& date_read(todo_line(line).due_text, t.entry.due_date)
    &&& date_read(todo_line(line).threshold_text, t.entry.threshold_date)
    &&& t.entry.wf()
}

/// The annotations that follow the todo.txt entry in a task's line: its
/// note reference, repeat rule and flags.
pub open spec fn annotations_text(t: Task, tag: Seq<char>) -> Seq<char> {
    let n = match t.note {
        Note::Empty => Seq::<char>::empty(),
        Note::Short(c) => seq![' '] + tag + seq![':'] + c@,
        Note::Long { filename, .. } => seq![' '] + tag + seq![':'] + filename@,
    };
    let r = match t.recurrence {
        None => Seq::<char>::empty(),
        Some(rc) => seq![' ', 'r', 'e', 'c', ':'] + rec_text(rc),
    };
    let f = if t.flagged { seq![' ', 'f', ':', '1'] } else { Seq::<char>::empty() };
    let h = if t.hidden { seq![' ', 'h', ':', '1'] } else { Seq::<char>::empty() };
    n + r + f + h
}

/// Text of a task: its todo.txt entry, then its annotations.
pub open spec fn task_text(t: Task, tag: Seq<char>) -> Seq<char> {
    todo_text(t.entry@) + annotations_text(t, tag)
}

/// Order of optional dates in which a missing date comes last.
pub open spec fn due_cmp(a: Option<Date>, b: Option<Date>) -> core::cmp::Ordering {
    match (a, b) {
        (None, None) => core::cmp::Ordering::Equal,
        (None, Some(_)) => core::cmp::Ordering::Greater,
        (Some(_), None) => core::cmp::Ordering::Less,
        (Some(x), Some(y)) => if x == y {
            core::cmp::Ordering::Equal
        } else if date_lt(x, y) {
            core::cmp::Ordering::Less
        } else {
            core::cmp::Ordering::Greater
        },
    }
}

/// Display order of tasks: by due date (none last), then by priority (`A`
/// first, none last), then by subject.
pub open spec fn task_order(a: Task, b: Task) -> core::cmp::Ordering {
    let d = due_cmp(a.entry.due_date, b.entry.due_date);
    if d != core::cmp::Ordering::Equal {
        d
    } else if a.entry.priority < b.entry.priority {
        core::cmp::Ordering::Less
    } else if a.entry.priority > b.entry.priority {
        core::cmp::Ordering::Greater
    } else {
        lex_cmp(a.entry.subject@, b.entry.subject@)
    }
}

impl Task {
    pub open spec fn wf(&self) -> bool {
        &&& self.entry.wf()
        &&& self.recurrence.is_some() ==> self.recurrence->0.wf()
    }

    /// Reads a task from one todo.txt line. `note_tag` is the key of the
    /// annotation that names the task's note file.
    pub fn parse(line: &str, note_tag: &str) -> (r: Result<Task, ParseError>)
        ensures
            blank(line@) ==> r == Err::<Task, ParseError>(ParseError::Empty),
            !blank(line@) && long_date_offset(line@) ==> r == Err::<Task, ParseError>(
                ParseError::DateOutOfRange,
            ),
            !blank(line@) && !long_date_offset(line@) ==> r is Ok && parsed_as(
                r->Ok_0,
                line@,
                note_tag@,
            ) && r->Ok_0.wf(),
    {
        if is_blank(line) {
            return Err(ParseError::Empty);
        }
        if has_long_date_offset(line) {
            return Err(ParseError::DateOutOfRange);
        }
        let entry = parse_entry(line);
        Ok(Task::from_entry(entry, note_tag))
    }

    /// The task that a todo.txt entry makes: the annotations of the note
    /// (key `note_tag`), of the repeat rule, of the flag and of hiding are
    /// taken out of the entry and become the task's own fields.
    pub fn from_entry(entry: Entry, note_tag: &str) -> (r: Task)
        ensures
            extended_from(r, entry@, note_tag@),
            entry.wf() ==> r.wf(),
    {
        let mut entry = entry;
        let ghost base = entry@;
        let note_ref = take_tag(&mut entry.tags, note_tag);
        let rec = take_tag(&mut entry.tags, "rec");
        let flag = take_tag(&mut entry.tags, "f");
        let hide = take_tag(&mut entry.tags, "h");
        proof {
            reveal_strlit("rec");
            reveal_strlit("f");
            reveal_strlit("h");
            assert("rec"@ =~= key_rec());
            assert("f"@ =~= key_flag());
            assert("h"@ =~= key_hidden());
        }
        let note = match note_ref {
            Some(v) => if v.as_str().is_empty() {
                Note::Empty
            } else {
                Note::Short(v)
            },
            None => Note::Empty,
        };
        let recurrence = match rec {
            Some(v) => match Recurrence::from_str(v.as_str()) {
                Ok(r) => Some(r),
                Err(_) => None,
            },
            None => None,
        };
        let t = Task {
            entry,
            note,
            recurrence,
            flagged: flag.is_some(),
            hidden: hide.is_some(),
            id: 0,
        };
        proof {
            assert(t.entry@ =~= (EntryView { tags: t.entry@.tags, ..base }));
        }
        t
    }

    /// Writes the task as one todo.txt line; `note_tag` is the key of the
    /// note annotation.
    pub fn to_text(&self, note_tag: &str) -> (r: String)
        requires
            self.wf(),
        ensures
            r@ == task_text(*self, note_tag@),
    {
        let mut s = entry_text(&self.entry);
        let tail = self.annotations(note_tag);
        push_str(&mut s, tail.as_str());
        s
    }

    /// The annotations that follow the todo.txt entry in the task's line:
    /// its note reference, repeat rule and flags; `note_tag` is the key of
    /// the note annotation.
    pub fn annotations(&self, note_tag: &str) -> (r: String)
        requires
            self.recurrence.is_some() ==> self.recurrence->0.wf(),
        ensures
            r@ == annotations_text(*self, note_tag@),
    {
        let mut s = String::new();
        let ghost s0 = s@;
        match &self.note {
            Note::Empty => {},
            Note::Short(c) => {
                push_str(&mut s, " ");
                push_str(&mut s, note_tag);
                push_str(&mut s, ":");
                push_str(&mut s, c.as_str());
            },
            Note::Long { filename, .. } => {
                push_str(&mut s, " ");
                push_str(&mut s, note_tag);
                push_str(&mut s, ":");
                push_str(&mut s, filename.as_str());
            },
        }
        let ghost s1 = s@;
        match &self.recurrence {
            None => {},
            Some(rc) => {
                push_str(&mut s, " rec:");
                let t = rc.to_text();
                push_str(&mut s, t.as_str());
            },
        }
        let ghost s2 = s@;
        if self.flagged {
            push_str(&mut s, " f:1");
        }
        let ghost s3 = s@;
        if self.hidden {
            push_str(&mut s, " h:1");
        }
        proof {
            reveal_strlit(" ");
            reveal_strlit(":");
            reveal_strlit(" rec:");
            reveal_strlit(" f:1");
            reveal_strlit(" h:1");
            let t = *self;
            let n = match t.note {
                Note::Empty => Seq::<char>::empty(),
                Note::Short(c) => seq![' '] + note_tag@ + seq![':'] + c@,
                Note::Long { filename, .. } => seq![' '] + note_tag@ + seq![':'] + filename@,
            };
            assert(s1 =~= s0 + n);
            let r = match t.recurrence {
                None => Seq::<char>::empty(),
                Some(rc) => seq![' ', 'r', 'e', 'c', ':'] + rec_text(rc),
            };
            assert(s2 =~= s1 + r);
            let f = if t.flagged { seq![' ', 'f', ':', '1'] } else { Seq::<char>::empty() };
            assert(s3 =~= s2 + f);
            let h = if t.hidden { seq![' ', 'h', ':', '1'] } else { Seq::<char>::empty() };
            assert(s@ =~= s3 + h);
            assert(s@ =~= annotations_text(t, note_tag@));
        }
        s
    }

    /// Marks the task done on `today`, its completion date. A task without
    /// a creation date is given `today` as one too: the todo.txt line reads
    /// a lone date after the done mark as the creation date.
    pub fn complete(&mut self, today: Date)
        ensures
            *final(self) == (Task {
                entry: Entry {
                    finished: true,
                    finish_date: Some(today),
                    create_date: if old(self).entry.create_date.is_some() {
                        old(self).entry.create_date
                    } else {
                        Some(today)
                    },
                    ..old(self).entry
                },
                ..*old(self)
            }),
    {
        self.entry.finished = true;
        self.entry.finish_date = Some(today);
        if self.entry.create_date.is_none() {
            self.entry.create_date = Some(today);
        }
    }

    /// Marks the task not done and clears its completion date.
    pub fn uncomplete(&mut self)
        ensures
            *final(self) == (Task {
                entry: Entry { finished: false, finish_date: None, ..old(self).entry },
                ..*old(self)
            }),
    {
        self.entry.finished = false;
        self.entry.finish_date = None;
    }

    /// Compares two tasks in display order.
    pub fn compare(&self, other: &Task) -> (r: core::cmp::Ordering)
        ensures
            r == task_order(*self, *other),
    {
        let d = match (&self.entry.due_date, &other.entry.due_date) {
            (None, None) => core::cmp::Ordering::Equal,
            (None, Some(_)) => core::cmp::Ordering::Greater,
            (Some(_), None) => core::cmp::Ordering::Less,
            (Some(x), Some(y)) => if x.year == y.year && x.month == y.month && x.day == y.day {
                core::cmp::Ordering::Equal
            } else if x.before(y) {
                core::cmp::Ordering::Less
            } else {
                core::cmp::Ordering::Greater
            },
        };
        match d {
            core::cmp::Ordering::Equal => {},
            _ => return d,
        }
        if self.entry.priority < other.entry.priority {
            core::cmp::Ordering::Less
        } else if self.entry.priority > other.entry.priority {
            core::cmp::Ordering::Greater
        } else {
            compare_text(self.entry.subject.as_str(), other.entry.subject.as_str())
        }
    }
}

} // verus!

verus! {

/// A copy of a list of strings.
pub fn copy_strings(v: &Vec<String>) -> (r: Vec<String>)
    ensures
        r@ == v@,
{
    let mut r: Vec<String> = Vec::new();
    let mut i: usize = 0;
    while i < v.len()
        invariant
            0 <= i <= v.len(),
            r@ == v@.subrange(0, i as int),
        decreases v.len() - i,
    {
        r.push(v[i].clone());
        i = i + 1;
        proof {
            assert(r@ =~= v@.subrange(0, i as int));
        }
    }
    proof {
        assert(v@.subrange(0, v.len() as int) =~= v@);
    }
    r
}

/// A copy of a list of annotations.
pub fn copy_tags(v: &Vec<(String, String)>) -> (r: Vec<(String, String)>)
    ensures
        r@ == v@,
{
    let mut r: Vec<(String, String)> = Vec::new();
    let mut i: usize = 0;
    while i < v.len()
        invariant
            0 <= i <= v.len(),
            r@ == v@.subrange(0, i as int),
        decreases v.len() - i,
    {
        r.push((v[i].0.clone(), v[i].1.clone()));
        i = i + 1;
        proof {
            assert(r@ =~= v@.subrange(0, i as int));
        }
    }
    proof {
        assert(v@.subrange(0, v.len() as int) =~= v@);
    }
    r
}

impl Entry {
    /// A copy of the entry.
    pub fn duplicate(&self) -> (r: Entry)
        ensures
            r@ == self@,
            r.wf() == self.wf(),
    {
        Entry {
            subject: self.subject.clone(),
            priority: self.priority,
            create_date: self.create_date,
            finish_date: self.finish_date,
            finished: self.finished,
            threshold_date: self.threshold_date,
            due_date: self.due_date,
            contexts: copy_strings(&self.contexts),
            projects: copy_strings(&self.projects),
            hashtags: copy_strings(&self.hashtags),
            tags: copy_tags(&self.tags),
        }
    }
}

impl Note {
    /// A copy of the note.
    pub fn duplicate(&self) -> (r: Note)
        ensures
            r == *self,
    {
        match self {
            Note::Empty => Note::Empty,
            Note::Short(c) => Note::Short(c.clone()),
            Note::Long { filename, content } => Note::Long {
                filename: filename.clone(),
                content: content.clone(),
            },
        }
    }
}

/// Two tasks that hold the same values.
pub open spec fn same_task(a: Task, b: Task) -> bool {
    &&& a.entry@ == b.entry@
    &&& a.note == b.note
    &&& a.recurrence == b.recurrence
    &&& a.flagged == b.flagged
    &&& a.hidden == b.hidden
    &&& a.id == b.id
}

impl Task {
    /// A copy of the task.
    pub fn duplicate(&self) -> (r: Task)
        ensures
            same_task(r, *self),
            r.wf() == self.wf(),
    {
        Task {
            entry: self.entry.duplicate(),
            note: self.note.duplicate(),
            recurrence: self.recurrence,
            flagged: self.flagged,
            hidden: self.hidden,
            id: self.id,
        }
    }
}

} // verus!

verus! {

impl Task {
    /// A task with an empty subject, no priority, no dates, no tokens and no
    /// note.
    pub fn new() -> (r: Task)
        ensures
            r.entry.subject@.len() == 0,
            r.entry.priority == 26,
            r.entry.create_date.is_none() && r.entry.finish_date.is_none(),
            r.entry.due_date.is_none() && r.entry.threshold_date.is_none(),
            !r.entry.finished,
            r.entry.contexts@.len() == 0 && r.entry.projects@.len() == 0,
            r.entry.hashtags@.len() == 0 && r.entry.tags@.len() == 0,
            r.note == Note::Empty,
            r.recurrence.is_none(),
            !r.flagged && !r.hidden,
            r.id == 0,
            r.wf(),
    {
        Task {
            entry: Entry {
                subject: String::new(),
                priority: 26,
                create_date: None,
                finish_date: None,
                finished: false,
                threshold_date: None,
                due_date: None,
                contexts: Vec::new(),
                projects: Vec::new(),
                hashtags: Vec::new(),
                tags: Vec::new(),
            },
            note: Note::Empty,
            recurrence: None,
            flagged: false,
            hidden: false,
            id: 0,
        }
    }
}

} // verus!

verus! {

/// Which date of a task an edit sets.
#[derive(Clone, Copy, Debug, PartialEq, Eq, Structural)]
pub enum DateType {
    Due,
    Threshold,
    Finish,
}

impl Task {
    /// Sets or clears one date of the task. Setting the completion date
    /// marks the task done; clearing it marks the task not done.
    pub fn update_date(&mut self, date_type: DateType, date: Option<Date>)
        ensures
            *final(self) == (match date_type {
                DateType::Due => Task { entry: Entry { due_date: date, ..old(self).entry }, ..*old(self) },
                DateType::Threshold => Task {
                    entry: Entry { threshold_date: date, ..old(self).entry },
                    ..*old(self)
                },
                DateType::Finish => Task {
                    entry: Entry { finish_date: date, finished: date.is_some(), ..old(self).entry },
                    ..*old(self)
                },
            }),
    {
        match date_type {
            DateType::Due => self.entry.due_date = date,
            DateType::Threshold => self.entry.threshold_date = date,
            DateType::Finish => {
                self.entry.finish_date = date;
                self.entry.finished = date.is_some();
            },
        }
    }
}

} // verus!

verus! {

/// Annotations seen as pairs of character sequences.
pub type Pairs = Seq<(Seq<char>, Seq<char>)>;

/// No annotation of `t` has key `k`.
pub open spec fn lacks_key(t: Pairs, k: Seq<char>) -> bool {
    forall|i: int| 0 <= i < t.len() ==> (#[trigger] t[i]).0 != k
}

proof fn lemma_first_value_concat(a: Pairs, b: Pairs, k: Seq<char>)
    ensures
        first_value(a + b, k) == (if first_value(a, k).is_some() {
            first_value(a, k)
        } else {
            first_value(b, k)
        }),
    decreases b.len(),
{
    if b.len() == 0 {
        assert(a + b =~= a);
    } else {
        lemma_first_value_concat(a, b.drop_last(), k);
        assert((a + b).drop_last() =~= a + b.drop_last());
    }
}

proof fn lemma_drop_key_concat(a: Pairs, b: Pairs, k: Seq<char>)
    ensures
        drop_key(a + b, k) == drop_key(a, k) + drop_key(b, k),
    decreases b.len(),
{
    if b.len() == 0 {
        assert(a + b =~= a);
        assert(drop_key(a, k) + drop_key(b, k) =~= drop_key(a, k));
    } else {
        lemma_drop_key_concat(a, b.drop_last(), k);
        assert((a + b).drop_last() =~= a + b.drop_last());
        assert(drop_key(a, k) + drop_key(b.drop_last(), k).push(b.last()) =~= (drop_key(a, k)
            + drop_key(b.drop_last(), k)).push(b.last()));
    }
}

proof fn lemma_lacks_key(a: Pairs, k: Seq<char>)
    requires
        lacks_key(a, k),
    ensures
        first_value(a, k).is_none(),
        drop_key(a, k) == a,
    decreases a.len(),
{
    if a.len() > 0 {
        lemma_lacks_key(a.drop_last(), k);
        assert(a.drop_last().push(a.last()) =~= a);
    }
}

proof fn lemma_single(p: (Seq<char>, Seq<char>), k: Seq<char>)
    ensures
        first_value(seq![p], k) == (if p.0 == k { Some(p.1) } else { None }),
        drop_key(seq![p], k) == (if p.0 == k { Seq::empty() } else { seq![p] }),
{
    let e = Seq::<(Seq<char>, Seq<char>)>::empty();
    assert(seq![p].drop_last() =~= e);
    assert(first_value(e, k).is_none());
    assert(drop_key(e, k) == e);
    assert(seq![p].last() == p);
    assert(e.push(p) =~= seq![p]);
}

/// Of a sequence of at most one annotation.
pub open spec fn opt_pair(present: bool, k: Seq<char>, v: Seq<char>) -> Pairs {
    if present { seq![(k, v)] } else { Seq::empty() }
}

proof fn lemma_opt_pair(present: bool, k: Seq<char>, v: Seq<char>, key: Seq<char>)
    ensures
        first_value(opt_pair(present, k, v), key) == (if present && k == key { Some(v) } else { None }),
        drop_key(opt_pair(present, k, v), key) == (if k == key { Seq::empty() } else { opt_pair(present, k, v) }),
{
    if present {
        lemma_single((k, v), key);
    }
}

/// The annotations that a task's line carries besides its entry's own, as
/// the todo.txt grammar reads them back: its note reference under `tag`,
/// its repeat rule, its flag and its hiding.
pub open spec fn annotation_pairs(t: Task, tag: Seq<char>) -> Pairs {
    let n = match t.note {
        Note::Short(c) => opt_pair(true, tag, c@),
        _ => Seq::empty(),
    };
    n + opt_pair(t.recurrence.is_some(), key_rec(), rec_text(t.recurrence->0))
        + opt_pair(t.flagged, key_flag(), seq!['1'])
        + opt_pair(t.hidden, key_hidden(), seq!['1'])
}

/// Reading back the annotations that a task writes gives the task back: an
/// entry whose own annotations use none of the four keys, extended with
/// the task's annotations, makes the same task again. This covers an empty
/// note and an inline one; a saved note reads back as its file name.
pub proof fn lemma_annotations_round_trip(t: Task, tag: Seq<char>, r: Task)
    requires
        t.wf(),
        t.note is Empty || (t.note is Short && t.note->Short_0@.len() > 0),
        tag != key_rec() && tag != key_flag() && tag != key_hidden(),
        lacks_key(t.entry@.tags, tag),
        lacks_key(t.entry@.tags, key_rec()),
        lacks_key(t.entry@.tags, key_flag()),
        lacks_key(t.entry@.tags, key_hidden()),
        extended_from(r, (EntryView { tags: t.entry@.tags + annotation_pairs(t, tag), ..t.entry@ }), tag),
    ensures
        r.entry@ == t.entry@,
        r.note is Empty <==> t.note is Empty,
        t.note is Short ==> r.note is Short && r.note->Short_0@ == t.note->Short_0@,
        r.recurrence == t.recurrence,
        r.flagged == t.flagged,
        r.hidden == t.hidden,
{
    let own = t.entry@.tags;
    let n = match t.note {
        Note::Short(c) => opt_pair(true, tag, c@),
        _ => Seq::<(Seq<char>, Seq<char>)>::empty(),
    };
    let rc = opt_pair(t.recurrence.is_some(), key_rec(), rec_text(t.recurrence->0));
    let f = opt_pair(t.flagged, key_flag(), seq!['1']);
    let h = opt_pair(t.hidden, key_hidden(), seq!['1']);
    assert(key_rec() != key_flag() && key_rec() != key_hidden() && key_flag() != key_hidden()) by {
        assert(key_rec().len() != key_flag().len());
        assert(key_rec().len() != key_hidden().len());
        assert(key_flag()[0] != key_hidden()[0]);
    }
    let t0 = own + (n + rc + f + h);
    assert(t0 =~= own + annotation_pairs(t, tag));
    assert(n + rc + f + h =~= n + (rc + (f + h)));
    lemma_lacks_key(own, tag);
    lemma_lacks_key(own, key_rec());
    lemma_lacks_key(own, key_flag());
    lemma_lacks_key(own, key_hidden());
    // note
    lemma_first_value_concat(own, n + (rc + (f + h)), tag);
    lemma_first_value_concat(n, rc + (f + h), tag);
    lemma_opt_pair(true, tag, t.note->Short_0@, tag);
    lemma_drop_key_concat(own, n + (rc + (f + h)), tag);
    lemma_drop_key_concat(n, rc + (f + h), tag);
    lemma_drop_key_concat(rc, f + h, tag);
    lemma_drop_key_concat(f, h, tag);
    lemma_opt_pair(t.recurrence.is_some(), key_rec(), rec_text(t.recurrence->0), tag);
    lemma_opt_pair(t.flagged, key_flag(), seq!['1'], tag);
    lemma_opt_pair(t.hidden, key_hidden(), seq!['1'], tag);
    lemma_first_value_concat(rc, f + h, tag);
    lemma_first_value_concat(f, h, tag);
    let t1 = own + (rc + (f + h));
    assert(drop_key(t0, tag) =~= t1);
    // repeat rule
    lemma_first_value_concat(own, rc + (f + h), key_rec());
    lemma_first_value_concat(rc, f + h, key_rec());
    lemma_first_value_concat(f, h, key_rec());
    lemma_opt_pair(t.recurrence.is_some(), key_rec(), rec_text(t.recurrence->0), key_rec());
    lemma_drop_key_concat(own, rc + (f + h), key_rec());
    lemma_drop_key_concat(rc, f + h, key_rec());
    lemma_drop_key_concat(f, h, key_rec());
    lemma_opt_pair(t.flagged, key_flag(), seq!['1'], key_rec());
    lemma_opt_pair(t.hidden, key_hidden(), seq!['1'], key_rec());
    let t2 = own + (f + h);
    assert(drop_key(t1, key_rec()) =~= t2);
    if t.recurrence.is_some() {
        crate::recurrence::lemma_rec_round_trip(t.recurrence->0);
    }
    // flag
    lemma_first_value_concat(own, f + h, key_flag());
    lemma_first_value_concat(f, h, key_flag());
    lemma_opt_pair(t.flagged, key_flag(), seq!['1'], key_flag());
    lemma_opt_pair(t.hidden, key_hidden(), seq!['1'], key_flag());
    lemma_drop_key_concat(own, f + h, key_flag());
    lemma_drop_key_concat(f, h, key_flag());
    let t3 = own + h;
    assert(drop_key(t2, key_flag()) =~= t3);
    // hiding
    lemma_first_value_concat(own, h, key_hidden());
    lemma_opt_pair(t.hidden, key_hidden(), seq!['1'], key_hidden());
    lemma_drop_key_concat(own, h, key_hidden());
    assert(drop_key(t3, key_hidden()) =~= own);
    assert(r.entry@ =~= t.entry@);
}

} // verus!
