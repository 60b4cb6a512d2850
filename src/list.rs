use vstd::prelude::*;
use crate::date::Date;
use crate::period::{stays_in_range, steps};
use crate::task::{Entry, EntryView};
use crate::task::{
    long_date_offset, parsed_as, task_text, ParseError, Task,
};
use crate::text::{blank, push_str, strings_view};

verus! {

/// The lines that make tasks, in order: those neither blank nor refused.
pub open spec fn accepted(lines: Seq<Seq<char>>) -> Seq<Seq<char>>
    decreases lines.len(),
{
    if lines.len() == 0 {
        lines
    } else {
        let r = accepted(lines.drop_last());
        let l = lines.last();
        if !blank(l) && !long_date_offset(l) {
            r.push(l)
        } else {
            r
        }
    }
}

/// `t` is the task read from `line`, numbered `id`.
pub open spec fn loaded_from(t: Task, line: Seq<char>, tag: Seq<char>, id: int) -> bool {
    &&& parsed_as((Task { id: 0, ..t }), line, tag)
    &&& t.id == id
    &&& t.wf()
}

/// The tasks of a todo.txt file and of its done file, with the paths of both.
#[derive(Clone, Debug)]
pub struct List {
    pub tasks: Vec<Task>,
    pub todo: String,
    pub done: String,
}

impl List {
    /// Every task is well formed and carries its position as its id.
    pub open spec fn wf(&self) -> bool {
        forall|i: int|
            0 <= i < self.tasks@.len() ==> (#[trigger] self.tasks@[i]).id == i
                && self.tasks@[i].wf()
    }

    /// An empty list with no files.
    pub fn new() -> (r: List)
        ensures
            r.tasks@.len() == 0,
            r.todo@.len() == 0,
            r.done@.len() == 0,
            r.wf(),
    {
        List { tasks: Vec::new(), todo: String::new(), done: String::new() }
    }

    /// The list loaded from a todo file and a done file, given the lines of
    /// each. Blank lines and lines that make no task are skipped; the tasks
    /// of the todo file come first, and each task's id is its position.
    pub fn from_files(
        todo: &str,
        todo_lines: &Vec<String>,
        done: &str,
        done_lines: &Vec<String>,
        note_tag: &str,
    ) -> (r: List)
        ensures
            r.wf(),
            r.todo@ == todo@,
            r.done@ == done@,
            ({
                let a = accepted(strings_view(todo_lines@));
                let b = accepted(strings_view(done_lines@));
                &&& r.tasks@.len() == a.len() + b.len()
                &&& forall|i: int|
                    0 <= i < a.len() ==> loaded_from(#[trigger] r.tasks@[i], a[i], note_tag@, i)
                &&& forall|i: int|
                    a.len() <= i < a.len() + b.len() ==> loaded_from(
                        #[trigger] r.tasks@[i],
                        b[i - a.len()],
                        note_tag@,
                        i,
                    )
            }),
    {
        let mut list = List { tasks: Vec::new(), todo: todo.to_owned(), done: done.to_owned() };
        list.load_lines(todo_lines, note_tag);
        list.load_lines(done_lines, note_tag);
        list
    }

    fn load_lines(&mut self, lines: &Vec<String>, note_tag: &str)
        requires
            old(self).wf(),
        ensures
            final(self).wf(),
            final(self).todo == old(self).todo,
            final(self).done == old(self).done,
            ({
                let a = accepted(strings_view(lines@));
                let n = old(self).tasks@.len();
                &&& final(self).tasks@.len() == n + a.len()
                &&& forall|i: int| 0 <= i < n ==> #[trigger] final(self).tasks@[i] == old(self).tasks@[i]
                &&& forall|i: int|
                    n <= i < n + a.len() ==> loaded_from(
                        #[trigger] final(self).tasks@[i],
                        a[i - n],
                        note_tag@,
                        i,
                    )
            }),
    {
        let ghost v = strings_view(lines@);
        let ghost n = self.tasks@.len();
        let ghost start = self.tasks@;
        let mut i: usize = 0;
        while i < lines.len()
            invariant
                0 <= i <= lines.len(),
                v == strings_view(lines@),
                n == start.len(),
                self.wf(),
                self.todo == old(self).todo,
                self.done == old(self).done,
                start == old(self).tasks@,
                self.tasks@.len() == n + accepted(v.subrange(0, i as int)).len(),
                forall|j: int| 0 <= j < n ==> #[trigger] self.tasks@[j] == start[j],
                forall|j: int|
                    n <= j < self.tasks@.len() ==> loaded_from(
                        #[trigger] self.tasks@[j],
                        accepted(v.subrange(0, i as int))[j - n],
                        note_tag@,
                        j,
                    ),
            decreases lines.len() - i,
        {
            let ghost pre = v.subrange(0, i as int);
            proof {
                assert(v.subrange(0, i + 1).drop_last() =~= pre);
                assert(v.subrange(0, i + 1).last() == lines@[i as int]@);
            }
            match Task::parse(lines[i].as_str(), note_tag) {
                Ok(t) => {
                    let mut t = t;
                    t.id = self.tasks.len();
                    self.tasks.push(t);
                },
                Err(_) => {},
            }
            i = i + 1;
        }
        proof {
            assert(v.subrange(0, lines.len() as int) =~= v);
        }
    }

    /// Adds a task at the end, numbered by its position.
    pub fn append(&mut self, task: Task)
        requires
            old(self).wf(),
            task.wf(),
        ensures
            final(self).wf(),
            final(self).tasks@ == old(self).tasks@.push(Task { id: old(self).tasks@.len() as usize, ..task }),
            final(self).todo == old(self).todo,
            final(self).done == old(self).done,
    {
        let mut task = task;
        task.id = self.tasks.len();
        self.tasks.push(task);
    }

    /// Adds the task that `text` reads as, created `today`. The list is
    /// unchanged where the text makes no task.
    pub fn add(&mut self, text: &str, today: Date, note_tag: &str) -> (r: Result<(), ParseError>)
        requires
            old(self).wf(),
            today.wf(),
        ensures
            final(self).wf(),
            final(self).todo == old(self).todo,
            final(self).done == old(self).done,
            blank(text@) ==> r == Err::<(), ParseError>(ParseError::Empty),
            !blank(text@) && long_date_offset(text@) ==> r == Err::<(), ParseError>(
                ParseError::DateOutOfRange,
            ),
            r is Err ==> final(self).tasks@ == old(self).tasks@,
            !blank(text@) && !long_date_offset(text@) ==> r is Ok,
            r is Ok ==> exists|p: Task|
                parsed_as(p, text@, note_tag@) && final(self).tasks@ == old(self).tasks@.push(
                    Task {
                        entry: crate::task::Entry { create_date: Some(today), ..p.entry },
                        id: old(self).tasks@.len() as usize,
                        ..p
                    },
                ),
    {
        match Task::parse(text, note_tag) {
            Ok(t) => {
                let ghost p = t;
                let mut t = t;
                t.entry.create_date = Some(today);
                self.append(t);
                proof {
                    assert(parsed_as(p, text@, note_tag@));
                }
                Ok(())
            },
            Err(e) => Err(e),
        }
    }
}

/// The date a repeat rule counts from: the task's due date for a strict
/// rule where there is one, else the day of completion.
pub open spec fn rec_base(t: Task, today: Date) -> Date {
    if t.recurrence->0.strict && t.entry.due_date.is_some() {
        t.entry.due_date->0
    } else {
        today
    }
}

/// Rescheduling keeps both dates within the calendar: every step of the
/// repeat rule, from the base date and from the threshold date, stays in
/// range.
pub open spec fn follow_up_fits(t: Task, today: Date) -> bool {
    let rc = t.recurrence->0;
    &&& stays_in_range(rc.period, rc.num as nat, rec_base(t, today))
    &&& t.entry.threshold_date.is_some() ==> stays_in_range(
        rc.period,
        rc.num as nat,
        t.entry.threshold_date->0,
    )
}

/// `n` is the next occurrence of the repeating task `t`, completed on
/// `today`: open, created `today`, due one repeat after the base date, its
/// threshold moved by one repeat, all else kept.
pub open spec fn follow_up_of(n: Task, t: Task, today: Date) -> bool {
    let rc = t.recurrence->0;
    let due = steps(rc.period, rc.num as nat, rec_base(t, today));
    let threshold = match t.entry.threshold_date {
        None => None,
        Some(d) => Some(steps(rc.period, rc.num as nat, d)),
    };
    &&& n.entry@ == (EntryView {
        finished: false,
        finish_date: None,
        create_date: Some(today),
        due_date: Some(due),
        threshold_date: threshold,
        ..t.entry@
    })
    &&& n.note == t.note
    &&& n.recurrence == t.recurrence
    &&& n.flagged == t.flagged
    &&& n.hidden == t.hidden
}

/// The text of a file holding the tasks whose done mark is `finished`, one
/// line each.
pub open spec fn file_lines(tasks: Seq<Task>, finished: bool, tag: Seq<char>) -> Seq<char>
    decreases tasks.len(),
{
    if tasks.len() == 0 {
        Seq::empty()
    } else {
        let r = file_lines(tasks.drop_last(), finished, tag);
        let t = tasks.last();
        if t.entry.finished == finished {
            r + task_text(t, tag) + seq!['\n']
        } else {
            r
        }
    }
}

impl List {
    /// Toggles the done mark of task `id`; nothing happens where there is no
    /// such task. Completing a repeating task appends its next occurrence
    /// (see `follow_up_of`), where its dates stay within the calendar's
    /// years. Marking a task not done removes no occurrence.
    pub fn complete(&mut self, id: usize, today: Date)
        requires
            old(self).wf(),
            today.wf(),
        ensures
            final(self).wf(),
            final(self).todo == old(self).todo,
            final(self).done == old(self).done,
            id >= old(self).tasks@.len() ==> final(self).tasks@ == old(self).tasks@,
            id < old(self).tasks@.len() ==> ({
                let t = old(self).tasks@[id as int];
                let n = old(self).tasks@.len();
                let was_done = t.entry.finished;
                let repeats = !was_done && t.recurrence.is_some() && follow_up_fits(t, today);
                &&& final(self).tasks@[id as int] == (Task {
                    entry: Entry {
                        finished: !was_done,
                        finish_date: if was_done { None } else { Some(today) },
                        create_date: if was_done || t.entry.create_date.is_some() {
                            t.entry.create_date
                        } else {
                            Some(today)
                        },
                        ..t.entry
                    },
                    ..t
                })
                &&& forall|j: int|
                    0 <= j < n && j != id ==> #[trigger] final(self).tasks@[j] == old(self).tasks@[j]
                &&& final(self).tasks@.len() == if repeats { n + 1 } else { n }
                &&& repeats ==> follow_up_of(final(self).tasks@[n as int], t, today)
            }),
    {
        if id >= self.tasks.len() {
            return;
        }
        let ghost before = self.tasks@;
        let mut t = self.tasks.remove(id);
        let ghost orig = t;
        let was_done = t.entry.finished;
        if was_done {
            t.uncomplete();
        } else {
            t.complete(today);
        }
        let mut next: Option<Task> = None;
        if !was_done {
            match t.recurrence {
                Some(rc) => {
                    let base = match t.entry.due_date {
                        Some(d) => if rc.strict { d } else { today },
                        None => today,
                    };
                    let due = rc.checked_add(base);
                    let threshold = match t.entry.threshold_date {
                        Some(d) => match rc.checked_add(d) {
                            Some(moved) => Some(Some(moved)),
                            None => None,
                        },
                        None => Some(None),
                    };
                    if due.is_some() && threshold.is_some() {
                        let mut n = t.duplicate();
                        n.uncomplete();
                        n.entry.create_date = Some(today);
                        n.entry.due_date = due;
                        n.entry.threshold_date = threshold.unwrap();
                        proof {
                            assert(n.entry@ =~= (EntryView {
                                finished: false,
                                finish_date: None,
                                create_date: Some(today),
                                due_date: n.entry.due_date,
                                threshold_date: n.entry.threshold_date,
                                ..orig.entry@
                            }));
                        }
                        next = Some(n);
                    }
                },
                None => {},
            }
        }
        self.tasks.insert(id, t);
        proof {
            assert(self.tasks@ =~= before.update(id as int, t));
        }
        match next {
            Some(n) => self.append(n),
            None => {},
        }
    }
}

impl List {
    /// The text of the todo file (`finished` false) or of the done file
    /// (`finished` true): one line for each task that belongs there, in list
    /// order. A task goes to a file by its done mark, not by where it was
    /// read from.
    pub fn file_text(&self, finished: bool, note_tag: &str) -> (r: String)
        requires
            self.wf(),
        ensures
            r@ == file_lines(self.tasks@, finished, note_tag@),
    {
        let mut s = String::new();
        let mut i: usize = 0;
        while i < self.tasks.len()
            invariant
                0 <= i <= self.tasks.len(),
                self.wf(),
                s@ == file_lines(self.tasks@.subrange(0, i as int), finished, note_tag@),
            decreases self.tasks.len() - i,
        {
            proof {
                assert(self.tasks@.subrange(0, i + 1).drop_last() =~= self.tasks@.subrange(0, i as int));
                assert(self.tasks@[i as int].wf());
            }
            let t = &self.tasks[i];
            if t.entry.finished == finished {
                let line = t.to_text(note_tag);
                let ghost s0 = s@;
                push_str(&mut s, line.as_str());
                push_str(&mut s, "\n");
                proof {
                    reveal_strlit("\n");
                    assert(s@ =~= s0 + task_text(*t, note_tag@) + seq!['\n']);
                }
            }
            i = i + 1;
        }
        proof {
            assert(self.tasks@.subrange(0, self.tasks@.len() as int) =~= self.tasks@);
        }
        s
    }
}

impl List {
    /// Puts an edited task in the place its id names; nothing happens where
    /// there is no such place.
    pub fn edit(&mut self, task: Task)
        requires
            old(self).wf(),
            task.wf(),
        ensures
            final(self).wf(),
            final(self).todo == old(self).todo,
            final(self).done == old(self).done,
            task.id < old(self).tasks@.len() ==> final(self).tasks@ == old(self).tasks@.update(
                task.id as int,
                task,
            ),
            task.id >= old(self).tasks@.len() ==> final(self).tasks@ == old(self).tasks@,
    {
        if task.id < self.tasks.len() {
            let id = task.id;
            self.tasks.set(id, task);
        }
    }
}

/// Adding an open task adds exactly its line to the todo file's text and
/// leaves the done file's text as it was.
pub proof fn lemma_added_task_line(tasks: Seq<Task>, t: Task, tag: Seq<char>)
    requires
        !t.entry.finished,
    ensures
        file_lines(tasks.push(t), false, tag) == file_lines(tasks, false, tag) + task_text(t, tag)
            + seq!['\n'],
        file_lines(tasks.push(t), true, tag) == file_lines(tasks, true, tag),
{
    assert(tasks.push(t).drop_last() =~= tasks);
}

} // verus!
