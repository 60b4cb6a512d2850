use vstd::prelude::*;
use crate::date::{Date, date_lt, MAX_YEAR};
use crate::list::List;
use crate::period::{steps, Period};
use crate::recurrence::Recurrence;
use crate::task::{same_task, Task};
use crate::text::{
    chars_of, contains_text, insert_sorted, lex_cmp, lower_of, lowercase, occurs_in,
    strictly_sorted, strings_view,
};

verus! {

/// Which tokens of a task group it: its `+projects` or its `@contexts`.
#[derive(Clone, Copy, Debug, PartialEq, Eq, Structural)]
pub enum Type {
    Projects,
    Contexts,
}

/// Display preferences: whether to show tasks deferred by a future
/// threshold date, and whether to show tasks that are done.
#[derive(Clone, Copy, Debug, PartialEq, Eq, Structural)]
pub struct Preferences {
    pub defered: bool,
    pub done: bool,
}

impl Preferences {
    /// Neither deferred nor done tasks are shown.
    pub fn new() -> (r: Preferences)
        ensures
            !r.defered && !r.done,
    {
        Preferences { defered: false, done: false }
    }
}

/// The task's tokens of the given kind.
pub open spec fn tags_of(t: Task, kind: Type) -> Seq<Seq<char>> {
    match kind {
        Type::Projects => strings_view(t.entry.projects@),
        Type::Contexts => strings_view(t.entry.contexts@),
    }
}

/// Not done, and not deferred past `today`.
pub open spec fn actionable(t: Task, today: Date) -> bool {
    !t.entry.finished && (t.entry.threshold_date.is_none() || !date_lt(
        today,
        t.entry.threshold_date->0,
    ))
}

/// Not deferred past `today`.
pub open spec fn started(t: Task, today: Date) -> bool {
    t.entry.threshold_date.is_none() || !date_lt(today, t.entry.threshold_date->0)
}

/// Some actionable task among the first `n` carries the token `x`.
pub open spec fn has_tag_in(tasks: Seq<Task>, kind: Type, today: Date, n: int, x: Seq<char>) -> bool {
    exists|i: int, k: int|
        0 <= i < n && actionable(tasks[i], today) && 0 <= k < tags_of(tasks[i], kind).len()
            && #[trigger] tags_of(tasks[i], kind)[k] == x
}

/// `tag` is `cur` or lies below it: `cur/...`.
pub open spec fn under(tag: Seq<char>, cur: Seq<char>) -> bool {
    tag == cur || (cur.len() < tag.len() && tag[cur.len() as int] == '/' && tag.subrange(
        0,
        cur.len() as int,
    ) == cur)
}

/// The task carries `cur` or a token below it.
pub open spec fn counts_for(t: Task, kind: Type, cur: Seq<char>) -> bool {
    exists|k: int| 0 <= k < tags_of(t, kind).len() && under(#[trigger] tags_of(t, kind)[k], cur)
}

/// Done and total number of tasks that count for `cur`.
pub open spec fn progress_of(tasks: Seq<Task>, kind: Type, cur: Seq<char>) -> (nat, nat)
    decreases tasks.len(),
{
    if tasks.len() == 0 {
        (0, 0)
    } else {
        let p = progress_of(tasks.drop_last(), kind, cur);
        let t = tasks.last();
        if counts_for(t, kind, cur) {
            (if t.entry.finished { p.0 + 1 } else { p.0 }, p.1 + 1)
        } else {
            p
        }
    }
}

/// No more tasks are done than count, and no more count than there are.
pub proof fn lemma_progress_bounds(tasks: Seq<Task>, kind: Type, cur: Seq<char>)
    ensures
        progress_of(tasks, kind, cur).0 <= progress_of(tasks, kind, cur).1 <= tasks.len(),
    decreases tasks.len(),
{
    if tasks.len() > 0 {
        lemma_progress_bounds(tasks.drop_last(), kind, cur);
    }
}

/// Whether `tag` is `cur` or lies below it.
pub fn is_under(tag: &str, cur: &str) -> (r: bool)
    ensures
        r == under(tag@, cur@),
{
    let t = chars_of(tag);
    let c = chars_of(cur);
    if c.len() > t.len() {
        return false;
    }
    let mut i: usize = 0;
    while i < c.len()
        invariant
            t@ == tag@,
            c@ == cur@,
            c.len() <= t.len(),
            0 <= i <= c.len(),
            forall|j: int| 0 <= j < i ==> t@[j] == c@[j],
        decreases c.len() - i,
    {
        if t[i] != c[i] {
            proof {
                assert(t@.subrange(0, c.len() as int)[i as int] != c@[i as int]);
                assert(t@ != c@);
            }
            return false;
        }
        i = i + 1;
    }
    if c.len() == t.len() {
        proof {
            assert(t@ =~= c@);
        }
        true
    } else {
        proof {
            assert(t@.subrange(0, c.len() as int) =~= c@);
        }
        t[c.len()] == '/'
    }
}

impl Task {
    /// The task's `+projects` or `@contexts`.
    pub fn tags(&self, kind: Type) -> (r: &Vec<String>)
        ensures
            strings_view(r@) == tags_of(*self, kind),
    {
        match kind {
            Type::Projects => &self.entry.projects,
            Type::Contexts => &self.entry.contexts,
        }
    }

    /// Not deferred past `today`.
    pub fn is_started(&self, today: &Date) -> (r: bool)
        ensures
            r == started(*self, *today),
    {
        match &self.entry.threshold_date {
            None => true,
            Some(t) => !today.before(t),
        }
    }

    /// Not done, and not deferred past `today`.
    pub fn is_actionable(&self, today: &Date) -> (r: bool)
        ensures
            r == actionable(*self, *today),
    {
        !self.entry.finished && self.is_started(today)
    }

    /// Whether the task carries `cur` or a token below it.
    pub fn counts_for(&self, kind: Type, cur: &str) -> (r: bool)
        ensures
            r == counts_for(*self, kind, cur@),
    {
        let tags = self.tags(kind);
        let mut k: usize = 0;
        while k < tags.len()
            invariant
                strings_view(tags@) == tags_of(*self, kind),
                0 <= k <= tags.len(),
                forall|j: int| 0 <= j < k ==> !under(#[trigger] tags_of(*self, kind)[j], cur@),
            decreases tags.len() - k,
        {
            if is_under(tags[k].as_str(), cur) {
                proof {
                    assert(tags_of(*self, kind)[k as int] == tags@[k as int]@);
                }
                return true;
            }
            k = k + 1;
        }
        false
    }
}

impl List {
    /// The distinct tokens of the given kind carried by tasks that are
    /// neither done nor deferred past `today`, in lexicographic order.
    pub fn tags(&self, kind: Type, today: Date) -> (r: Vec<String>)
        ensures
            strictly_sorted(strings_view(r@)),
            forall|x: Seq<char>|
                #[trigger] strings_view(r@).contains(x) <==> has_tag_in(
                    self.tasks@,
                    kind,
                    today,
                    self.tasks@.len() as int,
                    x,
                ),
    {
        let mut r: Vec<String> = Vec::new();
        let mut i: usize = 0;
        while i < self.tasks.len()
            invariant
                0 <= i <= self.tasks.len(),
                strictly_sorted(strings_view(r@)),
                forall|x: Seq<char>|
                    #[trigger] strings_view(r@).contains(x) <==> has_tag_in(
                        self.tasks@,
                        kind,
                        today,
                        i as int,
                        x,
                    ),
            decreases self.tasks.len() - i,
        {
            let t = &self.tasks[i];
            if t.is_actionable(&today) {
                let tags = t.tags(kind);
                let mut k: usize = 0;
                while k < tags.len()
                    invariant
                        0 <= i < self.tasks.len(),
                        *t == self.tasks@[i as int],
                        actionable(*t, today),
                        strings_view(tags@) == tags_of(*t, kind),
                        0 <= k <= tags.len(),
                        strictly_sorted(strings_view(r@)),
                        forall|x: Seq<char>|
                            #[trigger] strings_view(r@).contains(x) <==> (has_tag_in(
                                self.tasks@,
                                kind,
                                today,
                                i as int,
                                x,
                            ) || exists|j: int| 0 <= j < k && tags_of(*t, kind)[j] == x),
                    decreases tags.len() - k,
                {
                    insert_sorted(&mut r, &tags[k]);
                    proof {
                        assert(tags_of(*t, kind)[k as int] == tags@[k as int]@);
                        assert forall|x: Seq<char>| #[trigger]
                            strings_view(r@).contains(x) <==> (has_tag_in(
                                self.tasks@,
                                kind,
                                today,
                                i as int,
                                x,
                            ) || exists|j: int| 0 <= j < k + 1 && tags_of(*t, kind)[j] == x) by {
                            if exists|j: int| 0 <= j < k + 1 && tags_of(*t, kind)[j] == x {
                                let j = choose|j: int| 0 <= j < k + 1 && tags_of(*t, kind)[j] == x;
                                if j < k {
                                }
                            }
                        }
                    }
                    k = k + 1;
                }
                proof {
                    assert forall|x: Seq<char>| #[trigger]
                        strings_view(r@).contains(x) <==> has_tag_in(
                            self.tasks@,
                            kind,
                            today,
                            i + 1,
                            x,
                        ) by {
                        if has_tag_in(self.tasks@, kind, today, i + 1, x) {
                            let (a, b) = choose|a: int, b: int|
                                0 <= a < i + 1 && actionable(self.tasks@[a], today) && 0 <= b
                                    < tags_of(self.tasks@[a], kind).len() && #[trigger] tags_of(
                                    self.tasks@[a],
                                    kind,
                                )[b] == x;
                            if a == i {
                                assert(tags_of(*t, kind)[b] == x);
                            }
                        }
                        if exists|j: int| 0 <= j < tags.len() && tags_of(*t, kind)[j] == x {
                            let j = choose|j: int| 0 <= j < tags.len() && tags_of(*t, kind)[j] == x;
                            assert(tags_of(self.tasks@[i as int], kind)[j] == x);
                        }
                    }
                }
            } else {
                proof {
                    assert forall|x: Seq<char>| #[trigger]
                        strings_view(r@).contains(x) <==> has_tag_in(
                            self.tasks@,
                            kind,
                            today,
                            i + 1,
                            x,
                        ) by {
                        if has_tag_in(self.tasks@, kind, today, i + 1, x) {
                            let (a, b) = choose|a: int, b: int|
                                0 <= a < i + 1 && actionable(self.tasks@[a], today) && 0 <= b
                                    < tags_of(self.tasks@[a], kind).len() && #[trigger] tags_of(
                                    self.tasks@[a],
                                    kind,
                                )[b] == x;
                        }
                    }
                }
            }
            i = i + 1;
        }
        r
    }

    /// The distinct projects of the tasks that are neither done nor deferred
    /// past `today`, in lexicographic order.
    pub fn projects(&self, today: Date) -> (r: Vec<String>)
        ensures
            strictly_sorted(strings_view(r@)),
            forall|x: Seq<char>|
                #[trigger] strings_view(r@).contains(x) <==> has_tag_in(
                    self.tasks@,
                    Type::Projects,
                    today,
                    self.tasks@.len() as int,
                    x,
                ),
    {
        self.tags(Type::Projects, today)
    }

    /// The distinct contexts of the tasks that are neither done nor deferred
    /// past `today`, in lexicographic order.
    pub fn contexts(&self, today: Date) -> (r: Vec<String>)
        ensures
            strictly_sorted(strings_view(r@)),
            forall|x: Seq<char>|
                #[trigger] strings_view(r@).contains(x) <==> has_tag_in(
                    self.tasks@,
                    Type::Contexts,
                    today,
                    self.tasks@.len() as int,
                    x,
                ),
    {
        self.tags(Type::Contexts, today)
    }

    /// How many of the tasks that carry `cur`, or a token below it
    /// (`cur/...`), are done, and how many there are.
    pub fn progress(&self, kind: Type, cur: &str) -> (r: (usize, usize))
        ensures
            (r.0 as nat, r.1 as nat) == progress_of(self.tasks@, kind, cur@),
    {
        let mut done: usize = 0;
        let mut total: usize = 0;
        let mut i: usize = 0;
        while i < self.tasks.len()
            invariant
                0 <= i <= self.tasks.len(),
                (done as nat, total as nat) == progress_of(self.tasks@.subrange(0, i as int), kind, cur@),
            decreases self.tasks.len() - i,
        {
            proof {
                assert(self.tasks@.subrange(0, i + 1).drop_last() =~= self.tasks@.subrange(0, i as int));
                lemma_progress_bounds(self.tasks@.subrange(0, i as int), kind, cur@);
            }
            let t = &self.tasks[i];
            if t.counts_for(kind, cur) {
                if t.entry.finished {
                    done = done + 1;
                }
                total = total + 1;
            }
            i = i + 1;
        }
        proof {
            assert(self.tasks@.subrange(0, self.tasks@.len() as int) =~= self.tasks@);
        }
        (done, total)
    }
}

} // verus!

verus! {

/// A progress listing seen as mathematical values.
pub open spec fn progress_view(r: Seq<(String, usize, usize)>) -> Seq<(Seq<char>, nat, nat)> {
    r.map_values(|e: (String, usize, usize)| (e.0@, e.1 as nat, e.2 as nat))
}

/// The tokens of `names` that are not fully done, in order, each with its
/// done and total counts.
pub open spec fn unresolved(names: Seq<Seq<char>>, tasks: Seq<Task>, kind: Type) -> Seq<
    (Seq<char>, nat, nat),
>
    decreases names.len(),
{
    if names.len() == 0 {
        Seq::empty()
    } else {
        let r = unresolved(names.drop_last(), tasks, kind);
        let x = names.last();
        let p = progress_of(tasks, kind, x);
        if p.0 != p.1 {
            r.push((x, p.0, p.1))
        } else {
            r
        }
    }
}

impl List {
    /// The tokens of `names` that are not fully done, in order, each with
    /// how many of its tasks (its own and those below it) are done and how
    /// many there are.
    pub fn update_tags(&self, names: &Vec<String>, kind: Type) -> (r: Vec<(String, usize, usize)>)
        ensures
            progress_view(r@) == unresolved(strings_view(names@), self.tasks@, kind),
    {
        let ghost nv = strings_view(names@);
        let mut r: Vec<(String, usize, usize)> = Vec::new();
        let mut j: usize = 0;
        while j < names.len()
            invariant
                0 <= j <= names.len(),
                nv == strings_view(names@),
                progress_view(r@) == unresolved(nv.subrange(0, j as int), self.tasks@, kind),
            decreases names.len() - j,
        {
            proof {
                assert(nv.subrange(0, j + 1).drop_last() =~= nv.subrange(0, j as int));
                assert(nv.subrange(0, j + 1).last() == names@[j as int]@);
            }
            let p = self.progress(kind, names[j].as_str());
            if p.0 != p.1 {
                let ghost before = r@;
                r.push((names[j].clone(), p.0, p.1));
                proof {
                    assert(progress_view(r@) =~= progress_view(before).push(
                        (names@[j as int]@, p.0 as nat, p.1 as nat),
                    ));
                }
            }
            j = j + 1;
        }
        proof {
            assert(nv.subrange(0, names@.len() as int) =~= nv);
        }
        r
    }

    /// The tokens of the given kind of the tasks neither done nor deferred
    /// past `today` (as `tags` lists them: distinct, in lexicographic
    /// order), less those fully done, each with its done and total counts.
    pub fn tag_progress(&self, kind: Type, today: Date) -> (r: Vec<(String, usize, usize)>)
        ensures
            exists|names: Seq<Seq<char>>|
                {
                    &&& strictly_sorted(names)
                    &&& forall|x: Seq<char>|
                        #[trigger] names.contains(x) <==> has_tag_in(
                            self.tasks@,
                            kind,
                            today,
                            self.tasks@.len() as int,
                            x,
                        )
                    &&& progress_view(r@) == unresolved(names, self.tasks@, kind)
                },
    {
        let names = self.tags(kind, today);
        let r = self.update_tags(&names, kind);
        proof {
            let nv = strings_view(names@);
            assert(progress_view(r@) == unresolved(nv, self.tasks@, kind));
        }
        r
    }
}

} // verus!

verus! {

/// Which tasks a view shows.
#[derive(Clone, Debug, PartialEq, Eq)]
pub enum Selection {
    /// Open tasks of no project.
    Inbox,
    /// Flagged tasks.
    Flagged,
    /// Done tasks.
    Done,
    /// Tasks due on or after the first date and before the second; a
    /// missing bound does not limit.
    DueBetween(Option<Date>, Option<Date>),
    /// Tasks with some token of the kind, and, unless the list of filters is
    /// empty, one of the filters among them.
    Tagged(Type, Vec<String>),
    /// Tasks whose subject holds the text, ignoring case.
    Search(String),
}

/// Some filter is among the tokens, or there are no filters.
pub open spec fn has_filter_spec(tags: Seq<Seq<char>>, filters: Seq<Seq<char>>) -> bool {
    filters.len() == 0 || exists|i: int| 0 <= i < filters.len() && tags.contains(#[trigger] filters[i])
}

/// `a` is no later than `b`.
pub open spec fn date_le(a: Date, b: Date) -> bool {
    !date_lt(b, a)
}

/// Whether the selection shows the task, on `today` with `prefs`.
pub open spec fn keeps(sel: Selection, t: Task, today: Date, prefs: Preferences) -> bool {
    let shown_done = prefs.done || !t.entry.finished;
    let shown_deferred = prefs.defered || started(t, today);
    match sel {
        Selection::Inbox => !t.entry.finished && t.entry.projects@.len() == 0 && shown_deferred,
        Selection::Flagged => t.flagged && shown_done && shown_deferred,
        Selection::Done => t.entry.finished,
        Selection::DueBetween(start, end) => {
            &&& t.entry.due_date.is_some()
            &&& shown_done
            &&& shown_deferred
            &&& start.is_none() || date_le(start->0, t.entry.due_date->0)
            &&& end.is_none() || date_lt(t.entry.due_date->0, end->0)
        },
        Selection::Tagged(kind, filters) => {
            &&& shown_done
            &&& tags_of(t, kind).len() > 0
            &&& has_filter_spec(tags_of(t, kind), strings_view(filters@))
            &&& shown_deferred
        },
        Selection::Search(q) => occurs_in(lower_of(t.entry.subject@), lower_of(q@)),
    }
}

/// The tasks that the selection shows, in list order.
pub open spec fn selected(tasks: Seq<Task>, sel: Selection, today: Date, prefs: Preferences) -> Seq<
    Task,
>
    decreases tasks.len(),
{
    if tasks.len() == 0 {
        tasks
    } else {
        let r = selected(tasks.drop_last(), sel, today, prefs);
        if keeps(sel, tasks.last(), today, prefs) {
            r.push(tasks.last())
        } else {
            r
        }
    }
}

/// `r` holds copies of the tasks of `s`, in order.
pub open spec fn copies(r: Seq<Task>, s: Seq<Task>) -> bool {
    r.len() == s.len() && forall|i: int| 0 <= i < r.len() ==> same_task(#[trigger] r[i], s[i])
}

/// Whether one of `filters` is among `tags`, or `filters` is empty.
pub fn has_filter(tags: &Vec<String>, filters: &Vec<String>) -> (r: bool)
    ensures
        r == has_filter_spec(strings_view(tags@), strings_view(filters@)),
{
    if filters.len() == 0 {
        return true;
    }
    let mut i: usize = 0;
    while i < filters.len()
        invariant
            0 <= i <= filters.len(),
            forall|m: int| 0 <= m < i ==> !strings_view(tags@).contains(#[trigger] strings_view(filters@)[m]),
        decreases filters.len() - i,
    {
        let mut k: usize = 0;
        while k < tags.len()
            invariant
                0 <= i < filters.len(),
                0 <= k <= tags.len(),
                forall|m: int| 0 <= m < k ==> strings_view(tags@)[m] != strings_view(filters@)[i as int],
            decreases tags.len() - k,
        {
            if tags[k] == filters[i] {
                proof {
                    assert(strings_view(tags@)[k as int] == strings_view(filters@)[i as int]);
                    assert(strings_view(tags@).contains(strings_view(filters@)[i as int]));
                }
                return true;
            }
            k = k + 1;
        }
        i = i + 1;
    }
    false
}

/// `n` days after `date`.
pub fn add_days(date: Date, n: u32) -> (r: Date)
    requires
        date.wf(),
        date.year + n <= MAX_YEAR,
    ensures
        r == steps(Period::Day, n as nat, date),
        r.wf(),
{
    let rec = Recurrence { num: n as i64, period: Period::Day, strict: false };
    proof {
        crate::period::lemma_years_in_range(Period::Day, n as nat, date);
    }
    rec.add(date)
}

/// Whether the selection shows the task, on `today` with `prefs`.
pub fn shows(sel: &Selection, t: &Task, today: &Date, prefs: &Preferences) -> (r: bool)
    ensures
        r == keeps(*sel, *t, *today, *prefs),
{
    let shown_done = prefs.done || !t.entry.finished;
    let shown_deferred = prefs.defered || t.is_started(today);
    match sel {
        Selection::Inbox => !t.entry.finished && t.entry.projects.len() == 0 && shown_deferred,
        Selection::Flagged => t.flagged && shown_done && shown_deferred,
        Selection::Done => t.entry.finished,
        Selection::DueBetween(start, end) => {
            match &t.entry.due_date {
                None => false,
                Some(due) => {
                    let deferred_ok = shown_deferred;
                    let after_start = match start {
                        None => true,
                        Some(s) => !due.before(s),
                    };
                    let before_end = match end {
                        None => true,
                        Some(e) => due.before(e),
                    };
                    shown_done && deferred_ok && after_start && before_end
                },
            }
        },
        Selection::Tagged(kind, filters) => {
            let tags = t.tags(*kind);
            shown_done && tags.len() > 0 && has_filter(tags, filters) && shown_deferred
        },
        Selection::Search(q) => {
            let subject = lowercase(t.entry.subject.as_str());
            let query = lowercase(q.as_str());
            contains_text(subject.as_str(), query.as_str())
        },
    }
}

impl List {
    /// Copies of the tasks that the selection shows, in list order.
    pub fn select(&self, sel: &Selection, today: Date, prefs: Preferences) -> (r: Vec<Task>)
        ensures
            copies(r@, selected(self.tasks@, *sel, today, prefs)),
    {
        let mut r: Vec<Task> = Vec::new();
        let mut i: usize = 0;
        while i < self.tasks.len()
            invariant
                0 <= i <= self.tasks.len(),
                copies(r@, selected(self.tasks@.subrange(0, i as int), *sel, today, prefs)),
            decreases self.tasks.len() - i,
        {
            proof {
                assert(self.tasks@.subrange(0, i + 1).drop_last() =~= self.tasks@.subrange(0, i as int));
            }
            if shows(sel, &self.tasks[i], &today, &prefs) {
                let c = self.tasks[i].duplicate();
                r.push(c);
            }
            i = i + 1;
        }
        proof {
            assert(self.tasks@.subrange(0, self.tasks@.len() as int) =~= self.tasks@);
        }
        r
    }

    /// Open tasks of no project, not deferred unless `prefs` shows those.
    pub fn inbox_tasks(&self, today: Date, prefs: Preferences) -> (r: Vec<Task>)
        ensures
            copies(r@, selected(self.tasks@, Selection::Inbox, today, prefs)),
    {
        self.select(&Selection::Inbox, today, prefs)
    }

    /// Flagged tasks, as `prefs` shows done and deferred ones.
    pub fn flagged_tasks(&self, today: Date, prefs: Preferences) -> (r: Vec<Task>)
        ensures
            copies(r@, selected(self.tasks@, Selection::Flagged, today, prefs)),
    {
        self.select(&Selection::Flagged, today, prefs)
    }

    /// Done tasks.
    pub fn done_tasks(&self, today: Date) -> (r: Vec<Task>)
        ensures
            copies(r@, selected(self.tasks@, Selection::Done, today, Preferences { defered: false, done: false })),
    {
        self.select(&Selection::Done, today, Preferences::new())
    }

    /// Tasks whose subject holds `query`, ignoring case.
    pub fn search(&self, query: &str, today: Date) -> (r: Vec<Task>)
        ensures
            exists|q: String|
                q@ == query@ && copies(
                    r@,
                    #[trigger] selected(self.tasks@, Selection::Search(q), today, Preferences { defered: false, done: false }),
                ),
    {
        let q = query.to_owned();
        let sel = Selection::Search(q);
        let r = self.select(&sel, today, Preferences::new());
        proof {
            let g = sel->Search_0;
            assert(g@ == query@);
            assert(sel == Selection::Search(g));
            assert(copies(
                r@,
                selected(self.tasks@, Selection::Search(g), today, Preferences { defered: false, done: false }),
            ));
        }
        r
    }
}

} // verus!

verus! {

impl List {
    /// Tasks with some token of the kind and, unless `filters` is empty, one
    /// of `filters` among them; done and deferred ones as `prefs` says.
    pub fn tagged_tasks(&self, kind: Type, filters: &Vec<String>, today: Date, prefs: Preferences) -> (r: Vec<Task>)
        ensures
            exists|f: Vec<String>|
                f@ == filters@ && copies(
                    r@,
                    #[trigger] selected(self.tasks@, Selection::Tagged(kind, f), today, prefs),
                ),
    {
        let sel = Selection::Tagged(kind, filters.clone());
        let r = self.select(&sel, today, prefs);
        proof {
            let g = sel->Tagged_1;
            assert(g@ =~= filters@);
            assert(sel == Selection::Tagged(kind, g));
            assert(copies(r@, selected(self.tasks@, Selection::Tagged(kind, g), today, prefs)));
        }
        r
    }

    /// Tasks due on or after `start` and before `end` (a missing bound does
    /// not limit); done ones and ones deferred past `today` as `prefs` says.
    pub fn agenda_tasks(&self, start: Option<Date>, end: Option<Date>, today: Date, prefs: Preferences) -> (r: Vec<Task>)
        ensures
            copies(r@, selected(self.tasks@, Selection::DueBetween(start, end), today, prefs)),
    {
        self.select(&Selection::DueBetween(start, end), today, prefs)
    }

    /// Tasks due before `today`.
    pub fn past_tasks(&self, today: Date, prefs: Preferences) -> (r: Vec<Task>)
        ensures
            copies(r@, selected(self.tasks@, Selection::DueBetween(None, Some(today)), today, prefs)),
    {
        self.agenda_tasks(None, Some(today), today, prefs)
    }

    /// Tasks due `today`.
    pub fn today_tasks(&self, today: Date, prefs: Preferences) -> (r: Vec<Task>)
        requires
            today.wf(),
            today.year + 28 <= MAX_YEAR,
        ensures
            copies(
                r@,
                selected(
                    self.tasks@,
                    Selection::DueBetween(Some(today), Some(steps(Period::Day, 1, today))),
                    today,
                    prefs,
                ),
            ),
    {
        let end = add_days(today, 1);
        self.agenda_tasks(Some(today), Some(end), today, prefs)
    }

    /// Tasks due the day after `today`.
    pub fn tomorrow_tasks(&self, today: Date, prefs: Preferences) -> (r: Vec<Task>)
        requires
            today.wf(),
            today.year + 28 <= MAX_YEAR,
        ensures
            copies(
                r@,
                selected(
                    self.tasks@,
                    Selection::DueBetween(
                        Some(steps(Period::Day, 1, today)),
                        Some(steps(Period::Day, 2, today)),
                    ),
                    today,
                    prefs,
                ),
            ),
    {
        let start = add_days(today, 1);
        let end = add_days(today, 2);
        self.agenda_tasks(Some(start), Some(end), today, prefs)
    }

    /// Tasks due from two days after `today` to the end of its week (the
    /// seventh day after it excluded).
    pub fn week_tasks(&self, today: Date, prefs: Preferences) -> (r: Vec<Task>)
        requires
            today.wf(),
            today.year + 28 <= MAX_YEAR,
        ensures
            copies(
                r@,
                selected(
                    self.tasks@,
                    Selection::DueBetween(
                        Some(steps(Period::Day, 2, today)),
                        Some(steps(Period::Day, 7, today)),
                    ),
                    today,
                    prefs,
                ),
            ),
    {
        let start = add_days(today, 2);
        let end = add_days(today, 7);
        self.agenda_tasks(Some(start), Some(end), today, prefs)
    }

    /// Tasks due from seven days after `today` up to the 28th day after it,
    /// excluded.
    pub fn month_tasks(&self, today: Date, prefs: Preferences) -> (r: Vec<Task>)
        requires
            today.wf(),
            today.year + 28 <= MAX_YEAR,
        ensures
            copies(
                r@,
                selected(
                    self.tasks@,
                    Selection::DueBetween(
                        Some(steps(Period::Day, 7, today)),
                        Some(steps(Period::Day, 28, today)),
                    ),
                    today,
                    prefs,
                ),
            ),
    {
        let start = add_days(today, 7);
        let end = add_days(today, 28);
        self.agenda_tasks(Some(start), Some(end), today, prefs)
    }
}

} // verus!

verus! {

/// A token below another lies below every token above that one.
pub proof fn lemma_under_parent(x: Seq<char>, parent: Seq<char>, rest: Seq<char>)
    requires
        under(x, parent + seq!['/'] + rest),
    ensures
        under(x, parent),
{
    let child = parent + seq!['/'] + rest;
    assert(child.subrange(0, parent.len() as int) =~= parent);
    assert(child[parent.len() as int] == '/');
    if x != child {
        let xc = x.subrange(0, child.len() as int);
        assert(xc == child);
        assert(x.subrange(0, parent.len() as int) =~= xc.subrange(0, parent.len() as int));
        assert(x[parent.len() as int] == xc[parent.len() as int]);
        assert(parent.len() < x.len());
    } else {
        assert(parent.len() < x.len());
        assert(x[parent.len() as int] == '/');
        assert(x.subrange(0, parent.len() as int) == parent);
    }
}

/// Progress rolls up: a token counts every task of each token below it, so
/// its done and total counts are at least those of any token below it.
pub proof fn lemma_progress_rolls_up(tasks: Seq<Task>, kind: Type, parent: Seq<char>, rest: Seq<char>)
    ensures
        progress_of(tasks, kind, parent + seq!['/'] + rest).0 <= progress_of(tasks, kind, parent).0,
        progress_of(tasks, kind, parent + seq!['/'] + rest).1 <= progress_of(tasks, kind, parent).1,
    decreases tasks.len(),
{
    if tasks.len() > 0 {
        lemma_progress_rolls_up(tasks.drop_last(), kind, parent, rest);
        let t = tasks.last();
        let child = parent + seq!['/'] + rest;
        if counts_for(t, kind, child) {
            let k = choose|k: int| 0 <= k < tags_of(t, kind).len() && under(#[trigger] tags_of(t, kind)[k], child);
            lemma_under_parent(tags_of(t, kind)[k], parent, rest);
            assert(counts_for(t, kind, parent));
        }
    }
}

} // verus!

verus! {

/// `due` lies on or after `start` and before `end`, a missing bound not
/// limiting.
pub open spec fn in_window(due: Date, start: Option<Date>, end: Option<Date>) -> bool {
    (start.is_none() || date_le(start->0, due)) && (end.is_none() || date_lt(due, end->0))
}

/// A later day number gives a later date.
pub proof fn lemma_days_increase(today: Date, a: nat, b: nat)
    requires
        today.wf(),
        a < b,
        today.year + b <= MAX_YEAR,
    ensures
        date_lt(steps(Period::Day, a, today), steps(Period::Day, b, today)),
    decreases b,
{
    crate::period::lemma_steps(Period::Day, (b - 1) as nat, today);
    if a < b - 1 {
        lemma_days_increase(today, a, (b - 1) as nat);
    }
}

/// The agenda's windows, before `today`, `today`, the next day, the rest of
/// the week and the rest of four weeks, never overlap, and together hold
/// every date before the 28th day after `today`.
pub proof fn lemma_agenda_windows(today: Date, due: Date)
    requires
        today.wf(),
        today.year + 28 <= MAX_YEAR,
    ensures
        ({
            let b1 = steps(Period::Day, 1, today);
            let b2 = steps(Period::Day, 2, today);
            let b7 = steps(Period::Day, 7, today);
            let b28 = steps(Period::Day, 28, today);
            let w = seq![
                in_window(due, None, Some(today)),
                in_window(due, Some(today), Some(b1)),
                in_window(due, Some(b1), Some(b2)),
                in_window(due, Some(b2), Some(b7)),
                in_window(due, Some(b7), Some(b28)),
            ];
            &&& forall|i: int, j: int| 0 <= i < j < 5 ==> !(w[i] && w[j])
            &&& date_lt(due, b28) <==> exists|i: int| 0 <= i < 5 && w[i]
        }),
{
    assert(steps(Period::Day, 0, today) == today);
    lemma_days_increase(today, 0, 1);
    lemma_days_increase(today, 1, 2);
    lemma_days_increase(today, 2, 7);
    lemma_days_increase(today, 7, 28);
    let b1 = steps(Period::Day, 1, today);
    let b2 = steps(Period::Day, 2, today);
    let b7 = steps(Period::Day, 7, today);
    let b28 = steps(Period::Day, 28, today);
    let w = seq![
        in_window(due, None, Some(today)),
        in_window(due, Some(today), Some(b1)),
        in_window(due, Some(b1), Some(b2)),
        in_window(due, Some(b2), Some(b7)),
        in_window(due, Some(b7), Some(b28)),
    ];
    if date_lt(due, b28) {
        if date_lt(due, today) {
            assert(w[0]);
        } else if date_lt(due, b1) {
            assert(w[1]);
        } else if date_lt(due, b2) {
            assert(w[2]);
        } else if date_lt(due, b7) {
            assert(w[3]);
        } else {
            assert(w[4]);
        }
    }
}

} // verus!

verus! {

impl List {
    /// The days of the given month on which a task is due: one for each
    /// such task, in list order.
    pub fn due_days(&self, year: i32, month: u32) -> (r: Vec<u32>)
        ensures
            r@ == due_days_of(self.tasks@, year, month),
    {
        let mut r: Vec<u32> = Vec::new();
        let mut i: usize = 0;
        while i < self.tasks.len()
            invariant
                0 <= i <= self.tasks.len(),
                r@ == due_days_of(self.tasks@.subrange(0, i as int), year, month),
            decreases self.tasks.len() - i,
        {
            proof {
                assert(self.tasks@.subrange(0, i + 1).drop_last() =~= self.tasks@.subrange(0, i as int));
            }
            match &self.tasks[i].entry.due_date {
                Some(due) => {
                    if due.year == year && due.month == month {
                        r.push(due.day);
                    }
                },
                None => {},
            }
            i = i + 1;
        }
        proof {
            assert(self.tasks@.subrange(0, self.tasks@.len() as int) =~= self.tasks@);
        }
        r
    }
}

/// The day of each task due in the given month, in list order.
pub open spec fn due_days_of(tasks: Seq<Task>, year: i32, month: u32) -> Seq<u32>
    decreases tasks.len(),
{
    if tasks.len() == 0 {
        Seq::empty()
    } else {
        let r = due_days_of(tasks.drop_last(), year, month);
        match tasks.last().entry.due_date {
            Some(d) => if d.year == year && d.month == month {
                r.push(d.day)
            } else {
                r
            },
            None => r,
        }
    }
}

} // verus!

verus! {

/// Progress adds up over the parts of a list: the done and total counts of
/// a token over two runs of tasks are the sums of its counts over each.
pub proof fn lemma_progress_adds_up(a: Seq<Task>, b: Seq<Task>, kind: Type, cur: Seq<char>)
    ensures
        progress_of(a + b, kind, cur).0 == progress_of(a, kind, cur).0 + progress_of(b, kind, cur).0,
        progress_of(a + b, kind, cur).1 == progress_of(a, kind, cur).1 + progress_of(b, kind, cur).1,
    decreases b.len(),
{
    if b.len() == 0 {
        assert(a + b =~= a);
    } else {
        lemma_progress_adds_up(a, b.drop_last(), kind, cur);
        assert((a + b).drop_last() =~= a + b.drop_last());
    }
}

} // verus!
