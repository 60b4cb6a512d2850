use vstd::prelude::*;
use crate::date::Date;
use crate::list::List;
use crate::task::{long_date_offset, parsed_as, ParseError, Task};
use crate::text::blank;
use crate::views::{copies, Preferences};

verus! {

/// The loaded task list and the display preferences of one session, owned
/// by whoever drives the engine and handed to it by reference.
#[derive(Debug)]
pub struct Store {
    pub tasks: List,
    pub preferences: Preferences,
}

impl List {
    /// A copy of the list.
    pub fn duplicate(&self) -> (r: List)
        ensures
            copies(r.tasks@, self.tasks@),
            r.todo == self.todo,
            r.done == self.done,
            self.wf() ==> r.wf(),
    {
        let mut tasks: Vec<Task> = Vec::new();
        let mut i: usize = 0;
        while i < self.tasks.len()
            invariant
                0 <= i <= self.tasks.len(),
                copies(tasks@, self.tasks@.subrange(0, i as int)),
                forall|j: int| 0 <= j < i ==> (#[trigger] tasks@[j]).wf() == self.tasks@[j].wf(),
            decreases self.tasks.len() - i,
        {
            tasks.push(self.tasks[i].duplicate());
            i = i + 1;
        }
        proof {
            assert(self.tasks@.subrange(0, self.tasks@.len() as int) =~= self.tasks@);
        }
        List { tasks, todo: self.todo.clone(), done: self.done.clone() }
    }
}

impl Store {
    /// A store with an empty list and the default preferences.
    pub fn new() -> (r: Store)
        ensures
            r.tasks.tasks@.len() == 0,
            r.tasks.wf(),
            !r.preferences.defered && !r.preferences.done,
    {
        Store { tasks: List::new(), preferences: Preferences::new() }
    }
}

/// A copy of the store's list, to change and hand back with `replace`.
pub fn get(store: &Store) -> (r: List)
    ensures
        copies(r.tasks@, store.tasks.tasks@),
        r.todo == store.tasks.todo,
        r.done == store.tasks.done,
        store.tasks.wf() ==> r.wf(),
{
    store.tasks.duplicate()
}

/// Puts `new` in place of the store's list.
pub fn replace(store: &mut Store, new: List)
    ensures
        final(store).tasks == new,
        final(store).preferences == old(store).preferences,
{
    store.tasks = new;
}

/// Adds the task that `text` reads as, created `today`, to the store's list.
pub fn add(store: &mut Store, text: &str, today: Date, note_tag: &str) -> (r: Result<(), ParseError>)
    requires
        old(store).tasks.wf(),
        today.wf(),
    ensures
        final(store).tasks.wf(),
        final(store).preferences == old(store).preferences,
        final(store).tasks.todo == old(store).tasks.todo,
        final(store).tasks.done == old(store).tasks.done,
        blank(text@) ==> r == Err::<(), ParseError>(ParseError::Empty),
        !blank(text@) && long_date_offset(text@) ==> r == Err::<(), ParseError>(
            ParseError::DateOutOfRange,
        ),
        !blank(text@) && !long_date_offset(text@) ==> r is Ok,
        r is Err ==> final(store).tasks.tasks@ == old(store).tasks.tasks@,
        r is Ok ==> exists|p: Task|
            parsed_as(p, text@, note_tag@) && final(store).tasks.tasks@ == old(store).tasks.tasks@.push(
                Task {
                    entry: crate::task::Entry { create_date: Some(today), ..p.entry },
                    id: old(store).tasks.tasks@.len() as usize,
                    ..p
                },
            ),
{
    store.tasks.add(text, today, note_tag)
}

} // verus!
