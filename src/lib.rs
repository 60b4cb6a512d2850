//! Engine of a todo.txt task manager: calendar arithmetic, recurrences,
//! tasks, the task list and the views derived from it.

pub mod date;
pub mod env;
pub mod list;
pub mod markup;
pub mod note;
pub mod period;
pub mod recurrence;
pub mod store;
pub mod task;
pub mod text;
pub mod views;
