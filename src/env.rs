use vstd::prelude::*;
use crate::text::push_str;

verus! {

/// Where the task files live: the todo directory, its `todo.txt` and its
/// `done.txt`.
#[derive(Debug, Clone)]
pub struct Environment {
    pub todo_dir: String,
    pub todo_file: String,
    pub done_file: String,
}

/// Same as `Environment`, for the layout under the home directory.
#[derive(Debug, Clone)]
pub struct EffiEnvironment {
    pub todo_directory_path: String,
    pub todo_file_path: String,
    pub done_file_path: String,
}

/// File name of the open tasks, after the directory.
pub open spec fn todo_txt() -> Seq<char> {
    seq!['/', 't', 'o', 'd', 'o', '.', 't', 'x', 't']
}

/// File name of the done tasks, after the directory.
pub open spec fn done_txt() -> Seq<char> {
    seq!['/', 'd', 'o', 'n', 'e', '.', 't', 'x', 't']
}

/// The default todo directory, below the home directory.
pub open spec fn default_dir() -> Seq<char> {
    seq!['/', '.', 'l', 'o', 'c', 'a', 'l', '/', 'o', 'p', 't', '/', 's', 'h', 'a', 'r', 'e', '/', 't', 'o', 'd', 'o']
}

/// `base` followed by `tail`.
fn joined(base: &str, tail: &str) -> (r: String)
    ensures
        r@ == base@ + tail@,
{
    let mut s = base.to_owned();
    push_str(&mut s, tail);
    s
}

/// The todo directory used when none is configured, under `home`.
pub fn get_default_todo_dir(home: &str) -> (r: String)
    ensures
        r@ == home@ + default_dir(),
{
    proof {
        reveal_strlit("/.local/opt/share/todo");
        assert("/.local/opt/share/todo"@ =~= default_dir());
    }
    joined(home, "/.local/opt/share/todo")
}

impl Environment {
    /// The layout of the todo directory `todo_dir`.
    pub fn for_dir(todo_dir: &str) -> (r: Environment)
        ensures
            r.todo_dir@ == todo_dir@,
            r.todo_file@ == todo_dir@ + todo_txt(),
            r.done_file@ == todo_dir@ + done_txt(),
    {
        proof {
            reveal_strlit("/todo.txt");
            reveal_strlit("/done.txt");
            assert("/todo.txt"@ =~= todo_txt());
            assert("/done.txt"@ =~= done_txt());
        }
        Environment {
            todo_dir: todo_dir.to_owned(),
            todo_file: joined(todo_dir, "/todo.txt"),
            done_file: joined(todo_dir, "/done.txt"),
        }
    }
}

impl EffiEnvironment {
    /// The layout of the default todo directory under `home`.
    pub fn for_home(home: &str) -> (r: EffiEnvironment)
        ensures
            r.todo_directory_path@ == home@ + default_dir(),
            r.todo_file_path@ == home@ + default_dir() + todo_txt(),
            r.done_file_path@ == home@ + default_dir() + done_txt(),
    {
        let dir = get_default_todo_dir(home);
        let e = Environment::for_dir(dir.as_str());
        EffiEnvironment {
            todo_directory_path: e.todo_dir,
            todo_file_path: e.todo_file,
            done_file_path: e.done_file,
        }
    }
}

} // verus!
