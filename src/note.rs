use vstd::prelude::*;
use crate::text::push_str;

verus! {

/// Free-form note of a task: none, inline text not yet saved, or text kept in
/// a file of the notes directory.
#[derive(Clone, Debug, PartialEq, Eq)]
pub enum Note {
    Empty,
    Short(String),
    Long { filename: String, content: String },
}

/// What saving a note to the notes directory amounts to.
#[derive(Clone, Debug, PartialEq, Eq)]
pub enum NoteSave {
    /// Nothing to write.
    Nothing,
    /// Remove the file of that name; the note becomes `Note::Empty`.
    Delete(String),
    /// Write `content` to the file `filename`.
    Write { filename: String, content: String },
}

impl Note {
    /// The text of the note, whatever its kind.
    pub fn content(&self) -> (r: Option<String>)
        ensures
            match *self {
                Note::Empty => r.is_none(),
                Note::Short(c) => r == Some(c),
                Note::Long { content, .. } => r == Some(content),
            },
    {
        match self {
            Note::Empty => None,
            Note::Short(c) => Some(c.clone()),
            Note::Long { content, .. } => Some(content.clone()),
        }
    }

    /// The note that a reference names, given what reading its file gave:
    /// no note for an empty name, the file's text where it could be read,
    /// else the reference itself as inline text.
    pub fn from_file(filename: &str, read: Option<String>) -> (r: Note)
        ensures
            filename@.len() == 0 ==> r == Note::Empty,
            filename@.len() > 0 && read.is_some() ==> r is Long && r->filename@ == filename@
                && r->content == read->0,
            filename@.len() > 0 && read.is_none() ==> r is Short && r->Short_0@ == filename@,
    {
        if filename.is_empty() {
            return Note::Empty;
        }
        match read {
            Some(content) => Note::Long { filename: filename.to_owned(), content },
            None => Note::Short(filename.to_owned()),
        }
    }

    /// The text that refers to this note in a task line: the file name of a
    /// saved note, the inline text of an unsaved one.
    pub fn reference(&self) -> (r: Option<String>)
        ensures
            match *self {
                Note::Empty => r.is_none(),
                Note::Short(c) => r == Some(c),
                Note::Long { filename, .. } => r == Some(filename),
            },
    {
        match self {
            Note::Empty => None,
            Note::Short(c) => Some(c.clone()),
            Note::Long { filename, .. } => Some(filename.clone()),
        }
    }

    /// Plans saving the note. An unsaved note takes `fresh_name` as its file
    /// name; a saved note with empty text is deleted, an unsaved empty one dropped, and becomes no note.
    /// Returns the note as it stands once the plan is carried out.
    pub fn save_plan(&self, fresh_name: &str) -> (r: (Note, NoteSave))
        ensures
            match *self {
                Note::Empty => r.0 == Note::Empty && r.1 == NoteSave::Nothing,
                Note::Short(c) => if c@.len() == 0 {
                    r.0 == Note::Empty && r.1 == NoteSave::Nothing
                } else {
                    r.0 is Long && r.0->filename@ == fresh_name@ && r.0->content == c
                        && r.1 is Write && r.1->Write_filename@ == fresh_name@
                        && r.1->Write_content == c
                },
                Note::Long { filename, content } => if content@.len() == 0 {
                    r.0 == Note::Empty && r.1 == NoteSave::Delete(filename)
                } else {
                    r.0 == *self && r.1 == (NoteSave::Write { filename, content })
                },
            },
    {
        match self {
            Note::Empty => (Note::Empty, NoteSave::Nothing),
            Note::Short(c) => {
                if c.as_str().is_empty() {
                    (Note::Empty, NoteSave::Nothing)
                } else {
                    let f = fresh_name.to_owned();
                    (
                        Note::Long { filename: f.clone(), content: c.clone() },
                        NoteSave::Write { filename: f, content: c.clone() },
                    )
                }
            },
            Note::Long { filename, content } => {
                if content.as_str().is_empty() {
                    (Note::Empty, NoteSave::Delete(filename.clone()))
                } else {
                    (
                        Note::Long { filename: filename.clone(), content: content.clone() },
                        NoteSave::Write { filename: filename.clone(), content: content.clone() },
                    )
                }
            },
        }
    }
}

} // verus!

verus! {

/// ASCII letter or digit.
pub open spec fn is_alnum(c: char) -> bool {
    ('a' <= c && c <= 'z') || ('A' <= c && c <= 'Z') || ('0' <= c && c <= '9')
}

/// Relies on `rand::distributions::Alphanumeric` sampled from
/// `rand::thread_rng`: three characters among `A-Z`, `a-z`, `0-9`.
#[verifier::external_body]
fn random_note_id() -> (r: String)
    ensures
        r@.len() == 3,
        forall|i: int| 0 <= i < 3 ==> is_alnum(#[trigger] r@[i]),
{
    rand::Rng::sample_iter(rand::thread_rng(), &rand::distributions::Alphanumeric)
        .take(3)
        .map(char::from)
        .collect()
}

/// Path of the notes directory: the configured one, else `notes` in the
/// todo directory.
pub open spec fn notes_dir_of(todo_dir: Seq<char>, notes_dir: Option<Seq<char>>) -> Seq<char> {
    match notes_dir {
        Some(d) => d,
        None => todo_dir + seq!['/', 'n', 'o', 't', 'e', 's'],
    }
}

impl Note {
    /// A fresh file name for a note: three random letters or digits, then
    /// `ext` (such as `.txt`).
    pub fn new_filename(ext: &str) -> (r: String)
        ensures
            r@.len() == 3 + ext@.len(),
            forall|i: int| 0 <= i < 3 ==> is_alnum(#[trigger] r@[i]),
            r@.subrange(3, r@.len() as int) == ext@,
    {
        let mut name = random_note_id();
        let ghost id = name@;
        push_str(&mut name, ext);
        proof {
            assert(name@.subrange(3, name@.len() as int) =~= ext@);
            assert(forall|i: int| 0 <= i < 3 ==> name@[i] == id[i]);
        }
        name
    }

    /// Path of the note file `filename`, given the todo directory and the
    /// configured notes directory, if any. Without a todo directory there is
    /// no notes directory either.
    pub fn note_file(todo_dir: Option<&str>, notes_dir: Option<&str>, filename: &str) -> (r: Option<String>)
        ensures
            todo_dir.is_none() ==> r.is_none(),
            todo_dir.is_some() ==> r.is_some() && r->0@ == notes_dir_of(
                todo_dir->0@,
                match notes_dir {
                    Some(d) => Some(d@),
                    None => None,
                },
            ) + seq!['/'] + filename@,
    {
        let todo = match todo_dir {
            Some(t) => t,
            None => return None,
        };
        let mut path = match notes_dir {
            Some(d) => d.to_owned(),
            None => {
                let mut p = todo.to_owned();
                push_str(&mut p, "/notes");
                p
            },
        };
        let ghost dir = path@;
        push_str(&mut path, "/");
        push_str(&mut path, filename);
        proof {
            reveal_strlit("/notes");
            reveal_strlit("/");
            assert(path@ =~= dir + seq!['/'] + filename@);
        }
        Some(path)
    }
}

} // verus!
