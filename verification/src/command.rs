//! The command line of the interactive loop: which command a line of input
//! asks for.

use crate::text::{chars_of, cut_out, matches_at, split_words, words};
use vstd::prelude::*;
use vstd::string::{StrSliceExecFns, StringExecFns};

verus! {

/// What a line of input asks for.
#[derive(Clone, Debug)]
pub enum Command {
    /// Add a task; the whole line holds its fields.
    Add,
    /// Show the task file of this name.
    View(String),
    /// Remove the task file of this name.
    Delete(String),
    /// Scan the directory under the mode of this name.
    Filter(String),
    /// `view` without exactly one file name.
    ViewUsage,
    /// `delete` without exactly one file name.
    DeleteUsage,
    /// `filter` without exactly one mode.
    FilterUsage,
    /// No command, or one that is not known.
    Invalid,
}

/// A command, in the model.
pub enum Request {
    Add,
    View(Seq<char>),
    Delete(Seq<char>),
    Filter(Seq<char>),
    ViewUsage,
    DeleteUsage,
    FilterUsage,
    Invalid,
}

impl View for Command {
    type V = Request;

    open spec fn view(&self) -> Request {
        match self {
            Command::Add => Request::Add,
            Command::View(name) => Request::View(name@),
            Command::Delete(name) => Request::Delete(name@),
            Command::Filter(mode) => Request::Filter(mode@),
            Command::ViewUsage => Request::ViewUsage,
            Command::DeleteUsage => Request::DeleteUsage,
            Command::FilterUsage => Request::FilterUsage,
            Command::Invalid => Request::Invalid,
        }
    }
}

/// The command that the line `line` asks for.
///
/// The first word of the line names the command. `add` stands alone: its
/// fields are read from the whole line. `view`, `delete` and `filter` take
/// exactly one more word. A line without words, and any other first word,
/// is no command.
pub open spec fn request_of(line: Seq<char>) -> Request {
    let w = words(line);
    if w.len() == 0 {
        Request::Invalid
    } else if w[0] == "add"@ {
        Request::Add
    } else if w[0] == "view"@ {
        if w.len() == 2 {
            Request::View(w[1])
        } else {
            Request::ViewUsage
        }
    } else if w[0] == "delete"@ {
        if w.len() == 2 {
            Request::Delete(w[1])
        } else {
            Request::DeleteUsage
        }
    } else if w[0] == "filter"@ {
        if w.len() == 2 {
            Request::Filter(w[1])
        } else {
            Request::FilterUsage
        }
    } else {
        Request::Invalid
    }
}

/// What the user is told of a request that cannot be carried out as it
/// stands; `None` for one that can.
pub open spec fn complaint_of(request: Request) -> Option<Seq<char>> {
    match request {
        Request::ViewUsage => Some("Invalid input format. Use: view <filename>"@),
        Request::DeleteUsage => Some("Invalid input format. Use: delete <filename>"@),
        Request::FilterUsage => Some(
            "Invalid input format. Use: filter <completed | upcoming>"@,
        ),
        Request::Invalid => Some("Invalid command"@),
        _ => None,
    }
}

/// Whether the range `cut` of `text` holds exactly `word`.
fn is_word(text: &Vec<char>, cut: (usize, usize), word: &str) -> (b: bool)
    requires
        cut.0 <= cut.1 <= text.len(),
    ensures
        b == (text@.subrange(cut.0 as int, cut.1 as int) == word@),
{
    let w = chars_of(word);
    cut.1 - cut.0 == w.len() && matches_at(text, &w, cut.0)
}

/// Reads a line of input into the command it asks for.
pub fn parse_command(line: &str) -> (r: Command)
    ensures
        r@ == request_of(line@),
{
    let text = chars_of(line);
    let cuts = split_words(&text);
    assert(cut_out(text@, cuts@).len() == cuts.len());
    if cuts.len() == 0 {
        return Command::Invalid;
    }
    assert(words(text@)[0] == cut_out(text@, cuts@)[0]);
    let first = cuts[0];
    if is_word(&text, first, "add") {
        return Command::Add;
    }
    let second: Option<String> = if cuts.len() == 2 {
        assert(words(text@)[1] == cut_out(text@, cuts@)[1]);
        Some(String::from_str(line.substring_char(cuts[1].0, cuts[1].1)))
    } else {
        None
    };
    if is_word(&text, first, "view") {
        match second {
            Some(name) => Command::View(name),
            None => Command::ViewUsage,
        }
    } else if is_word(&text, first, "delete") {
        match second {
            Some(name) => Command::Delete(name),
            None => Command::DeleteUsage,
        }
    } else if is_word(&text, first, "filter") {
        match second {
            Some(mode) => Command::Filter(mode),
            None => Command::FilterUsage,
        }
    } else {
        Command::Invalid
    }
}

impl Command {
    /// What the user is told of a command that cannot be carried out as it
    /// stands; `None` for one that can.
    pub fn complaint(&self) -> (r: Option<String>)
        ensures
            match r {
                Some(text) => complaint_of(self@) == Some(text@),
                None => complaint_of(self@) is None,
            },
    {
        match self {
            Command::ViewUsage => Some(String::from_str("Invalid input format. Use: view <filename>")),
            Command::DeleteUsage => Some(
                String::from_str("Invalid input format. Use: delete <filename>"),
            ),
            Command::FilterUsage => Some(
                String::from_str("Invalid input format. Use: filter <completed | upcoming>"),
            ),
            Command::Invalid => Some(String::from_str("Invalid command")),
            _ => None,
        }
    }
}

} // verus!
