//! Adding a task: reading the `add` command, and the text of the file that
//! holds the new task.

use crate::date::{date_text, is_date_char, lemma_date_text_chars, parsed_date, Date};
use crate::filter::{due_date_field, lemma_due_date_on_third_line};
use crate::text::{chars_of, cut_out, lemma_trimmed_is, pieces, split, trim_bounds, trimmed};
use vstd::prelude::*;
use vstd::string::{StrSliceExecFns, StringExecFns};

verus! {

/// A task that is about to be stored.
#[derive(Clone, Debug)]
pub struct NewTask {
    pub title: String,
    pub description: String,
    pub due_date: Date,
}

/// Why an `add` command was refused.
#[derive(Clone, Copy, Debug, PartialEq, Eq, Structural)]
pub enum AddError {
    /// The command does not have its three fields.
    InvalidFormat,
    /// The third field does not read as a date.
    InvalidDate,
}

/// The three fields of an `add` command, each trimmed.
#[derive(Clone, Debug)]
pub struct AddFields {
    pub title: String,
    pub description: String,
    pub due_date: String,
}

/// The fields of an `add` command, in the model.
pub struct Fields {
    pub title: Seq<char>,
    pub description: Seq<char>,
    pub due_date: Seq<char>,
}

/// A new task, in the model.
pub struct Task {
    pub title: Seq<char>,
    pub description: Seq<char>,
    pub due_date: Date,
}

impl View for AddFields {
    type V = Fields;

    open spec fn view(&self) -> Fields {
        Fields { title: self.title@, description: self.description@, due_date: self.due_date@ }
    }
}

impl View for NewTask {
    type V = Task;

    open spec fn view(&self) -> Task {
        Task { title: self.title@, description: self.description@, due_date: self.due_date }
    }
}

/// The fields of the command `input`.
///
/// Two backslashes in a row divide the command. It must fall into exactly
/// four parts: the command word, which is not looked at, then the title, the
/// description and the due date, each of which is trimmed.
pub open spec fn add_fields(input: Seq<char>) -> Option<Fields> {
    let parts = pieces(input, "\\\\"@);
    if parts.len() == 4 {
        Some(
            Fields {
                title: trimmed(parts[1]),
                description: trimmed(parts[2]),
                due_date: trimmed(parts[3]),
            },
        )
    } else {
        None
    }
}

/// The task that a command's fields and the reading of its due date give.
pub open spec fn new_task(fields: Option<Fields>, due: Option<Date>) -> Result<Task, AddError> {
    match fields {
        None => Err(AddError::InvalidFormat),
        Some(f) => match due {
            None => Err(AddError::InvalidDate),
            Some(d) => Ok(Task { title: f.title, description: f.description, due_date: d }),
        },
    }
}

/// What the command `input` gives: its fields, with the due date read as a
/// date.
pub open spec fn add_outcome(input: Seq<char>) -> Result<Task, AddError> {
    new_task(
        add_fields(input),
        match add_fields(input) {
            Some(f) => parsed_date(f.due_date),
            None => None,
        },
    )
}

/// The text of the file that holds `task`: three lines, with the due date
/// in the form that `date_text` gives.
pub open spec fn task_file_text(task: Task) -> Seq<char> {
    "Title: "@ + task.title + "\nDescription: "@ + task.description + "\nDue Date: "@ + date_text(
        task.due_date,
    ) + "\n"@
}

impl AddError {
    /// What the user is told of this error.
    pub open spec fn text(self) -> Seq<char> {
        match self {
            AddError::InvalidFormat =>
                "Invalid input format. Use: add \\\\<title>\\\\<description>\\\\<due_date>"@,
            AddError::InvalidDate => "Invalid date format. Use format: YYYY-MM-DD"@,
        }
    }

    /// What the user is told of this error.
    pub fn message(&self) -> (s: String)
        ensures
            s@ == self.text(),
    {
        match self {
            AddError::InvalidFormat => String::from_str(
                "Invalid input format. Use: add \\\\<title>\\\\<description>\\\\<due_date>",
            ),
            AddError::InvalidDate => String::from_str("Invalid date format. Use format: YYYY-MM-DD"),
        }
    }
}

/// The fields of the command `input`, as `add_fields` defines them.
pub fn split_add_command(input: &str) -> (r: Option<AddFields>)
    ensures
        match r {
            Some(fields) => add_fields(input@) == Some(fields@),
            None => add_fields(input@) is None,
        },
{
    let text = chars_of(input);
    let separator = chars_of("\\\\");
    let cuts = split(&text, &separator);
    assert(cut_out(text@, cuts@).len() == cuts.len());
    if cuts.len() != 4 {
        return None;
    }
    let ghost parts = pieces(text@, separator@);
    let (a1, b1) = trim_bounds(&text, cuts[1].0, cuts[1].1);
    let (a2, b2) = trim_bounds(&text, cuts[2].0, cuts[2].1);
    let (a3, b3) = trim_bounds(&text, cuts[3].0, cuts[3].1);
    proof {
        assert(parts[1] == cut_out(text@, cuts@)[1]);
        assert(parts[2] == cut_out(text@, cuts@)[2]);
        assert(parts[3] == cut_out(text@, cuts@)[3]);
    }
    Some(
        AddFields {
            title: String::from_str(input.substring_char(a1, b1)),
            description: String::from_str(input.substring_char(a2, b2)),
            due_date: String::from_str(input.substring_char(a3, b3)),
        },
    )
}

impl NewTask {
    /// The task that a command's fields and the reading of its due date
    /// give: no fields are `InvalidFormat`, no date is `InvalidDate`.
    pub fn from_fields(fields: Option<AddFields>, due: Option<Date>) -> (r: Result<
        NewTask,
        AddError,
    >)
        ensures
            match r {
                Ok(task) => new_task(fields_model(fields), due) == Ok::<Task, AddError>(task@),
                Err(e) => new_task(fields_model(fields), due) == Err::<Task, AddError>(e),
            },
    {
        match fields {
            None => Err(AddError::InvalidFormat),
            Some(f) => match due {
                None => Err(AddError::InvalidDate),
                Some(d) => Ok(NewTask { title: f.title, description: f.description, due_date: d }),
            },
        }
    }

    /// The text of the file that holds the task. Unless the title or the
    /// description holds a line feed, the due-date text of that file is
    /// the task's date as text.
    pub fn file_text(&self) -> (s: String)
        ensures
            s@ == task_file_text(self@),
            !self.title@.contains('\n') && !self.description@.contains('\n') ==> due_date_field(s@)
                == Some(date_text(self.due_date)),
    {
        proof {
            if !self.title@.contains('\n') && !self.description@.contains('\n') {
                lemma_stored_due_date(self@);
            }
        }
        let mut out = String::from_str("Title: ");
        out.append(self.title.as_str());
        out.append("\nDescription: ");
        out.append(self.description.as_str());
        out.append("\nDue Date: ");
        let due = self.due_date.to_text();
        out.append(due.as_str());
        out.append("\n");
        out
    }
}

/// The model of a command's fields, where it has them.
pub open spec fn fields_model(fields: Option<AddFields>) -> Option<Fields> {
    match fields {
        Some(f) => Some(f@),
        None => None,
    }
}

/// Reads the command `input` into the task that it asks to be added.
///
/// The command is refused with `InvalidFormat` where it does not fall into
/// its four parts, and with `InvalidDate` where its due date does not read
/// as a date; nothing else is checked. The date is read as `Date::parse`
/// reads it, so every valid `YYYY-MM-DD` text is accepted.
pub fn add_task(input: &str) -> (r: Result<NewTask, AddError>)
    ensures
        match r {
            Ok(task) => add_outcome(input@) == Ok::<Task, AddError>(task@),
            Err(e) => add_outcome(input@) == Err::<Task, AddError>(e),
        },
        r matches Ok(task) ==> task.due_date.is_valid(),
{
    let fields = split_add_command(input);
    let due = match &fields {
        Some(f) => Date::parse(f.due_date.as_str()),
        None => None,
    };
    NewTask::from_fields(fields, due)
}

/// What is stored of a task, the filter reads again: the due-date text of
/// the task's file is the task's date as text, as long as neither the title
/// nor the description holds a line feed.
pub proof fn lemma_stored_due_date(task: Task)
    requires
        !task.title.contains('\n'),
        !task.description.contains('\n'),
    ensures
        due_date_field(task_file_text(task)) == Some(date_text(task.due_date)),
{
    reveal_strlit("Title: ");
    reveal_strlit("Description: ");
    reveal_strlit("\nDescription: ");
    reveal_strlit("\nDue Date: ");
    reveal_strlit("Due Date:");
    reveal_strlit("\n");
    reveal_strlit(" ");
    let due = date_text(task.due_date);
    let first = "Title: "@ + task.title;
    let second = "Description: "@ + task.description;
    let field = " "@ + due;
    lemma_date_text_chars(task.due_date);
    assert forall|i: int| 0 <= i < field.len() implies field[i] != '\n' && field[i] != ':' by {
        if i > 0 {
            assert(field[i] == due[i - 1]);
            assert(is_date_char(due[i - 1]));
        }
    }
    assert forall|i: int| 0 <= i < first.len() implies first[i] != '\n' by {
        if i >= 7 {
            assert(first[i] == task.title[i - 7]);
        }
    }
    assert forall|i: int| 0 <= i < second.len() implies second[i] != '\n' by {
        if i >= 13 {
            assert(second[i] == task.description[i - 13]);
        }
    }
    assert(!"Due Date:"@.is_prefix_of(first)) by {
        if "Due Date:"@.is_prefix_of(first) {
            assert(first.subrange(0, 9)[0] == 'T');
        }
    }
    assert(!"Due Date:"@.is_prefix_of(second)) by {
        if "Due Date:"@.is_prefix_of(second) {
            assert(second.subrange(0, 9)[1] == 'e');
        }
    }
    lemma_due_date_on_third_line(first, second, field);
    assert(task_file_text(task) =~= first + "\n"@ + second + "\n"@ + "Due Date:"@ + field + "\n"@);
    assert(trimmed(field) == due) by {
        assert(is_date_char(due[0]) && is_date_char(due[due.len() - 1]));
        assert(field[1] == due[0] && field[field.len() - 1] == due[due.len() - 1]);
        lemma_trimmed_is(field, 1, field.len() as int);
        assert(field.subrange(1, field.len() as int) =~= due);
    }
}

} // verus!
