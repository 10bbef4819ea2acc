//! The task filter: which of the files of a directory listing are task
//! files, what their due dates are, and which of them a filter mode reports
//! on a given day.

use crate::date::{parsed_date, Date};
use crate::text::{
    chars_of, contains, contains_text, find_char, lemma_position_of, lemma_position_of_is,
    matches_at, occurs_at, position_of, trim_bounds, trimmed,
};
use vstd::prelude::*;
use vstd::string::{StrSliceExecFns, StringExecFns};

verus! {

/// Which tasks a scan reports.
#[derive(Clone, Copy, Debug, PartialEq, Eq, Structural)]
pub enum FilterMode {
    /// Tasks that are due: marked complete, or due today or earlier.
    Due,
    /// Tasks that are still to come: marked incomplete, or due after today.
    Upcoming,
}

/// Why a scan gave no report.
#[derive(Clone, Copy, Debug, PartialEq, Eq, Structural)]
pub enum FilterError {
    /// The working directory could not be listed.
    DirectoryReadError,
    /// The filter mode is neither `due` nor `upcoming`.
    InvalidFilterOption,
}

/// One entry of the directory listing.
#[derive(Clone, Debug)]
pub struct TaskFile {
    /// The entry's file name, without any directory.
    pub name: String,
    /// The entry's path, as it is shown to the user.
    pub path: String,
    /// The file's whole text, or `None` where it could not be read.
    pub contents: Option<String>,
}

/// A reported task, in the model.
pub struct Listing {
    pub title: Seq<char>,
    pub path: Seq<char>,
}

/// A reported task.
#[derive(Clone, Debug)]
pub struct TaskListing {
    /// The file name without its extension.
    pub title: String,
    /// The file's path.
    pub path: String,
}

impl View for TaskListing {
    type V = Listing;

    open spec fn view(&self) -> Listing {
        Listing { title: self.title@, path: self.path@ }
    }
}

/// The outcome of a scan that ran.
#[derive(Clone, Debug)]
pub struct FilterReport {
    /// The mode the scan ran under.
    pub mode: FilterMode,
    /// The reported tasks, in the order of the directory listing.
    pub tasks: Vec<TaskListing>,
}

/// The model of each task of `tasks`.
pub open spec fn listings(tasks: Seq<TaskListing>) -> Seq<Listing> {
    tasks.map_values(|t: TaskListing| t@)
}

/// The text of each line of `lines`.
pub open spec fn texts(lines: Seq<String>) -> Seq<Seq<char>> {
    lines.map_values(|l: String| l@)
}

impl FilterMode {
    /// The word that names this mode.
    pub open spec fn name(self) -> Seq<char> {
        match self {
            FilterMode::Due => "due"@,
            FilterMode::Upcoming => "upcoming"@,
        }
    }

    /// The mode that `word` names, if any: `due` or `upcoming`, written
    /// exactly so.
    pub open spec fn named(word: Seq<char>) -> Option<FilterMode> {
        if word == "due"@ {
            Some(FilterMode::Due)
        } else if word == "upcoming"@ {
            Some(FilterMode::Upcoming)
        } else {
            None
        }
    }

    /// Reads a filter mode. Any word but `due` and `upcoming` is refused
    /// with `InvalidFilterOption`.
    pub fn parse(word: &str) -> (r: Result<FilterMode, FilterError>)
        ensures
            r == match FilterMode::named(word@) {
                Some(mode) => Ok::<FilterMode, FilterError>(mode),
                None => Err(FilterError::InvalidFilterOption),
            },
    {
        let w = chars_of(word);
        let due = chars_of("due");
        let upcoming = chars_of("upcoming");
        if w.len() == due.len() && matches_at(&w, &due, 0) {
            assert(w@.subrange(0, w@.len() as int) =~= w@);
            Ok(FilterMode::Due)
        } else if w.len() == upcoming.len() && matches_at(&w, &upcoming, 0) {
            assert(w@.subrange(0, w@.len() as int) =~= w@);
            Ok(FilterMode::Upcoming)
        } else {
            assert(w@.subrange(0, w@.len() as int) =~= w@);
            Err(FilterError::InvalidFilterOption)
        }
    }

    /// The word that names this mode, as text.
    pub fn word(&self) -> (s: &'static str)
        ensures
            s@ == self.name(),
    {
        match self {
            FilterMode::Due => "due",
            FilterMode::Upcoming => "upcoming",
        }
    }
}

impl FilterError {
    /// What the user is told of this error.
    pub open spec fn text(self) -> Seq<char> {
        match self {
            FilterError::DirectoryReadError => "Failed to read task directory."@,
            FilterError::InvalidFilterOption => "Invalid filter option."@,
        }
    }

    /// What the user is told of this error.
    pub fn message(&self) -> (s: String)
        ensures
            s@ == self.text(),
    {
        match self {
            FilterError::DirectoryReadError => String::from_str("Failed to read task directory."),
            FilterError::InvalidFilterOption => String::from_str("Invalid filter option."),
        }
    }
}

/// Whether `name` is the name of a task file: it ends in `.txt`, with at
/// least one character before the dot. So the extension is exactly `txt`,
/// in lower case; a name that is `.txt` and nothing more has no extension.
pub open spec fn is_task_file_name(name: Seq<char>) -> bool {
    name.len() > ".txt"@.len() && occurs_at(name, ".txt"@, name.len() - ".txt"@.len())
}

/// The title of the task in the file `name`: the name without its `.txt`.
pub open spec fn title_of(name: Seq<char>) -> Seq<char> {
    name.take(name.len() - ".txt"@.len())
}

/// Decides `is_task_file_name`.
pub fn is_task_file(name: &str) -> (b: bool)
    ensures
        b == is_task_file_name(name@),
{
    let n = chars_of(name);
    let ext = chars_of(".txt");
    n.len() > ext.len() && matches_at(&n, &ext, n.len() - ext.len())
}

/// The title of the task in the file `name`, or `None` where `name` is not
/// the name of a task file.
pub fn task_title(name: &str) -> (r: Option<String>)
    ensures
        match r {
            Some(title) => is_task_file_name(name@) && title@ == title_of(name@),
            None => !is_task_file_name(name@),
        },
{
    let n = chars_of(name);
    let ext = chars_of(".txt");
    if n.len() > ext.len() && matches_at(&n, &ext, n.len() - ext.len()) {
        let stem = name.substring_char(0, n.len() - ext.len());
        Some(String::from_str(stem))
    } else {
        None
    }
}

/// Whether a line of `text` starts at `at`: at the very start, or right
/// behind a line feed.
pub open spec fn is_line_start(text: Seq<char>, at: int) -> bool {
    0 <= at <= text.len() && (at == 0 || text[at - 1] == '\n')
}

/// Whether the line of `text` that starts at `at` is a due-date line: it
/// begins with `Due Date:`.
pub open spec fn is_due_line(text: Seq<char>, at: int) -> bool {
    is_line_start(text, at) && occurs_at(text, "Due Date:"@, at)
}

/// Whether `text` has a due-date line.
pub open spec fn has_due_line(text: Seq<char>) -> bool {
    exists|at: int| is_due_line(text, at)
}

/// The start of the first due-date line among the lines of `text` from the
/// one that starts at `from`.
pub open spec fn due_line_from(text: Seq<char>, from: int) -> Option<int>
    decreases text.len() - from,
{
    if from < 0 || from > text.len() {
        None
    } else if occurs_at(text, "Due Date:"@, from) {
        Some(from)
    } else {
        let end = position_of(text, '\n', from);
        if from <= end < text.len() {
            due_line_from(text, end + 1)
        } else {
            None
        }
    }
}

/// Where the due-date field of the due-date line at `at` ends: at the next
/// `:` behind the one of `Due Date:`, or at the end of the line, whichever
/// comes first.
pub open spec fn due_field_end(text: Seq<char>, at: int) -> int {
    let start = at + "Due Date:"@.len();
    let colon = position_of(text, ':', start);
    let line_end = position_of(text, '\n', start);
    if colon <= line_end {
        colon
    } else {
        line_end
    }
}

/// The due-date text of a task file: of its first due-date line, what
/// stands between `Due Date:` and the next `:` or the end of the line,
/// trimmed. `None` where the file has no due-date line.
///
/// A carriage return before the line feed counts as white space, so it is
/// trimmed away with the rest.
pub open spec fn due_date_field(text: Seq<char>) -> Option<Seq<char>> {
    match due_line_from(text, 0) {
        Some(at) => Some(
            trimmed(text.subrange(at + "Due Date:"@.len(), due_field_end(text, at))),
        ),
        None => None,
    }
}

/// The due date of a task file: its due-date text as a date, where it has
/// one and it reads as a date.
pub open spec fn due_date_of(text: Seq<char>) -> Option<Date> {
    match due_date_field(text) {
        Some(field) => parsed_date(field),
        None => None,
    }
}

/// From a line start on, `due_line_from` gives the first due-date line, and
/// `None` exactly when no line from there on is one.
pub proof fn lemma_due_line_from(text: Seq<char>, from: int)
    requires
        is_line_start(text, from),
    ensures
        match due_line_from(text, from) {
            Some(at) => from <= at && is_due_line(text, at) && forall|i: int|
                from <= i < at ==> !is_due_line(text, i),
            None => forall|i: int| from <= i ==> !is_due_line(text, i),
        },
    decreases text.len() - from,
{
    if !occurs_at(text, "Due Date:"@, from) {
        let end = position_of(text, '\n', from);
        lemma_position_of(text, '\n', from);
        if end < text.len() {
            lemma_due_line_from(text, end + 1);
            assert forall|i: int| from < i <= end implies !is_due_line(text, i) by {
                assert(text[i - 1] != '\n');
            }
        } else {
            assert forall|i: int| from < i implies !is_due_line(text, i) by {
                if i <= text.len() {
                    assert(text[i - 1] != '\n');
                }
            }
        }
    }
}

/// A task file has a due-date text exactly when it has a due-date line.
pub proof fn lemma_due_date_field(text: Seq<char>)
    ensures
        due_date_field(text) is Some <==> has_due_line(text),
{
    lemma_due_line_from(text, 0);
    if due_line_from(text, 0) is Some {
        assert(is_due_line(text, due_line_from(text, 0).unwrap()));
    }
}

/// The bounds in `text` of its due-date text, not yet trimmed.
fn due_field_bounds(text: &Vec<char>) -> (r: Option<(usize, usize)>)
    ensures
        match r {
            Some((start, end)) => due_line_from(text@, 0) matches Some(at) && start == at
                + "Due Date:"@.len() && end == due_field_end(text@, at) && start <= end
                <= text.len(),
            None => due_line_from(text@, 0) is None,
        },
{
    let prefix = chars_of("Due Date:");
    let mut from: usize = 0;
    loop
        invariant
            from <= text.len(),
            prefix@ == "Due Date:"@,
            due_line_from(text@, 0) == due_line_from(text@, from as int),
        decreases text.len() - from,
    {
        if matches_at(text, &prefix, from) {
            let start = from + prefix.len();
            let colon = find_char(text, ':', start);
            let line_end = find_char(text, '\n', start);
            let end = if colon <= line_end {
                colon
            } else {
                line_end
            };
            return Some((start, end));
        }
        let end = find_char(text, '\n', from);
        if end >= text.len() {
            return None;
        }
        from = end + 1;
    }
}

/// The due-date text of a task file, as `due_date_field` defines it.
pub fn due_date_text(contents: &str) -> (r: Option<String>)
    ensures
        match r {
            Some(field) => due_date_field(contents@) == Some(field@),
            None => due_date_field(contents@) is None,
        },
{
    let text = chars_of(contents);
    match due_field_bounds(&text) {
        Some((start, end)) => {
            let (a, b) = trim_bounds(&text, start, end);
            Some(String::from_str(contents.substring_char(a, b)))
        },
        None => None,
    }
}

/// The due date of a task file, as `due_date_of` defines it: `None` where
/// the file has no due-date line, or its due-date text does not read as a
/// date.
pub fn task_due_date(contents: &str) -> (r: Option<Date>)
    ensures
        r == due_date_of(contents@),
        r matches Some(d) ==> d.is_valid(),
{
    match due_date_text(contents) {
        Some(field) => Date::parse(field.as_str()),
        None => None,
    }
}

/// Whether `mode` reports a task file with the text `contents` and the due
/// date `due` on the day `today`.
///
/// The tag and the date are alternatives, not joint conditions: `Due`
/// reports every file that holds `[Complete]`, however far off its date, and
/// every file whose date is `today` or earlier; `Upcoming` reports every
/// file that holds `[Incomplete]`, and every file whose date is after
/// `today`. A file can be reported under both modes.
pub open spec fn matches_mode(mode: FilterMode, contents: Seq<char>, due: Date, today: Date) -> bool {
    match mode {
        FilterMode::Due => contains_text(contents, "[Complete]"@) || due.on_or_before(today),
        FilterMode::Upcoming => contains_text(contents, "[Incomplete]"@) || due.after(today),
    }
}

/// Whether `mode` reports `file` on the day `today`: it is a task file, it
/// could be read, it has a due date, and the mode's rule holds of it.
pub open spec fn is_reported(mode: FilterMode, file: TaskFile, today: Date) -> bool {
    &&& is_task_file_name(file.name@)
    &&& file.contents matches Some(contents)
    &&& due_date_of(contents@) matches Some(due)
    &&& matches_mode(mode, contents@, due, today)
}

/// What is reported of `file`, where it is reported.
pub open spec fn report_of(mode: FilterMode, file: TaskFile, today: Date) -> Option<Listing> {
    if is_reported(mode, file, today) {
        Some(Listing { title: title_of(file.name@), path: file.path@ })
    } else {
        None
    }
}

/// The tasks that `mode` reports of the listing `files` on the day `today`:
/// one for each reported file, in the order of the listing.
pub open spec fn reported(mode: FilterMode, files: Seq<TaskFile>, today: Date) -> Seq<Listing> {
    files.filter_map(|file: TaskFile| report_of(mode, file, today))
}

/// What a scan gives: an unknown mode is refused before anything else, then
/// a directory that could not be listed; else the reported tasks.
pub open spec fn filter_outcome(
    word: Seq<char>,
    listing: Option<Seq<TaskFile>>,
    today: Date,
) -> Result<(FilterMode, Seq<Listing>), FilterError> {
    match FilterMode::named(word) {
        None => Err(FilterError::InvalidFilterOption),
        Some(mode) => match listing {
            None => Err(FilterError::DirectoryReadError),
            Some(files) => Ok((mode, reported(mode, files, today))),
        },
    }
}

/// Decides `matches_mode`.
pub fn matches_filter(mode: FilterMode, contents: &str, due: Date, today: Date) -> (b: bool)
    ensures
        b == matches_mode(mode, contents@, due, today),
{
    let text = chars_of(contents);
    match mode {
        FilterMode::Due => {
            let tag = chars_of("[Complete]");
            contains(&text, &tag) || due.is_on_or_before(&today)
        },
        FilterMode::Upcoming => {
            let tag = chars_of("[Incomplete]");
            contains(&text, &tag) || due.is_after(&today)
        },
    }
}

/// What `mode` reports of `file` on the day `today`, if anything.
pub fn report_task(mode: FilterMode, file: &TaskFile, today: Date) -> (r: Option<TaskListing>)
    ensures
        match r {
            Some(task) => report_of(mode, *file, today) == Some(task@),
            None => report_of(mode, *file, today) is None,
        },
{
    let title = match task_title(file.name.as_str()) {
        Some(title) => title,
        None => {
            return None;
        },
    };
    let contents = match &file.contents {
        Some(contents) => contents,
        None => {
            return None;
        },
    };
    match task_due_date(contents.as_str()) {
        Some(due) => {
            if matches_filter(mode, contents.as_str(), due, today) {
                Some(TaskListing { title, path: file.path.clone() })
            } else {
                None
            }
        },
        None => None,
    }
}

/// The tasks that `mode` reports of the listing `files` on the day `today`.
pub fn select_tasks(mode: FilterMode, files: &Vec<TaskFile>, today: Date) -> (tasks: Vec<
    TaskListing,
>)
    ensures
        listings(tasks@) == reported(mode, files@, today),
{
    let mut tasks: Vec<TaskListing> = Vec::new();
    let mut i: usize = 0;
    while i < files.len()
        invariant
            i <= files.len(),
            listings(tasks@) == reported(mode, files@.take(i as int), today),
        decreases files.len() - i,
    {
        let ghost before = tasks@;
        proof {
            files@.lemma_filter_map_take_succ(|file: TaskFile| report_of(mode, file, today), i as int);
        }
        match report_task(mode, &files[i], today) {
            Some(task) => {
                tasks.push(task);
                assert(listings(tasks@) =~= listings(before) + seq![task@]);
            },
            None => {
                assert(listings(before) + Seq::<Listing>::empty() =~= listings(before));
            },
        }
        i = i + 1;
    }
    assert(files@.take(files.len() as int) =~= files@);
    tasks
}

/// Scans a directory listing on the day `today`.
///
/// `filter_type` is the mode as the user wrote it, `listing` the entries of
/// the working directory in the order in which the directory gave them, or
/// `None` where it could not be listed. A mode that is neither `due` nor
/// `upcoming` fails with `InvalidFilterOption`, whatever the listing holds;
/// then a missing listing fails with `DirectoryReadError`. Otherwise the
/// report holds the reported tasks in the order of the listing. Entries that
/// are no task files, files that could not be read and files without a due
/// date are passed over in silence.
pub fn filter_tasks_on(filter_type: &str, listing: Option<&Vec<TaskFile>>, today: Date) -> (r:
    Result<FilterReport, FilterError>)
    ensures
        match r {
            Ok(report) => filter_outcome(filter_type@, listing_model(listing), today) == Ok::<
                (FilterMode, Seq<Listing>),
                FilterError,
            >((report.mode, listings(report.tasks@))),
            Err(e) => filter_outcome(filter_type@, listing_model(listing), today) == Err::<
                (FilterMode, Seq<Listing>),
                FilterError,
            >(e),
        },
        FilterMode::named(filter_type@) is None ==> r == Err::<FilterReport, FilterError>(
            FilterError::InvalidFilterOption,
        ),
{
    let mode = match FilterMode::parse(filter_type) {
        Ok(mode) => mode,
        Err(e) => {
            return Err(e);
        },
    };
    match listing {
        None => Err(FilterError::DirectoryReadError),
        Some(files) => Ok(FilterReport { mode, tasks: select_tasks(mode, files, today) }),
    }
}

/// The entries of a listing, or `None` where there is none.
pub open spec fn listing_model(listing: Option<&Vec<TaskFile>>) -> Option<Seq<TaskFile>> {
    match listing {
        Some(files) => Some(files@),
        None => None,
    }
}

/// Scans a directory listing on the local date of this moment.
///
/// What comes back is what `filter_tasks_on` gives for some day that
/// exists: the day is read from the clock. An unknown mode and a missing
/// listing fail as they do there, whatever the day.
pub fn filter_tasks(filter_type: &str, listing: Option<&Vec<TaskFile>>) -> (r: Result<
    FilterReport,
    FilterError,
>)
    ensures
        exists|today: Date|
            today.is_valid() && match r {
                Ok(report) => #[trigger] filter_outcome(
                    filter_type@,
                    listing_model(listing),
                    today,
                ) == Ok::<(FilterMode, Seq<Listing>), FilterError>(
                    (report.mode, listings(report.tasks@)),
                ),
                Err(e) => filter_outcome(filter_type@, listing_model(listing), today) == Err::<
                    (FilterMode, Seq<Listing>),
                    FilterError,
                >(e),
            },
        FilterMode::named(filter_type@) is None ==> r == Err::<FilterReport, FilterError>(
            FilterError::InvalidFilterOption,
        ),
        FilterMode::named(filter_type@) is Some && listing is None ==> r == Err::<
            FilterReport,
            FilterError,
        >(FilterError::DirectoryReadError),
        FilterMode::named(filter_type@) is Some && listing is Some ==> r is Ok,
{
    let today = Date::today();
    filter_tasks_on(filter_type, listing, today)
}

/// The notice that `mode` reported nothing.
pub open spec fn nothing_found(mode: FilterMode) -> Seq<char> {
    "No "@ + mode.name() + " tasks found."@
}

/// Two lines for each task, in order: `Title: ` with its title, then
/// `Path: ` with its path.
pub open spec fn task_lines(tasks: Seq<Listing>) -> Seq<Seq<char>> {
    Seq::new(
        2 * tasks.len(),
        |k: int|
            if k % 2 == 0 {
                "Title: "@ + tasks[k / 2].title
            } else {
                "Path: "@ + tasks[k / 2].path
            },
    )
}

/// What a report shows: the lines of its tasks, or the one notice that
/// nothing was found.
pub open spec fn report_lines(mode: FilterMode, tasks: Seq<Listing>) -> Seq<Seq<char>> {
    if tasks.len() == 0 {
        seq![nothing_found(mode)]
    } else {
        task_lines(tasks)
    }
}

impl FilterReport {
    /// The lines that show this report to the user.
    pub fn lines(&self) -> (out: Vec<String>)
        ensures
            texts(out@) == report_lines(self.mode, listings(self.tasks@)),
    {
        let mut out: Vec<String> = Vec::new();
        if self.tasks.len() == 0 {
            let mut notice = String::from_str("No ");
            notice.append(self.mode.word());
            notice.append(" tasks found.");
            out.push(notice);
            assert(texts(out@) =~= seq![nothing_found(self.mode)]);
            return out;
        }
        let mut i: usize = 0;
        while i < self.tasks.len()
            invariant
                i <= self.tasks.len(),
                texts(out@) == task_lines(listings(self.tasks@).take(i as int)),
            decreases self.tasks.len() - i,
        {
            let ghost before = out@;
            let task = &self.tasks[i];
            out.push(String::from_str("Title: ").concat(task.title.as_str()));
            out.push(String::from_str("Path: ").concat(task.path.as_str()));
            proof {
                let all = listings(self.tasks@);
                let done = task_lines(all.take(i as int));
                let next = task_lines(all.take(i + 1));
                assert(all.take(i as int).len() == i && all.take(i + 1).len() == i + 1);
                assert(texts(before).len() == 2 * i);
                assert(texts(out@).len() == next.len());
                assert forall|k: int| 0 <= k < next.len() implies texts(out@)[k] == next[k] by {
                    if k < 2 * i {
                        assert(texts(out@)[k] == texts(before)[k]);
                        assert(texts(before)[k] == done[k]);
                        assert(all.take(i as int)[k / 2] == all.take(i + 1)[k / 2]);
                    } else {
                        assert(all.take(i + 1)[k / 2] == task@);
                    }
                }
                assert(texts(out@) =~= next);
            }
            i = i + 1;
        }
        assert(listings(self.tasks@).take(self.tasks.len() as int) =~= listings(self.tasks@));
        out
    }
}

/// A file that is no task file is never reported, whatever it holds: one
/// without a dot in its name, one that ends in `.md`, and any other whose
/// name does not end in `.txt` behind some other character.
pub proof fn lemma_other_files_never_reported(mode: FilterMode, file: TaskFile, today: Date)
    ensures
        !is_task_file_name(file.name@) ==> !is_reported(mode, file, today),
        !file.name@.contains('.') ==> !is_reported(mode, file, today),
        occurs_at(file.name@, ".md"@, file.name@.len() - ".md"@.len()) ==> !is_reported(
            mode,
            file,
            today,
        ),
{
    let name = file.name@;
    reveal_strlit(".txt");
    reveal_strlit(".md");
    if is_task_file_name(name) {
        let at = name.len() - 4;
        assert(name.subrange(at, at + 4)[0] == '.');
        assert(name[at] == '.');
        assert(name.subrange(at, at + 4)[3] == 't');
        if occurs_at(name, ".md"@, name.len() - 3) {
            assert(name.subrange(name.len() - 3, name.len() as int)[2] == 'd');
        }
    }
}

/// A task file without a due-date line is never reported, under either
/// mode and on any day.
pub proof fn lemma_no_due_line_never_reported(mode: FilterMode, file: TaskFile, today: Date)
    requires
        file.contents matches Some(contents) ==> !has_due_line(contents@),
    ensures
        !is_reported(mode, file, today),
{
    if file.contents is Some {
        lemma_due_date_field(file.contents.unwrap()@);
    }
}

/// A file that is not reported adds nothing to what a scan gives: the
/// listing with the file at `at` taken out reports the same tasks.
pub proof fn lemma_unreported_file_leaves_no_trace(
    mode: FilterMode,
    files: Seq<TaskFile>,
    at: int,
    today: Date,
)
    requires
        0 <= at < files.len(),
        !is_reported(mode, files[at], today),
    ensures
        reported(mode, files.remove(at), today) == reported(mode, files, today),
    decreases files.len(),
{
    let f = |file: TaskFile| report_of(mode, file, today);
    let shorter = files.remove(at);
    if at == files.len() - 1 {
        assert(shorter =~= files.drop_last());
    } else {
        lemma_unreported_file_leaves_no_trace(mode, files.drop_last(), at, today);
        assert(shorter.drop_last() =~= files.drop_last().remove(at));
        assert(shorter.last() == files.last());
    }
}

/// The due-date text of a file of three lines whose third is a due-date
/// line is that line's field, trimmed: `first` and `second` are lines that
/// are no due-date lines, and `field` holds neither a `:` nor a line feed.
pub proof fn lemma_due_date_on_third_line(first: Seq<char>, second: Seq<char>, field: Seq<char>)
    requires
        !first.contains('\n'),
        !second.contains('\n'),
        !"Due Date:"@.is_prefix_of(first),
        !"Due Date:"@.is_prefix_of(second),
        !field.contains('\n'),
        !field.contains(':'),
    ensures
        due_date_field(first + "\n"@ + second + "\n"@ + "Due Date:"@ + field + "\n"@) == Some(
            trimmed(field),
        ),
{
    reveal_strlit("\n");
    reveal_strlit("Due Date:");
    let nl = "\n"@;
    let prefix = "Due Date:"@;
    let text = first + nl + second + nl + prefix + field + nl;
    let second_at: int = first.len() as int + 1;
    let third_at: int = second_at + second.len() + 1;
    let start: int = third_at + 9;
    let line_end: int = start + field.len();
    assert(text.len() == line_end + 1);
    assert forall|i: int| 0 <= i < first.len() implies text[i] != '\n' by {
        assert(text[i] == first[i]);
    }
    assert forall|i: int| second_at <= i < second_at + second.len() implies text[i] != '\n' by {
        assert(text[i] == second[i - second_at]);
    }
    assert forall|i: int| start <= i < line_end implies text[i] != '\n' && text[i] != ':' by {
        assert(text[i] == field[i - start]);
    }
    assert(text[first.len() as int] == '\n');
    assert(text[third_at - 1] == '\n');
    assert(text[line_end] == '\n');
    // The first two lines are no due-date lines.
    assert(!occurs_at(text, prefix, 0)) by {
        if occurs_at(text, prefix, 0) {
            if first.len() < 9 {
                assert(text.subrange(0, 9)[first.len() as int] == '\n');
            } else {
                assert(first.subrange(0, 9) =~= text.subrange(0, 9));
            }
        }
    }
    assert(!occurs_at(text, prefix, second_at)) by {
        if occurs_at(text, prefix, second_at) {
            if second.len() < 9 {
                assert(text.subrange(second_at, second_at + 9)[second.len() as int] == '\n');
            } else {
                assert(second.subrange(0, 9) =~= text.subrange(second_at, second_at + 9));
            }
        }
    }
    assert(occurs_at(text, prefix, third_at)) by {
        assert(text.subrange(third_at, third_at + 9) =~= prefix);
    }
    assert(is_due_line(text, third_at));
    assert forall|i: int| 0 <= i < third_at implies !is_due_line(text, i) by {
        if i != 0 && i != second_at {
            assert(text[i - 1] != '\n');
        }
    }
    lemma_due_line_from(text, 0);
    assert(due_line_from(text, 0) == Some(third_at));
    // The field runs to the end of the line.
    lemma_position_of_is(text, '\n', start, line_end);
    lemma_position_of(text, ':', start);
    assert(position_of(text, ':', start) >= line_end);
    assert(due_field_end(text, third_at) == line_end);
    assert(text.subrange(start, line_end) =~= field);
}

} // verus!
