//! The task store over the text of a plain-text task file: one task per line.

use crate::chars::{chars_of, span_text, split_on, split_spans, texts, views, Span};
use crate::deadline::Deadline;
use crate::listing::{is_listing, query_of, render_listing};
use crate::order::{
    deadlines, lemma_sort_is_unique, rearranged, sort_by_deadline, sorted_from, stable_order,
};
use crate::task::{decode, encode, task_views, Flaw, ParseTaskError, Task, TaskView};
use std::path::PathBuf;
use vstd::prelude::*;
use vstd::string::*;

verus! {

/// A path in the file system, as std holds it.
#[verifier::external_type_specification]
#[verifier::external_body]
pub struct ExPathBuf(PathBuf);

/// An input or output failure, as std reports it.
#[verifier::external_type_specification]
#[verifier::external_body]
pub struct ExIoError(std::io::Error);

/// A task store, as a function on what it keeps: each operation takes the
/// text that the store holds and gives the text to hold after it, or what to
/// show. Reading and writing the text is left to the caller.
pub trait TaskTracker {
    type Err;

    /// Appends to `writer` what the store gains with a new task.
    fn add_task(
        &self,
        writer: &mut String,
        name: String,
        tags: Option<Vec<String>>,
        deadline: Option<Deadline>,
    );

    /// The text of the store after the task that `id` names is marked as complete.
    fn complete_task(&self, content: &str, id: usize) -> Result<String, Self::Err>;

    /// The text of the store after the task that `id` names is removed.
    fn delete_task(&self, content: &str, id: usize) -> Result<String, Self::Err>;

    /// The lines that show the tasks of the store.
    fn list_task(
        &self,
        content: &str,
        all: bool,
        overdue: bool,
        tags: Option<Vec<String>>,
        now: &Deadline,
    ) -> Result<Vec<String>, Self::Err>;
}

/// A task store that keeps its tasks in a text file, one line each.
/// It holds the path of the file and nothing of what the file holds.
pub struct PlainTextTaskTracker {
    file_path: PathBuf,
}

/// Why an operation of the store failed.
#[derive(Debug)]
pub enum PlainTextTaskTrackerError {
    /// The file could not be read or written.
    IO(std::io::Error),
    /// A line of the file is no task.
    InvalidTask(ParseTaskError),
}

/// A piece of a file that a line feed ends, without the carriage return
/// before the line feed, if there is one.
pub open spec fn line_body(piece: Seq<char>) -> Seq<char> {
    if piece.len() > 0 && piece.last() == '\r' {
        piece.drop_last()
    } else {
        piece
    }
}

/// The lines of a file: its pieces between line feeds, each without the
/// carriage return before its line feed, and what follows the last line feed
/// as it is.
pub open spec fn lines(content: Seq<char>) -> Seq<Seq<char>> {
    let pieces = split_on(content, seq!['\n']);
    Seq::new(
        pieces.len(),
        |i: int|
            if i + 1 < pieces.len() {
                line_body(pieces[i])
            } else {
                pieces[i]
            },
    )
}

/// The tasks that the lines stand for, empty lines left out, or the flaw of the
/// first line that stands for none.
pub open spec fn decode_lines(lines: Seq<Seq<char>>) -> Result<Seq<TaskView>, Flaw>
    decreases lines.len(),
{
    if lines.len() == 0 {
        Ok(Seq::empty())
    } else {
        match decode_lines(lines.drop_last()) {
            Err(flaw) => Err(flaw),
            Ok(tasks) => if lines.last().len() == 0 {
                Ok(tasks)
            } else {
                match decode(lines.last()) {
                    Err(flaw) => Err(flaw),
                    Ok(task) => Ok(tasks.push(task)),
                }
            },
        }
    }
}

/// The text of a file that holds the tasks: the line of each, each ended by a line feed.
pub open spec fn file_text(tasks: Seq<TaskView>) -> Seq<char>
    decreases tasks.len(),
{
    if tasks.len() == 0 {
        Seq::empty()
    } else {
        file_text(tasks.drop_last()) + encode(tasks.last()) + seq!['\n']
    }
}

/// How many of the first `at` tasks are not complete.
pub open spec fn open_before(tasks: Seq<Task>, at: int) -> nat
    decreases at,
{
    if at <= 0 {
        0
    } else {
        open_before(tasks, at - 1) + if tasks[at - 1].complete {
            0nat
        } else {
            1nat
        }
    }
}

/// How many of the tasks are not complete.
pub open spec fn open_count(tasks: Seq<Task>) -> nat {
    open_before(tasks, tasks.len() as int)
}

/// Whether the task at position `at` is the one that `id` names: it is not
/// complete, and `id` tasks before it are not complete.
pub open spec fn is_target(tasks: Seq<Task>, id: nat, at: int) -> bool {
    0 <= at < tasks.len() && !tasks[at].complete && open_before(tasks, at) == id
}

/// The position of the task that `id` names, if it names one.
pub open spec fn target(tasks: Seq<Task>, id: nat) -> Option<int> {
    if exists|at: int| is_target(tasks, id, at) {
        Some(choose|at: int| is_target(tasks, id, at))
    } else {
        None
    }
}

/// The collection with the task that `id` names marked as complete.
pub open spec fn with_completed(tasks: Seq<Task>, id: nat) -> Seq<Task> {
    match target(tasks, id) {
        Some(at) => tasks.update(at, Task { complete: true, ..tasks[at] }),
        None => tasks,
    }
}

/// The collection without the task that `id` names.
pub open spec fn with_deleted(tasks: Seq<Task>, id: nat) -> Seq<Task> {
    match target(tasks, id) {
        Some(at) => tasks.remove(at),
        None => tasks,
    }
}

/// Whether `tasks` is the collection that a file with the text `content` holds:
/// the tasks of its lines, sorted by deadline.
pub open spec fn loads_as(content: Seq<char>, tasks: Seq<Task>) -> bool {
    exists|loaded: Seq<Task>|
        decode_lines(lines(content)) == Ok::<Seq<TaskView>, Flaw>(task_views(loaded))
            && sorted_from(loaded, tasks)
}

/// The flaw for which a file with the text `content` cannot be loaded, if there is one.
pub open spec fn load_flaw(content: Seq<char>) -> Option<Flaw> {
    match decode_lines(lines(content)) {
        Ok(_) => None,
        Err(flaw) => Some(flaw),
    }
}

/// Calls `ToString::to_string` on std's input and output error.
#[verifier::external_body]
fn io_error_text(e: &std::io::Error) -> String {
    e.to_string()
}

impl PlainTextTaskTrackerError {
    /// The flaw of the line that the error reports, if it reports one.
    pub open spec fn flaw(self) -> Option<Flaw> {
        match self {
            PlainTextTaskTrackerError::IO(_) => None,
            PlainTextTaskTrackerError::InvalidTask(e) => Some(e.flaw()),
        }
    }

    /// The error in words.
    pub fn message(&self) -> (text: String)
        ensures
            self matches PlainTextTaskTrackerError::InvalidTask(e) && e is InvalidTaskFormat
                ==> text@ == ParseTaskError::format_message(),
    {
        match self {
            PlainTextTaskTrackerError::IO(e) => io_error_text(e),
            PlainTextTaskTrackerError::InvalidTask(e) => e.message(),
        }
    }
}

impl From<std::io::Error> for PlainTextTaskTrackerError {
    fn from(value: std::io::Error) -> (e: Self) {
        PlainTextTaskTrackerError::IO(value)
    }
}

impl vstd::std_specs::convert::FromSpecImpl<std::io::Error> for PlainTextTaskTrackerError {
    open spec fn obeys_from_spec() -> bool {
        true
    }

    open spec fn from_spec(value: std::io::Error) -> Self {
        PlainTextTaskTrackerError::IO(value)
    }
}

impl From<ParseTaskError> for PlainTextTaskTrackerError {
    fn from(value: ParseTaskError) -> (e: Self) {
        PlainTextTaskTrackerError::InvalidTask(value)
    }
}

impl vstd::std_specs::convert::FromSpecImpl<ParseTaskError> for PlainTextTaskTrackerError {
    open spec fn obeys_from_spec() -> bool {
        true
    }

    open spec fn from_spec(value: ParseTaskError) -> Self {
        PlainTextTaskTrackerError::InvalidTask(value)
    }
}

/// The count of incomplete tasks does not fall as the collection is walked.
pub proof fn lemma_open_before_grows(tasks: Seq<Task>, a: int, b: int)
    requires
        0 <= a <= b,
    ensures
        open_before(tasks, a) <= open_before(tasks, b),
    decreases b - a,
{
    if a < b {
        lemma_open_before_grows(tasks, a, b - 1);
    }
}

/// An index names at most one task.
pub proof fn lemma_target_unique(tasks: Seq<Task>, id: nat, a: int, b: int)
    requires
        is_target(tasks, id, a),
        is_target(tasks, id, b),
    ensures
        a == b,
{
    if a < b {
        lemma_open_before_grows(tasks, a + 1, b);
    } else if b < a {
        lemma_open_before_grows(tasks, b + 1, a);
    }
}

/// An index names a task exactly if it is less than the number of incomplete tasks.
pub proof fn lemma_target_exists(tasks: Seq<Task>, id: nat)
    ensures
        id < open_count(tasks) <==> exists|at: int| is_target(tasks, id, at),
{
    if id < open_count(tasks) {
        lemma_target_found(tasks, id, tasks.len() as int);
    }
    if exists|at: int| is_target(tasks, id, at) {
        let at = choose|at: int| is_target(tasks, id, at);
        lemma_open_before_grows(tasks, at + 1, tasks.len() as int);
    }
}

/// An index that is not less than the number of incomplete tasks names no
/// task: completing or deleting under it leaves the collection as it is.
pub proof fn lemma_bad_index_changes_nothing(tasks: Seq<Task>, id: nat)
    requires
        id >= open_count(tasks),
    ensures
        with_completed(tasks, id) == tasks,
        with_deleted(tasks, id) == tasks,
{
    lemma_target_exists(tasks, id);
}

/// The text of a file determines the collection that it holds: two
/// collections that the same text loads as hold the same tasks in the same order.
pub proof fn lemma_load_is_determined(content: Seq<char>, a: Seq<Task>, b: Seq<Task>)
    requires
        loads_as(content, a),
        loads_as(content, b),
    ensures
        task_views(a) == task_views(b),
{
    let read = decode_lines(lines(content));
    let from_a = choose|loaded: Seq<Task>|
        read == Ok::<Seq<TaskView>, Flaw>(task_views(loaded)) && sorted_from(loaded, a);
    let from_b = choose|loaded: Seq<Task>|
        read == Ok::<Seq<TaskView>, Flaw>(task_views(loaded)) && sorted_from(loaded, b);
    let order_a = choose|order: Seq<int>|
        stable_order(deadlines(from_a), order) && a == rearranged(from_a, order);
    let order_b = choose|order: Seq<int>|
        stable_order(deadlines(from_b), order) && b == rearranged(from_b, order);
    assert(task_views(from_a) == task_views(from_b));
    assert(deadlines(from_a) =~= deadlines(from_b)) by {
        assert forall|i: int| 0 <= i < from_a.len() implies from_a[i]@.deadline
            == from_b[i]@.deadline by {
            assert(task_views(from_a)[i] == task_views(from_b)[i]);
        }
    }
    lemma_sort_is_unique(deadlines(from_a), order_a, order_b);
    assert(task_views(a) =~= task_views(b)) by {
        assert forall|i: int| 0 <= i < a.len() implies a[i]@ == b[i]@ by {
            assert(task_views(from_a)[order_a[i]] == task_views(from_b)[order_a[i]]);
        }
    }
}

/// The flaw of some first lines is the flaw of all lines.
proof fn lemma_flaw_stays(lines: Seq<Seq<char>>, upto: int)
    requires
        0 <= upto <= lines.len(),
        decode_lines(lines.take(upto)) is Err,
    ensures
        decode_lines(lines) == decode_lines(lines.take(upto)),
    decreases lines.len() - upto,
{
    if upto < lines.len() {
        assert(lines.take(upto + 1).drop_last() =~= lines.take(upto));
        lemma_flaw_stays(lines, upto + 1);
    } else {
        assert(lines.take(upto) =~= lines);
    }
}

proof fn lemma_target_found(tasks: Seq<Task>, id: nat, upto: int)
    requires
        0 <= upto <= tasks.len(),
        id < open_before(tasks, upto),
    ensures
        exists|at: int| is_target(tasks, id, at),
    decreases upto,
{
    if id < open_before(tasks, upto - 1) {
        lemma_target_found(tasks, id, upto - 1);
    } else {
        assert(is_target(tasks, id, upto - 1));
    }
}

impl PlainTextTaskTracker {
    /// The path of the task file.
    pub closed spec fn path(self) -> PathBuf {
        self.file_path
    }

    /// A tracker over the file at `file_path`. The file is not touched.
    pub fn new<P: Into<PathBuf>>(file_path: P) -> (tracker: Self)
        ensures
            call_ensures(<P as Into<PathBuf>>::into, (file_path,), tracker.path()),
    {
        PlainTextTaskTracker { file_path: file_path.into() }
    }

    /// The path of the task file.
    pub fn file_path(&self) -> (path: &PathBuf)
        ensures
            *path == self.path(),
    {
        &self.file_path
    }

    /// Reads the tasks of a file from its text, one from each line that is not
    /// empty, and sorts them by deadline. The first line that is no task fails
    /// the whole.
    pub fn read_tasks_from_file(content: &str) -> (r: Result<Vec<Task>, ParseTaskError>)
        ensures
            match r {
                Ok(tasks) => loads_as(content@, tasks@),
                Err(e) => load_flaw(content@) == Some(e.flaw()),
            },
    {
        let chars = chars_of(content);
        let whole = Span { lo: 0, hi: chars.len() };
        assert(whole.of(chars@) =~= content@);
        let feed: Vec<char> = vec!['\n'];
        assert(feed@ =~= seq!['\n']);
        let spans = split_spans(&chars, whole, &feed);
        let ghost pieces = split_on(content@, seq!['\n']);
        let ghost all = lines(content@);
        assert(texts(spans@, chars@) == pieces);
        assert(spans.len() == pieces.len());
        let mut tasks: Vec<Task> = Vec::new();
        let mut i: usize = 0;
        assert(all.take(0) =~= Seq::<Seq<char>>::empty());
        assert(task_views(tasks@) =~= Seq::<TaskView>::empty());
        while i < spans.len()
            invariant
                i <= spans.len(),
                chars@ == content@,
                all == lines(content@),
                pieces == split_on(content@, seq!['\n']),
                texts(spans@, chars@) == pieces,
                spans.len() == pieces.len(),
                forall|k: int| 0 <= k < spans.len() ==> (#[trigger] spans[k]).within(chars@),
                decode_lines(all.take(i as int)) == Ok::<Seq<TaskView>, Flaw>(task_views(tasks@)),
            decreases spans.len() - i,
        {
            let piece = spans[i];
            assert(pieces[i as int] == piece.of(chars@));
            let line = if i + 1 < spans.len() && piece.lo < piece.hi && chars[piece.hi - 1] == '\r' {
                Span { lo: piece.lo, hi: (piece.hi - 1) as usize }
            } else {
                piece
            };
            proof {
                assert(piece.of(chars@).len() > 0 ==> piece.of(chars@).last() == chars@[piece.hi
                    - 1]);
                assert(line.of(chars@) =~= all[i as int]);
                assert(all.take(i + 1).drop_last() =~= all.take(i as int));
                assert(all.take(i + 1).last() == line.of(chars@));
            }
            if line.lo < line.hi {
                let text = span_text(content, line);
                match Task::from_str(text.as_str()) {
                    Ok(task) => {
                        let ghost before = task_views(tasks@);
                        tasks.push(task);
                        assert(task_views(tasks@) =~= before.push(task@));
                    },
                    Err(e) => {
                        proof {
                            lemma_flaw_stays(all, i + 1);
                            assert(all.take(all.len() as int) =~= all);
                        }
                        return Err(e);
                    },
                }
            }
            i += 1;
        }
        assert(all.take(i as int) =~= all);
        let ghost loaded = tasks@;
        let sorted = sort_by_deadline(tasks);
        assert(decode_lines(lines(content@)) == Ok::<Seq<TaskView>, Flaw>(task_views(loaded))
            && sorted_from(loaded, sorted@));
        Ok(sorted)
    }

    /// The position of the task that `id` names: the `id`-th, from 0, of those
    /// that are not complete.
    pub fn find_incomplete(tasks: &Vec<Task>, id: usize) -> (found: Option<usize>)
        ensures
            match found {
                Some(at) => is_target(tasks@, id as nat, at as int),
                None => forall|at: int| !is_target(tasks@, id as nat, at),
            },
            found is Some <==> id < open_count(tasks@),
    {
        let mut seen: usize = 0;
        let mut at: usize = 0;
        while at < tasks.len()
            invariant
                at <= tasks.len(),
                seen == open_before(tasks@, at as int),
                seen <= id,
                seen <= at,
                forall|k: int| 0 <= k < at ==> !is_target(tasks@, id as nat, k),
            decreases tasks.len() - at,
        {
            if !tasks[at].complete {
                if seen == id {
                    proof {
                        assert(is_target(tasks@, id as nat, at as int));
                        lemma_target_exists(tasks@, id as nat);
                    }
                    return Some(at);
                }
                seen += 1;
            }
            at += 1;
        }
        proof {
            lemma_target_exists(tasks@, id as nat);
        }
        None
    }

    /// Marks as complete the task that `id` names among the incomplete ones.
    /// An `id` that names none changes nothing.
    pub fn complete_task_logic(tasks: &mut Vec<Task>, id: usize)
        ensures
            forall|at: int|
                is_target(old(tasks)@, id as nat, at) ==> final(tasks)@ == old(tasks)@.update(
                    at,
                    Task { complete: true, ..old(tasks)@[at] },
                ),
            id >= open_count(old(tasks)@) ==> final(tasks)@ == old(tasks)@,
            final(tasks)@ == with_completed(old(tasks)@, id as nat),
    {
        match Self::find_incomplete(tasks, id) {
            Some(at) => {
                proof {
                    assert forall|other: int| is_target(tasks@, id as nat, other) implies other
                        == at by {
                        lemma_target_unique(tasks@, id as nat, other, at as int);
                    }
                }
                tasks[at].complete();
            },
            None => {},
        }
    }

    /// Removes the task that `id` names among the incomplete ones.
    /// An `id` that names none changes nothing.
    pub fn delete_task_logic(tasks: &mut Vec<Task>, id: usize)
        ensures
            forall|at: int|
                is_target(old(tasks)@, id as nat, at) ==> final(tasks)@ == old(tasks)@.remove(at),
            id >= open_count(old(tasks)@) ==> final(tasks)@ == old(tasks)@,
            final(tasks)@ == with_deleted(old(tasks)@, id as nat),
    {
        match Self::find_incomplete(tasks, id) {
            Some(at) => {
                proof {
                    assert forall|other: int| is_target(tasks@, id as nat, other) implies other
                        == at by {
                        lemma_target_unique(tasks@, id as nat, other, at as int);
                    }
                }
                let _ = tasks.remove(at);
            },
            None => {},
        }
    }

    /// Appends the line of each task, ended by a line feed, to `writer`.
    pub fn write_tasks_to_file(writer: &mut String, tasks: &Vec<Task>)
        ensures
            final(writer)@ == old(writer)@ + file_text(task_views(tasks@)),
    {
        let ghost before = writer@;
        let mut i: usize = 0;
        assert(task_views(tasks@).take(0) =~= Seq::<TaskView>::empty());
        assert(before + Seq::<char>::empty() =~= before);
        while i < tasks.len()
            invariant
                i <= tasks.len(),
                writer@ == before + file_text(task_views(tasks@).take(i as int)),
            decreases tasks.len() - i,
        {
            proof {
                let done = task_views(tasks@).take(i as int);
                let next = task_views(tasks@).take(i + 1);
                assert(next.drop_last() =~= done);
                assert(next.last() == tasks@[i as int]@);
                reveal_strlit("\n");
                assert("\n"@ =~= seq!['\n']);
                assert(before + file_text(done) + encode(tasks@[i as int]@) + seq!['\n'] =~= before
                    + (file_text(done) + encode(tasks@[i as int]@) + seq!['\n']));
            }
            let line = tasks[i].to_line();
            writer.append(line.as_str());
            writer.append("\n");
            i += 1;
        }
        assert(task_views(tasks@).take(i as int) =~= task_views(tasks@));
    }

    /// Appends the line of `task`, ended by a line feed, to `writer`.
    /// What `writer` held stays as it was.
    pub fn add_task_logic(writer: &mut String, task: Task)
        ensures
            final(writer)@ == old(writer)@ + encode(task@) + seq!['\n'],
    {
        proof {
            reveal_strlit("\n");
            assert("\n"@ =~= seq!['\n']);
        }
        let line = task.to_line();
        writer.append(line.as_str());
        writer.append("\n");
    }
}


impl TaskTracker for PlainTextTaskTracker {
    type Err = PlainTextTaskTrackerError;

    /// Appends to `writer` what adding a task appends to the file: the line of a
    /// new task that is not complete, ended by a line feed.
    fn add_task(
        &self,
        writer: &mut String,
        name: String,
        tags: Option<Vec<String>>,
        deadline: Option<Deadline>,
    )
        ensures
            final(writer)@ == old(writer)@ + encode(
                (Task { name, tags, deadline, complete: false })@,
            ) + seq!['\n'],
    {
        let task = Task::new(name, tags, deadline);
        PlainTextTaskTracker::add_task_logic(writer, task);
    }

    /// The text of the file after the task that `id` names among the incomplete
    /// ones is marked as complete, given the text `content` of the file before.
    /// The file is written anew from the sorted collection; an `id` that names
    /// no task leaves the collection as it is.
    fn complete_task(&self, content: &str, id: usize) -> (r: Result<
        String,
        PlainTextTaskTrackerError,
    >)
        ensures
            match r {
                Ok(text) => exists|tasks: Seq<Task>|
                    loads_as(content@, tasks) && text@ == file_text(
                        task_views(with_completed(tasks, id as nat)),
                    ),
                Err(e) => e.flaw() is Some && load_flaw(content@) == e.flaw(),
            },
    {
        let mut tasks = match PlainTextTaskTracker::read_tasks_from_file(content) {
            Ok(tasks) => tasks,
            Err(e) => {
                return Err(PlainTextTaskTrackerError::from(e));
            },
        };
        let ghost loaded = tasks@;
        PlainTextTaskTracker::complete_task_logic(&mut tasks, id);
        let mut text = String::new();
        PlainTextTaskTracker::write_tasks_to_file(&mut text, &tasks);
        proof {
            let written = file_text(task_views(with_completed(loaded, id as nat)));
            assert(Seq::<char>::empty() + written =~= written);
            assert(loads_as(content@, loaded));
        }
        Ok(text)
    }

    /// The text of the file after the task that `id` names among the incomplete
    /// ones is removed, given the text `content` of the file before. The file is
    /// written anew from the sorted collection; an `id` that names no task
    /// leaves the collection as it is.
    fn delete_task(&self, content: &str, id: usize) -> (r: Result<
        String,
        PlainTextTaskTrackerError,
    >)
        ensures
            match r {
                Ok(text) => exists|tasks: Seq<Task>|
                    loads_as(content@, tasks) && text@ == file_text(
                        task_views(with_deleted(tasks, id as nat)),
                    ),
                Err(e) => e.flaw() is Some && load_flaw(content@) == e.flaw(),
            },
    {
        let mut tasks = match PlainTextTaskTracker::read_tasks_from_file(content) {
            Ok(tasks) => tasks,
            Err(e) => {
                return Err(PlainTextTaskTrackerError::from(e));
            },
        };
        let ghost loaded = tasks@;
        PlainTextTaskTracker::delete_task_logic(&mut tasks, id);
        let mut text = String::new();
        PlainTextTaskTracker::write_tasks_to_file(&mut text, &tasks);
        proof {
            let written = file_text(task_views(with_deleted(loaded, id as nat)));
            assert(Seq::<char>::empty() + written =~= written);
            assert(loads_as(content@, loaded));
        }
        Ok(text)
    }

    /// The lines of a listing of the tasks of a file with the text `content`:
    /// all tasks if `all` is set, else those that are not complete, each with
    /// its id; of these the overdue ones if `overdue` is set; of these the ones
    /// that carry each of `tags`, if there are any.
    fn list_task(
        &self,
        content: &str,
        all: bool,
        overdue: bool,
        tags: Option<Vec<String>>,
        now: &Deadline,
    ) -> (r: Result<Vec<String>, PlainTextTaskTrackerError>)
        ensures
            match r {
                Ok(lines) => exists|tasks: Seq<Task>|
                    loads_as(content@, tasks) && is_listing(
                        views(lines@),
                        task_views(tasks),
                        query_of(all, overdue, tags, *now),
                    ),
                Err(e) => e.flaw() is Some && load_flaw(content@) == e.flaw(),
            },
    {
        let tasks = match PlainTextTaskTracker::read_tasks_from_file(content) {
            Ok(tasks) => tasks,
            Err(e) => {
                return Err(PlainTextTaskTrackerError::from(e));
            },
        };
        let lines = render_listing(&tasks, all, overdue, &tags, now);
        assert(loads_as(content@, tasks@));
        Ok(lines)
    }
}

} // verus!
