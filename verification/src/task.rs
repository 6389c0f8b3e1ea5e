//! The task record and its one-line text form.

use crate::chars::{
    chars_of, is_blank, is_space, is_whitespace, join, join_strings, pipes, span_text, split_on,
    split_spans, strip, strip_pipes_span, texts, trim, trim_span, views, Span,
};
use crate::deadline::{is_local_text, rfc3339_text, rfc3339_value, Deadline};
use crate::round_trip::{lemma_decode_encode, storable};
use chrono::format::ParseError;
use std::str::ParseBoolError;
use vstd::prelude::*;
use vstd::string::*;

verus! {

/// The error that std reports for a text that is neither `true` nor `false`.
#[verifier::external_type_specification]
#[verifier::external_body]
pub struct ExParseBoolError(ParseBoolError);

/// One task: what to do, under which labels, by when, and whether it is done.
#[derive(Debug, PartialEq, Eq)]
pub struct Task {
    pub name: String,
    pub tags: Option<Vec<String>>,
    pub deadline: Option<Deadline>,
    pub complete: bool,
}

/// A task as plain values: its texts as character sequences, its deadline as
/// seconds and nanoseconds since the Unix epoch.
pub struct TaskView {
    pub name: Seq<char>,
    pub tags: Option<Seq<Seq<char>>>,
    pub deadline: Option<(i64, u32)>,
    pub complete: bool,
}

/// The tags as character sequences.
pub open spec fn tags_view(tags: Option<Vec<String>>) -> Option<Seq<Seq<char>>> {
    match tags {
        Some(list) => Some(views(list@)),
        None => None,
    }
}

/// The deadline as seconds and nanoseconds.
pub open spec fn deadline_view(deadline: Option<Deadline>) -> Option<(i64, u32)> {
    match deadline {
        Some(d) => Some(d@),
        None => None,
    }
}

impl View for Task {
    type V = TaskView;

    open spec fn view(&self) -> TaskView {
        TaskView {
            name: self.name@,
            tags: tags_view(self.tags),
            deadline: deadline_view(self.deadline),
            complete: self.complete,
        }
    }
}

/// The tasks as plain values, in order.
pub open spec fn task_views(tasks: Seq<Task>) -> Seq<TaskView> {
    Seq::new(tasks.len(), |i: int| tasks[i]@)
}

/// What stands between two tags in a line: a comma and a space.
pub open spec fn tag_separator() -> Seq<char> {
    seq![',', ' ']
}

/// The text of the tags field: the tags joined, or nothing.
pub open spec fn tags_text(tags: Option<Seq<Seq<char>>>) -> Seq<char> {
    match tags {
        Some(list) => join(list, tag_separator()),
        None => Seq::empty(),
    }
}

/// The text of the completion field.
pub open spec fn bool_text(b: bool) -> Seq<char> {
    if b {
        seq!['t', 'r', 'u', 'e']
    } else {
        seq!['f', 'a', 'l', 's', 'e']
    }
}

/// The text of the deadline field: the RFC 3339 timestamp, or nothing.
pub open spec fn deadline_text(deadline: Option<(i64, u32)>) -> Seq<char> {
    match deadline {
        Some(instant) => rfc3339_text(instant.0, instant.1),
        None => Seq::empty(),
    }
}

/// A line of four fields: each between pipes, with one space on either side.
pub open spec fn line_of(
    name: Seq<char>,
    tags: Seq<char>,
    complete: Seq<char>,
    deadline: Seq<char>,
) -> Seq<char> {
    seq!['|', ' '] + name + seq![' ', '|', ' '] + tags + seq![' ', '|', ' '] + complete + seq![
        ' ',
        '|',
        ' ',
    ] + deadline + seq![' ', '|']
}

/// The line under which a task is stored.
pub open spec fn encode(task: TaskView) -> Seq<char> {
    line_of(
        task.name,
        tags_text(task.tags),
        bool_text(task.complete),
        deadline_text(task.deadline),
    )
}

/// Whether `text` shows the deadline: in some time zone, as month/day/year
/// hour:minute:second, or as nothing where there is no deadline.
pub open spec fn is_display_deadline(deadline: Option<(i64, u32)>, text: Seq<char>) -> bool {
    match deadline {
        Some(instant) => is_local_text(instant, text),
        None => text == Seq::<char>::empty(),
    }
}

/// The line under which a task is shown, given the text of its deadline.
pub open spec fn display_form(task: TaskView, deadline: Seq<char>) -> Seq<char> {
    line_of(task.name, tags_text(task.tags), bool_text(task.complete), deadline)
}

/// Why a line is no task.
pub enum Flaw {
    /// The line does not have exactly four fields.
    Format,
    /// The completion field is neither `true` nor `false`.
    Boolean,
    /// The deadline field is neither empty nor an RFC 3339 timestamp.
    Timestamp,
}

/// The fields of a line: the line without white space and then pipes at either
/// end, cut at each pipe, each piece without white space at either end.
pub open spec fn fields(line: Seq<char>) -> Seq<Seq<char>> {
    let pieces = split_on(strip(trim(line), pipes()), seq!['|']);
    Seq::new(pieces.len(), |i: int| trim(pieces[i]))
}

/// The tags that a tags field holds: its pieces between separators, or none
/// where every piece is blank.
pub open spec fn decode_tags(field: Seq<char>) -> Option<Seq<Seq<char>>> {
    let pieces = split_on(field, tag_separator());
    if forall|i: int| 0 <= i < pieces.len() ==> is_blank(#[trigger] pieces[i]) {
        None
    } else {
        Some(pieces)
    }
}

/// The task that a line stands for, or the first reason why it stands for none.
pub open spec fn decode(line: Seq<char>) -> Result<TaskView, Flaw> {
    let f = fields(line);
    if f.len() != 4 {
        Err(Flaw::Format)
    } else if f[2] != bool_text(true) && f[2] != bool_text(false) {
        Err(Flaw::Boolean)
    } else if f[3].len() > 0 && rfc3339_value(f[3]) is None {
        Err(Flaw::Timestamp)
    } else {
        Ok(
            TaskView {
                name: f[0],
                tags: decode_tags(f[1]),
                deadline: if f[3].len() > 0 {
                    rfc3339_value(f[3])
                } else {
                    None
                },
                complete: f[2] == bool_text(true),
            },
        )
    }
}

/// Why a line could not be read as a task.
#[derive(Debug, PartialEq, Eq)]
pub enum ParseTaskError {
    /// The completion field is neither `true` nor `false`.
    ParseBool(ParseBoolError),
    /// The line does not have exactly four fields.
    InvalidTaskFormat,
    /// The deadline field is neither empty nor an RFC 3339 timestamp.
    InvalidDateFormat(ParseError),
}

impl ParseTaskError {
    /// The flaw that the error reports.
    pub open spec fn flaw(self) -> Flaw {
        match self {
            ParseTaskError::ParseBool(_) => Flaw::Boolean,
            ParseTaskError::InvalidTaskFormat => Flaw::Format,
            ParseTaskError::InvalidDateFormat(_) => Flaw::Timestamp,
        }
    }

    /// What the error says of a line with too few or too many fields.
    pub open spec fn format_message() -> Seq<char> {
        "provided string could not be converted to a task"@
    }

    /// The error in words.
    pub fn message(&self) -> (text: String)
        ensures
            self is InvalidTaskFormat ==> text@ == Self::format_message(),
    {
        match self {
            ParseTaskError::ParseBool(e) => bool_error_text(e),
            ParseTaskError::InvalidDateFormat(e) => timestamp_error_text(e),
            ParseTaskError::InvalidTaskFormat => String::from_str(
                "provided string could not be converted to a task",
            ),
        }
    }
}

/// Calls `str::parse::<bool>`. Trusted: it accepts the texts `true` and `false`,
/// gives the value that the text names, and reports an error for any other text.
#[verifier::external_body]
fn parse_bool(text: &str) -> (r: Result<bool, ParseBoolError>)
    ensures
        r matches Ok(b) ==> text@ == bool_text(b),
        r is Err ==> text@ != bool_text(true) && text@ != bool_text(false),
{
    text.parse::<bool>()
}

/// Calls `ToString::to_string` on std's error for a text that is no boolean.
#[verifier::external_body]
fn bool_error_text(e: &ParseBoolError) -> String {
    e.to_string()
}

/// Calls `ToString::to_string` on chrono's error for a text that is no timestamp.
#[verifier::external_body]
fn timestamp_error_text(e: &ParseError) -> String {
    e.to_string()
}

/// Whether the span covers nothing but white space.
fn span_is_blank(chars: &Vec<char>, span: Span) -> (b: bool)
    requires
        span.within(chars@),
    ensures
        b == is_blank(span.of(chars@)),
{
    let mut i = span.lo;
    while i < span.hi
        invariant
            span.lo <= i <= span.hi <= chars.len(),
            forall|k: int| span.lo <= k < i ==> is_space(#[trigger] chars@[k]),
        decreases span.hi - i,
    {
        if !is_whitespace(chars[i]) {
            assert(span.of(chars@)[i - span.lo] == chars@[i as int]);
            return false;
        }
        i += 1;
    }
    assert forall|k: int| 0 <= k < span.of(chars@).len() implies is_space(
        #[trigger] span.of(chars@)[k],
    ) by {
        assert(span.of(chars@)[k] == chars@[span.lo + k]);
    }
    true
}

/// The tags that the tags field at `field` holds.
fn tags_at(line: &str, chars: &Vec<char>, field: Span) -> (tags: Option<Vec<String>>)
    requires
        chars@ == line@,
        field.within(chars@),
    ensures
        tags_view(tags) == decode_tags(field.of(line@)),
{
    let separator: Vec<char> = vec![',', ' '];
    assert(separator@ =~= tag_separator());
    let spans = split_spans(chars, field, &separator);
    let ghost pieces = split_on(field.of(chars@), tag_separator());
    assert(texts(spans@, chars@).len() == spans.len());
    let mut all_blank = true;
    let mut list: Vec<String> = Vec::new();
    let mut i: usize = 0;
    while i < spans.len()
        invariant
            i <= spans.len(),
            chars@ == line@,
            pieces == texts(spans@, chars@),
            forall|k: int| 0 <= k < spans.len() ==> (#[trigger] spans[k]).within(chars@),
            all_blank == (forall|k: int| 0 <= k < i ==> is_blank(#[trigger] pieces[k])),
            views(list@) == pieces.take(i as int),
        decreases spans.len() - i,
    {
        let span = spans[i];
        assert(pieces[i as int] == span.of(chars@));
        if !span_is_blank(chars, span) {
            all_blank = false;
        }
        let ghost before = views(list@);
        list.push(span_text(line, span));
        assert(views(list@) =~= before.push(pieces[i as int]));
        assert(pieces.take(i + 1) =~= pieces.take(i as int).push(pieces[i as int]));
        i += 1;
    }
    assert(pieces.take(i as int) =~= pieces);
    if all_blank {
        None
    } else {
        Some(list)
    }
}

impl Default for Task {
    /// A task with an empty name, without tags and deadline, not complete.
    fn default() -> (task: Task)
        ensures
            task@ == (TaskView {
                name: Seq::empty(),
                tags: None,
                deadline: None,
                complete: false,
            }),
    {
        Task { name: String::new(), tags: None, deadline: None, complete: false }
    }
}

impl Task {
    /// A task that is not complete.
    pub fn new(name: String, tags: Option<Vec<String>>, deadline: Option<Deadline>) -> (task: Task)
        ensures
            task == (Task { name, tags, deadline, complete: false }),
    {
        Task { name, tags, deadline, complete: false }
    }

    /// Marks the task as done. Nothing else changes.
    pub fn complete(&mut self)
        ensures
            *final(self) == (Task { complete: true, ..*old(self) }),
    {
        self.complete = true;
    }

    /// The text of the tags field.
    pub fn tags_field(&self) -> (text: String)
        ensures
            text@ == tags_text(self@.tags),
    {
        proof {
            reveal_strlit(", ");
            assert(", "@ =~= tag_separator());
        }
        match &self.tags {
            Some(list) => join_strings(list, ", "),
            None => String::new(),
        }
    }

    /// The deadline as it is stored: an RFC 3339 timestamp in UTC, or nothing.
    pub fn export_deadline(&self) -> (text: String)
        ensures
            text@ == deadline_text(self@.deadline),
    {
        match &self.deadline {
            Some(d) => d.to_rfc3339(),
            None => String::new(),
        }
    }

    /// The deadline as it is shown: month/day/year hour:minute:second in the
    /// machine's time zone, or nothing.
    pub fn local_deadline(&self) -> (text: String)
        ensures
            is_display_deadline(self@.deadline, text@),
    {
        match &self.deadline {
            Some(d) => d.to_local_text(),
            None => String::new(),
        }
    }

    /// The task's line with `deadline` as the text of its last field.
    pub fn line_with(&self, deadline: &str) -> (line: String)
        ensures
            line@ == display_form(self@, deadline@),
    {
        proof {
            reveal_strlit("| ");
            reveal_strlit(" | ");
            reveal_strlit(" |");
            reveal_strlit("true");
            reveal_strlit("false");
            assert("| "@ =~= seq!['|', ' ']);
            assert(" | "@ =~= seq![' ', '|', ' ']);
            assert(" |"@ =~= seq![' ', '|']);
            assert("true"@ =~= bool_text(true));
            assert("false"@ =~= bool_text(false));
        }
        let tags = self.tags_field();
        let mut line = String::from_str("| ");
        line.append(self.name.as_str());
        line.append(" | ");
        line.append(tags.as_str());
        line.append(" | ");
        line.append(if self.complete { "true" } else { "false" });
        line.append(" | ");
        line.append(deadline);
        line.append(" |");
        line
    }

    /// Reads a task from its line. The line must have exactly four fields; of
    /// the flaws that a line has, the first in the order of `Flaw` is reported.
    pub fn from_str(s: &str) -> (r: Result<Task, ParseTaskError>)
        ensures
            match r {
                Ok(task) => decode(s@) == Ok::<TaskView, Flaw>(task@),
                Err(e) => decode(s@) == Err::<TaskView, Flaw>(e.flaw()),
            },
            fields(s@).len() != 4 <==> r == Err::<Task, ParseTaskError>(
                ParseTaskError::InvalidTaskFormat,
            ),
    {
        let chars = chars_of(s);
        let whole = Span { lo: 0, hi: chars.len() };
        assert(whole.of(chars@) =~= s@);
        let body = strip_pipes_span(&chars, trim_span(&chars, whole));
        let pipe: Vec<char> = vec!['|'];
        assert(pipe@ =~= seq!['|']);
        let spans = split_spans(&chars, body, &pipe);
        let ghost pieces = split_on(strip(trim(s@), pipes()), seq!['|']);
        assert(texts(spans@, chars@) == pieces);
        assert(spans.len() == pieces.len());
        if spans.len() != 4 {
            return Err(ParseTaskError::InvalidTaskFormat);
        }
        assert(pieces[0] == spans[0].of(chars@));
        assert(pieces[1] == spans[1].of(chars@));
        assert(pieces[2] == spans[2].of(chars@));
        assert(pieces[3] == spans[3].of(chars@));
        let name_at = trim_span(&chars, spans[0]);
        let tags_at_span = trim_span(&chars, spans[1]);
        let complete_at = trim_span(&chars, spans[2]);
        let deadline_at = trim_span(&chars, spans[3]);
        let complete_text = span_text(s, complete_at);
        let complete = parse_bool(complete_text.as_str());
        let deadline = if deadline_at.lo < deadline_at.hi {
            let deadline_text = span_text(s, deadline_at);
            Some(Deadline::parse_from_rfc3339(deadline_text.as_str()))
        } else {
            None
        };
        assert(bool_text(true) != bool_text(false)) by {
            assert(bool_text(true).len() != bool_text(false).len());
        }
        let name = span_text(s, name_at);
        let tags = tags_at(s, &chars, tags_at_span);
        Self::from_parts(name, tags, complete, deadline)
    }

    /// The task of a line with exactly four fields, given its name, its tags,
    /// and what reading its completion field and its deadline field, if that is
    /// not empty, gave: the task with these parts, or the error of the
    /// completion field, or else that of the deadline field.
    pub fn from_parts(
        name: String,
        tags: Option<Vec<String>>,
        complete: Result<bool, ParseBoolError>,
        deadline: Option<Result<Deadline, ParseError>>,
    ) -> (r: Result<Task, ParseTaskError>)
        ensures
            r == match complete {
                Err(e) => Err::<Task, ParseTaskError>(ParseTaskError::ParseBool(e)),
                Ok(complete) => match deadline {
                    Some(Err(e)) => Err(ParseTaskError::InvalidDateFormat(e)),
                    Some(Ok(d)) => Ok(Task { name, tags, deadline: Some(d), complete }),
                    None => Ok(Task { name, tags, deadline: None, complete }),
                },
            },
    {
        let complete = match complete {
            Ok(complete) => complete,
            Err(e) => {
                return Err(ParseTaskError::ParseBool(e));
            },
        };
        let deadline = match deadline {
            Some(Ok(d)) => Some(d),
            Some(Err(e)) => {
                return Err(ParseTaskError::InvalidDateFormat(e));
            },
            None => None,
        };
        Ok(Task { name, tags, deadline, complete })
    }

    /// The line under which the task is stored. Where the task is storable,
    /// reading the line gives the task back.
    pub fn to_line(&self) -> (line: String)
        ensures
            line@ == encode(self@),
            storable(self@) ==> decode(line@) == Ok::<TaskView, Flaw>(self@),
    {
        proof {
            if storable(self@) {
                lemma_decode_encode(self@);
            }
        }
        let deadline = self.export_deadline();
        self.line_with(deadline.as_str())
    }

    /// The line under which the task is shown: as it is stored, but with the
    /// deadline in the machine's time zone.
    pub fn display_line(&self) -> (line: String)
        ensures
            exists|deadline: Seq<char>|
                is_display_deadline(self@.deadline, deadline) && line@ == #[trigger] display_form(
                    self@,
                    deadline,
                ),
            self.deadline is None ==> line@ == encode(self@),
    {
        let deadline = self.local_deadline();
        self.line_with(deadline.as_str())
    }
}

} // verus!
