//! The listing of a task collection: a header, a rule, and one aligned row for
//! each task that is asked for.

use crate::chars::views;
use crate::deadline::{earlier, Deadline};
use crate::task::{is_display_deadline, tags_text, tags_view, task_views, Task, TaskView};
use crate::text::{
    add_text_effect, append_repeated, decimal, lemma_repeated_sum, numeral, repeated, text_width,
    width, with_effect, TextEffect,
};
use vstd::prelude::*;
use vstd::string::*;

verus! {

/// The blanks that stand between two columns, beyond what aligns them.
pub const COLUMN_PADDING: usize = 4;

/// The part of the rule that stands under the deadline column.
pub const DEADLINE_LENGTH: usize = 16;

/// What a listing is asked to show.
pub struct Query {
    /// Complete tasks too, and no column of ids.
    pub all: bool,
    /// Only tasks that are not complete and whose deadline has come.
    pub overdue: bool,
    /// Only tasks that carry each of these tags.
    pub wanted: Option<Seq<Seq<char>>>,
    /// The present instant.
    pub now: (i64, u32),
}

/// The widths of the columns of a listing.
pub struct Widths {
    pub id: usize,
    pub name: usize,
    pub tags: usize,
}

/// How a row is set off.
pub enum Style {
    /// As it is.
    Plain,
    /// In red: the deadline has passed.
    Late,
    /// Struck through, in green: the task is complete.
    Done,
}

/// Whether the deadline lies strictly before `now`.
pub open spec fn is_past(deadline: Option<(i64, u32)>, now: (i64, u32)) -> bool {
    deadline matches Some(d) && earlier(d, now)
}

/// Whether the deadline has come: there is one, and it does not lie after `now`.
pub open spec fn is_due(deadline: Option<(i64, u32)>, now: (i64, u32)) -> bool {
    deadline matches Some(d) && !earlier(now, d)
}

/// The tags that a task carries: none where it has no list of them.
pub open spec fn carried(task: TaskView) -> Seq<Seq<char>> {
    match task.tags {
        Some(list) => list,
        None => Seq::empty(),
    }
}

/// Whether each of `tags` is among `held`.
pub open spec fn holds_each(held: Seq<Seq<char>>, tags: Seq<Seq<char>>) -> bool {
    forall|i: int| 0 <= i < tags.len() ==> held.contains(#[trigger] tags[i])
}

/// Whether the task carries each of the wanted tags.
pub open spec fn has_tags(task: TaskView, wanted: Option<Seq<Seq<char>>>) -> bool {
    match wanted {
        Some(list) => holds_each(carried(task), list),
        None => true,
    }
}

/// Whether the task is among those that ids count: all of them where all are
/// asked for, else those that are not complete.
pub open spec fn listed(task: TaskView, all: bool) -> bool {
    all || !task.complete
}

/// Whether the task gets a row.
pub open spec fn shown(task: TaskView, query: Query) -> bool {
    &&& listed(task, query.all)
    &&& query.overdue ==> !task.complete && is_due(task.deadline, query.now)
    &&& has_tags(task, query.wanted)
}

/// How many of the first `at` tasks ids count: the id of the task at `at`.
pub open spec fn listed_before(tasks: Seq<TaskView>, all: bool, at: int) -> nat
    decreases at,
{
    if at <= 0 {
        0
    } else {
        listed_before(tasks, all, at - 1) + if listed(tasks[at - 1], all) {
            1nat
        } else {
            0nat
        }
    }
}

/// The style of a task's row.
pub open spec fn style_of(task: TaskView, now: (i64, u32)) -> Style {
    if task.complete {
        Style::Done
    } else if is_past(task.deadline, now) {
        Style::Late
    } else {
        Style::Plain
    }
}

/// A text set off in a style.
pub open spec fn styled(text: Seq<char>, style: Style) -> Seq<char> {
    match style {
        Style::Plain => text,
        Style::Late => with_effect(text, TextEffect::Red),
        Style::Done => with_effect(with_effect(text, TextEffect::StrikeThrough), TextEffect::Green),
    }
}

/// The greater of two widths.
pub open spec fn wider(a: usize, b: usize) -> usize {
    if a >= b {
        a
    } else {
        b
    }
}

/// The widths below which no column goes: those of the column titles.
pub open spec fn least_widths() -> Widths {
    Widths { id: 2, name: 4, tags: 4 }
}

/// The widths that hold what `widths` holds and the row of `task` with `id`.
pub open spec fn widened(widths: Widths, task: TaskView, id: nat) -> Widths {
    Widths {
        id: wider(widths.id, width(numeral(id))),
        name: wider(widths.name, width(task.name)),
        tags: wider(widths.tags, width(tags_text(task.tags))),
    }
}

/// The widths that hold the rows of the first `upto` tasks.
pub open spec fn widths_upto(tasks: Seq<TaskView>, query: Query, upto: int) -> Widths
    decreases upto,
{
    if upto <= 0 {
        least_widths()
    } else {
        let before = widths_upto(tasks, query, upto - 1);
        if shown(tasks[upto - 1], query) {
            widened(before, tasks[upto - 1], listed_before(tasks, query.all, upto - 1))
        } else {
            before
        }
    }
}

/// The widths of a listing: for each column the greatest width of what the
/// rows hold in it, and at least that of its title.
pub open spec fn column_widths(tasks: Seq<TaskView>, query: Query) -> Widths {
    widths_upto(tasks, query, tasks.len() as int)
}

/// By how much a column of width `column` is wider than what it holds.
pub open spec fn gap(column: usize, used: usize) -> nat {
    if column >= used {
        (column - used) as nat
    } else {
        0
    }
}

/// The blanks after a cell: what fills the column, and the padding.
pub open spec fn pad(column: usize, used: usize) -> Seq<char> {
    repeated(seq![' '], gap(column, used) + COLUMN_PADDING as nat)
}

/// The header of a listing: the titles of the columns.
pub open spec fn header(widths: Widths, all: bool) -> Seq<char> {
    let id = if all {
        Seq::empty()
    } else {
        seq!['I', 'd'] + pad(widths.id, 2)
    };
    id + seq!['N', 'a', 'm', 'e'] + pad(widths.name, 4) + seq!['T', 'a', 'g', 's'] + pad(
        widths.tags,
        4,
    ) + seq!['D', 'u', 'e']
}

/// The length of the rule under the header.
pub open spec fn rule_length(widths: Widths, all: bool) -> nat {
    let columns = widths.name as nat + widths.tags as nat + DEADLINE_LENGTH as nat + 2
        * COLUMN_PADDING as nat;
    if all {
        columns
    } else {
        columns + widths.id as nat + COLUMN_PADDING as nat
    }
}

/// The rule under the header: dashes over the width of the listing.
pub open spec fn rule(widths: Widths, all: bool) -> Seq<char> {
    repeated(seq!['-'], rule_length(widths, all))
}

/// The row of a task: its id, where ids are shown, its name, its tags and the
/// text of its deadline, each set off in the task's style and each but the last
/// filled up to its column and padded.
pub open spec fn row(
    task: TaskView,
    id: Option<nat>,
    deadline: Seq<char>,
    widths: Widths,
    now: (i64, u32),
) -> Seq<char> {
    let style = style_of(task, now);
    let tags = tags_text(task.tags);
    let id_cell = match id {
        Some(n) => styled(numeral(n), style) + pad(widths.id, width(numeral(n))),
        None => Seq::empty(),
    };
    id_cell + styled(task.name, style) + pad(widths.name, width(task.name)) + styled(tags, style)
        + pad(widths.tags, width(tags)) + styled(deadline, style)
}

/// The id that a row shows: none where all tasks are asked for.
pub open spec fn id_shown(all: bool, id: nat) -> Option<nat> {
    if all {
        None
    } else {
        Some(id)
    }
}

/// The rows of the first `upto` tasks, where `local[i]` is the text of the
/// deadline of the task at `i`.
pub open spec fn rows_upto(
    tasks: Seq<TaskView>,
    local: Seq<Seq<char>>,
    query: Query,
    widths: Widths,
    upto: int,
) -> Seq<Seq<char>>
    decreases upto,
{
    if upto <= 0 {
        Seq::empty()
    } else {
        let before = rows_upto(tasks, local, query, widths, upto - 1);
        if shown(tasks[upto - 1], query) {
            before.push(
                row(
                    tasks[upto - 1],
                    id_shown(query.all, listed_before(tasks, query.all, upto - 1)),
                    local[upto - 1],
                    widths,
                    query.now,
                ),
            )
        } else {
            before
        }
    }
}

/// The lines of a listing: the header, the rule, and the rows.
pub open spec fn listing(tasks: Seq<TaskView>, local: Seq<Seq<char>>, query: Query) -> Seq<
    Seq<char>,
> {
    let widths = column_widths(tasks, query);
    seq![header(widths, query.all), rule(widths, query.all)] + rows_upto(
        tasks,
        local,
        query,
        widths,
        tasks.len() as int,
    )
}

/// Whether `lines` is the listing of the tasks for some texts of their
/// deadlines, the text of each task that gets a row showing its deadline in
/// some time zone, or nothing where it has none.
pub open spec fn is_listing(lines: Seq<Seq<char>>, tasks: Seq<TaskView>, query: Query) -> bool {
    exists|local: Seq<Seq<char>>|
        {
            &&& local.len() == tasks.len()
            &&& forall|i: int|
                0 <= i < tasks.len() && shown(tasks[i], query) ==> is_display_deadline(
                    tasks[i].deadline,
                    #[trigger] local[i],
                )
            &&& lines == listing(tasks, local, query)
        }
}

/// The query that the arguments of a listing make.
pub open spec fn query_of(
    all: bool,
    overdue: bool,
    wanted: Option<Vec<String>>,
    now: Deadline,
) -> Query {
    Query { all, overdue, wanted: tags_view(wanted), now: now@ }
}

/// An id as a number, where there is one.
pub open spec fn id_view(id: Option<usize>) -> Option<nat> {
    match id {
        Some(n) => Some(n as nat),
        None => None,
    }
}

/// Whether `tags` holds the tag `tag`.
fn holds_tag(tags: &Vec<String>, tag: &String) -> (r: bool)
    ensures
        r == views(tags@).contains(tag@),
{
    let mut i: usize = 0;
    while i < tags.len()
        invariant
            i <= tags.len(),
            forall|k: int| 0 <= k < i ==> views(tags@)[k] != tag@,
        decreases tags.len() - i,
    {
        if tags[i] == *tag {
            assert(views(tags@)[i as int] == tag@);
            return true;
        }
        i += 1;
    }
    false
}

/// Whether the task carries each of the wanted tags.
pub fn carries_all(task: &Task, wanted: &Option<Vec<String>>) -> (r: bool)
    ensures
        r == has_tags(task@, tags_view(*wanted)),
{
    match wanted {
        None => true,
        Some(list) => {
            let mut i: usize = 0;
            while i < list.len()
                invariant
                    i <= list.len(),
                    *wanted == Some(*list),
                    forall|k: int|
                        0 <= k < i ==> carried(task@).contains(#[trigger] views(list@)[k]),
                decreases list.len() - i,
            {
                let held = match &task.tags {
                    Some(tags) => holds_tag(tags, &list[i]),
                    None => false,
                };
                if !held {
                    proof {
                        let asked = views(list@);
                        assert(asked[i as int] == list@[i as int]@);
                        assert(!carried(task@).contains(asked[i as int]));
                        assert(tags_view(*wanted) == Some(asked));
                    }
                    return false;
                }
                assert(views(list@)[i as int] == list@[i as int]@);
                i += 1;
            }
            true
        },
    }
}

/// Whether the task gets a row in a listing.
pub fn is_shown(
    task: &Task,
    all: bool,
    overdue: bool,
    wanted: &Option<Vec<String>>,
    now: &Deadline,
) -> (r: bool)
    ensures
        r == shown(task@, query_of(all, overdue, *wanted, *now)),
{
    if !all && task.complete {
        return false;
    }
    if overdue {
        if task.complete {
            return false;
        }
        let due = match &task.deadline {
            Some(d) => !now.is_before(d),
            None => false,
        };
        if !due {
            return false;
        }
    }
    carries_all(task, wanted)
}

/// The style of a task's row.
pub fn task_style(task: &Task, now: &Deadline) -> (style: Style)
    ensures
        style == style_of(task@, now@),
{
    if task.complete {
        Style::Done
    } else {
        let past = match &task.deadline {
            Some(d) => d.is_before(now),
            None => false,
        };
        if past {
            Style::Late
        } else {
            Style::Plain
        }
    }
}

/// Appends `text`, set off in `style`, to `out`.
pub fn append_styled(out: &mut String, text: &str, style: &Style)
    ensures
        final(out)@ == old(out)@ + styled(text@, *style),
{
    match style {
        Style::Plain => {
            out.append(text);
        },
        Style::Late => {
            let cell = add_text_effect(text, TextEffect::Red);
            out.append(cell.as_str());
        },
        Style::Done => {
            let struck = add_text_effect(text, TextEffect::StrikeThrough);
            let cell = add_text_effect(struck.as_str(), TextEffect::Green);
            out.append(cell.as_str());
        },
    }
}

/// Appends to `out` the blanks after a cell of width `used` in a column of
/// width `column`.
pub fn append_pad(out: &mut String, column: usize, used: usize)
    ensures
        final(out)@ == old(out)@ + pad(column, used),
{
    proof {
        reveal_strlit(" ");
        assert(" "@ =~= seq![' ']);
        lemma_repeated_sum(seq![' '], gap(column, used), COLUMN_PADDING as nat);
        assert(out@ + repeated(seq![' '], gap(column, used)) + repeated(
            seq![' '],
            COLUMN_PADDING as nat,
        ) =~= out@ + (repeated(seq![' '], gap(column, used)) + repeated(
            seq![' '],
            COLUMN_PADDING as nat,
        )));
    }
    let fill: usize = if column >= used {
        column - used
    } else {
        0
    };
    append_repeated(out, " ", fill);
    append_repeated(out, " ", COLUMN_PADDING);
}

/// The row of a task in a listing, given its id, where ids are shown, and the
/// text of its deadline.
pub fn format_row(
    task: &Task,
    id: Option<usize>,
    deadline: &str,
    widths: &Widths,
    now: &Deadline,
) -> (line: String)
    ensures
        line@ == row(task@, id_view(id), deadline@, *widths, now@),
{
    let style = task_style(task, now);
    let tags = task.tags_field();
    let mut line = String::new();
    match id {
        Some(n) => {
            let number = decimal(n);
            append_styled(&mut line, number.as_str(), &style);
            append_pad(&mut line, widths.id, text_width(number.as_str()));
            assert(line@ =~= styled(numeral(n as nat), style) + pad(
                widths.id,
                width(numeral(n as nat)),
            ));
        },
        None => {},
    }
    append_styled(&mut line, task.name.as_str(), &style);
    append_pad(&mut line, widths.name, text_width(task.name.as_str()));
    append_styled(&mut line, tags.as_str(), &style);
    append_pad(&mut line, widths.tags, text_width(tags.as_str()));
    append_styled(&mut line, deadline, &style);
    line
}

/// The header of a listing.
pub fn header_line(widths: &Widths, all: bool) -> (line: String)
    ensures
        line@ == header(*widths, all),
{
    proof {
        reveal_strlit("Id");
        reveal_strlit("Name");
        reveal_strlit("Tags");
        reveal_strlit("Due");
        assert("Id"@ =~= seq!['I', 'd']);
        assert("Name"@ =~= seq!['N', 'a', 'm', 'e']);
        assert("Tags"@ =~= seq!['T', 'a', 'g', 's']);
        assert("Due"@ =~= seq!['D', 'u', 'e']);
    }
    let mut line = String::new();
    if !all {
        line.append("Id");
        append_pad(&mut line, widths.id, 2);
        assert(line@ =~= seq!['I', 'd'] + pad(widths.id, 2));
    }
    line.append("Name");
    append_pad(&mut line, widths.name, 4);
    line.append("Tags");
    append_pad(&mut line, widths.tags, 4);
    line.append("Due");
    line
}

/// The rule under the header of a listing.
pub fn rule_line(widths: &Widths, all: bool) -> (line: String)
    ensures
        line@ == rule(*widths, all),
{
    let ghost dash = seq!['-'];
    proof {
        reveal_strlit("-");
        assert("-"@ =~= dash);
    }
    let mut line = String::new();
    append_repeated(&mut line, "-", widths.name);
    assert(line@ =~= repeated(dash, widths.name as nat));
    append_repeated(&mut line, "-", widths.tags);
    proof {
        lemma_repeated_sum(dash, widths.name as nat, widths.tags as nat);
    }
    append_repeated(&mut line, "-", DEADLINE_LENGTH + 2 * COLUMN_PADDING);
    proof {
        lemma_repeated_sum(
            dash,
            widths.name as nat + widths.tags as nat,
            (DEADLINE_LENGTH + 2 * COLUMN_PADDING) as nat,
        );
    }
    if !all {
        let ghost columns = widths.name as nat + widths.tags as nat + DEADLINE_LENGTH as nat + 2
            * COLUMN_PADDING as nat;
        append_repeated(&mut line, "-", widths.id);
        proof {
            lemma_repeated_sum(dash, columns, widths.id as nat);
        }
        append_repeated(&mut line, "-", COLUMN_PADDING);
        proof {
            lemma_repeated_sum(dash, columns + widths.id as nat, COLUMN_PADDING as nat);
        }
    }
    line
}


/// The rows of the first tasks depend on the deadline texts of those tasks alone.
proof fn lemma_rows_same(
    tasks: Seq<TaskView>,
    a: Seq<Seq<char>>,
    b: Seq<Seq<char>>,
    query: Query,
    widths: Widths,
    upto: int,
)
    requires
        forall|k: int| 0 <= k < upto ==> a[k] == b[k],
    ensures
        rows_upto(tasks, a, query, widths, upto) == rows_upto(tasks, b, query, widths, upto),
    decreases upto,
{
    if upto > 0 {
        lemma_rows_same(tasks, a, b, query, widths, upto - 1);
    }
}

/// The greater of two widths.
fn max_width(a: usize, b: usize) -> (w: usize)
    ensures
        w == wider(a, b),
{
    if a >= b {
        a
    } else {
        b
    }
}

/// The widths of the columns of a listing of the tasks.
pub fn measure(
    tasks: &Vec<Task>,
    all: bool,
    overdue: bool,
    wanted: &Option<Vec<String>>,
    now: &Deadline,
) -> (widths: Widths)
    ensures
        widths == column_widths(task_views(tasks@), query_of(all, overdue, *wanted, *now)),
{
    let ghost plain = task_views(tasks@);
    let ghost query = query_of(all, overdue, *wanted, *now);
    let mut widths = Widths { id: 2, name: 4, tags: 4 };
    let mut id: usize = 0;
    let mut i: usize = 0;
    while i < tasks.len()
        invariant
            i <= tasks.len(),
            id <= i,
            plain == task_views(tasks@),
            query == query_of(all, overdue, *wanted, *now),
            id == listed_before(plain, all, i as int),
            widths == widths_upto(plain, query, i as int),
        decreases tasks.len() - i,
    {
        let task = &tasks[i];
        assert(plain[i as int] == task@);
        if is_shown(task, all, overdue, wanted, now) {
            let number = decimal(id);
            let tags = task.tags_field();
            widths =
            Widths {
                id: max_width(widths.id, text_width(number.as_str())),
                name: max_width(widths.name, text_width(task.name.as_str())),
                tags: max_width(widths.tags, text_width(tags.as_str())),
            };
        }
        if all || !task.complete {
            id += 1;
        }
        i += 1;
    }
    widths
}

/// The lines of a listing of the tasks: the header, the rule, and a row for
/// each task that is asked for, its deadline in the machine's time zone.
pub fn render_listing(
    tasks: &Vec<Task>,
    all: bool,
    overdue: bool,
    wanted: &Option<Vec<String>>,
    now: &Deadline,
) -> (lines: Vec<String>)
    ensures
        is_listing(views(lines@), task_views(tasks@), query_of(all, overdue, *wanted, *now)),
{
    let ghost plain = task_views(tasks@);
    let ghost query = query_of(all, overdue, *wanted, *now);
    let widths = measure(tasks, all, overdue, wanted, now);
    let mut lines: Vec<String> = Vec::new();
    lines.push(header_line(&widths, all));
    lines.push(rule_line(&widths, all));
    let ghost top = seq![header(widths, all), rule(widths, all)];
    let ghost mut local: Seq<Seq<char>> = Seq::empty();
    let mut id: usize = 0;
    let mut i: usize = 0;
    assert(views(lines@) =~= top + Seq::<Seq<char>>::empty());
    while i < tasks.len()
        invariant
            i <= tasks.len(),
            id <= i,
            plain == task_views(tasks@),
            query == query_of(all, overdue, *wanted, *now),
            top == seq![header(widths, all), rule(widths, all)],
            id == listed_before(plain, all, i as int),
            local.len() == i,
            forall|k: int|
                0 <= k < i && shown(plain[k], query) ==> is_display_deadline(
                    plain[k].deadline,
                    #[trigger] local[k],
                ),
            views(lines@) == top + rows_upto(plain, local, query, widths, i as int),
        decreases tasks.len() - i,
    {
        let task = &tasks[i];
        assert(plain[i as int] == task@);
        let ghost before = local;
        let ghost rows = rows_upto(plain, before, query, widths, i as int);
        let ghost printed = views(lines@);
        if is_shown(task, all, overdue, wanted, now) {
            let deadline = task.local_deadline();
            let shown_id = if all {
                None
            } else {
                Some(id)
            };
            let line = format_row(task, shown_id, deadline.as_str(), &widths, now);
            lines.push(line);
            proof {
                local = before.push(deadline@);
                lemma_rows_same(plain, before, local, query, widths, i as int);
                assert(id_view(shown_id) == id_shown(all, id as nat));
                assert(views(lines@) =~= printed.push(line@));
                assert(top + rows.push(line@) =~= (top + rows).push(line@));
            }
        } else {
            proof {
                local = before.push(Seq::empty());
                lemma_rows_same(plain, before, local, query, widths, i as int);
            }
        }
        if all || !task.complete {
            id += 1;
        }
        i += 1;
    }
    assert(views(lines@) == listing(plain, local, query));
    lines
}

} // verus!
