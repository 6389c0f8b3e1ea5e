//! Reading a line that was written gives the task back.

use crate::chars::{
    free_of, is_blank, is_space, is_trimmed, join, lemma_join_split, lemma_pieces_are_free,
    lemma_split_first, lemma_split_join, lemma_split_single, lemma_strip_is_stretch, occurs_at,
    pipes, spaces, split_on, starts_with, strip, strip_end, strip_start, tight, trim,
};
use crate::deadline::{rfc3339_text, rfc3339_value};
use crate::task::{
    bool_text, deadline_text, decode, decode_tags, encode, fields, line_of, tag_separator,
    tags_text, Flaw, TaskView,
};
use vstd::prelude::*;

verus! {

/// Whether a text can stand in a line as a field and be read back as it is:
/// it holds no pipe, and neither starts nor ends with white space.
pub open spec fn plain_field(text: Seq<char>) -> bool {
    !text.contains('|') && is_trimmed(text)
}

/// Whether a list of tags can be read back from its field: there is a tag that
/// is not blank, no tag holds the separator, and the joined tags are a plain field.
pub open spec fn storable_list(list: Seq<Seq<char>>) -> bool {
    &&& exists|i: int| 0 <= i < list.len() && !is_blank(#[trigger] list[i])
    &&& forall|i: int| 0 <= i < list.len() ==> free_of(#[trigger] list[i], tag_separator())
    &&& plain_field(join(list, tag_separator()))
}

/// Whether the tags can be read back from their field.
pub open spec fn storable_tags(tags: Option<Seq<Seq<char>>>) -> bool {
    match tags {
        Some(list) => storable_list(list),
        None => true,
    }
}

/// Whether the RFC 3339 text of the instant is a plain field that is not
/// empty and stands for the instant.
pub open spec fn storable_instant(instant: (i64, u32)) -> bool {
    let text = rfc3339_text(instant.0, instant.1);
    text.len() > 0 && plain_field(text) && rfc3339_value(text) == Some(instant)
}

/// Whether the deadline can be read back from its field.
pub open spec fn storable_deadline(deadline: Option<(i64, u32)>) -> bool {
    match deadline {
        Some(instant) => storable_instant(instant),
        None => true,
    }
}

/// Whether a task can be read back from its line.
pub open spec fn storable(task: TaskView) -> bool {
    plain_field(task.name) && storable_tags(task.tags) && storable_deadline(task.deadline)
}

/// A field as it stands in a line: with a space on either side.
pub open spec fn padded(field: Seq<char>) -> Seq<char> {
    seq![' '] + field + seq![' ']
}

proof fn lemma_space_is_space()
    ensures
        is_space(' '),
        !is_space('|'),
        spaces()(' '),
        !spaces()('|'),
        pipes()('|'),
        !pipes()(' '),
{
    assert(' ' as u32 == 0x20);
    assert('|' as u32 == 0x7c);
}

proof fn lemma_trim_padded(field: Seq<char>)
    requires
        is_trimmed(field),
    ensures
        trim(padded(field)) == field,
{
    lemma_space_is_space();
    let s = padded(field);
    if field.len() == 0 {
        let one = s.skip(1);
        assert(one.len() == 1 && one[0] == ' ');
        assert(one.skip(1) =~= Seq::<char>::empty());
        assert(strip_start(one.skip(1), spaces()) == one.skip(1));
        assert(strip_start(one, spaces()) == strip_start(one.skip(1), spaces()));
        assert(strip_start(s, spaces()) == strip_start(one, spaces()));
        assert(field =~= Seq::<char>::empty());
    } else {
        let after = s.skip(1);
        assert(after =~= field + seq![' ']);
        assert(after[0] == field[0]);
        assert(strip_start(after, spaces()) == after);
        assert(strip_start(s, spaces()) == after);
        assert(after.drop_last() =~= field);
        assert(strip_end(field, spaces()) == field);
        assert(strip_end(after, spaces()) == strip_end(after.drop_last(), spaces()));
    }
}

proof fn lemma_strip_line(inner: Seq<char>)
    requires
        inner.len() > 0,
        inner[0] == ' ',
        inner.last() == ' ',
    ensures
        strip(trim(seq!['|'] + inner + seq!['|']), pipes()) == inner,
{
    lemma_space_is_space();
    let line = seq!['|'] + inner + seq!['|'];
    assert(line[0] == '|' && line.last() == '|');
    assert(strip_start(line, spaces()) == line);
    assert(strip_end(line, spaces()) == line);
    assert(trim(line) == line);
    let after = line.skip(1);
    assert(after =~= inner + seq!['|']);
    assert(strip_start(after, pipes()) == after);
    assert(strip_start(line, pipes()) == after);
    assert(after.drop_last() =~= inner);
    assert(strip_end(inner, pipes()) == inner);
    assert(strip_end(after, pipes()) == strip_end(after.drop_last(), pipes()));
}

proof fn lemma_tight_padded(field: Seq<char>)
    requires
        !field.contains('|'),
    ensures
        tight(padded(field), seq!['|']),
{
    let sep = seq!['|'];
    let part = padded(field);
    assert forall|k: int| 0 <= k < part.len() implies !#[trigger] starts_with(
        (part + sep).skip(k),
        sep,
    ) by {
        let tail = (part + sep).skip(k);
        if starts_with(tail, sep) {
            assert(tail.take(1)[0] == sep[0]);
            assert(tail[0] == part[k]);
            if 1 <= k <= field.len() {
                assert(part[k] == field[k - 1]);
                assert(field.contains('|'));
            }
        }
    }
}

proof fn lemma_tight_tag(tag: Seq<char>)
    requires
        free_of(tag, tag_separator()),
    ensures
        tight(tag, tag_separator()),
{
    let sep = tag_separator();
    assert forall|k: int| 0 <= k < tag.len() implies !#[trigger] starts_with(
        (tag + sep).skip(k),
        sep,
    ) by {
        let tail = (tag + sep).skip(k);
        if starts_with(tail, sep) {
            assert(tail.take(2)[0] == sep[0]);
            assert(tail.take(2)[1] == sep[1]);
            assert(tail[0] == (tag + sep)[k]);
            assert(tail[1] == (tag + sep)[k + 1]);
            if k + 1 < tag.len() {
                assert(tag.skip(k).take(2) =~= sep);
                assert(occurs_at(tag, sep, k));
            }
        }
    }
}

proof fn lemma_fields_of_line(
    name: Seq<char>,
    tags: Seq<char>,
    complete: Seq<char>,
    deadline: Seq<char>,
)
    requires
        plain_field(name),
        plain_field(tags),
        plain_field(complete),
        plain_field(deadline),
    ensures
        fields(line_of(name, tags, complete, deadline)) == seq![name, tags, complete, deadline],
{
    let pipe = seq!['|'];
    let line = line_of(name, tags, complete, deadline);
    let d = padded(deadline);
    let cd = padded(complete) + pipe + d;
    let tcd = padded(tags) + pipe + cd;
    let inner = padded(name) + pipe + tcd;
    assert(line =~= seq!['|'] + inner + seq!['|']);
    lemma_strip_line(inner);
    lemma_tight_padded(name);
    lemma_tight_padded(tags);
    lemma_tight_padded(complete);
    lemma_tight_padded(deadline);
    lemma_split_single(d, pipe);
    lemma_split_first(padded(complete), pipe, d);
    lemma_split_first(padded(tags), pipe, cd);
    lemma_split_first(padded(name), pipe, tcd);
    let pieces = split_on(inner, pipe);
    assert(pieces =~= seq![padded(name), padded(tags), padded(complete), d]);
    lemma_trim_padded(name);
    lemma_trim_padded(tags);
    lemma_trim_padded(complete);
    lemma_trim_padded(deadline);
    assert(fields(line) =~= seq![name, tags, complete, deadline]);
}

proof fn lemma_decode_tags(tags: Option<Seq<Seq<char>>>)
    requires
        storable_tags(tags),
    ensures
        decode_tags(tags_text(tags)) == tags,
{
    match tags {
        Some(list) => {
            assert forall|i: int| 0 <= i < list.len() implies tight(
                #[trigger] list[i],
                tag_separator(),
            ) by {
                lemma_tight_tag(list[i]);
            }
            lemma_split_join(list, tag_separator());
        },
        None => {
            let pieces = split_on(Seq::<char>::empty(), tag_separator());
            assert(pieces == seq![Seq::<char>::empty()]);
            assert forall|i: int| 0 <= i < pieces.len() implies is_blank(#[trigger] pieces[i]) by {}
        },
    }
}

proof fn lemma_bool_text_plain(b: bool)
    ensures
        plain_field(bool_text(b)),
        bool_text(true) != bool_text(false),
{
    lemma_space_is_space();
    let text = bool_text(b);
    assert('t' as u32 == 0x74);
    assert('e' as u32 == 0x65);
    assert('f' as u32 == 0x66);
    assert(!is_space(text[0]) && !is_space(text.last()));
    assert(!text.contains('|')) by {
        if text.contains('|') {
            let i = choose|i: int| 0 <= i < text.len() && text[i] == '|';
            assert(text[i] == '|');
        }
    }
    assert(bool_text(true).len() != bool_text(false).len());
}

/// Reading the line of a task gives the task back, for every task whose name
/// and tags hold no pipe and no white space at their ends, whose tags do not
/// hold the separator and are not all blank, and whose deadline is read back
/// from its RFC 3339 text.
pub proof fn lemma_decode_encode(task: TaskView)
    requires
        storable(task),
    ensures
        decode(encode(task)) == Ok::<TaskView, Flaw>(task),
{
    let tags = tags_text(task.tags);
    let complete = bool_text(task.complete);
    let deadline = deadline_text(task.deadline);
    lemma_bool_text_plain(task.complete);
    assert(plain_field(tags)) by {
        if task.tags is None {
            assert(!tags.contains('|'));
        }
    }
    assert(plain_field(deadline)) by {
        if task.deadline is None {
            assert(!deadline.contains('|'));
        }
    }
    lemma_fields_of_line(task.name, tags, complete, deadline);
    lemma_decode_tags(task.tags);
    let f = fields(encode(task));
    assert(f[0] == task.name && f[1] == tags && f[2] == complete && f[3] == deadline);
}


proof fn lemma_field_is_plain(piece: Seq<char>)
    requires
        free_of(piece, seq!['|']),
    ensures
        plain_field(trim(piece)),
{
    let field = trim(piece);
    lemma_strip_is_stretch(piece, spaces());
    let from = piece.len() - strip_start(piece, spaces()).len();
    assert(!field.contains('|')) by {
        if field.contains('|') {
            let i = choose|i: int| 0 <= i < field.len() && field[i] == '|';
            assert(piece[from + i] == '|');
            assert(piece.skip(from + i).take(1) =~= seq!['|']);
            assert(occurs_at(piece, seq!['|'], from + i));
        }
    }
}

/// A task that was read from a line is read back from its own line, given that
/// its deadline is read back from its RFC 3339 text.
pub proof fn lemma_decoded_is_storable(line: Seq<char>)
    requires
        decode(line) matches Ok(task) && storable_deadline(task.deadline),
    ensures
        decode(line) matches Ok(task) && storable(task) && decode(encode(task)) == decode(line),
{
    let task = decode(line)->Ok_0;
    let pipe = seq!['|'];
    let pieces = split_on(strip(trim(line), pipes()), pipe);
    let f = fields(line);
    lemma_pieces_are_free(strip(trim(line), pipes()), pipe);
    assert(f[0] == trim(pieces[0]) && f[1] == trim(pieces[1]));
    lemma_field_is_plain(pieces[0]);
    lemma_field_is_plain(pieces[1]);
    if task.tags is Some {
        let list = split_on(f[1], tag_separator());
        assert(task.tags == Some(list));
        lemma_pieces_are_free(f[1], tag_separator());
        lemma_join_split(f[1], tag_separator());
        assert(exists|i: int| 0 <= i < list.len() && !is_blank(#[trigger] list[i]));
    }
    lemma_decode_encode(task);
}

} // verus!
