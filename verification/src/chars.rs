//! Character sequences: white space, trimming, splitting and joining.

use vstd::prelude::*;
use vstd::string::*;

verus! {

/// Whether `c` has the Unicode property White_Space.
pub open spec fn is_space(c: char) -> bool {
    let n = c as u32;
    ||| 0x09 <= n <= 0x0d
    ||| n == 0x20
    ||| n == 0x85
    ||| n == 0xa0
    ||| n == 0x1680
    ||| 0x2000 <= n <= 0x200a
    ||| n == 0x2028
    ||| n == 0x2029
    ||| n == 0x202f
    ||| n == 0x205f
    ||| n == 0x3000
}

/// Whether `c` is white space.
pub fn is_whitespace(c: char) -> (b: bool)
    ensures
        b == is_space(c),
{
    let n: u32 = c as u32;
    (0x09 <= n && n <= 0x0d) || n == 0x20 || n == 0x85 || n == 0xa0 || n == 0x1680 || (0x2000 <= n
        && n <= 0x200a) || n == 0x2028 || n == 0x2029 || n == 0x202f || n == 0x205f || n == 0x3000
}

/// The characters of `text`, in order.
pub fn chars_of(text: &str) -> (chars: Vec<char>)
    ensures
        chars@ == text@,
{
    let mut chars: Vec<char> = Vec::new();
    for c in it: text.chars()
        invariant
            chars@ == it.seq().take(it.index() as int),
            it.seq() == text@,
    {
        chars.push(c);
    }
    chars
}

/// `s` without its leading characters that satisfy `strip`.
pub open spec fn strip_start(s: Seq<char>, strip: spec_fn(char) -> bool) -> Seq<char>
    decreases s.len(),
{
    if s.len() > 0 && strip(s[0]) {
        strip_start(s.skip(1), strip)
    } else {
        s
    }
}

/// `s` without its trailing characters that satisfy `strip`.
pub open spec fn strip_end(s: Seq<char>, strip: spec_fn(char) -> bool) -> Seq<char>
    decreases s.len(),
{
    if s.len() > 0 && strip(s.last()) {
        strip_end(s.drop_last(), strip)
    } else {
        s
    }
}

/// `s` without the characters at either end that satisfy `strip`.
pub open spec fn strip(s: Seq<char>, strip: spec_fn(char) -> bool) -> Seq<char> {
    strip_end(strip_start(s, strip), strip)
}

/// The characters that count as white space.
pub open spec fn spaces() -> spec_fn(char) -> bool {
    |c: char| is_space(c)
}

/// The pipe character alone.
pub open spec fn pipes() -> spec_fn(char) -> bool {
    |c: char| c == '|'
}

/// `s` without leading and trailing white space.
pub open spec fn trim(s: Seq<char>) -> Seq<char> {
    strip(s, spaces())
}

/// Whether `s` holds nothing but white space.
pub open spec fn is_blank(s: Seq<char>) -> bool {
    forall|i: int| 0 <= i < s.len() ==> is_space(#[trigger] s[i])
}

/// Whether `s` neither starts nor ends with white space.
pub open spec fn is_trimmed(s: Seq<char>) -> bool {
    s.len() > 0 ==> !is_space(s[0]) && !is_space(s.last())
}

/// Whether `sep` stands at the start of `s`.
pub open spec fn starts_with(s: Seq<char>, sep: Seq<char>) -> bool {
    sep.len() <= s.len() && s.take(sep.len() as int) == sep
}

/// Whether `sep` occurs in `s` at position `at`.
pub open spec fn occurs_at(s: Seq<char>, sep: Seq<char>, at: int) -> bool {
    0 <= at <= s.len() && starts_with(s.skip(at), sep)
}

/// Whether `sep` occurs nowhere in `s`.
pub open spec fn free_of(s: Seq<char>, sep: Seq<char>) -> bool {
    forall|at: int| !occurs_at(s, sep, at)
}

/// `parts` with `head` put in front of its first part.
pub open spec fn glue(head: Seq<char>, parts: Seq<Seq<char>>) -> Seq<Seq<char>> {
    parts.update(0, head + parts[0])
}

/// The pieces of `s` between the occurrences of `sep`, found from the left and
/// not overlapping. There is always at least one piece.
pub open spec fn split_on(s: Seq<char>, sep: Seq<char>) -> Seq<Seq<char>>
    decreases s.len(),
{
    if s.len() == 0 || sep.len() == 0 {
        seq![s]
    } else if starts_with(s, sep) {
        seq![Seq::empty()] + split_on(s.skip(sep.len() as int), sep)
    } else {
        glue(seq![s[0]], split_on(s.skip(1), sep))
    }
}

/// The parts in order, with `sep` between each two neighbours.
pub open spec fn join(parts: Seq<Seq<char>>, sep: Seq<char>) -> Seq<char>
    decreases parts.len(),
{
    if parts.len() == 0 {
        Seq::empty()
    } else if parts.len() == 1 {
        parts[0]
    } else {
        parts[0] + sep + join(parts.skip(1), sep)
    }
}

/// Whether no occurrence of `sep` begins within `part` where `sep` follows it.
pub open spec fn tight(part: Seq<char>, sep: Seq<char>) -> bool {
    forall|k: int| 0 <= k < part.len() ==> !#[trigger] starts_with((part + sep).skip(k), sep)
}

/// A stretch of a character sequence: the positions from `lo` up to, not including, `hi`.
#[derive(Clone, Copy, Debug)]
pub struct Span {
    pub lo: usize,
    pub hi: usize,
}

impl Span {
    /// Whether the span lies within `s`.
    pub open spec fn within(self, s: Seq<char>) -> bool {
        self.lo <= self.hi <= s.len()
    }

    /// The characters of `s` that the span covers.
    pub open spec fn of(self, s: Seq<char>) -> Seq<char> {
        s.subrange(self.lo as int, self.hi as int)
    }
}

/// The stretches of `s` that `spans` cover, in order.
pub open spec fn texts(spans: Seq<Span>, s: Seq<char>) -> Seq<Seq<char>> {
    Seq::new(spans.len(), |i: int| spans[i].of(s))
}

/// Cutting gives at least one piece.
pub proof fn lemma_split_nonempty(s: Seq<char>, sep: Seq<char>)
    ensures
        split_on(s, sep).len() >= 1,
    decreases s.len(),
{
    if s.len() == 0 || sep.len() == 0 {
    } else if starts_with(s, sep) {
        lemma_split_nonempty(s.skip(sep.len() as int), sep);
    } else {
        lemma_split_nonempty(s.skip(1), sep);
    }
}

/// A part in which no separator begins, followed by a separator, is the first
/// piece of the whole; the rest is cut as it would be alone.
pub proof fn lemma_split_first(part: Seq<char>, sep: Seq<char>, rest: Seq<char>)
    requires
        sep.len() > 0,
        tight(part, sep),
    ensures
        split_on(part + sep + rest, sep) == seq![part] + split_on(rest, sep),
    decreases part.len(),
{
    let s = part + sep + rest;
    let n = sep.len() as int;
    if part.len() == 0 {
        assert(s.take(n) =~= sep);
        assert(s.skip(n) =~= rest);
        assert(part =~= Seq::<char>::empty());
    } else {
        assert(!starts_with(s, sep)) by {
            assert(!starts_with((part + sep).skip(0), sep));
            assert((part + sep).skip(0) =~= part + sep);
            assert((part + sep).take(n) =~= s.take(n));
        }
        let shorter = part.skip(1);
        assert(s.skip(1) =~= shorter + sep + rest);
        assert forall|k: int| 0 <= k < shorter.len() implies !#[trigger] starts_with(
            (shorter + sep).skip(k),
            sep,
        ) by {
            assert((shorter + sep).skip(k) =~= (part + sep).skip(k + 1));
        }
        lemma_split_first(shorter, sep, rest);
        lemma_split_nonempty(rest, sep);
        assert(seq![s[0]] + shorter =~= part);
        assert(glue(seq![s[0]], seq![shorter] + split_on(rest, sep)) =~= seq![part] + split_on(
            rest,
            sep,
        ));
    }
}

/// A part in which no separator begins is one piece.
pub proof fn lemma_split_single(part: Seq<char>, sep: Seq<char>)
    requires
        sep.len() > 0,
        tight(part, sep),
    ensures
        split_on(part, sep) == seq![part],
    decreases part.len(),
{
    let n = sep.len() as int;
    if part.len() > 0 {
        assert(!starts_with(part, sep)) by {
            assert(!starts_with((part + sep).skip(0), sep));
            assert((part + sep).skip(0) =~= part + sep);
            if starts_with(part, sep) {
                assert((part + sep).take(n) =~= part.take(n));
            }
        }
        let shorter = part.skip(1);
        assert forall|k: int| 0 <= k < shorter.len() implies !#[trigger] starts_with(
            (shorter + sep).skip(k),
            sep,
        ) by {
            assert((shorter + sep).skip(k) =~= (part + sep).skip(k + 1));
        }
        lemma_split_single(shorter, sep);
        assert(seq![part[0]] + shorter =~= part);
        assert(glue(seq![part[0]], seq![shorter]) =~= seq![part]);
    }
}

/// Cutting what was joined gives the parts back, where no separator begins
/// within a part.
pub proof fn lemma_split_join(parts: Seq<Seq<char>>, sep: Seq<char>)
    requires
        parts.len() > 0,
        sep.len() > 0,
        forall|i: int| 0 <= i < parts.len() ==> tight(#[trigger] parts[i], sep),
    ensures
        split_on(join(parts, sep), sep) == parts,
    decreases parts.len(),
{
    if parts.len() == 1 {
        lemma_split_single(parts[0], sep);
        assert(seq![parts[0]] =~= parts);
    } else {
        let rest = parts.skip(1);
        assert forall|i: int| 0 <= i < rest.len() implies tight(#[trigger] rest[i], sep) by {
            assert(rest[i] == parts[i + 1]);
        }
        lemma_split_join(rest, sep);
        lemma_split_first(parts[0], sep, join(rest, sep));
        assert(seq![parts[0]] + rest =~= parts);
    }
}

/// What is left after stripping is a stretch of the text that neither starts
/// nor ends with a character that was to go.
pub proof fn lemma_strip_is_stretch(s: Seq<char>, gone: spec_fn(char) -> bool)
    ensures
        ({
            let left = strip(s, gone);
            let from = s.len() - strip_start(s, gone).len();
            0 <= from && from + left.len() <= s.len() && left == s.subrange(
                from,
                from + left.len(),
            )
        }),
        strip(s, gone).len() > 0 ==> !gone(strip(s, gone)[0]) && !gone(strip(s, gone).last()),
{
    lemma_strip_start_is_tail(s, gone);
    let tail = strip_start(s, gone);
    lemma_strip_end_is_head(tail, gone);
    let left = strip(s, gone);
    let from = s.len() - tail.len();
    assert(left =~= s.subrange(from, from + left.len()));
    if left.len() > 0 {
        assert(left[0] == tail[0]);
    }
}

proof fn lemma_strip_start_is_tail(s: Seq<char>, gone: spec_fn(char) -> bool)
    ensures
        strip_start(s, gone).len() <= s.len(),
        strip_start(s, gone) == s.skip(s.len() - strip_start(s, gone).len()),
        strip_start(s, gone).len() > 0 ==> !gone(strip_start(s, gone)[0]),
    decreases s.len(),
{
    if s.len() > 0 && gone(s[0]) {
        lemma_strip_start_is_tail(s.skip(1), gone);
        let left = strip_start(s, gone);
        assert(left =~= s.skip(s.len() - left.len()));
    } else {
        assert(s =~= s.skip(0));
    }
}

proof fn lemma_strip_end_is_head(s: Seq<char>, gone: spec_fn(char) -> bool)
    ensures
        strip_end(s, gone).len() <= s.len(),
        strip_end(s, gone) == s.take(strip_end(s, gone).len() as int),
        strip_end(s, gone).len() > 0 ==> !gone(strip_end(s, gone).last()),
    decreases s.len(),
{
    if s.len() > 0 && gone(s.last()) {
        lemma_strip_end_is_head(s.drop_last(), gone);
        let left = strip_end(s, gone);
        assert(left =~= s.take(left.len() as int));
    } else {
        assert(s =~= s.take(s.len() as int));
    }
}

/// The first piece of a text is the start of the text.
pub proof fn lemma_first_piece_is_head(s: Seq<char>, sep: Seq<char>)
    ensures
        split_on(s, sep).len() >= 1,
        split_on(s, sep)[0].len() <= s.len(),
        split_on(s, sep)[0] == s.take(split_on(s, sep)[0].len() as int),
    decreases s.len(),
{
    if s.len() == 0 || sep.len() == 0 {
        assert(s =~= s.take(s.len() as int));
    } else if starts_with(s, sep) {
        assert(s.take(0) =~= Seq::<char>::empty());
    } else {
        let rest = split_on(s.skip(1), sep);
        lemma_first_piece_is_head(s.skip(1), sep);
        assert(seq![s[0]] + rest[0] =~= s.take(rest[0].len() as int + 1));
    }
}

/// No piece of a text holds the separator.
pub proof fn lemma_pieces_are_free(s: Seq<char>, sep: Seq<char>)
    requires
        sep.len() > 0,
    ensures
        forall|i: int|
            0 <= i < split_on(s, sep).len() ==> free_of(#[trigger] split_on(s, sep)[i], sep),
    decreases s.len(),
{
    let pieces = split_on(s, sep);
    if s.len() == 0 {
    } else if starts_with(s, sep) {
        let rest = split_on(s.skip(sep.len() as int), sep);
        lemma_pieces_are_free(s.skip(sep.len() as int), sep);
        assert forall|i: int| 0 <= i < pieces.len() implies free_of(#[trigger] pieces[i], sep) by {
            if i > 0 {
                assert(pieces[i] == rest[i - 1]);
            }
        }
    } else {
        let rest = split_on(s.skip(1), sep);
        lemma_pieces_are_free(s.skip(1), sep);
        lemma_first_piece_is_head(s.skip(1), sep);
        let first = seq![s[0]] + rest[0];
        assert forall|i: int| 0 <= i < pieces.len() implies free_of(#[trigger] pieces[i], sep) by {
            if i > 0 {
                assert(pieces[i] == rest[i]);
            } else {
                assert(pieces[0] == first);
                assert forall|at: int| !occurs_at(first, sep, at) by {
                    if occurs_at(first, sep, at) {
                        if at == 0 {
                            assert(first.skip(0) =~= first);
                            assert(first =~= s.take(first.len() as int));
                            assert(s.take(sep.len() as int) =~= first.take(sep.len() as int));
                        } else {
                            assert(first.skip(at) =~= rest[0].skip(at - 1));
                            assert(occurs_at(rest[0], sep, at - 1));
                        }
                    }
                }
            }
        }
    }
}

/// Joining after putting a head in front of the first part puts the head in
/// front of what was joined.
proof fn lemma_join_glue(head: Seq<char>, parts: Seq<Seq<char>>, sep: Seq<char>)
    requires
        parts.len() >= 1,
    ensures
        join(glue(head, parts), sep) == head + join(parts, sep),
{
    let glued = glue(head, parts);
    if parts.len() > 1 {
        assert(glued.skip(1) =~= parts.skip(1));
        assert((head + parts[0]) + sep + join(parts.skip(1), sep) =~= head + (parts[0] + sep + join(
            parts.skip(1),
            sep,
        )));
    }
}

/// Joining the pieces of a text gives the text back.
pub proof fn lemma_join_split(s: Seq<char>, sep: Seq<char>)
    requires
        sep.len() > 0,
    ensures
        join(split_on(s, sep), sep) == s,
    decreases s.len(),
{
    if s.len() == 0 {
    } else if starts_with(s, sep) {
        let after = s.skip(sep.len() as int);
        let rest = split_on(after, sep);
        lemma_join_split(after, sep);
        lemma_split_nonempty(after, sep);
        let pieces = seq![Seq::<char>::empty()] + rest;
        assert(pieces.skip(1) =~= rest);
        assert(Seq::<char>::empty() + sep + after =~= s) by {
            assert(s.take(sep.len() as int) + after =~= s);
        }
    } else {
        let rest = split_on(s.skip(1), sep);
        lemma_join_split(s.skip(1), sep);
        lemma_split_nonempty(s.skip(1), sep);
        lemma_join_glue(seq![s[0]], rest, sep);
        assert(seq![s[0]] + s.skip(1) =~= s);
    }
}

/// Whether `c` is a pipe, if `pipe` is set, or white space, if it is not.
fn goes(c: char, pipe: bool) -> (b: bool)
    ensures
        b == if pipe {
            pipes()(c)
        } else {
            spaces()(c)
        },
{
    if pipe {
        c == '|'
    } else {
        is_whitespace(c)
    }
}

/// The span of `span` without the characters at either end that are to go:
/// pipes if `pipe` is set, white space otherwise.
fn strip_span(chars: &Vec<char>, span: Span, pipe: bool) -> (r: Span)
    requires
        span.within(chars@),
    ensures
        r.within(chars@),
        span.lo <= r.lo,
        r.hi <= span.hi,
        r.of(chars@) == strip(span.of(chars@), if pipe { pipes() } else { spaces() }),
{
    let ghost gone = if pipe { pipes() } else { spaces() };
    let mut lo = span.lo;
    while lo < span.hi && goes(chars[lo], pipe)
        invariant
            span.lo <= lo <= span.hi <= chars.len(),
            gone == (if pipe { pipes() } else { spaces() }),
            strip_start(span.of(chars@), gone) == strip_start(
                chars@.subrange(lo as int, span.hi as int),
                gone,
            ),
        decreases span.hi - lo,
    {
        proof {
            let rest = chars@.subrange(lo as int, span.hi as int);
            assert(rest.skip(1) == chars@.subrange(lo as int + 1, span.hi as int));
            assert(gone(rest[0]));
            assert(strip_start(rest, gone) == strip_start(rest.skip(1), gone));
        }
        lo += 1;
    }
    proof {
        let rest = chars@.subrange(lo as int, span.hi as int);
        assert(rest.len() > 0 ==> !gone(rest[0]));
        assert(strip_start(rest, gone) == rest);
    }
    let mut hi = span.hi;
    while lo < hi && goes(chars[hi - 1], pipe)
        invariant
            span.lo <= lo <= hi <= span.hi <= chars.len(),
            gone == (if pipe { pipes() } else { spaces() }),
            strip(span.of(chars@), gone) == strip_end(chars@.subrange(lo as int, hi as int), gone),
        decreases hi - lo,
    {
        proof {
            let rest = chars@.subrange(lo as int, hi as int);
            assert(rest.drop_last() == chars@.subrange(lo as int, hi as int - 1));
            assert(gone(rest.last()));
            assert(strip_end(rest, gone) == strip_end(rest.drop_last(), gone));
        }
        hi -= 1;
    }
    proof {
        let rest = chars@.subrange(lo as int, hi as int);
        assert(rest.len() > 0 ==> !gone(rest.last()));
        assert(strip_end(rest, gone) == rest);
    }
    Span { lo, hi }
}

/// The span of `span` without white space at either end.
pub fn trim_span(chars: &Vec<char>, span: Span) -> (r: Span)
    requires
        span.within(chars@),
    ensures
        r.within(chars@),
        span.lo <= r.lo,
        r.hi <= span.hi,
        r.of(chars@) == trim(span.of(chars@)),
{
    strip_span(chars, span, false)
}

/// The span of `span` without pipes at either end.
pub fn strip_pipes_span(chars: &Vec<char>, span: Span) -> (r: Span)
    requires
        span.within(chars@),
    ensures
        r.within(chars@),
        span.lo <= r.lo,
        r.hi <= span.hi,
        r.of(chars@) == strip(span.of(chars@), pipes()),
{
    strip_span(chars, span, true)
}


/// Whether `sep` stands in `chars` at position `at`, within the part that ends at `end`.
fn stands_at(chars: &Vec<char>, at: usize, end: usize, sep: &Vec<char>) -> (b: bool)
    requires
        at <= end <= chars.len(),
    ensures
        b == starts_with(chars@.subrange(at as int, end as int), sep@),
{
    let ghost rest = chars@.subrange(at as int, end as int);
    if sep.len() > end - at {
        return false;
    }
    let mut k: usize = 0;
    while k < sep.len()
        invariant
            at <= end <= chars.len(),
            k <= sep.len() <= end - at,
            rest == chars@.subrange(at as int, end as int),
            forall|j: int| 0 <= j < k ==> rest[j] == sep@[j],
        decreases sep.len() - k,
    {
        if chars[at + k] != sep[k] {
            proof {
                assert(rest.take(sep.len() as int)[k as int] == rest[k as int]);
            }
            return false;
        }
        k += 1;
    }
    assert(rest.take(sep.len() as int) =~= sep@);
    true
}

proof fn lemma_glue_glue(head: Seq<char>, c: char, parts: Seq<Seq<char>>)
    requires
        parts.len() >= 1,
    ensures
        glue(head, glue(seq![c], parts)) == glue(head.push(c), parts),
{
    assert(head + (seq![c] + parts[0]) =~= head.push(c) + parts[0]);
    assert(glue(head, glue(seq![c], parts)) =~= glue(head.push(c), parts));
}

/// The spans of the pieces of `span` between the occurrences of `sep`.
pub fn split_spans(chars: &Vec<char>, span: Span, sep: &Vec<char>) -> (spans: Vec<Span>)
    requires
        span.within(chars@),
        sep@.len() > 0,
    ensures
        texts(spans@, chars@) == split_on(span.of(chars@), sep@),
        forall|i: int| 0 <= i < spans.len() ==> (#[trigger] spans[i]).within(chars@),
        forall|i: int|
            0 <= i < spans.len() ==> span.lo <= (#[trigger] spans[i]).lo && spans[i].hi <= span.hi,
{
    let mut spans: Vec<Span> = Vec::new();
    let mut start: usize = span.lo;
    let mut i: usize = span.lo;
    assert(texts(spans@, chars@) =~= Seq::<Seq<char>>::empty());
    proof {
        let all = split_on(span.of(chars@), sep@);
        lemma_split_nonempty(span.of(chars@), sep@);
        assert(Seq::<char>::empty() + all[0] =~= all[0]);
        assert(glue(Seq::empty(), all) =~= all);
        assert(chars@.subrange(start as int, i as int) =~= Seq::<char>::empty());
        assert(Seq::<Seq<char>>::empty() + all =~= all);
    }
    while i < span.hi
        invariant
            span.lo <= start <= i <= span.hi <= chars.len(),
            sep@.len() > 0,
            forall|k: int| 0 <= k < spans.len() ==> (#[trigger] spans[k]).within(chars@),
            forall|k: int|
                0 <= k < spans.len() ==> span.lo <= (#[trigger] spans[k]).lo && spans[k].hi
                    <= span.hi,
            split_on(span.of(chars@), sep@) == texts(spans@, chars@) + glue(
                chars@.subrange(start as int, i as int),
                split_on(chars@.subrange(i as int, span.hi as int), sep@),
            ),
        decreases span.hi - i,
    {
        let ghost rest = chars@.subrange(i as int, span.hi as int);
        let ghost head = chars@.subrange(start as int, i as int);
        let ghost done = texts(spans@, chars@);
        if stands_at(chars, i, span.hi, sep) {
            proof {
                let after = rest.skip(sep.len() as int);
                assert(after == chars@.subrange(i + sep.len(), span.hi as int));
                lemma_split_nonempty(after, sep@);
                let tail = split_on(after, sep@);
                assert(split_on(rest, sep@) == seq![Seq::<char>::empty()] + tail);
                assert(head + Seq::<char>::empty() =~= head);
                assert(glue(head, seq![Seq::<char>::empty()] + tail) =~= seq![head] + tail);
                assert(Seq::<char>::empty() + tail[0] =~= tail[0]);
                assert(glue(Seq::empty(), tail) =~= tail);
                assert(chars@.subrange(i + sep.len(), i + sep.len()) =~= Seq::<char>::empty());
                assert(done + (seq![head] + tail) =~= done.push(head) + tail);
            }
            spans.push(Span { lo: start, hi: i });
            assert(texts(spans@, chars@) =~= done.push(head));
            i += sep.len();
            start = i;
        } else {
            proof {
                let after = rest.skip(1);
                assert(after == chars@.subrange(i + 1, span.hi as int));
                lemma_split_nonempty(after, sep@);
                lemma_glue_glue(head, rest[0], split_on(after, sep@));
                assert(head.push(rest[0]) =~= chars@.subrange(start as int, i + 1));
            }
            i += 1;
        }
    }
    proof {
        let head = chars@.subrange(start as int, i as int);
        let done = texts(spans@, chars@);
        assert(chars@.subrange(i as int, span.hi as int) =~= Seq::<char>::empty());
        assert(head + Seq::<char>::empty() =~= head);
        assert(glue(head, seq![Seq::<char>::empty()]) =~= seq![head]);
        assert(texts(spans@.push(Span { lo: start, hi: i }), chars@) =~= done + seq![head]);
    }
    spans.push(Span { lo: start, hi: i });
    spans
}

/// The text that `span` covers, as a string of its own.
pub fn span_text(line: &str, span: Span) -> (text: String)
    requires
        span.within(line@),
    ensures
        text@ == span.of(line@),
{
    String::from_str(line.substring_char(span.lo, span.hi))
}

/// The views of the strings, in order.
pub open spec fn views(strings: Seq<String>) -> Seq<Seq<char>> {
    Seq::new(strings.len(), |i: int| strings[i]@)
}

/// Joining one part more appends the separator and the part.
pub proof fn lemma_join_push(parts: Seq<Seq<char>>, sep: Seq<char>, last: Seq<char>)
    requires
        parts.len() >= 1,
    ensures
        join(parts.push(last), sep) == join(parts, sep) + sep + last,
    decreases parts.len(),
{
    let all = parts.push(last);
    assert(all.skip(1) =~= parts.skip(1).push(last));
    if parts.len() == 1 {
        assert(all.skip(1) =~= seq![last]);
        assert(join(all.skip(1), sep) == last);
    } else {
        lemma_join_push(parts.skip(1), sep, last);
        assert(parts[0] + sep + (join(parts.skip(1), sep) + sep + last) =~= parts[0] + sep + join(
            parts.skip(1),
            sep,
        ) + sep + last);
    }
}

/// The strings in order, with `sep` between each two neighbours.
pub fn join_strings(parts: &Vec<String>, sep: &str) -> (joined: String)
    ensures
        joined@ == join(views(parts@), sep@),
{
    let mut joined = String::new();
    let mut i: usize = 0;
    while i < parts.len()
        invariant
            i <= parts.len(),
            joined@ == join(views(parts@).take(i as int), sep@),
        decreases parts.len() - i,
    {
        proof {
            let done = views(parts@).take(i as int);
            assert(views(parts@).take(i + 1) =~= done.push(parts@[i as int]@));
            if i > 0 {
                lemma_join_push(done, sep@, parts@[i as int]@);
            } else {
                assert(Seq::<char>::empty() + parts@[i as int]@ =~= parts@[i as int]@);
            }
        }
        if i > 0 {
            joined.append(sep);
        }
        joined.append(parts[i].as_str());
        i += 1;
    }
    assert(views(parts@).take(i as int) =~= views(parts@));
    joined
}

} // verus!
