//! Terminal text effects and padding.

use vstd::prelude::*;
use vstd::string::*;

verus! {

/// A terminal text effect, rendered as an ANSI "select graphic rendition" code.
pub enum TextEffect {
    StrikeThrough,
    Red,
    Green,
}

impl TextEffect {
    /// The ANSI code of the effect, as a sequence of characters.
    pub open spec fn code(self) -> Seq<char> {
        match self {
            TextEffect::StrikeThrough => seq!['9'],
            TextEffect::Red => seq!['3', '1'],
            TextEffect::Green => seq!['3', '2'],
        }
    }

    /// The ANSI code of the effect.
    pub fn ansi_code(&self) -> (code: &'static str)
        ensures
            code@ == self.code(),
    {
        proof {
            reveal_strlit("9");
            reveal_strlit("31");
            reveal_strlit("32");
        }
        match *self {
            TextEffect::StrikeThrough => {
                assert("9"@ =~= seq!['9']);
                "9"
            },
            TextEffect::Red => {
                assert("31"@ =~= seq!['3', '1']);
                "31"
            },
            TextEffect::Green => {
                assert("32"@ =~= seq!['3', '2']);
                "32"
            },
        }
    }
}

/// The escape sequence that opens an effect: ESC `[`.
pub open spec fn effect_open() -> Seq<char> {
    seq!['\u{1b}', '[']
}

/// The escape sequence that resets all effects: ESC `[0m`.
pub open spec fn effect_reset() -> Seq<char> {
    seq!['\u{1b}', '[', '0', 'm']
}

/// `text` wrapped in the escape sequences that switch `effect` on and off again.
pub open spec fn with_effect(text: Seq<char>, effect: TextEffect) -> Seq<char> {
    effect_open() + effect.code() + seq!['m'] + text + effect_reset()
}

/// `text` between the escape sequences that switch the effect on and off again.
pub fn add_text_effect(text: &str, effect_str: TextEffect) -> (out: String)
    ensures
        out@ == with_effect(text@, effect_str),
{
    proof {
        reveal_strlit("\x1b[");
        reveal_strlit("m");
        reveal_strlit("\x1b[0m");
    }
    let mut out = String::from_str("\x1b[");
    assert(out@ =~= effect_open());
    out.append(effect_str.ansi_code());
    out.append("m");
    assert("m"@ =~= seq!['m']);
    out.append(text);
    out.append("\x1b[0m");
    assert("\x1b[0m"@ =~= effect_reset());
    out
}


/// `count` copies of `unit`, one after the other.
pub open spec fn repeated(unit: Seq<char>, count: nat) -> Seq<char>
    decreases count,
{
    if count == 0 {
        Seq::empty()
    } else {
        repeated(unit, (count - 1) as nat) + unit
    }
}

/// Copies of a unit after copies of it are copies of it: as many as both together.
pub proof fn lemma_repeated_sum(unit: Seq<char>, a: nat, b: nat)
    ensures
        repeated(unit, a) + repeated(unit, b) == repeated(unit, a + b),
    decreases b,
{
    if b == 0 {
        assert(repeated(unit, a) + Seq::<char>::empty() =~= repeated(unit, a));
    } else {
        lemma_repeated_sum(unit, a, (b - 1) as nat);
        assert(repeated(unit, a) + (repeated(unit, (b - 1) as nat) + unit) =~= (repeated(unit, a)
            + repeated(unit, (b - 1) as nat)) + unit);
    }
}

/// Appends `count` copies of `unit` to `out`.
pub fn append_repeated(out: &mut String, unit: &str, count: usize)
    ensures
        final(out)@ == old(out)@ + repeated(unit@, count as nat),
{
    let ghost before = out@;
    let mut done: usize = 0;
    assert(before + Seq::<char>::empty() =~= before);
    while done < count
        invariant
            done <= count,
            out@ == before + repeated(unit@, done as nat),
        decreases count - done,
    {
        assert(before + repeated(unit@, done as nat) + unit@ =~= before + (repeated(
            unit@,
            done as nat,
        ) + unit@));
        out.append(unit);
        done += 1;
    }
}

/// The width of a text in a listing: the number of bytes of its UTF-8 form.
pub open spec fn width(text: Seq<char>) -> usize {
    vstd::utf8::encode_utf8(text).len() as usize
}

/// The width of `text` in a listing.
pub fn text_width(text: &str) -> (w: usize)
    ensures
        w == width(text@),
{
    text.len()
}

/// The character of the decimal digit `d`.
pub open spec fn digit(d: nat) -> char {
    if d == 0 {
        '0'
    } else if d == 1 {
        '1'
    } else if d == 2 {
        '2'
    } else if d == 3 {
        '3'
    } else if d == 4 {
        '4'
    } else if d == 5 {
        '5'
    } else if d == 6 {
        '6'
    } else if d == 7 {
        '7'
    } else if d == 8 {
        '8'
    } else {
        '9'
    }
}

/// The decimal numeral of `n`, without leading zeros.
pub open spec fn numeral(n: nat) -> Seq<char>
    decreases n,
{
    if n < 10 {
        seq![digit(n)]
    } else {
        numeral(n / 10).push(digit(n % 10))
    }
}

/// The decimal digit `d` as a text.
fn digit_text(d: usize) -> (text: &'static str)
    requires
        d < 10,
    ensures
        text@ == seq![digit(d as nat)],
{
    proof {
        reveal_strlit("0");
        reveal_strlit("1");
        reveal_strlit("2");
        reveal_strlit("3");
        reveal_strlit("4");
        reveal_strlit("5");
        reveal_strlit("6");
        reveal_strlit("7");
        reveal_strlit("8");
        reveal_strlit("9");
        assert("0"@ =~= seq!['0']);
        assert("1"@ =~= seq!['1']);
        assert("2"@ =~= seq!['2']);
        assert("3"@ =~= seq!['3']);
        assert("4"@ =~= seq!['4']);
        assert("5"@ =~= seq!['5']);
        assert("6"@ =~= seq!['6']);
        assert("7"@ =~= seq!['7']);
        assert("8"@ =~= seq!['8']);
        assert("9"@ =~= seq!['9']);
    }
    if d == 0 {
        "0"
    } else if d == 1 {
        "1"
    } else if d == 2 {
        "2"
    } else if d == 3 {
        "3"
    } else if d == 4 {
        "4"
    } else if d == 5 {
        "5"
    } else if d == 6 {
        "6"
    } else if d == 7 {
        "7"
    } else if d == 8 {
        "8"
    } else {
        "9"
    }
}

/// The decimal numeral of `n`.
pub fn decimal(n: usize) -> (text: String)
    ensures
        text@ == numeral(n as nat),
    decreases n,
{
    if n < 10 {
        String::from_str(digit_text(n))
    } else {
        let mut text = decimal(n / 10);
        text.append(digit_text(n % 10));
        assert(numeral((n / 10) as nat) + seq![digit((n % 10) as nat)] =~= numeral(
            (n / 10) as nat,
        ).push(digit((n % 10) as nat)));
        text
    }
}

} // verus!
