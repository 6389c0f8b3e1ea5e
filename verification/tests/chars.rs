use task_tracker::chars::{
    chars_of, is_whitespace, join_strings, span_text, split_spans, strip_pipes_span, trim_span, Span,
};

fn whole(chars: &Vec<char>) -> Span {
    Span { lo: 0, hi: chars.len() }
}

fn pieces(text: &str, sep: &str) -> Vec<String> {
    let chars = chars_of(text);
    let sep = chars_of(sep);
    split_spans(&chars, whole(&chars), &sep).iter().map(|s| span_text(text, *s)).collect()
}

#[test]
fn white_space_is_what_std_takes_for_it() {
    for n in 0..=0x10ffffu32 {
        match char::from_u32(n) {
            Some(c) => assert_eq!(is_whitespace(c), c.is_whitespace()),
            None => {}
        }
    }
}

#[test]
fn chars_are_those_of_the_text() {
    assert_eq!(chars_of(""), Vec::<char>::new());
    assert_eq!(chars_of("a|ß日"), vec!['a', '|', 'ß', '日']);
}

#[test]
fn trimming_is_that_of_std() {
    let samples =
        ["", " ", "  a  ", "a", "\t\r\n a b \u{3000}", "\u{a0}x\u{2003}", " | a | ", "ß ", " 日本"];
    for text in samples {
        let chars = chars_of(text);
        let span = trim_span(&chars, whole(&chars));
        assert_eq!(span_text(text, span), text.trim());
    }
}

#[test]
fn trimming_a_part_stays_within_it() {
    let text = "ab  cd  ef";
    let chars = chars_of(text);
    let span = trim_span(&chars, Span { lo: 2, hi: 8 });
    assert_eq!((span.lo, span.hi), (4, 6));
    let span = trim_span(&chars, Span { lo: 2, hi: 4 });
    assert_eq!(span.lo, span.hi);
}

#[test]
fn pipes_are_stripped_at_both_ends() {
    let samples = ["", "|", "||a||", "a|b", "| a |", "|||"];
    for text in samples {
        let chars = chars_of(text);
        let span = strip_pipes_span(&chars, whole(&chars));
        assert_eq!(span_text(text, span), text.trim_matches('|'));
    }
}

#[test]
fn splitting_is_that_of_std() {
    let samples = [
        ("", "|"),
        ("|", "|"),
        ("a|b||c|", "|"),
        ("no separator", "|"),
        ("a, b,c,, d, ", ", "),
        (", ", ", "),
        (",, ,", ", "),
        ("aaa", "aa"),
        ("aaaa", "aa"),
        ("日|本", "|"),
        ("line\n\nline\r\n", "\n"),
    ];
    for (text, sep) in samples {
        let expected: Vec<String> = text.split(sep).map(|s| s.to_string()).collect();
        assert_eq!(pieces(text, sep), expected);
    }
}

#[test]
fn joining_is_that_of_std() {
    let none: Vec<String> = Vec::new();
    assert_eq!(join_strings(&none, ", "), "");
    let one = vec!["a".to_string()];
    assert_eq!(join_strings(&one, ", "), "a");
    let three = vec!["a".to_string(), "".to_string(), "b c".to_string()];
    assert_eq!(join_strings(&three, ", "), three.join(", "));
    assert_eq!(join_strings(&three, ""), "ab c");
}

#[test]
fn splitting_a_joined_list_gives_it_back() {
    let list = vec!["a".to_string(), "".to_string(), "b,c".to_string(), "d,".to_string()];
    assert_eq!(pieces(&join_strings(&list, ", "), ", "), list);
}
