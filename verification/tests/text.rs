use task_tracker::text::{
    add_text_effect, append_repeated, decimal, text_width, TextEffect,
};

#[test]
fn ansi_codes() {
    assert_eq!(TextEffect::StrikeThrough.ansi_code(), "9");
    assert_eq!(TextEffect::Red.ansi_code(), "31");
    assert_eq!(TextEffect::Green.ansi_code(), "32");
}

#[test]
fn text_effect_wraps_the_text() {
    assert_eq!(add_text_effect("hi", TextEffect::Red), "\x1b[31mhi\x1b[0m");
    assert_eq!(add_text_effect("", TextEffect::StrikeThrough), "\x1b[9m\x1b[0m");
    assert_eq!(
        add_text_effect(&add_text_effect("done", TextEffect::StrikeThrough), TextEffect::Green),
        "\x1b[32m\x1b[9mdone\x1b[0m\x1b[0m"
    );
}

#[test]
fn repeated_units_are_appended() {
    let mut out = String::from("ab");
    append_repeated(&mut out, "-", 3);
    assert_eq!(out, "ab---");
    append_repeated(&mut out, "xy", 2);
    assert_eq!(out, "ab---xyxy");
    append_repeated(&mut out, "z", 0);
    assert_eq!(out, "ab---xyxy");
}

#[test]
fn decimal_numerals() {
    assert_eq!(decimal(0), "0");
    assert_eq!(decimal(7), "7");
    assert_eq!(decimal(10), "10");
    assert_eq!(decimal(1234567890), "1234567890");
    assert_eq!(decimal(usize::MAX), usize::MAX.to_string());
    for n in 0..2000usize {
        assert_eq!(decimal(n), n.to_string());
    }
}

#[test]
fn width_counts_bytes() {
    assert_eq!(text_width(""), 0);
    assert_eq!(text_width("Task 1"), 6);
    assert_eq!(text_width("größe"), 7);
    assert_eq!(text_width("日本"), 6);
}
