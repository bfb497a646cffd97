use tests_make::style::{plain, Span, Tone};
use tests_make::text::{chars_of, str_eq, string_of};

#[test]
fn plain_text_is_the_texts_in_order() {
    let spans = vec![
        Span::new("a ... ", Tone::Plain),
        Span::new("ok", Tone::Green),
        Span::new("\n", Tone::Plain),
        Span::new("", Tone::Red),
        Span::new("end", Tone::Red),
    ];
    assert_eq!(plain(&spans), "a ... ok\nend");
    assert_eq!(plain(&[]), "");
}

#[test]
fn a_span_holds_its_text_and_tone() {
    let span = Span::new("text", Tone::Green);
    assert_eq!(span.text, "text");
    assert_eq!(span.tone, Tone::Green);
}

#[test]
fn a_plain_span_is_painted_as_its_text() {
    colored::control::set_override(true);
    assert_eq!(Span::new("as it is\n", Tone::Plain).paint(), "as it is\n");
    colored::control::set_override(false);
    assert_eq!(Span::new("as it is\n", Tone::Plain).paint(), "as it is\n");
}

#[test]
fn without_colours_every_span_is_painted_as_its_text() {
    colored::control::set_override(false);
    assert_eq!(Span::new("ok", Tone::Green).paint(), "ok");
    assert_eq!(Span::new("-\twrong", Tone::Red).paint(), "-\twrong");
}

#[test]
fn with_colours_red_and_green_wrap_the_text() {
    colored::control::set_override(true);
    assert_eq!(Span::new("ok", Tone::Green).paint(), "\u{1b}[32mok\u{1b}[0m");
    assert_eq!(Span::new("-\twrong", Tone::Red).paint(), "\u{1b}[31m-\twrong\u{1b}[0m");
}

#[test]
fn characters_round_trip() {
    let text = "h\u{e9}llo\n\tw\u{f6}rld \u{1f600}";
    let chars = chars_of(text);
    assert_eq!(chars, text.chars().collect::<Vec<char>>());
    assert_eq!(string_of(&chars), text);
    assert_eq!(string_of(&[]), "");
    assert_eq!(string_of(&['a', 'b']), "ab");
}

#[test]
fn strings_compare_character_by_character() {
    assert!(str_eq("", ""));
    assert!(str_eq("abc\n", "abc\n"));
    assert!(!str_eq("abc\n", "abc"));
    assert!(!str_eq("abc", "abd"));
    assert!(!str_eq("", " "));
}
