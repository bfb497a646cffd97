use tests_make::diff::{block, diff, Side};
use tests_make::lines::split_lines;
use tests_make::style::{plain, Tone};

fn std_lines(text: &str) -> Vec<String> {
    text.lines().map(String::from).collect()
}

fn std_block(text: &str, label: &str) -> String {
    let lines = std_lines(text).join(&format!("\n{}\t", label)).replace("\n", "\\n\n");
    format!("{}\t{}", label, lines)
}

const SAMPLES: [&str; 16] = [
    "",
    "a",
    "a\n",
    "\n",
    "\n\n",
    "a\nb",
    "a\nb\n",
    "a\n\nb",
    "a\r\nb",
    "a\r\nb\r\n",
    "a\r",
    "\r",
    "\r\n",
    "a\r\r\nb",
    "a\rb\nc",
    "tab\there\n  indented\n\u{e9}t\u{e9}\n",
];

#[test]
fn lines_as_the_standard_library_splits_them() {
    for sample in SAMPLES {
        assert_eq!(split_lines(sample), std_lines(sample), "lines of {:?}", sample);
    }
}

#[test]
fn lines_of_named_edge_cases() {
    assert_eq!(split_lines(""), Vec::<String>::new());
    assert_eq!(split_lines("a"), vec!["a".to_string()]);
    assert_eq!(split_lines("a\n"), vec!["a".to_string()]);
    assert_eq!(split_lines("\n"), vec!["".to_string()]);
    assert_eq!(split_lines("a\n\nb"), vec!["a".to_string(), "".to_string(), "b".to_string()]);
    assert_eq!(split_lines("a\r\nb"), vec!["a".to_string(), "b".to_string()]);
    assert_eq!(split_lines("a\r"), vec!["a\r".to_string()]);
}

#[test]
fn block_as_the_standard_library_formats_it() {
    for sample in SAMPLES {
        assert_eq!(block(sample, Side::Actual), std_block(sample, "-"), "block of {:?}", sample);
        assert_eq!(block(sample, Side::Expected), std_block(sample, "+"), "block of {:?}", sample);
    }
}

#[test]
fn block_marks_every_line_and_shows_the_breaks() {
    assert_eq!(block("a\nb", Side::Actual), "-\ta\\n\n-\tb");
    assert_eq!(block("a\nc", Side::Expected), "+\ta\\n\n+\tc");
    assert_eq!(block("one", Side::Actual), "-\tone");
    assert_eq!(block("one\n", Side::Actual), "-\tone");
    assert_eq!(block("", Side::Expected), "+\t");
    assert_eq!(block("x\n\ny\n", Side::Expected), "+\tx\\n\n+\t\\n\n+\ty");
}

#[test]
fn diff_of_two_lines_each() {
    let spans = diff("a\nb", "a\nc");
    assert_eq!(spans.len(), 9);
    let reds: Vec<&str> =
        spans.iter().filter(|s| s.tone == Tone::Red).map(|s| s.text.as_str()).collect();
    let greens: Vec<&str> =
        spans.iter().filter(|s| s.tone == Tone::Green).map(|s| s.text.as_str()).collect();
    assert_eq!(reds, vec!["-actual", "-\ta\\n\n-\tb"]);
    assert_eq!(greens, vec!["+expected", "+\ta\\n\n+\tc"]);
    let minus_lines: Vec<&str> = spans[5].text.split('\n').collect();
    assert_eq!(minus_lines, vec!["-\ta\\n", "-\tb"]);
    let plus_lines: Vec<&str> = spans[7].text.split('\n').collect();
    assert_eq!(plus_lines, vec!["+\ta\\n", "+\tc"]);
    assert_eq!(plain(&spans), "(-actual|+expected):\n-\ta\\n\n-\tb\n+\ta\\n\n+\tc\n\n");
}

#[test]
fn diff_spans_and_their_tones() {
    let spans = diff("wrong\n", "right\n");
    let shown: Vec<(&str, Tone)> = spans.iter().map(|s| (s.text.as_str(), s.tone)).collect();
    assert_eq!(
        shown,
        vec![
            ("(", Tone::Plain),
            ("-actual", Tone::Red),
            ("|", Tone::Plain),
            ("+expected", Tone::Green),
            ("):\n", Tone::Plain),
            ("-\twrong", Tone::Red),
            ("\n", Tone::Plain),
            ("+\tright", Tone::Green),
            ("\n\n", Tone::Plain),
        ]
    );
}

#[test]
fn equal_texts_have_no_diff() {
    assert!(diff("same\n", "same\n").is_empty());
    assert!(diff("", "").is_empty());
    assert!(!diff("same\n", "same").is_empty());
}

#[test]
fn sides_have_their_mark_and_tone() {
    assert_eq!(Side::Actual.mark(), '-');
    assert_eq!(Side::Expected.mark(), '+');
    assert_eq!(Side::Actual.tone(), Tone::Red);
    assert_eq!(Side::Expected.tone(), Tone::Green);
}
