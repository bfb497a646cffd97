//! Text with a tone: what a report is made of before it is painted for a
//! terminal.
use crate::text::{append_chars, chars_of, string_of};
use colored::Colorize;
use vstd::prelude::*;

verus! {

/// How a piece of a report is shown.
#[derive(Debug, Clone, Copy, PartialEq, Eq, Structural)]
pub enum Tone {
    Plain,
    Red,
    Green,
}

/// A piece of a report: its text and its tone.
#[derive(Debug, Clone)]
pub struct Span {
    pub text: String,
    pub tone: Tone,
}

/// A span as plain values.
pub struct SpanView {
    pub text: Seq<char>,
    pub tone: Tone,
}

impl View for Span {
    type V = SpanView;

    open spec fn view(&self) -> SpanView {
        SpanView { text: self.text@, tone: self.tone }
    }
}

/// The spans as plain values, in order.
pub open spec fn span_views(spans: Seq<Span>) -> Seq<SpanView> {
    Seq::new(spans.len(), |i: int| spans[i]@)
}

/// The text of the spans one after another, whatever their tones.
pub open spec fn plain_text(spans: Seq<SpanView>) -> Seq<char>
    decreases spans.len(),
{
    if spans.len() == 0 {
        Seq::empty()
    } else {
        plain_text(spans.drop_last()) + spans.last().text
    }
}

/// The character that opens every escape sequence of a terminal.
pub open spec fn escape() -> char {
    '\u{1b}'
}

/// `text` between the escape sequence that switches to the colour of `tone`
/// and the one that switches back; in the plain tone, `text` itself.
pub open spec fn coloured(text: Seq<char>, tone: Tone) -> Seq<char> {
    match tone {
        Tone::Plain => text,
        Tone::Red => seq![escape(), '[', '3', '1', 'm'] + text + seq![escape(), '[', '0', 'm'],
        Tone::Green => seq![escape(), '[', '3', '2', 'm'] + text + seq![escape(), '[', '0', 'm'],
    }
}

/// `Colorize::red` and the `Display` of what it returns. Where colours are
/// switched off for this process, which the environment decides, that is
/// `text` itself. Where they are on, it is `text` between the sequences for
/// red and for reset, as long as `text` holds no escape sequence of its own;
/// of a text that holds one, nothing is claimed.
#[verifier::external_body]
fn paint_red(text: &str) -> (painted: String)
    ensures
        !text@.contains(escape()) ==> painted@ == text@ || painted@ == coloured(text@, Tone::Red),
{
    text.red().to_string()
}

/// `Colorize::green` and the `Display` of what it returns. Where colours are
/// switched off for this process, which the environment decides, that is
/// `text` itself. Where they are on, it is `text` between the sequences for
/// green and for reset, as long as `text` holds no escape sequence of its
/// own; of a text that holds one, nothing is claimed.
#[verifier::external_body]
fn paint_green(text: &str) -> (painted: String)
    ensures
        !text@.contains(escape()) ==> painted@ == text@ || painted@ == coloured(
            text@,
            Tone::Green,
        ),
{
    text.green().to_string()
}

impl Span {
    /// A span of `text` in `tone`.
    pub fn new(text: &str, tone: Tone) -> (span: Span)
        ensures
            span@ == (SpanView { text: text@, tone }),
    {
        Span { text: text.to_owned(), tone }
    }

    /// The span as a terminal is sent it. A plain span is its text. A red or
    /// a green one is its text, in its colour where the process shows
    /// colours and as it is where not.
    pub fn paint(&self) -> (painted: String)
        ensures
            self.tone == Tone::Plain ==> painted@ == self.text@,
            !self.text@.contains(escape()) ==> painted@ == self.text@ || painted@ == coloured(
                self.text@,
                self.tone,
            ),
    {
        match self.tone {
            Tone::Plain => self.text.clone(),
            Tone::Red => paint_red(self.text.as_str()),
            Tone::Green => paint_green(self.text.as_str()),
        }
    }
}

/// The text of the spans one after another, without any colour.
pub fn plain(spans: &[Span]) -> (text: String)
    ensures
        text@ == plain_text(span_views(spans@)),
{
    let mut out: Vec<char> = Vec::new();
    let mut i: usize = 0;
    while i < spans.len()
        invariant
            i <= spans@.len(),
            out@ == plain_text(span_views(spans@).take(i as int)),
        decreases spans@.len() - i,
    {
        let piece = chars_of(spans[i].text.as_str());
        proof {
            let views = span_views(spans@);
            assert(views.take(i + 1).drop_last() =~= views.take(i as int));
        }
        append_chars(&mut out, piece.as_slice());
        i += 1;
    }
    proof {
        assert(span_views(spans@).take(spans@.len() as int) =~= span_views(spans@));
    }
    string_of(out.as_slice())
}

} // verus!
