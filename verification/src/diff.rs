//! The line diff of a failed test: the lines of the actual output, each behind
//! a `-`, and the lines of the expected output, each behind a `+`.
use crate::lines::{
    breaks, lemma_breaks_add, lemma_breaks_joined, lemma_breaks_none, lemma_lines_hold_no_break,
    lines_of, split_lines,
};
use crate::style::{Span, span_views, SpanView, Tone};
use crate::text::{append_chars, chars_of, joined, str_eq, string_of, texts};
use vstd::prelude::*;

verus! {

/// The two sides of a diff.
#[derive(Debug, Clone, Copy, PartialEq, Eq, Structural)]
pub enum Side {
    /// What the script printed.
    Actual,
    /// What it was expected to print.
    Expected,
}

impl Side {
    /// The mark in front of every line of this side.
    pub open spec fn mark_of(self) -> char {
        match self {
            Side::Actual => '-',
            Side::Expected => '+',
        }
    }

    /// The tone that this side is shown in.
    pub open spec fn tone_of(self) -> Tone {
        match self {
            Side::Actual => Tone::Red,
            Side::Expected => Tone::Green,
        }
    }

    /// The mark in front of every line of this side.
    pub fn mark(self) -> (mark: char)
        ensures
            mark == self.mark_of(),
    {
        match self {
            Side::Actual => '-',
            Side::Expected => '+',
        }
    }

    /// The tone that this side is shown in.
    pub fn tone(self) -> (tone: Tone)
        ensures
            tone == self.tone_of(),
    {
        match self {
            Side::Actual => Tone::Red,
            Side::Expected => Tone::Green,
        }
    }
}

/// What opens every line of a block: the mark and a tab.
pub open spec fn line_head(mark: char) -> Seq<char> {
    seq![mark, '\t']
}

/// What stands between two lines of a block: a backslash and an `n`, which
/// show the line feed that the text held there, the line feed itself, and the
/// head of the next line.
pub open spec fn line_break(mark: char) -> Seq<char> {
    seq!['\\', 'n', '\n'] + line_head(mark)
}

/// The block of one side: the lines of `text`, each behind the mark and a
/// tab, every line but the last ending in a visible `\n`. A text without
/// lines gives the head alone.
pub open spec fn block_of(text: Seq<char>, mark: char) -> Seq<char> {
    line_head(mark) + joined(lines_of(text), line_break(mark))
}

/// The block of `text` for `side`.
pub fn block(text: &str, side: Side) -> (out: String)
    ensures
        out@ == block_of(text@, side.mark_of()),
{
    let mark = side.mark();
    let lines = split_lines(text);
    let mut out: Vec<char> = Vec::new();
    out.push(mark);
    out.push('\t');
    let mut i: usize = 0;
    assert(out@ =~= line_head(mark) + joined(texts(lines@).take(0), line_break(mark)));
    while i < lines.len()
        invariant
            i <= lines@.len(),
            out@ == line_head(mark) + joined(texts(lines@).take(i as int), line_break(mark)),
        decreases lines@.len() - i,
    {
        let ghost before = out@;
        if i > 0 {
            out.push('\\');
            out.push('n');
            out.push('\n');
            out.push(mark);
            out.push('\t');
            assert(out@ =~= before + line_break(mark));
        }
        let line = chars_of(lines[i].as_str());
        append_chars(&mut out, line.as_slice());
        proof {
            let pieces = texts(lines@);
            assert(pieces.take(i + 1).drop_last() =~= pieces.take(i as int));
            assert(pieces.take(i + 1).last() == line@);
            if i == 0 {
                assert(joined(pieces.take(0), line_break(mark)) =~= Seq::<char>::empty());
                assert(out@ =~= line_head(mark) + line@);
            } else {
                assert(out@ =~= line_head(mark) + (joined(
                    pieces.take(i as int),
                    line_break(mark),
                ) + line_break(mark) + line@));
            }
        }
        i += 1;
    }
    proof {
        assert(texts(lines@).take(lines@.len() as int) =~= texts(lines@));
    }
    string_of(out.as_slice())
}

/// The heading of a diff, which names the two sides.
pub open spec fn heading() -> Seq<SpanView> {
    seq![
        SpanView { text: seq!['('], tone: Tone::Plain },
        SpanView { text: seq!['-', 'a', 'c', 't', 'u', 'a', 'l'], tone: Tone::Red },
        SpanView { text: seq!['|'], tone: Tone::Plain },
        SpanView { text: seq!['+', 'e', 'x', 'p', 'e', 'c', 't', 'e', 'd'], tone: Tone::Green },
        SpanView { text: seq![')', ':', '\n'], tone: Tone::Plain },
    ]
}

/// The diff of an actual output against the expected one. Equal texts have no
/// diff. Otherwise the heading is followed by the block of the actual output
/// in red and, on a line of its own, the block of the expected output in
/// green; an empty line ends the diff.
pub open spec fn diff_of(actual: Seq<char>, expected: Seq<char>) -> Seq<SpanView> {
    if actual == expected {
        Seq::empty()
    } else {
        heading() + seq![
            SpanView {
                text: block_of(actual, Side::Actual.mark_of()),
                tone: Side::Actual.tone_of(),
            },
            SpanView { text: seq!['\n'], tone: Tone::Plain },
            SpanView {
                text: block_of(expected, Side::Expected.mark_of()),
                tone: Side::Expected.tone_of(),
            },
            SpanView { text: seq!['\n', '\n'], tone: Tone::Plain },
        ]
    }
}

/// The diff of `actual` against `expected`.
pub fn diff(actual: &str, expected: &str) -> (spans: Vec<Span>)
    ensures
        span_views(spans@) == diff_of(actual@, expected@),
{
    let mut spans: Vec<Span> = Vec::new();
    if !str_eq(actual, expected) {
        proof {
            reveal_strlit("(");
            reveal_strlit("-actual");
            reveal_strlit("|");
            reveal_strlit("+expected");
            reveal_strlit("):\n");
            reveal_strlit("\n");
            reveal_strlit("\n\n");
        }
        spans.push(Span::new("(", Tone::Plain));
        spans.push(Span::new("-actual", Tone::Red));
        spans.push(Span::new("|", Tone::Plain));
        spans.push(Span::new("+expected", Tone::Green));
        spans.push(Span::new("):\n", Tone::Plain));
        spans.push(Span { text: block(actual, Side::Actual), tone: Side::Actual.tone() });
        spans.push(Span::new("\n", Tone::Plain));
        spans.push(Span { text: block(expected, Side::Expected), tone: Side::Expected.tone() });
        spans.push(Span::new("\n\n", Tone::Plain));
        assert(span_views(spans@) =~= diff_of(actual@, expected@)) by {
            assert("("@ =~= seq!['(']);
            assert("-actual"@ =~= seq!['-', 'a', 'c', 't', 'u', 'a', 'l']);
            assert("|"@ =~= seq!['|']);
            assert("+expected"@ =~= seq!['+', 'e', 'x', 'p', 'e', 'c', 't', 'e', 'd']);
            assert("):\n"@ =~= seq![')', ':', '\n']);
            assert("\n"@ =~= seq!['\n']);
            assert("\n\n"@ =~= seq!['\n', '\n']);
        }
    } else {
        assert(span_views(spans@) =~= diff_of(actual@, expected@));
    }
    spans
}

/// A block shows as many lines as its text has, and one where the text has
/// none: the only line feeds in it are those between two lines, however many
/// the text held.
pub proof fn lemma_block_lines(text: Seq<char>, mark: char)
    requires
        mark != '\n',
    ensures
        lines_of(text).len() == 0 ==> breaks(block_of(text, mark)) == 0,
        lines_of(text).len() > 0 ==> breaks(block_of(text, mark)) + 1 == lines_of(text).len(),
{
    let lines = lines_of(text);
    lemma_lines_hold_no_break(text);
    lemma_breaks_joined(lines, line_break(mark));
    lemma_breaks_none(line_head(mark));
    lemma_breaks_add(line_head(mark), joined(lines, line_break(mark)));
    assert(breaks(line_break(mark)) == 1) by {
        lemma_breaks_add(seq!['\\', 'n', '\n'], line_head(mark));
        let shown = seq!['\\', 'n', '\n'];
        assert(shown.drop_last() =~= seq!['\\', 'n']);
        lemma_breaks_none(seq!['\\', 'n']);
    }
}

} // verus!
