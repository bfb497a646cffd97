//! The lines of a text, as the standard library splits them.
use crate::text::{chars_of, joined, string_of, texts};
use vstd::prelude::*;

verus! {

/// The length of the first line of `s`: the position of its first line feed,
/// or the length of `s` where it holds none.
pub open spec fn first_line_len(s: Seq<char>) -> int
    decreases s.len(),
{
    if s.len() == 0 || s[0] == '\n' {
        0
    } else {
        1 + first_line_len(s.drop_first())
    }
}

/// A line without the carriage return that ended it, if one did.
pub open spec fn without_return(line: Seq<char>) -> Seq<char> {
    if line.len() > 0 && line.last() == '\r' {
        line.drop_last()
    } else {
        line
    }
}

/// The lines of `s`. A line ends at a line feed, or at a carriage return
/// directly before a line feed; neither belongs to the line. What follows the
/// last line feed is a line of its own unless it is empty, and there a
/// carriage return at its end stays.
pub open spec fn lines_of(s: Seq<char>) -> Seq<Seq<char>>
    decreases s.len(),
{
    let n = first_line_len(s);
    if s.len() == 0 {
        Seq::empty()
    } else if 0 <= n < s.len() {
        seq![without_return(s.take(n))] + lines_of(s.skip(n + 1))
    } else {
        seq![s]
    }
}

/// `s` without the line feed that ends it, if one does.
pub open spec fn without_last_break(s: Seq<char>) -> Seq<char> {
    if s.len() > 0 && s.last() == '\n' {
        s.drop_last()
    } else {
        s
    }
}

/// The number of line feeds in `s`.
pub open spec fn breaks(s: Seq<char>) -> nat
    decreases s.len(),
{
    if s.len() == 0 {
        0
    } else if s.last() == '\n' {
        breaks(s.drop_last()) + 1
    } else {
        breaks(s.drop_last())
    }
}

/// The lines of `text`, in order.
pub fn split_lines(text: &str) -> (lines: Vec<String>)
    ensures
        texts(lines@) == lines_of(text@),
{
    let chars = chars_of(text);
    let n = chars.len();
    let mut lines: Vec<String> = Vec::new();
    let mut line: Vec<char> = Vec::new();
    let mut i: usize = 0;
    let ghost mut start: int = 0;
    proof {
        assert(chars@.skip(0) =~= chars@);
        assert(texts(lines@) =~= Seq::<Seq<char>>::empty());
    }
    while i < n
        invariant
            chars@ == text@,
            n == chars@.len(),
            0 <= start <= i <= n,
            line@ == chars@.subrange(start, i as int),
            forall|j: int| start <= j < i ==> chars@[j] != '\n',
            lines_of(chars@) == texts(lines@) + lines_of(chars@.skip(start)),
        decreases n - i,
    {
        let c = chars[i];
        if c == '\n' {
            proof {
                let rest = chars@.skip(start);
                lemma_first_line_len(rest, i - start);
                assert(rest.take(i - start) =~= line@);
                assert(rest.skip(i - start + 1) =~= chars@.skip(i + 1));
            }
            let ghost whole = line@;
            if line.len() > 0 && line[line.len() - 1] == '\r' {
                line.pop();
            }
            assert(line@ =~= without_return(whole));
            let ghost before = texts(lines@);
            lines.push(string_of(line.as_slice()));
            assert(texts(lines@) =~= before + seq![without_return(whole)]);
            line = Vec::new();
            proof {
                start = i + 1;
                assert(line@ =~= chars@.subrange(start, i + 1));
            }
        } else {
            line.push(c);
            assert(line@ =~= chars@.subrange(start, i + 1));
        }
        i += 1;
    }
    proof {
        let rest = chars@.skip(start);
        lemma_first_line_len(rest, n - start);
        assert(rest =~= line@);
    }
    if line.len() > 0 {
        let ghost before = texts(lines@);
        lines.push(string_of(line.as_slice()));
        assert(texts(lines@) =~= before + seq![line@]);
    } else {
        assert(texts(lines@) + Seq::<Seq<char>>::empty() =~= texts(lines@));
    }
    lines
}

/// No line holds a line feed.
pub proof fn lemma_lines_hold_no_break(s: Seq<char>)
    ensures
        forall|i: int, j: int|
            0 <= i < lines_of(s).len() && 0 <= j < lines_of(s)[i].len() ==> #[trigger] lines_of(
                s,
            )[i][j] != '\n',
    decreases s.len(),
{
    let n = first_line_len(s);
    lemma_first_line(s);
    if s.len() > 0 && n < s.len() {
        let first = without_return(s.take(n));
        let rest = lines_of(s.skip(n + 1));
        lemma_lines_hold_no_break(s.skip(n + 1));
        assert forall|i: int, j: int|
            0 <= i < lines_of(s).len() && 0 <= j < lines_of(s)[i].len() implies #[trigger] lines_of(
            s,
        )[i][j] != '\n' by {
            if i == 0 {
                assert(lines_of(s)[0] == first);
                assert(first[j] == s[j]);
            } else {
                assert(lines_of(s)[i] == rest[i - 1]);
            }
        }
    }
}

/// The lines of a text hold all of it but its line ends: joined by line
/// feeds, the lines of a text without carriage returns are the text again,
/// short of the line feed that ends it, if one does.
pub proof fn lemma_lines_join_back(s: Seq<char>)
    requires
        forall|j: int| 0 <= j < s.len() ==> s[j] != '\r',
    ensures
        joined(lines_of(s), seq!['\n']) == without_last_break(s),
    decreases s.len(),
{
    let n = first_line_len(s);
    lemma_first_line(s);
    if s.len() > 0 && n < s.len() {
        let first = s.take(n);
        let rest = s.skip(n + 1);
        assert(without_return(first) == first) by {
            if first.len() > 0 {
                assert(first.last() == s[n - 1]);
            }
        }
        assert forall|j: int| 0 <= j < rest.len() implies rest[j] != '\r' by {
            assert(rest[j] == s[j + n + 1]);
        }
        lemma_lines_join_back(rest);
        lemma_joined_front(first, lines_of(rest), seq!['\n']);
        assert(s =~= first + seq!['\n'] + rest);
        if rest.len() == 0 {
            assert(without_last_break(s) =~= first);
        } else {
            assert(lines_of(rest).len() > 0);
            assert(s.last() == rest.last());
            if rest.last() == '\n' {
                assert(s.drop_last() =~= first + seq!['\n'] + rest.drop_last());
            }
        }
    } else if s.len() > 0 {
        assert(s.last() == s[s.len() - 1]);
    }
}

/// The line feeds of two texts, one after the other, are those of both.
pub proof fn lemma_breaks_add(a: Seq<char>, b: Seq<char>)
    ensures
        breaks(a + b) == breaks(a) + breaks(b),
    decreases b.len(),
{
    if b.len() == 0 {
        assert(a + b =~= a);
    } else {
        assert((a + b).drop_last() =~= a + b.drop_last());
        lemma_breaks_add(a, b.drop_last());
    }
}

/// A text without a line feed has none to count.
pub proof fn lemma_breaks_none(s: Seq<char>)
    requires
        forall|j: int| 0 <= j < s.len() ==> s[j] != '\n',
    ensures
        breaks(s) == 0,
    decreases s.len(),
{
    if s.len() > 0 {
        lemma_breaks_none(s.drop_last());
    }
}

/// Joined pieces without line feeds hold those of the separators between
/// them.
pub proof fn lemma_breaks_joined(pieces: Seq<Seq<char>>, sep: Seq<char>)
    requires
        forall|i: int, j: int|
            0 <= i < pieces.len() && 0 <= j < pieces[i].len() ==> #[trigger] pieces[i][j] != '\n',
    ensures
        pieces.len() == 0 ==> breaks(joined(pieces, sep)) == 0,
        pieces.len() > 0 ==> breaks(joined(pieces, sep)) == (pieces.len() - 1) * breaks(sep),
    decreases pieces.len(),
{
    if pieces.len() == 1 {
        lemma_breaks_none(pieces[0]);
        assert(joined(pieces, sep) == pieces[0]);
        assert((pieces.len() - 1) * breaks(sep) == 0) by (nonlinear_arith)
            requires
                pieces.len() == 1,
        ;
    } else if pieces.len() > 1 {
        let front = pieces.drop_last();
        assert forall|i: int, j: int|
            0 <= i < front.len() && 0 <= j < front[i].len() implies #[trigger] front[i][j]
            != '\n' by {
            assert(front[i][j] == pieces[i][j]);
        }
        lemma_breaks_joined(front, sep);
        lemma_breaks_none(pieces.last());
        lemma_breaks_add(joined(front, sep), sep);
        lemma_breaks_add(joined(front, sep) + sep, pieces.last());
        assert(joined(pieces, sep) == joined(front, sep) + sep + pieces.last());
        assert(breaks(joined(pieces, sep)) == (front.len() - 1) * breaks(sep) + breaks(sep));
        assert((pieces.len() - 1) * breaks(sep) == (front.len() - 1) * breaks(sep) + breaks(sep))
            by (nonlinear_arith)
            requires
                front.len() == pieces.len() - 1,
        ;
    }
}

/// Joining with a piece in front: the piece, and behind a separator the rest
/// joined, if there is a rest.
pub proof fn lemma_joined_front(first: Seq<char>, rest: Seq<Seq<char>>, sep: Seq<char>)
    ensures
        joined(seq![first] + rest, sep) == if rest.len() == 0 {
            first
        } else {
            first + sep + joined(rest, sep)
        },
    decreases rest.len(),
{
    let all = seq![first] + rest;
    if rest.len() == 0 {
        assert(all =~= seq![first]);
    } else {
        assert(all.drop_last() =~= seq![first] + rest.drop_last());
        assert(all.last() == rest.last());
        lemma_joined_front(first, rest.drop_last(), sep);
        if rest.len() == 1 {
            assert(joined(all, sep) =~= first + sep + joined(rest, sep));
        } else {
            assert(joined(all, sep) =~= first + sep + joined(rest, sep));
        }
    }
}

/// The first line of `s` ends at `k` where no line feed stands before `k` and
/// one stands at `k`, or `s` ends there.
proof fn lemma_first_line_len(s: Seq<char>, k: int)
    requires
        0 <= k <= s.len(),
        forall|j: int| 0 <= j < k ==> s[j] != '\n',
        k == s.len() || s[k] == '\n',
    ensures
        first_line_len(s) == k,
    decreases k,
{
    if k > 0 {
        let rest = s.drop_first();
        assert forall|j: int| 0 <= j < k - 1 implies rest[j] != '\n' by {
            assert(rest[j] == s[j + 1]);
        }
        lemma_first_line_len(rest, k - 1);
    }
}

/// The first line of `s` holds no line feed, and one ends it unless `s` ends
/// there.
proof fn lemma_first_line(s: Seq<char>)
    ensures
        0 <= first_line_len(s) <= s.len(),
        forall|j: int| 0 <= j < first_line_len(s) ==> s[j] != '\n',
        first_line_len(s) < s.len() ==> s[first_line_len(s)] == '\n',
    decreases s.len(),
{
    if s.len() > 0 && s[0] != '\n' {
        let rest = s.drop_first();
        lemma_first_line(rest);
        assert forall|j: int| 0 <= j < first_line_len(s) implies s[j] != '\n' by {
            if j > 0 {
                assert(s[j] == rest[j - 1]);
            }
        }
        if first_line_len(s) < s.len() {
            assert(s[first_line_len(s)] == rest[first_line_len(rest)]);
        }
    }
}

} // verus!
