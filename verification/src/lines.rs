//! Splitting text into lines and joining lines into text.

use vstd::prelude::*;
use crate::text::{lemma_chars_deep_view, push_all, slice_of};
use crate::types::lemma_deep_view_push;

verus! {

broadcast use lemma_chars_deep_view;

/// The index of the first line feed of `s` at or after `from`, or the length
/// of `s` if there is none.
pub open spec fn line_end(s: Seq<char>, from: int) -> int
    decreases s.len() - from,
{
    if from >= s.len() {
        s.len() as int
    } else if s[from] == '\n' {
        from
    } else {
        line_end(s, from + 1)
    }
}

/// `line_end` stays between `from` and the length, stops at a line feed, and
/// passes none.
pub proof fn lemma_line_end(s: Seq<char>, from: int)
    requires
        0 <= from <= s.len(),
    ensures
        from <= line_end(s, from) <= s.len(),
        line_end(s, from) < s.len() ==> s[line_end(s, from)] == '\n',
        forall|k: int| from <= k < line_end(s, from) ==> s[k] != '\n',
    decreases s.len() - from,
{
    if from < s.len() && s[from] != '\n' {
        lemma_line_end(s, from + 1);
    }
}

/// `s` without the carriage return that it ends with, if it ends with one.
pub open spec fn without_cr(s: Seq<char>) -> Seq<char> {
    if s.len() > 0 && s.last() == '\r' {
        s.drop_last()
    } else {
        s
    }
}

/// The lines of the part of `s` that starts at `from`.
pub open spec fn lines_from(s: Seq<char>, from: int) -> Seq<Seq<char>>
    decreases s.len() - from,
{
    if from < 0 || from >= s.len() {
        Seq::empty()
    } else {
        let e = line_end(s, from);
        if e >= s.len() {
            seq![s.subrange(from, s.len() as int)]
        } else {
            proof {
                lemma_line_end(s, from);
            }
            seq![without_cr(s.subrange(from, e))] + lines_from(s, e + 1)
        }
    }
}

/// The lines of `s`. A line ends at a line feed, or at a carriage return
/// followed by a line feed; neither belongs to the line. The end of the text
/// ends the last line, which is left out if it is empty.
pub open spec fn lines_of(s: Seq<char>) -> Seq<Seq<char>> {
    lines_from(s, 0)
}

/// Splits `s` into its lines.
pub fn split_lines(s: &Vec<char>) -> (out: Vec<Vec<char>>)
    ensures
        out.deep_view() == lines_of(s@),
{
    let mut out: Vec<Vec<char>> = Vec::new();
    let mut pos: usize = 0;
    assert(out.deep_view() =~= Seq::<Seq<char>>::empty());
    while pos < s.len()
        invariant
            pos <= s.len(),
            out.deep_view() + lines_from(s@, pos as int) == lines_of(s@),
        decreases s.len() - pos,
    {
        let mut e: usize = pos;
        while e < s.len() && s[e] != '\n'
            invariant
                pos <= e <= s.len(),
                line_end(s@, e as int) == line_end(s@, pos as int),
            decreases s.len() - e,
        {
            e += 1;
        }
        let ghost before = out;
        assert(line_end(s@, pos as int) == e);
        if e >= s.len() {
            out.push(slice_of(s, pos, s.len()));
            proof {
                assert(out@.drop_last() =~= before@);
                lemma_deep_view_push(before, out);
                assert(lines_from(s@, pos as int) =~= seq![
                    s@.subrange(pos as int, s.len() as int),
                ]);
                assert(lines_from(s@, s.len() as int) =~= Seq::<Seq<char>>::empty());
                assert(out.deep_view() + lines_from(s@, s.len() as int) =~= before.deep_view()
                    + lines_from(s@, pos as int));
            }
            pos = s.len();
        } else {
            let mut end: usize = e;
            if end > pos && s[end - 1] == '\r' {
                end -= 1;
            }
            out.push(slice_of(s, pos, end));
            proof {
                assert(out@.drop_last() =~= before@);
                lemma_deep_view_push(before, out);
                assert(s@.subrange(pos as int, end as int) =~= without_cr(
                    s@.subrange(pos as int, e as int),
                ));
                assert(lines_from(s@, pos as int) =~= seq![
                    without_cr(s@.subrange(pos as int, e as int)),
                ] + lines_from(s@, e + 1));
                assert(out.deep_view() + lines_from(s@, e + 1) =~= before.deep_view()
                    + lines_from(s@, pos as int));
            }
            pos = e + 1;
        }
    }
    assert(lines_from(s@, pos as int) =~= Seq::<Seq<char>>::empty());
    assert(out.deep_view() + lines_from(s@, pos as int) =~= out.deep_view());
    out
}

/// The lines of `lines` from index `from` on, with `sep` between each two.
pub open spec fn join_from(lines: Seq<Seq<char>>, sep: Seq<char>, from: int) -> Seq<char>
    decreases lines.len() - from,
{
    if from < 0 || from >= lines.len() {
        Seq::empty()
    } else if from + 1 == lines.len() {
        lines[from]
    } else {
        lines[from] + sep + join_from(lines, sep, from + 1)
    }
}

/// The lines of `lines`, with `sep` between each two.
pub open spec fn join(lines: Seq<Seq<char>>, sep: Seq<char>) -> Seq<char> {
    join_from(lines, sep, 0)
}

/// Joins `lines` with `sep` between each two.
pub fn join_lines(lines: &Vec<Vec<char>>, sep: &Vec<char>) -> (out: Vec<char>)
    ensures
        out@ == join(lines.deep_view(), sep@),
{
    let mut out: Vec<char> = Vec::new();
    let mut i: usize = 0;
    while i < lines.len()
        invariant
            i <= lines.len(),
            out@ + join_from(lines.deep_view(), sep@, i as int) == join(lines.deep_view(), sep@),
        decreases lines.len() - i,
    {
        let ghost before = out@;
        push_all(&mut out, &lines[i]);
        if i + 1 < lines.len() {
            push_all(&mut out, sep);
        }
        proof {
            assert(out@ + join_from(lines.deep_view(), sep@, i + 1) =~= before + join_from(
                lines.deep_view(),
                sep@,
                i as int,
            ));
        }
        i += 1;
    }
    assert(out@ + join_from(lines.deep_view(), sep@, i as int) =~= out@);
    out
}


/// The line feed as a text.
pub open spec fn newline() -> Seq<char> {
    seq!['\n']
}

/// Whether `l` can be written as one line and read back: it holds no line
/// feed and does not end with a carriage return.
pub open spec fn is_plain_line(l: Seq<char>) -> bool {
    &&& forall|k: int| 0 <= k < l.len() ==> l[k] != '\n'
    &&& l.len() == 0 || l.last() != '\r'
}

/// `line_end` is the first index at or after `from` that holds a line feed.
pub proof fn lemma_line_end_is(s: Seq<char>, from: int, e: int)
    requires
        0 <= from <= e <= s.len(),
        forall|k: int| from <= k < e ==> s[k] != '\n',
        e == s.len() || s[e] == '\n',
    ensures
        line_end(s, from) == e,
    decreases e - from,
{
    if from < e {
        lemma_line_end_is(s, from + 1, e);
    }
}

/// The lines of `s` from `from` on are the lines of what is left of `s`
/// when its first `from` characters are dropped.
pub proof fn lemma_lines_from_skip(s: Seq<char>, from: int)
    requires
        0 <= from <= s.len(),
    ensures
        lines_from(s, from) == lines_of(s.skip(from)),
    decreases s.len() - from,
{
    let t = s.skip(from);
    if from < s.len() {
        lemma_line_end(s, from);
        let e = line_end(s, from);
        assert forall|k: int| 0 <= k < e - from implies t[k] != '\n' by {
            assert(t[k] == s[from + k]);
        }
        lemma_line_end_is(t, 0, e - from);
        if e < s.len() {
            lemma_lines_from_skip(s, e + 1);
            lemma_lines_from_skip(t, e - from + 1);
            assert(t.skip(e - from + 1) =~= s.skip(e + 1));
            assert(t.subrange(0, e - from) =~= s.subrange(from, e));
        } else {
            assert(t.subrange(0, t.len() as int) =~= s.subrange(from, s.len() as int));
        }
    }
}

/// A plain line written before a line feed is read back as the first line.
pub proof fn lemma_lines_of_first(l: Seq<char>, rest: Seq<char>)
    requires
        is_plain_line(l),
    ensures
        lines_of(l + newline() + rest) == seq![l] + lines_of(rest),
{
    let s = l + newline() + rest;
    let e = l.len() as int;
    assert(s[e] == '\n');
    assert forall|k: int| 0 <= k < e implies s[k] != '\n' by {
        assert(s[k] == l[k]);
    }
    lemma_line_end_is(s, 0, e);
    lemma_lines_from_skip(s, e + 1);
    assert(s.skip(e + 1) =~= rest);
    assert(s.subrange(0, e) =~= l);
}

/// Plain lines that are joined by line feeds and followed by one are read
/// back as they were written.
pub proof fn lemma_lines_read_back_from(ls: Seq<Seq<char>>, from: int)
    requires
        0 <= from < ls.len(),
        forall|k: int| 0 <= k < ls.len() ==> is_plain_line(#[trigger] ls[k]),
    ensures
        lines_of(join_from(ls, newline(), from) + newline()) == ls.skip(from),
    decreases ls.len() - from,
{
    let nl = newline();
    if from + 1 == ls.len() {
        lemma_lines_of_first(ls[from], Seq::empty());
        assert(ls[from] + nl + Seq::<char>::empty() =~= join_from(ls, nl, from) + nl);
        assert(seq![ls[from]] + lines_of(Seq::<char>::empty()) =~= ls.skip(from));
    } else {
        lemma_lines_read_back_from(ls, from + 1);
        let rest = join_from(ls, nl, from + 1) + nl;
        lemma_lines_of_first(ls[from], rest);
        assert(ls[from] + nl + rest =~= join_from(ls, nl, from) + nl);
        assert(seq![ls[from]] + ls.skip(from + 1) =~= ls.skip(from));
    }
}

/// At least one plain line: joined by line feeds and followed by one, the
/// lines are read back as they were written.
pub proof fn lemma_lines_read_back(ls: Seq<Seq<char>>)
    requires
        ls.len() > 0,
        forall|k: int| 0 <= k < ls.len() ==> is_plain_line(#[trigger] ls[k]),
    ensures
        lines_of(join(ls, newline()) + newline()) == ls,
{
    lemma_lines_read_back_from(ls, 0);
    assert(ls.skip(0) =~= ls);
}

/// Appends to `out` the lines of `lines` from index `from` up to, not
/// including, `to`.
pub(crate) fn push_lines(out: &mut Vec<Vec<char>>, lines: &Vec<Vec<char>>, from: usize, to: usize)
    requires
        from <= to <= lines.len(),
    ensures
        final(out).deep_view() == old(out).deep_view() + lines.deep_view().subrange(
            from as int,
            to as int,
        ),
{
    let mut i: usize = from;
    assert(out.deep_view() =~= old(out).deep_view() + lines.deep_view().subrange(
        from as int,
        from as int,
    ));
    while i < to
        invariant
            from <= i <= to <= lines.len(),
            out.deep_view() == old(out).deep_view() + lines.deep_view().subrange(
                from as int,
                i as int,
            ),
        decreases to - i,
    {
        let ghost before = *out;
        let line = slice_of(&lines[i], 0, lines[i].len());
        assert(line@ =~= lines@[i as int]@);
        out.push(line);
        proof {
            assert(out@.drop_last() =~= before@);
            lemma_deep_view_push(before, *out);
            assert(out.deep_view() =~= old(out).deep_view() + lines.deep_view().subrange(
                from as int,
                i + 1,
            ));
        }
        i += 1;
    }
}

/// The lines of `lines` from index `from` up to, not including, `to`.
pub(crate) fn lines_between(lines: &Vec<Vec<char>>, from: usize, to: usize) -> (out: Vec<Vec<char>>)
    requires
        from <= to <= lines.len(),
    ensures
        out.deep_view() == lines.deep_view().subrange(from as int, to as int),
{
    let mut out: Vec<Vec<char>> = Vec::new();
    assert(out.deep_view() =~= Seq::<Seq<char>>::empty());
    push_lines(&mut out, lines, from, to);
    assert(out.deep_view() =~= lines.deep_view().subrange(from as int, to as int));
    out
}

} // verus!
