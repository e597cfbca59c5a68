//! Reading a change set from the text of a unified diff.

use vstd::prelude::*;
use crate::lines::{lines_of, newline, split_lines};
use crate::scan::{find_last_word, last_word, number_of, parse_number, split_words, words};
use crate::text::{
    chars_of, ends_with, find, find_str, has_prefix, has_suffix, is_blank, is_blank_chars,
    lemma_chars_deep_view, same_chars, slice_of, starts_with, string_of, strip_prefix,
    strip_prefix_chars, strip_sign, trim_end, trim_end_chars, without_sign,
};
use crate::types::{
    lemma_deep_view_push, new_side_count, old_side_count, saturate_u32, side_counts, DeltaStatus,
    DiffLine, FileDiff, FileModel, Hunk, HunkModel, HunkStatus, LineKind, LineModel,
};

verus! {

broadcast use lemma_chars_deep_view;

/// What is wrong with a hunk header.
#[derive(Debug, Clone, Copy, PartialEq, Eq, Structural)]
pub enum ParseErrorKind {
    /// The line does not begin with `@@ `, or ` @@` does not follow.
    MissingMarker,
    /// Between the markers stand not exactly two ranges.
    RangeCount,
    /// A start or a count is no number that a `u32` holds.
    BadNumber,
}

/// A hunk header that cannot be read. `header` is the line as it stands in
/// the input.
#[derive(Debug, Clone)]
pub struct ParseError {
    pub kind: ParseErrorKind,
    pub header: String,
}

/// The mathematical view of a `ParseError`.
pub struct ParseErrorModel {
    pub kind: ParseErrorKind,
    pub header: Seq<char>,
}

impl View for ParseError {
    type V = ParseErrorModel;

    open spec fn view(&self) -> ParseErrorModel {
        ParseErrorModel { kind: self.kind, header: self.header@ }
    }
}

/// What ingestion noticed and went on from.
#[derive(Debug, Clone)]
pub enum Warning {
    /// The counts that a hunk header declares are not those of the lines
    /// that follow it. The hunk carries the counts of its lines.
    CountMismatch {
        header: String,
        declared_old: u32,
        declared_new: u32,
        parsed_old: u32,
        parsed_new: u32,
    },
    /// A line in the body of a hunk begins with none of the known marks.
    /// The hunk ends before it. `line_number` counts the lines of the input
    /// from one.
    UnrecognizedLine { line_number: usize },
}

/// The mathematical view of a `Warning`.
pub enum WarningModel {
    CountMismatch {
        header: Seq<char>,
        declared_old: u32,
        declared_new: u32,
        parsed_old: u32,
        parsed_new: u32,
    },
    UnrecognizedLine { line_number: usize },
}

impl View for Warning {
    type V = WarningModel;

    open spec fn view(&self) -> WarningModel {
        match *self {
            Warning::CountMismatch {
                header,
                declared_old,
                declared_new,
                parsed_old,
                parsed_new,
            } => WarningModel::CountMismatch {
                header: header@,
                declared_old,
                declared_new,
                parsed_old,
                parsed_new,
            },
            Warning::UnrecognizedLine { line_number } => WarningModel::UnrecognizedLine {
                line_number,
            },
        }
    }
}

impl DeepView for Warning {
    type V = WarningModel;

    open spec fn deep_view(&self) -> WarningModel {
        self@
    }
}

/// `path` without the `a/` or `b/` that it begins with.
pub open spec fn strip_ab(path: Seq<char>) -> Seq<char> {
    match strip_prefix(path, "a/"@) {
        Some(rest) => rest,
        None => match strip_prefix(path, "b/"@) {
            Some(rest) => rest,
            None => path,
        },
    }
}

/// Removes the `a/` or `b/` that `path` begins with.
pub fn strip_ab_chars(path: &Vec<char>) -> (r: Vec<char>)
    ensures
        r@ == strip_ab(path@),
{
    match strip_prefix_chars(path, "a/") {
        Some(rest) => rest,
        None => match strip_prefix_chars(path, "b/") {
            Some(rest) => rest,
            None => {
                let r = slice_of(path, 0, path.len());
                assert(r@ =~= path@);
                r
            },
        },
    }
}

/// Removes the `a/` or `b/` that `path` begins with.
pub fn strip_ab_prefix(path: &str) -> (r: String)
    ensures
        r@ == strip_ab(path@),
{
    let chars = chars_of(path);
    string_of(&strip_ab_chars(&chars))
}

/// The path that the rest of a `diff --git` line names: what follows the
/// first ` b/`; without one, the last word, less its `a/` or `b/`; without a
/// word, the text itself.
pub open spec fn git_header_path(header: Seq<char>) -> Seq<char> {
    match find(header, " b/"@) {
        Some(pos) => header.skip(pos + " b/"@.len()),
        None => match last_word(header) {
            Some(word) => strip_ab(word),
            None => header,
        },
    }
}

/// Reads the path out of the rest of a `diff --git` line.
pub fn git_header_path_chars(header: &Vec<char>) -> (r: Vec<char>)
    ensures
        r@ == git_header_path(header@),
{
    match find_str(header, " b/") {
        Some(pos) => {
            let mark = chars_of(" b/");
            let n: usize = header.len();
            let r = slice_of(header, pos + mark.len(), n);
            assert(r@ =~= header@.skip(pos + " b/"@.len()));
            r
        },
        None => match find_last_word(header) {
            Some(word) => strip_ab_chars(&word),
            None => {
                let r = slice_of(header, 0, header.len());
                assert(r@ =~= header@);
                r
            },
        },
    }
}

/// Reads the path out of the rest of a `diff --git` line.
pub fn parse_git_header_path(header: &str) -> (r: String)
    ensures
        r@ == git_header_path(header@),
{
    let chars = chars_of(header);
    string_of(&git_header_path_chars(&chars))
}

/// The start and the count that a range writes: two numbers with a comma
/// between them, or one number, the count then being one.
pub open spec fn range_of(range: Seq<char>) -> Option<(u32, u32)> {
    match find(range, ","@) {
        Some(pos) => match (
            number_of(range.take(pos)),
            number_of(range.skip(pos + ","@.len())),
        ) {
            (Some(start), Some(count)) => Some((start, count)),
            _ => None,
        },
        None => match number_of(range) {
            Some(start) => Some((start, 1u32)),
            None => None,
        },
    }
}

/// Reads the start and the count of a range.
pub fn range_chars(range: &Vec<char>) -> (r: Option<(u32, u32)>)
    ensures
        r == range_of(range@),
{
    match find_str(range, ",") {
        Some(pos) => {
            let comma = chars_of(",");
            let n: usize = range.len();
            let first = slice_of(range, 0, pos);
            let second = slice_of(range, pos + comma.len(), n);
            assert(first@ =~= range@.take(pos as int));
            assert(second@ =~= range@.skip(pos + ","@.len()));
            match parse_number(&first) {
                Some(start) => match parse_number(&second) {
                    Some(count) => Some((start, count)),
                    None => None,
                },
                None => None,
            }
        },
        None => match parse_number(range) {
            Some(start) => Some((start, 1)),
            None => None,
        },
    }
}

/// Reads a range such as `10,5`, or `10` for a count of one.
pub fn parse_range(range: &str) -> (r: Result<(u32, u32), ParseError>)
    ensures
        match r {
            Ok(pair) => range_of(range@) == Some(pair),
            Err(e) => range_of(range@) is None && e@ == (ParseErrorModel {
                kind: ParseErrorKind::BadNumber,
                header: range@,
            }),
        },
{
    let chars = chars_of(range);
    match range_chars(&chars) {
        Some(pair) => Ok(pair),
        None => Err(ParseError { kind: ParseErrorKind::BadNumber, header: string_of(&chars) }),
    }
}

/// The four numbers of a hunk header.
pub struct Ranges {
    pub old_start: u32,
    pub old_lines: u32,
    pub new_start: u32,
    pub new_lines: u32,
}

/// The ranges that a hunk header declares: after `@@ ` and before the first
/// ` @@` stand two words, the range of the original side, which may begin
/// with `-`, and the range of the new side, which may begin with `+`.
pub open spec fn header_ranges(line: Seq<char>) -> Result<Ranges, ParseErrorKind> {
    match strip_prefix(line, "@@ "@) {
        None => Err(ParseErrorKind::MissingMarker),
        Some(after) => match find(after, " @@"@) {
            None => Err(ParseErrorKind::MissingMarker),
            Some(end) => {
                let parts = words(after.take(end));
                if parts.len() != 2 {
                    Err(ParseErrorKind::RangeCount)
                } else {
                    match (
                        range_of(without_sign(parts[0], '-')),
                        range_of(without_sign(parts[1], '+')),
                    ) {
                        (Some(old), Some(new)) => Ok(
                            Ranges {
                                old_start: old.0,
                                old_lines: old.1,
                                new_start: new.0,
                                new_lines: new.1,
                            },
                        ),
                        _ => Err(ParseErrorKind::BadNumber),
                    }
                }
            },
        },
    }
}

/// Reads the ranges of a hunk header.
pub fn header_ranges_chars(line: &Vec<char>) -> (r: Result<Ranges, ParseErrorKind>)
    ensures
        r == header_ranges(line@),
{
    let after = match strip_prefix_chars(line, "@@ ") {
        Some(after) => after,
        None => {
            return Err(ParseErrorKind::MissingMarker);
        },
    };
    let end = match find_str(&after, " @@") {
        Some(end) => end,
        None => {
            return Err(ParseErrorKind::MissingMarker);
        },
    };
    let range_part = slice_of(&after, 0, end);
    assert(range_part@ =~= after@.take(end as int));
    let parts = split_words(&range_part);
    if parts.len() != 2 {
        return Err(ParseErrorKind::RangeCount);
    }
    let ghost ws = words(after@.take(end as int));
    assert(ws[0] == parts@[0]@);
    assert(ws[1] == parts@[1]@);
    let old = range_chars(&strip_sign(&parts[0], '-'));
    let new = range_chars(&strip_sign(&parts[1], '+'));
    match (old, new) {
        (Some(old), Some(new)) => Ok(
            Ranges { old_start: old.0, old_lines: old.1, new_start: new.0, new_lines: new.1 },
        ),
        _ => Err(ParseErrorKind::BadNumber),
    }
}

/// Reads a hunk header such as `@@ -10,5 +10,7 @@ fn foo()`: the four
/// numbers, and the header without its trailing white space.
pub fn parse_hunk_header(line: &str) -> (r: Result<(u32, u32, u32, u32, String), ParseError>)
    ensures
        match r {
            Ok(t) => header_ranges(line@) == Ok::<Ranges, ParseErrorKind>(
                Ranges { old_start: t.0, old_lines: t.1, new_start: t.2, new_lines: t.3 },
            ) && t.4@ == trim_end(line@),
            Err(e) => header_ranges(line@) == Err::<Ranges, ParseErrorKind>(e.kind) && e.header@
                == line@,
        },
{
    let chars = chars_of(line);
    match header_ranges_chars(&chars) {
        Ok(ranges) => {
            let header = trim_end_chars(&chars);
            Ok(
                (
                    ranges.old_start,
                    ranges.old_lines,
                    ranges.new_start,
                    ranges.new_lines,
                    string_of(&header),
                ),
            )
        },
        Err(kind) => Err(ParseError { kind, header: string_of(&chars) }),
    }
}


/// What a line is in the body of a hunk.
#[derive(Debug, Clone)]
pub enum BodyLine {
    /// The next hunk header or the next file: the body ends before it.
    Boundary,
    /// A note such as `\ No newline at end of file`: it is passed over.
    Marker,
    /// A line of the hunk, with its kind and its content.
    Content { kind: LineKind, content: String },
    /// A line that begins with none of the known marks.
    Unrecognized,
}

/// The mathematical view of a `BodyLine`.
pub enum BodyLineModel {
    Boundary,
    Marker,
    Content { kind: LineKind, content: Seq<char> },
    Unrecognized,
}

impl View for BodyLine {
    type V = BodyLineModel;

    open spec fn view(&self) -> BodyLineModel {
        match *self {
            BodyLine::Boundary => BodyLineModel::Boundary,
            BodyLine::Marker => BodyLineModel::Marker,
            BodyLine::Content { kind, content } => BodyLineModel::Content {
                kind,
                content: content@,
            },
            BodyLine::Unrecognized => BodyLineModel::Unrecognized,
        }
    }
}

/// Whether a line is a hunk header or the first line of a file.
pub open spec fn is_boundary(line: Seq<char>) -> bool {
    has_prefix(line, "@@ "@) || has_prefix(line, "diff --git "@)
}

/// What `line` is in the body of a hunk. A line is added, removed or
/// context by its first character, `+`, `-` or a space; an empty line is an
/// empty context line. The content is the rest of the line and a line feed.
pub open spec fn classify(line: Seq<char>) -> BodyLineModel {
    if is_boundary(line) {
        BodyLineModel::Boundary
    } else if has_prefix(line, "\\ "@) {
        BodyLineModel::Marker
    } else if line.len() == 0 {
        BodyLineModel::Content { kind: LineKind::Context, content: newline() }
    } else if line[0] == '+' {
        BodyLineModel::Content { kind: LineKind::Added, content: line.skip(1) + newline() }
    } else if line[0] == '-' {
        BodyLineModel::Content { kind: LineKind::Removed, content: line.skip(1) + newline() }
    } else if line[0] == ' ' {
        BodyLineModel::Content { kind: LineKind::Context, content: line.skip(1) + newline() }
    } else {
        BodyLineModel::Unrecognized
    }
}

/// Tests whether a line is a hunk header or the first line of a file.
fn at_boundary(line: &Vec<char>) -> (r: bool)
    ensures
        r == is_boundary(line@),
{
    starts_with(line, "@@ ") || starts_with(line, "diff --git ")
}

/// Says what `line` is in the body of a hunk.
pub fn classify_line(line: &str) -> (r: BodyLine)
    ensures
        r@ == classify(line@),
{
    let chars = chars_of(line);
    classify_chars(&chars)
}

/// Says what `line` is in the body of a hunk.
fn classify_chars(line: &Vec<char>) -> (r: BodyLine)
    ensures
        r@ == classify(line@),
{
    if at_boundary(line) {
        return BodyLine::Boundary;
    }
    if starts_with(line, "\\ ") {
        return BodyLine::Marker;
    }
    if line.len() == 0 {
        let mut content: Vec<char> = Vec::new();
        content.push('\n');
        assert(content@ =~= newline());
        return BodyLine::Content { kind: LineKind::Context, content: string_of(&content) };
    }
    let first = line[0];
    let kind = if first == '+' {
        LineKind::Added
    } else if first == '-' {
        LineKind::Removed
    } else if first == ' ' {
        LineKind::Context
    } else {
        return BodyLine::Unrecognized;
    };
    let mut content = slice_of(line, 1, line.len());
    content.push('\n');
    assert(content@ =~= line@.skip(1) + newline());
    BodyLine::Content { kind, content: string_of(&content) }
}

/// The line number after `n` where `on` holds, else `n`. After the largest
/// `u32` comes zero.
pub open spec fn bump(n: u32, on: bool) -> u32 {
    if !on {
        n
    } else if n == u32::MAX {
        0
    } else {
        (n + 1) as u32
    }
}

/// The line of kind `kind` with content `content`, numbered on the sides on
/// which it stands.
pub open spec fn numbered(kind: LineKind, content: Seq<char>, old_no: u32, new_no: u32)
    -> LineModel {
    LineModel {
        kind,
        content,
        old_lineno: if kind.on_old_side() {
            Some(old_no)
        } else {
            None
        },
        new_lineno: if kind.on_new_side() {
            Some(new_no)
        } else {
            None
        },
    }
}

/// The body of a hunk: its lines, the index of the line after it, and the
/// index of the unrecognized line that ended it, if one did.
pub struct Body {
    pub lines: Seq<LineModel>,
    pub next: int,
    pub stray: Option<int>,
}

/// The body of a hunk that starts at line `i`, the next lines being
/// numbered `old_no` and `new_no`. It ends before the next boundary, before
/// an unrecognized line, or with the input.
pub open spec fn body_from(lines: Seq<Seq<char>>, i: int, old_no: u32, new_no: u32) -> Body
    decreases lines.len() - i,
{
    if i < 0 || i >= lines.len() {
        Body { lines: Seq::empty(), next: i, stray: None }
    } else {
        match classify(lines[i]) {
            BodyLineModel::Boundary => Body { lines: Seq::empty(), next: i, stray: None },
            BodyLineModel::Unrecognized => Body { lines: Seq::empty(), next: i, stray: Some(i) },
            BodyLineModel::Marker => body_from(lines, i + 1, old_no, new_no),
            BodyLineModel::Content { kind, content } => {
                let rest = body_from(
                    lines,
                    i + 1,
                    bump(old_no, kind.on_old_side()),
                    bump(new_no, kind.on_new_side()),
                );
                Body {
                    lines: seq![numbered(kind, content, old_no, new_no)] + rest.lines,
                    next: rest.next,
                    stray: rest.stray,
                }
            },
        }
    }
}

/// A body ends at or after the line at which it starts, within the input,
/// and an unrecognized line that ends it is the line after it.
pub proof fn lemma_body_bounds(lines: Seq<Seq<char>>, i: int, old_no: u32, new_no: u32)
    requires
        0 <= i <= lines.len(),
    ensures
        i <= body_from(lines, i, old_no, new_no).next <= lines.len(),
        body_from(lines, i, old_no, new_no).stray matches Some(k) ==> k == body_from(
            lines,
            i,
            old_no,
            new_no,
        ).next && k < lines.len(),
    decreases lines.len() - i,
{
    if i < lines.len() {
        match classify(lines[i]) {
            BodyLineModel::Marker => {
                lemma_body_bounds(lines, i + 1, old_no, new_no);
            },
            BodyLineModel::Content { kind, content } => {
                lemma_body_bounds(
                    lines,
                    i + 1,
                    bump(old_no, kind.on_old_side()),
                    bump(new_no, kind.on_new_side()),
                );
            },
            _ => {},
        }
    }
}

/// The line number after `n`.
fn next_number(n: u32) -> (r: u32)
    ensures
        r == bump(n, true),
{
    if n == u32::MAX {
        0
    } else {
        n + 1
    }
}

/// An index that may be missing, as an integer that may be missing.
pub open spec fn as_index(o: Option<usize>) -> Option<int> {
    match o {
        Some(k) => Some(k as int),
        None => None,
    }
}

/// Reads the body of a hunk that starts at line `start`.
fn parse_body(lines: &Vec<Vec<char>>, start: usize, old_start: u32, new_start: u32) -> (r: (
    Vec<DiffLine>,
    usize,
    Option<usize>,
))
    requires
        start <= lines.len(),
    ensures
        r.0.deep_view() == body_from(lines.deep_view(), start as int, old_start, new_start).lines,
        r.1 == body_from(lines.deep_view(), start as int, old_start, new_start).next,
        as_index(r.2) == body_from(lines.deep_view(), start as int, old_start, new_start).stray,
        start <= r.1 <= lines.len(),
{
    let ghost ls = lines.deep_view();
    let ghost whole = body_from(ls, start as int, old_start, new_start);
    let mut out: Vec<DiffLine> = Vec::new();
    let mut old_no: u32 = old_start;
    let mut new_no: u32 = new_start;
    let mut i: usize = start;
    assert(out.deep_view() + whole.lines =~= whole.lines);
    while i < lines.len()
        invariant
            start <= i <= lines.len(),
            ls == lines.deep_view(),
            whole == body_from(ls, start as int, old_start, new_start),
            out.deep_view() + body_from(ls, i as int, old_no, new_no).lines == whole.lines,
            body_from(ls, i as int, old_no, new_no).next == whole.next,
            body_from(ls, i as int, old_no, new_no).stray == whole.stray,
        decreases lines.len() - i,
    {
        assert(ls[i as int] == lines@[i as int]@);
        let ghost here = body_from(ls, i as int, old_no, new_no);
        match classify_chars(&lines[i]) {
            BodyLine::Boundary => {
                assert(out.deep_view() + Seq::<LineModel>::empty() =~= out.deep_view());
                return (out, i, None);
            },
            BodyLine::Unrecognized => {
                assert(out.deep_view() + Seq::<LineModel>::empty() =~= out.deep_view());
                return (out, i, Some(i));
            },
            BodyLine::Marker => {},
            BodyLine::Content { kind, content } => {
                let ghost before = out;
                let line = match kind {
                    LineKind::Added => DiffLine {
                        kind,
                        content,
                        old_lineno: None,
                        new_lineno: Some(new_no),
                    },
                    LineKind::Removed => DiffLine {
                        kind,
                        content,
                        old_lineno: Some(old_no),
                        new_lineno: None,
                    },
                    LineKind::Context => DiffLine {
                        kind,
                        content,
                        old_lineno: Some(old_no),
                        new_lineno: Some(new_no),
                    },
                };
                assert(line@ == numbered(kind, content@, old_no, new_no));
                out.push(line);
                match kind {
                    LineKind::Added => {
                        new_no = next_number(new_no);
                    },
                    LineKind::Removed => {
                        old_no = next_number(old_no);
                    },
                    LineKind::Context => {
                        old_no = next_number(old_no);
                        new_no = next_number(new_no);
                    },
                }
                proof {
                    assert(out@.drop_last() =~= before@);
                    lemma_deep_view_push(before, out);
                    assert(out.deep_view() + body_from(ls, i + 1, old_no, new_no).lines
                        =~= before.deep_view() + here.lines);
                }
            },
        }
        i += 1;
    }
    assert(out.deep_view() + Seq::<LineModel>::empty() =~= out.deep_view());
    (out, i, None)
}

/// A hunk read from the input: the hunk, the index of the line after it,
/// and what was noticed.
pub struct HunkParse {
    pub hunk: HunkModel,
    pub next: int,
    pub warnings: Seq<WarningModel>,
}

/// What reading a hunk notices: first the unrecognized line that ended the
/// body, then counts that are not those that the header declares.
pub open spec fn hunk_warnings(
    header: Seq<char>,
    declared: Ranges,
    parsed_old: u32,
    parsed_new: u32,
    stray: Option<int>,
) -> Seq<WarningModel> {
    (match stray {
        Some(k) => seq![WarningModel::UnrecognizedLine { line_number: (k + 1) as usize }],
        None => Seq::empty(),
    }) + (if declared.old_lines != parsed_old || declared.new_lines != parsed_new {
        seq![
            WarningModel::CountMismatch {
                header,
                declared_old: declared.old_lines,
                declared_new: declared.new_lines,
                parsed_old,
                parsed_new,
            },
        ]
    } else {
        Seq::empty()
    })
}

/// The hunk whose header is line `i`. It starts where the header says; its
/// counts are those of its lines; its header is the line without trailing
/// white space; it is pending.
pub open spec fn hunk_at(lines: Seq<Seq<char>>, i: int) -> Result<HunkParse, ParseErrorModel> {
    match header_ranges(lines[i]) {
        Err(kind) => Err(ParseErrorModel { kind, header: lines[i] }),
        Ok(declared) => {
            let body = body_from(lines, i + 1, declared.old_start, declared.new_start);
            let parsed_old = saturate_u32(old_side_count(body.lines));
            let parsed_new = saturate_u32(new_side_count(body.lines));
            Ok(
                HunkParse {
                    hunk: HunkModel {
                        header: trim_end(lines[i]),
                        lines: body.lines,
                        status: HunkStatus::Pending,
                        old_start: declared.old_start,
                        old_lines: parsed_old,
                        new_start: declared.new_start,
                        new_lines: parsed_new,
                    },
                    next: body.next,
                    warnings: hunk_warnings(
                        trim_end(lines[i]),
                        declared,
                        parsed_old,
                        parsed_new,
                        body.stray,
                    ),
                },
            )
        },
    }
}

/// Appends to `warnings` the warning for an unrecognized line at index
/// `stray`, if there is one, and the warning for counts that differ.
fn note_hunk(
    warnings: &mut Vec<Warning>,
    header: &Vec<char>,
    declared: &Ranges,
    parsed_old: u32,
    parsed_new: u32,
    stray: Option<usize>,
)
    requires
        stray matches Some(k) ==> k < usize::MAX,
    ensures
        final(warnings).deep_view() == old(warnings).deep_view() + hunk_warnings(
            header@,
            *declared,
            parsed_old,
            parsed_new,
            as_index(stray),
        ),
{
    let ghost start = warnings.deep_view();
    let ghost mut mid = start;
    match stray {
        Some(k) => {
            let ghost before = *warnings;
            warnings.push(Warning::UnrecognizedLine { line_number: k + 1 });
            proof {
                assert(warnings@.drop_last() =~= before@);
                lemma_deep_view_push(before, *warnings);
                mid = warnings.deep_view();
            }
        },
        None => {},
    }
    if declared.old_lines != parsed_old || declared.new_lines != parsed_new {
        let ghost before = *warnings;
        warnings.push(
            Warning::CountMismatch {
                header: string_of(header),
                declared_old: declared.old_lines,
                declared_new: declared.new_lines,
                parsed_old,
                parsed_new,
            },
        );
        proof {
            assert(warnings@.drop_last() =~= before@);
            lemma_deep_view_push(before, *warnings);
        }
    }
    assert(warnings.deep_view() =~= start + hunk_warnings(
        header@,
        *declared,
        parsed_old,
        parsed_new,
        as_index(stray),
    ));
}

/// Reads the hunk whose header is line `i`, and appends what it notices to
/// `warnings`.
fn parse_hunk(lines: &Vec<Vec<char>>, i: usize, warnings: &mut Vec<Warning>) -> (r: Result<
    (Hunk, usize),
    ParseError,
>)
    requires
        i < lines.len(),
    ensures
        match r {
            Ok(pair) => hunk_at(lines.deep_view(), i as int) matches Ok(hp) && pair.0@ == hp.hunk
                && pair.1 == hp.next && i < pair.1 <= lines.len() && final(warnings).deep_view()
                == old(warnings).deep_view() + hp.warnings,
            Err(e) => hunk_at(lines.deep_view(), i as int) matches Err(pe) && e@ == pe,
        },
{
    let ghost ls = lines.deep_view();
    assert(ls[i as int] == lines@[i as int]@);
    let declared = match header_ranges_chars(&lines[i]) {
        Ok(declared) => declared,
        Err(kind) => {
            return Err(ParseError { kind, header: string_of(&lines[i]) });
        },
    };
    let (body, next, stray) = parse_body(lines, i + 1, declared.old_start, declared.new_start);
    proof {
        lemma_body_bounds(ls, i + 1, declared.old_start, declared.new_start);
    }
    let (parsed_old, parsed_new) = side_counts(&body);
    let header = trim_end_chars(&lines[i]);
    note_hunk(warnings, &header, &declared, parsed_old, parsed_new, stray);
    Ok(
        (
            Hunk {
                header: string_of(&header),
                lines: body,
                status: HunkStatus::Pending,
                old_start: declared.old_start,
                old_lines: parsed_old,
                new_start: declared.new_start,
                new_lines: parsed_new,
            },
            next,
        ),
    )
}


/// The hunks of a file read from the input: the hunks, the index of the
/// line after them, and what was noticed.
pub struct HunksParse {
    pub hunks: Seq<HunkModel>,
    pub next: int,
    pub warnings: Seq<WarningModel>,
}

/// A hunk ends after its header and within the input.
pub proof fn lemma_hunk_bounds(lines: Seq<Seq<char>>, i: int)
    requires
        0 <= i < lines.len(),
    ensures
        hunk_at(lines, i) matches Ok(hp) ==> i < hp.next <= lines.len(),
{
    match header_ranges(lines[i]) {
        Ok(declared) => {
            lemma_body_bounds(lines, i + 1, declared.old_start, declared.new_start);
        },
        Err(_) => {},
    }
}

/// The hunks of a file from line `i` on, up to the first line of the next
/// file. Lines between hunks that are no hunk header are passed over. A
/// header that cannot be read ends the reading.
pub open spec fn hunks_from(lines: Seq<Seq<char>>, i: int) -> Result<HunksParse, ParseErrorModel>
    decreases lines.len() - i,
{
    if i < 0 || i >= lines.len() || has_prefix(lines[i], "diff --git "@) {
        Ok(HunksParse { hunks: Seq::empty(), next: i, warnings: Seq::empty() })
    } else if has_prefix(lines[i], "@@ "@) {
        match hunk_at(lines, i) {
            Err(e) => Err(e),
            Ok(hp) => {
                proof {
                    lemma_hunk_bounds(lines, i);
                }
                match hunks_from(lines, hp.next) {
                    Err(e) => Err(e),
                    Ok(rest) => Ok(
                        HunksParse {
                            hunks: seq![hp.hunk] + rest.hunks,
                            next: rest.next,
                            warnings: hp.warnings + rest.warnings,
                        },
                    ),
                }
            },
        }
    } else {
        hunks_from(lines, i + 1)
    }
}

/// The hunks of a file end at or after the line at which they start, and
/// within the input.
pub proof fn lemma_hunks_bounds(lines: Seq<Seq<char>>, i: int)
    requires
        0 <= i <= lines.len(),
    ensures
        hunks_from(lines, i) matches Ok(hs) ==> i <= hs.next <= lines.len(),
    decreases lines.len() - i,
{
    if i < lines.len() && !has_prefix(lines[i], "diff --git "@) {
        if has_prefix(lines[i], "@@ "@) {
            lemma_hunk_bounds(lines, i);
            match hunk_at(lines, i) {
                Ok(hp) => {
                    lemma_hunks_bounds(lines, hp.next);
                },
                Err(_) => {},
            }
        } else {
            lemma_hunks_bounds(lines, i + 1);
        }
    }
}

/// Reads the hunks of a file from line `start` on, and appends what it
/// notices to `warnings`.
fn parse_hunks(lines: &Vec<Vec<char>>, start: usize, warnings: &mut Vec<Warning>) -> (r: Result<
    (Vec<Hunk>, usize),
    ParseError,
>)
    requires
        start <= lines.len(),
    ensures
        match r {
            Ok(pair) => hunks_from(lines.deep_view(), start as int) matches Ok(hs)
                && pair.0.deep_view() == hs.hunks && pair.1 == hs.next && start <= pair.1
                <= lines.len() && final(warnings).deep_view() == old(warnings).deep_view()
                + hs.warnings,
            Err(e) => hunks_from(lines.deep_view(), start as int) matches Err(pe) && e@ == pe,
        },
{
    let ghost ls = lines.deep_view();
    let ghost whole = hunks_from(ls, start as int);
    let ghost noted = warnings.deep_view();
    let mut hunks: Vec<Hunk> = Vec::new();
    let mut i: usize = start;
    proof {
        match whole {
            Ok(hs) => {
                assert(hunks.deep_view() + hs.hunks =~= hs.hunks);
                assert(warnings.deep_view() + hs.warnings =~= noted + hs.warnings);
            },
            Err(_) => {},
        }
    }
    while i < lines.len()
        invariant
            start <= i <= lines.len(),
            ls == lines.deep_view(),
            whole == hunks_from(ls, start as int),
            noted == old(warnings).deep_view(),
            match (whole, hunks_from(ls, i as int)) {
                (Ok(all), Ok(rest)) => hunks.deep_view() + rest.hunks == all.hunks && rest.next
                    == all.next && warnings.deep_view() + rest.warnings == noted + all.warnings,
                (Err(e), Err(e2)) => e == e2,
                _ => false,
            },
        decreases lines.len() - i,
    {
        assert(ls[i as int] == lines@[i as int]@);
        if starts_with(&lines[i], "diff --git ") {
            proof {
                let rest = hunks_from(ls, i as int)->Ok_0;
                assert(hunks.deep_view() + rest.hunks =~= hunks.deep_view());
                assert(warnings.deep_view() + rest.warnings =~= warnings.deep_view());
            }
            return Ok((hunks, i));
        }
        if starts_with(&lines[i], "@@ ") {
            let ghost before = hunks;
            let ghost noted_here = warnings.deep_view();
            proof {
                lemma_hunk_bounds(ls, i as int);
            }
            match parse_hunk(lines, i, warnings) {
                Ok((hunk, next)) => {
                    hunks.push(hunk);
                    proof {
                        let hp = hunk_at(ls, i as int)->Ok_0;
                        assert(hunks@.drop_last() =~= before@);
                        lemma_deep_view_push(before, hunks);
                        match (whole, hunks_from(ls, next as int)) {
                            (Ok(all), Ok(rest)) => {
                                let here = hunks_from(ls, i as int)->Ok_0;
                                assert(here.hunks == seq![hp.hunk] + rest.hunks);
                                assert(hunks.deep_view() + rest.hunks =~= before.deep_view()
                                    + here.hunks);
                                assert(warnings.deep_view() + rest.warnings =~= noted_here
                                    + here.warnings);
                            },
                            _ => {},
                        }
                    }
                    i = next;
                },
                Err(e) => {
                    return Err(e);
                },
            }
        } else {
            i += 1;
        }
    }
    proof {
        let rest = hunks_from(ls, i as int)->Ok_0;
        assert(hunks.deep_view() + rest.hunks =~= hunks.deep_view());
        assert(warnings.deep_view() + rest.warnings =~= warnings.deep_view());
    }
    Ok((hunks, i))
}

/// What the extended headers of a file have said so far.
pub struct FileHead {
    pub path: Seq<char>,
    pub status: DeltaStatus,
    pub is_binary: bool,
}

/// What the extended headers say once `line` is read. `new file mode` and
/// `deleted file mode` set the kind of change; `rename to` sets it and the
/// path; `Binary files ... differ` marks the file as binary; `+++` gives the
/// path unless it names `/dev/null`; `---` gives the path of a deleted file.
pub open spec fn head_step(head: FileHead, line: Seq<char>) -> FileHead {
    if has_prefix(line, "new file mode"@) {
        FileHead { status: DeltaStatus::Added, ..head }
    } else if has_prefix(line, "deleted file mode"@) {
        FileHead { status: DeltaStatus::Deleted, ..head }
    } else if strip_prefix(line, "rename to "@) is Some {
        FileHead {
            status: DeltaStatus::Renamed,
            path: strip_prefix(line, "rename to "@)->Some_0,
            ..head
        }
    } else if has_prefix(line, "Binary files "@) && has_suffix(line, " differ"@) {
        FileHead { is_binary: true, ..head }
    } else if strip_prefix(line, "+++ "@) is Some {
        let path = strip_ab(strip_prefix(line, "+++ "@)->Some_0);
        if path != "/dev/null"@ {
            FileHead { path, ..head }
        } else {
            head
        }
    } else if strip_prefix(line, "--- "@) is Some {
        let rest = strip_prefix(line, "--- "@)->Some_0;
        if rest != "/dev/null"@ && head.status == DeltaStatus::Deleted {
            FileHead { path: strip_ab(rest), ..head }
        } else {
            head
        }
    } else {
        head
    }
}

/// What the extended headers from line `i` on say, and the index of the
/// first boundary after them.
pub open spec fn head_from(lines: Seq<Seq<char>>, i: int, head: FileHead) -> (FileHead, int)
    decreases lines.len() - i,
{
    if i < 0 || i >= lines.len() || is_boundary(lines[i]) {
        (head, i)
    } else {
        head_from(lines, i + 1, head_step(head, lines[i]))
    }
}

/// The extended headers end at or after the line at which they start, and
/// within the input.
pub proof fn lemma_head_bounds(lines: Seq<Seq<char>>, i: int, head: FileHead)
    requires
        0 <= i <= lines.len(),
    ensures
        i <= head_from(lines, i, head).1 <= lines.len(),
    decreases lines.len() - i,
{
    if i < lines.len() && !is_boundary(lines[i]) {
        lemma_head_bounds(lines, i + 1, head_step(head, lines[i]));
    }
}

/// A file read from the input: the file, the index of the line after it,
/// and what was noticed.
pub struct FileParse {
    pub file: FileModel,
    pub next: int,
    pub warnings: Seq<WarningModel>,
}

/// The file whose `diff --git` line is line `i`.
pub open spec fn file_at(lines: Seq<Seq<char>>, i: int) -> Result<FileParse, ParseErrorModel> {
    let named = FileHead {
        path: git_header_path(lines[i].skip("diff --git "@.len() as int)),
        status: DeltaStatus::Modified,
        is_binary: false,
    };
    let (head, at) = head_from(lines, i + 1, named);
    match hunks_from(lines, at) {
        Err(e) => Err(e),
        Ok(hs) => Ok(
            FileParse {
                file: FileModel {
                    path: head.path,
                    hunks: hs.hunks,
                    status: head.status,
                    is_binary: head.is_binary,
                },
                next: hs.next,
                warnings: hs.warnings,
            },
        ),
    }
}

/// A file ends after its first line and within the input.
pub proof fn lemma_file_bounds(lines: Seq<Seq<char>>, i: int)
    requires
        0 <= i < lines.len(),
    ensures
        file_at(lines, i) matches Ok(fp) ==> i < fp.next <= lines.len(),
{
    let named = FileHead {
        path: git_header_path(lines[i].skip("diff --git "@.len() as int)),
        status: DeltaStatus::Modified,
        is_binary: false,
    };
    lemma_head_bounds(lines, i + 1, named);
    lemma_hunks_bounds(lines, head_from(lines, i + 1, named).1);
}

/// Reads the file whose `diff --git` line is line `start`, the rest of that
/// line being `git_header_rest`, and appends what it notices to `warnings`.
fn parse_file_diff(
    git_header_rest: &Vec<char>,
    lines: &Vec<Vec<char>>,
    start: usize,
    warnings: &mut Vec<Warning>,
) -> (r: Result<(FileDiff, usize), ParseError>)
    requires
        start < lines.len(),
        git_header_rest@ == lines.deep_view()[start as int].skip("diff --git "@.len() as int),
    ensures
        match r {
            Ok(pair) => file_at(lines.deep_view(), start as int) matches Ok(fp) && pair.0@
                == fp.file && pair.1 == fp.next && start < pair.1 <= lines.len()
                && final(warnings).deep_view() == old(warnings).deep_view() + fp.warnings,
            Err(e) => file_at(lines.deep_view(), start as int) matches Err(pe) && e@ == pe,
        },
{
    let ghost ls = lines.deep_view();
    let ghost named = FileHead {
        path: git_header_path(git_header_rest@),
        status: DeltaStatus::Modified,
        is_binary: false,
    };
    let mut path: Vec<char> = git_header_path_chars(git_header_rest);
    let mut status = DeltaStatus::Modified;
    let mut is_binary = false;
    let mut i: usize = start + 1;
    while i < lines.len() && !at_boundary(&lines[i])
        invariant
            start < i <= lines.len(),
            ls == lines.deep_view(),
            head_from(ls, i as int, FileHead { path: path@, status, is_binary }) == head_from(
                ls,
                start + 1,
                named,
            ),
        decreases lines.len() - i,
    {
        let line = &lines[i];
        assert(ls[i as int] == line@);
        let ghost head = FileHead { path: path@, status, is_binary };
        if starts_with(line, "new file mode") {
            status = DeltaStatus::Added;
        } else if starts_with(line, "deleted file mode") {
            status = DeltaStatus::Deleted;
        } else if let Some(rest) = strip_prefix_chars(line, "rename to ") {
            status = DeltaStatus::Renamed;
            path = rest;
        } else if starts_with(line, "Binary files ") && ends_with(line, " differ") {
            is_binary = true;
        } else if let Some(rest) = strip_prefix_chars(line, "+++ ") {
            let p = strip_ab_chars(&rest);
            let null = chars_of("/dev/null");
            if !same_chars(&p, &null) {
                path = p;
            }
        } else if let Some(rest) = strip_prefix_chars(line, "--- ") {
            let null = chars_of("/dev/null");
            if !same_chars(&rest, &null) && status == DeltaStatus::Deleted {
                path = strip_ab_chars(&rest);
            }
        }
        assert(FileHead { path: path@, status, is_binary } == head_step(head, ls[i as int]));
        i += 1;
    }
    proof {
        if i < lines.len() {
            assert(ls[i as int] == lines@[i as int]@);
        }
        lemma_head_bounds(ls, start + 1, named);
    }
    match parse_hunks(lines, i, warnings) {
        Ok((hunks, next)) => Ok(
            (FileDiff { path: string_of(&path), hunks, status, is_binary }, next),
        ),
        Err(e) => Err(e),
    }
}

/// A change set read from text: the files, and what was noticed.
#[derive(Debug, Clone)]
pub struct Ingested {
    pub files: Vec<FileDiff>,
    pub warnings: Vec<Warning>,
}

/// The mathematical view of an `Ingested`.
pub struct IngestedModel {
    pub files: Seq<FileModel>,
    pub warnings: Seq<WarningModel>,
}

impl View for Ingested {
    type V = IngestedModel;

    open spec fn view(&self) -> IngestedModel {
        IngestedModel { files: self.files.deep_view(), warnings: self.warnings.deep_view() }
    }
}

/// The files of the input from line `i` on. A file starts at a line that
/// begins with `diff --git `; other lines between files are passed over.
pub open spec fn files_from(lines: Seq<Seq<char>>, i: int) -> Result<
    IngestedModel,
    ParseErrorModel,
>
    decreases lines.len() - i,
{
    if i < 0 || i >= lines.len() {
        Ok(IngestedModel { files: Seq::empty(), warnings: Seq::empty() })
    } else if has_prefix(lines[i], "diff --git "@) {
        match file_at(lines, i) {
            Err(e) => Err(e),
            Ok(fp) => {
                proof {
                    lemma_file_bounds(lines, i);
                }
                match files_from(lines, fp.next) {
                    Err(e) => Err(e),
                    Ok(rest) => Ok(
                        IngestedModel {
                            files: seq![fp.file] + rest.files,
                            warnings: fp.warnings + rest.warnings,
                        },
                    ),
                }
            },
        }
    } else {
        files_from(lines, i + 1)
    }
}

/// What ingesting the text `input` gives: nothing where the text is blank,
/// else the files of its lines.
pub open spec fn ingest_text(input: Seq<char>) -> Result<IngestedModel, ParseErrorModel> {
    if is_blank(input) {
        Ok(IngestedModel { files: Seq::empty(), warnings: Seq::empty() })
    } else {
        files_from(lines_of(input), 0)
    }
}

/// Reads a change set from the text of a unified diff, and says what it
/// noticed on the way.
///
/// Blank text holds no file. A hunk header whose ranges cannot be read is an
/// error, and names the header. A line in a hunk that begins with none of
/// the known marks ends the hunk, and counts that differ from those that the
/// header declares are kept as the lines give them; both are noted and the
/// reading goes on.
pub fn parse_unified_diff_with_warnings(input: &str) -> (r: Result<Ingested, ParseError>)
    ensures
        match r {
            Ok(got) => ingest_text(input@) == Ok::<IngestedModel, ParseErrorModel>(got@),
            Err(e) => ingest_text(input@) == Err::<IngestedModel, ParseErrorModel>(e@),
        },
{
    let text = chars_of(input);
    let mut files: Vec<FileDiff> = Vec::new();
    let mut warnings: Vec<Warning> = Vec::new();
    assert(files.deep_view() =~= Seq::<FileModel>::empty());
    assert(warnings.deep_view() =~= Seq::<WarningModel>::empty());
    if is_blank_chars(&text) {
        return Ok(Ingested { files, warnings });
    }
    let lines = split_lines(&text);
    let ghost ls = lines.deep_view();
    let ghost whole = files_from(ls, 0);
    let mut i: usize = 0;
    proof {
        match whole {
            Ok(all) => {
                assert(files.deep_view() + all.files =~= all.files);
                assert(warnings.deep_view() + all.warnings =~= all.warnings);
            },
            Err(_) => {},
        }
    }
    while i < lines.len()
        invariant
            i <= lines.len(),
            ls == lines.deep_view(),
            whole == files_from(ls, 0),
            whole == ingest_text(input@),
            match (whole, files_from(ls, i as int)) {
                (Ok(all), Ok(rest)) => files.deep_view() + rest.files == all.files
                    && warnings.deep_view() + rest.warnings == all.warnings,
                (Err(e), Err(e2)) => e == e2,
                _ => false,
            },
        decreases lines.len() - i,
    {
        assert(ls[i as int] == lines@[i as int]@);
        match strip_prefix_chars(&lines[i], "diff --git ") {
            Some(rest) => {
                let ghost before = files;
                let ghost noted = warnings.deep_view();
                proof {
                    lemma_file_bounds(ls, i as int);
                }
                match parse_file_diff(&rest, &lines, i, &mut warnings) {
                    Ok((file, next)) => {
                        files.push(file);
                        proof {
                            let fp = file_at(ls, i as int)->Ok_0;
                            assert(files@.drop_last() =~= before@);
                            lemma_deep_view_push(before, files);
                            match (whole, files_from(ls, next as int)) {
                                (Ok(all), Ok(rest)) => {
                                    let here = files_from(ls, i as int)->Ok_0;
                                    assert(here.files == seq![fp.file] + rest.files);
                                    assert(files.deep_view() + rest.files =~= before.deep_view()
                                        + here.files);
                                    assert(warnings.deep_view() + rest.warnings =~= noted
                                        + here.warnings);
                                },
                                _ => {},
                            }
                        }
                        i = next;
                    },
                    Err(e) => {
                        return Err(e);
                    },
                }
            },
            None => {
                i += 1;
            },
        }
    }
    proof {
        let rest = files_from(ls, i as int)->Ok_0;
        let all = whole->Ok_0;
        assert(files.deep_view() + rest.files =~= files.deep_view());
        assert(warnings.deep_view() + rest.warnings =~= warnings.deep_view());
    }
    Ok(Ingested { files, warnings })
}

/// Reads a change set from the text of a unified diff.
///
/// The files are those that `parse_unified_diff_with_warnings` gives; what
/// it notices is dropped.
pub fn parse_unified_diff(input: &str) -> (r: Result<Vec<FileDiff>, ParseError>)
    ensures
        match r {
            Ok(files) => ingest_text(input@) matches Ok(got) && files.deep_view() == got.files,
            Err(e) => ingest_text(input@) == Err::<IngestedModel, ParseErrorModel>(e@),
        },
{
    match parse_unified_diff_with_warnings(input) {
        Ok(got) => Ok(got.files),
        Err(e) => Err(e),
    }
}

/// Every line of a body carries the numbers of the sides on which it
/// stands.
pub proof fn lemma_body_numbers(lines: Seq<Seq<char>>, i: int, old_no: u32, new_no: u32)
    requires
        0 <= i,
    ensures
        forall|m: int|
            0 <= m < body_from(lines, i, old_no, new_no).lines.len() ==> (#[trigger] body_from(
                lines,
                i,
                old_no,
                new_no,
            ).lines[m]).numbers_agree(),
    decreases lines.len() - i,
{
    if i < lines.len() {
        match classify(lines[i]) {
            BodyLineModel::Marker => {
                lemma_body_numbers(lines, i + 1, old_no, new_no);
            },
            BodyLineModel::Content { kind, content } => {
                let rest = body_from(
                    lines,
                    i + 1,
                    bump(old_no, kind.on_old_side()),
                    bump(new_no, kind.on_new_side()),
                );
                lemma_body_numbers(
                    lines,
                    i + 1,
                    bump(old_no, kind.on_old_side()),
                    bump(new_no, kind.on_new_side()),
                );
                let body = body_from(lines, i, old_no, new_no);
                let got = body.lines;
                assert forall|m: int| 0 <= m < got.len() implies (#[trigger] got[m]).numbers_agree() by {
                    if m > 0 {
                        assert(got[m] == rest.lines[m - 1]);
                    }
                }
            },
            _ => {},
        }
    }
}

/// Whether a hunk is as text ingestion leaves it: its counts are those of
/// its lines, it is pending, and each line carries the numbers of the sides
/// on which it stands.
pub open spec fn hunk_is_sound(h: HunkModel) -> bool {
    &&& h.is_fresh()
    &&& forall|m: int| 0 <= m < h.lines.len() ==> (#[trigger] h.lines[m]).numbers_agree()
}

/// The hunks of a file read from text are sound.
pub proof fn lemma_hunks_sound(lines: Seq<Seq<char>>, i: int)
    requires
        0 <= i,
    ensures
        hunks_from(lines, i) matches Ok(hs) ==> forall|k: int|
            0 <= k < hs.hunks.len() ==> hunk_is_sound(#[trigger] hs.hunks[k]),
    decreases lines.len() - i,
{
    if i < lines.len() && !has_prefix(lines[i], "diff --git "@) {
        if has_prefix(lines[i], "@@ "@) {
            match hunk_at(lines, i) {
                Ok(hp) => {
                    lemma_hunk_bounds(lines, i);
                    lemma_hunks_sound(lines, hp.next);
                    let declared = header_ranges(lines[i])->Ok_0;
                    lemma_body_numbers(lines, i + 1, declared.old_start, declared.new_start);
                    match hunks_from(lines, hp.next) {
                        Ok(rest) => {
                            let all = hunks_from(lines, i)->Ok_0;
                            assert forall|k: int| 0 <= k < all.hunks.len() implies hunk_is_sound(
                                #[trigger] all.hunks[k],
                            ) by {
                                if k > 0 {
                                    assert(all.hunks[k] == rest.hunks[k - 1]);
                                }
                            }
                        },
                        Err(_) => {},
                    }
                },
                Err(_) => {},
            }
        } else {
            lemma_hunks_sound(lines, i + 1);
        }
    }
}

/// The files read from text hold sound hunks only.
pub proof fn lemma_files_sound(lines: Seq<Seq<char>>, i: int)
    requires
        0 <= i,
    ensures
        files_from(lines, i) matches Ok(got) ==> forall|f: int, k: int|
            0 <= f < got.files.len() && 0 <= k < got.files[f].hunks.len() ==> hunk_is_sound(
                #[trigger] got.files[f].hunks[k],
            ),
    decreases lines.len() - i,
{
    if i < lines.len() {
        if has_prefix(lines[i], "diff --git "@) {
            match file_at(lines, i) {
                Ok(fp) => {
                    lemma_file_bounds(lines, i);
                    lemma_files_sound(lines, fp.next);
                    let named = FileHead {
                        path: git_header_path(lines[i].skip("diff --git "@.len() as int)),
                        status: DeltaStatus::Modified,
                        is_binary: false,
                    };
                    lemma_head_bounds(lines, i + 1, named);
                    lemma_hunks_sound(lines, head_from(lines, i + 1, named).1);
                    match files_from(lines, fp.next) {
                        Ok(rest) => {
                            let all = files_from(lines, i)->Ok_0;
                            assert forall|f: int, k: int|
                                0 <= f < all.files.len() && 0 <= k
                                    < all.files[f].hunks.len() implies hunk_is_sound(
                                #[trigger] all.files[f].hunks[k],
                            ) by {
                                if f > 0 {
                                    assert(all.files[f] == rest.files[f - 1]);
                                }
                            }
                        },
                        Err(_) => {},
                    }
                },
                Err(_) => {},
            }
        } else {
            lemma_files_sound(lines, i + 1);
        }
    }
}

/// Ingestion from text keeps the invariants of the model: in every hunk
/// that it gives, the counts are those of the lines, whatever the header
/// declares, each line carries a number on each side on which it stands and
/// on no other, and the hunk is pending.
pub proof fn law_text_ingestion_is_sound(input: Seq<char>)
    ensures
        ingest_text(input) matches Ok(got) ==> forall|f: int, k: int|
            0 <= f < got.files.len() && 0 <= k < got.files[f].hunks.len() ==> hunk_is_sound(
                #[trigger] got.files[f].hunks[k],
            ),
{
    if !is_blank(input) {
        lemma_files_sound(lines_of(input), 0);
    }
}

} // verus!
