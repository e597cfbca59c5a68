//! That the two ways of ingestion agree: hunks as the structured source
//! gives them, printed as a unified diff, are read back from the text as
//! they were.

use vstd::prelude::*;
use crate::diff::{files_of_raw, RawDeltaModel};
use crate::lines::lines_of;
use crate::patch::{
    body_from, classify, file_at, files_from, git_header_path, head_from, head_step, header_ranges,
    hunk_at, hunk_warnings, hunks_from, ingest_text, is_boundary, numbered, Body, BodyLineModel,
    FileHead, HunkParse, HunksParse, ParseErrorKind, ParseErrorModel, Ranges, WarningModel,
};
use crate::text::{has_prefix, is_blank, strip_prefix, trim_end};
use crate::types::{
    new_side_count, old_side_count, DeltaStatus, FileModel, HunkModel, HunkStatus, LineModel,
};

verus! {

/// A line of a hunk as a unified diff prints it, without the line feed: the
/// mark of its kind, and its content without its last character.
pub open spec fn printed_line(line: LineModel) -> Seq<char> {
    seq![line.kind.marker()] + line.content.drop_last()
}

/// Whether line `m` of `h` is as the structured source gives it: its
/// content ends with a line feed, and it carries the numbers that counting
/// from the starts of the hunk gives, on the sides on which it stands.
pub open spec fn line_in_form(h: HunkModel, m: int) -> bool {
    let line = h.lines[m];
    &&& line.content.len() > 0
    &&& line.content.last() == '\n'
    &&& line.old_lineno == if line.kind.on_old_side() {
        Some((h.old_start + old_side_count(h.lines.take(m))) as u32)
    } else {
        None
    }
    &&& line.new_lineno == if line.kind.on_new_side() {
        Some((h.new_start + new_side_count(h.lines.take(m))) as u32)
    } else {
        None
    }
}

/// Whether `h` is as the structured source gives it for a well-formed
/// change: its header declares its starts and counts and ends with no white
/// space, its counts are those of its lines, its line numbers stay within
/// `u32`, every line is in form, and it is pending.
pub open spec fn hunk_in_form(h: HunkModel) -> bool {
    &&& header_ranges(h.header) == Ok::<Ranges, ParseErrorKind>(
        Ranges {
            old_start: h.old_start,
            old_lines: h.old_lines,
            new_start: h.new_start,
            new_lines: h.new_lines,
        },
    )
    &&& trim_end(h.header) == h.header
    &&& h.status == HunkStatus::Pending
    &&& h.counts_agree()
    &&& h.old_start + h.old_lines <= u32::MAX
    &&& h.new_start + h.new_lines <= u32::MAX
    &&& forall|m: int| 0 <= m < h.lines.len() ==> line_in_form(h, m)
}

/// Whether the text lines `text` hold the hunk `h` printed from index `at`
/// on: its header, and then its lines.
pub open spec fn shows(text: Seq<Seq<char>>, at: int, h: HunkModel) -> bool {
    &&& 0 <= at
    &&& at + 1 + h.lines.len() <= text.len()
    &&& text[at] == h.header
    &&& forall|m: int| 0 <= m < h.lines.len() ==> text[at + 1 + m] == printed_line(h.lines[m])
}

/// The index at which hunk `k` of `hs` starts where the hunks are printed
/// one after the other from index zero on.
pub open spec fn start_of(hs: Seq<HunkModel>, k: int) -> int
    decreases k,
{
    if k <= 0 || k > hs.len() {
        0
    } else {
        start_of(hs, k - 1) + 1 + hs[k - 1].lines.len()
    }
}

/// Whether `text` holds the hunks `hs` printed one after the other from
/// index `base` on, and then ends or goes on with the first line of a file.
pub open spec fn shows_all(text: Seq<Seq<char>>, base: int, hs: Seq<HunkModel>) -> bool {
    &&& 0 <= base
    &&& forall|k: int| 0 <= k < hs.len() ==> shows(text, base + start_of(hs, k), #[trigger] hs[k])
    &&& base + start_of(hs, hs.len() as int) <= text.len()
    &&& base + start_of(hs, hs.len() as int) == text.len() || has_prefix(
        text[base + start_of(hs, hs.len() as int)],
        "diff --git "@,
    )
}

/// The first lines of a hunk hold no more lines of a side than the hunk.
pub proof fn lemma_counts_grow(lines: Seq<LineModel>, m: int)
    requires
        0 <= m <= lines.len(),
    ensures
        old_side_count(lines.take(m)) <= old_side_count(lines),
        new_side_count(lines.take(m)) <= new_side_count(lines),
    decreases lines.len() - m,
{
    if m < lines.len() {
        lemma_counts_grow(lines, m + 1);
        assert(lines.take(m + 1).drop_last() =~= lines.take(m));
    } else {
        assert(lines.take(m) =~= lines);
    }
}

/// A printed line is read as a line of its kind with its content.
pub proof fn lemma_printed_line_reads(line: LineModel)
    requires
        line.content.len() > 0,
        line.content.last() == '\n',
    ensures
        classify(printed_line(line)) == (BodyLineModel::Content {
            kind: line.kind,
            content: line.content,
        }),
{
    reveal_strlit("@@ ");
    reveal_strlit("diff --git ");
    reveal_strlit("\\ ");
    let text = printed_line(line);
    assert(text[0] == line.kind.marker());
    if has_prefix(text, "@@ "@) {
        assert(text.subrange(0, 3)[0] == '@');
    }
    if has_prefix(text, "diff --git "@) {
        assert(text.subrange(0, 11)[0] == 'd');
    }
    if has_prefix(text, "\\ "@) {
        assert(text.subrange(0, 2)[0] == '\\');
    }
    assert(text.skip(1) + crate::lines::newline() =~= line.content);
}

/// The lines of a printed hunk from line `m` on are read as they were.
proof fn lemma_body_reads(text: Seq<Seq<char>>, at: int, h: HunkModel, m: int)
    requires
        shows(text, at, h),
        h.counts_agree(),
        h.old_start + h.old_lines <= u32::MAX,
        h.new_start + h.new_lines <= u32::MAX,
        forall|j: int| 0 <= j < h.lines.len() ==> line_in_form(h, j),
        at + 1 + h.lines.len() == text.len() || is_boundary(text[at + 1 + h.lines.len()]),
        0 <= m <= h.lines.len(),
    ensures
        body_from(
            text,
            at + 1 + m,
            (h.old_start + old_side_count(h.lines.take(m))) as u32,
            (h.new_start + new_side_count(h.lines.take(m))) as u32,
        ) == (Body { lines: h.lines.skip(m), next: at + 1 + h.lines.len(), stray: None }),
    decreases h.lines.len() - m,
{
    let old_no = (h.old_start + old_side_count(h.lines.take(m))) as u32;
    let new_no = (h.new_start + new_side_count(h.lines.take(m))) as u32;
    lemma_counts_grow(h.lines, m);
    if m == h.lines.len() {
        assert(h.lines.skip(m) =~= Seq::<LineModel>::empty());
    } else {
        let line = h.lines[m];
        assert(line_in_form(h, m));
        assert(text[at + 1 + m] == printed_line(line));
        lemma_printed_line_reads(line);
        lemma_body_reads(text, at, h, m + 1);
        lemma_counts_grow(h.lines, m + 1);
        assert(h.lines.take(m + 1).drop_last() =~= h.lines.take(m));
        assert(numbered(line.kind, line.content, old_no, new_no) == line);
        assert(seq![line] + h.lines.skip(m + 1) =~= h.lines.skip(m));
    }
}

/// A printed hunk in form is read as it was, and nothing is noticed.
pub proof fn lemma_hunk_reads(text: Seq<Seq<char>>, at: int, h: HunkModel)
    requires
        shows(text, at, h),
        hunk_in_form(h),
        at + 1 + h.lines.len() == text.len() || is_boundary(text[at + 1 + h.lines.len()]),
    ensures
        hunk_at(text, at) == Ok::<HunkParse, ParseErrorModel>(
            HunkParse { hunk: h, next: at + 1 + h.lines.len(), warnings: Seq::empty() },
        ),
{
    lemma_body_reads(text, at, h, 0);
    assert(h.lines.take(0) =~= Seq::<LineModel>::empty());
    assert(h.lines.skip(0) =~= h.lines);
    let declared = Ranges {
        old_start: h.old_start,
        old_lines: h.old_lines,
        new_start: h.new_start,
        new_lines: h.new_lines,
    };
    assert(hunk_warnings(h.header, declared, h.old_lines, h.new_lines, None)
        =~= Seq::<WarningModel>::empty());
}

/// The header of a hunk in form begins as a hunk header does.
proof fn lemma_header_is_boundary(h: HunkModel)
    requires
        hunk_in_form(h),
    ensures
        has_prefix(h.header, "@@ "@),
        is_boundary(h.header),
        !has_prefix(h.header, "diff --git "@),
{
    reveal_strlit("@@ ");
    reveal_strlit("diff --git ");
    assert(strip_prefix(h.header, "@@ "@) is Some);
    if has_prefix(h.header, "diff --git "@) {
        assert(h.header.subrange(0, 11)[0] == 'd');
        assert(h.header.subrange(0, 3)[0] == '@');
    }
}

/// The printed hunks from hunk `k` on are read as they were.
proof fn lemma_hunks_read(text: Seq<Seq<char>>, base: int, hs: Seq<HunkModel>, k: int)
    requires
        shows_all(text, base, hs),
        forall|j: int| 0 <= j < hs.len() ==> hunk_in_form(#[trigger] hs[j]),
        0 <= k <= hs.len(),
    ensures
        0 <= start_of(hs, k) <= start_of(hs, hs.len() as int),
        hunks_from(text, base + start_of(hs, k)) == Ok::<HunksParse, ParseErrorModel>(
            HunksParse {
                hunks: hs.skip(k),
                next: base + start_of(hs, hs.len() as int),
                warnings: Seq::empty(),
            },
        ),
    decreases hs.len() - k,
{
    let end = base + start_of(hs, hs.len() as int);
    let at = base + start_of(hs, k);
    lemma_starts_grow(hs, k);
    lemma_starts_grow(hs, hs.len() as int);
    if k == hs.len() {
        assert(hs.skip(k) =~= Seq::<HunkModel>::empty());
    } else {
        let h = hs[k];
        assert(hunk_in_form(h));
        assert(shows(text, at, h));
        lemma_hunks_read(text, base, hs, k + 1);
        let after = base + start_of(hs, k + 1);
        assert(after == at + 1 + h.lines.len());
        if k + 1 < hs.len() {
            assert(shows(text, after, hs[k + 1]));
            lemma_header_is_boundary(hs[k + 1]);
        } else {
            assert(after == end);
        }
        lemma_hunk_reads(text, at, h);
        lemma_header_is_boundary(h);
        assert(seq![h] + hs.skip(k + 1) =~= hs.skip(k));
        assert(Seq::<WarningModel>::empty() + Seq::<WarningModel>::empty()
            =~= Seq::<WarningModel>::empty());
    }
}

/// The hunks start one after the other.
pub proof fn lemma_starts_grow(hs: Seq<HunkModel>, k: int)
    requires
        0 <= k <= hs.len(),
    ensures
        0 <= start_of(hs, k),
        k < hs.len() ==> start_of(hs, k + 1) == start_of(hs, k) + 1 + hs[k].lines.len(),
        start_of(hs, k) <= start_of(hs, hs.len() as int),
    decreases hs.len() - k,
{
    lemma_start_nonnegative(hs, k);
    if k < hs.len() {
        lemma_starts_grow(hs, k + 1);
    }
}

/// No hunk starts before index zero.
proof fn lemma_start_nonnegative(hs: Seq<HunkModel>, k: int)
    ensures
        0 <= start_of(hs, k),
    decreases k,
{
    if 0 < k <= hs.len() {
        lemma_start_nonnegative(hs, k - 1);
    }
}

/// Hunks in form, printed one after the other from index `base` on, are
/// read from the text as they were, and nothing is noticed.
pub proof fn lemma_printed_hunks_read(text: Seq<Seq<char>>, base: int, hs: Seq<HunkModel>)
    requires
        shows_all(text, base, hs),
        forall|j: int| 0 <= j < hs.len() ==> hunk_in_form(#[trigger] hs[j]),
    ensures
        hunks_from(text, base) == Ok::<HunksParse, ParseErrorModel>(
            HunksParse {
                hunks: hs,
                next: base + start_of(hs, hs.len() as int),
                warnings: Seq::empty(),
            },
        ),
{
    lemma_hunks_read(text, base, hs, 0);
    assert(hs.skip(0) =~= hs);
}

/// The headers of a file are read up to the first boundary.
proof fn lemma_head_reads(text: Seq<Seq<char>>, i: int, stop: int, head: FileHead)
    requires
        0 <= i <= stop <= text.len(),
        forall|j: int| i <= j < stop ==> !is_boundary(#[trigger] text[j]),
        stop == text.len() || is_boundary(text[stop]),
    ensures
        head_from(text, i, head).1 == stop,
    decreases stop - i,
{
    if i < stop {
        assert(!is_boundary(text[i]));
        lemma_head_reads(text, i + 1, stop, head_step(head, text[i]));
    }
}

/// Whether `text` holds the files whose hunks are `hunks_of`, printed one
/// after the other: file `k` starts at line `starts[k]` with its
/// `diff --git` line, its hunks are printed from line `bodies[k]` on, no
/// line between the two is a boundary, and the next file, or the end of the
/// text, follows its hunks at line `starts[k + 1]`. No line before the
/// first file starts a file.
pub open spec fn prints(
    text: Seq<Seq<char>>,
    hunks_of: Seq<Seq<HunkModel>>,
    starts: Seq<int>,
    bodies: Seq<int>,
) -> bool {
    &&& starts.len() == hunks_of.len() + 1
    &&& bodies.len() == hunks_of.len()
    &&& 0 <= starts[0] <= text.len()
    &&& starts[hunks_of.len() as int] == text.len()
    &&& forall|i: int| 0 <= i < starts[0] ==> !has_prefix(#[trigger] text[i], "diff --git "@)
    &&& forall|k: int|
        0 <= k < hunks_of.len() ==> #[trigger] prints_file(text, hunks_of, starts, bodies, k)
}

/// Whether `text` holds file `k` printed from line `starts[k]` on.
pub open spec fn prints_file(
    text: Seq<Seq<char>>,
    hunks_of: Seq<Seq<HunkModel>>,
    starts: Seq<int>,
    bodies: Seq<int>,
    k: int,
) -> bool {
    &&& 0 <= starts[k] < bodies[k] <= starts[k + 1] <= text.len()
    &&& has_prefix(text[starts[k]], "diff --git "@)
    &&& forall|j: int| starts[k] < j < bodies[k] ==> !is_boundary(#[trigger] text[j])
    &&& shows_all(text, bodies[k], hunks_of[k])
    &&& bodies[k] + start_of(hunks_of[k], hunks_of[k].len() as int) == starts[k + 1]
    &&& forall|j: int| 0 <= j < hunks_of[k].len() ==> hunk_in_form(#[trigger] hunks_of[k][j])
}

/// The hunks of the files of `files`, file by file.
pub open spec fn hunks_by_file(files: Seq<FileModel>) -> Seq<Seq<HunkModel>> {
    Seq::new(files.len(), |k: int| files[k].hunks)
}

/// A printed file is read with its hunks as they were.
proof fn lemma_file_reads(
    text: Seq<Seq<char>>,
    hunks_of: Seq<Seq<HunkModel>>,
    starts: Seq<int>,
    bodies: Seq<int>,
    k: int,
)
    requires
        0 <= k < hunks_of.len(),
        starts.len() == hunks_of.len() + 1,
        bodies.len() == hunks_of.len(),
        prints_file(text, hunks_of, starts, bodies, k),
    ensures
        file_at(text, starts[k]) matches Ok(fp) && fp.file.hunks == hunks_of[k] && fp.next
            == starts[k + 1] && fp.warnings == Seq::<WarningModel>::empty(),
{
    let hs = hunks_of[k];
    let named = FileHead {
        path: git_header_path(text[starts[k]].skip("diff --git "@.len() as int)),
        status: DeltaStatus::Modified,
        is_binary: false,
    };
    lemma_starts_grow(hs, 0);
    if hs.len() > 0 {
        assert(shows(text, bodies[k] + start_of(hs, 0), hs[0]));
        assert(hunk_in_form(hs[0]));
        lemma_header_is_boundary(hs[0]);
    } else {
        reveal_strlit("diff --git ");
    }
    lemma_head_reads(text, starts[k] + 1, bodies[k], named);
    lemma_printed_hunks_read(text, bodies[k], hs);
}

/// The printed files from file `k` on are read with their hunks as they
/// were.
proof fn lemma_files_read(
    text: Seq<Seq<char>>,
    hunks_of: Seq<Seq<HunkModel>>,
    starts: Seq<int>,
    bodies: Seq<int>,
    k: int,
)
    requires
        prints(text, hunks_of, starts, bodies),
        0 <= k <= hunks_of.len(),
    ensures
        files_from(text, starts[k]) matches Ok(got) && hunks_by_file(got.files) == hunks_of.skip(
            k,
        ) && got.warnings == Seq::<WarningModel>::empty(),
    decreases hunks_of.len() - k,
{
    if k == hunks_of.len() {
        let got = files_from(text, starts[k])->Ok_0;
        assert(hunks_by_file(got.files) =~= hunks_of.skip(k));
    } else {
        assert(prints_file(text, hunks_of, starts, bodies, k));
        lemma_file_reads(text, hunks_of, starts, bodies, k);
        lemma_files_read(text, hunks_of, starts, bodies, k + 1);
        let fp = file_at(text, starts[k])->Ok_0;
        let rest = files_from(text, starts[k + 1])->Ok_0;
        let got = files_from(text, starts[k])->Ok_0;
        assert(got.files == seq![fp.file] + rest.files);
        assert(hunks_by_file(rest.files).len() == hunks_of.skip(k + 1).len());
        assert(got.files.len() == hunks_of.len() - k);
        assert forall|j: int| 0 <= j < got.files.len() implies hunks_by_file(got.files)[j]
            == hunks_of.skip(k)[j] by {
            if j > 0 {
                assert(got.files[j] == rest.files[j - 1]);
                assert(hunks_by_file(rest.files)[j - 1] == rest.files[j - 1].hunks);
                assert(hunks_of.skip(k + 1)[j - 1] == hunks_of[k + j]);
            } else {
                assert(got.files[0] == fp.file);
            }
        }
        assert(hunks_by_file(got.files) =~= hunks_of.skip(k));
        assert(fp.warnings + rest.warnings =~= Seq::<WarningModel>::empty());
    }
}

/// Lines before the first file are passed over.
proof fn lemma_preamble_skipped(text: Seq<Seq<char>>, i: int, first: int)
    requires
        0 <= i <= first <= text.len(),
        forall|j: int| 0 <= j < first ==> !has_prefix(#[trigger] text[j], "diff --git "@),
    ensures
        files_from(text, i) == files_from(text, first),
    decreases first - i,
{
    if i < first {
        assert(!has_prefix(text[i], "diff --git "@));
        lemma_preamble_skipped(text, i + 1, first);
    }
}

/// Ingestion from text agrees with ingestion from the structured source:
/// where the lines of the text hold the files that the structured source
/// gives, printed one after the other with their hunks in form, reading the
/// text gives as many files, each with the same hunks and the same lines,
/// and notices nothing.
pub proof fn law_ingestions_agree(
    raw: Seq<RawDeltaModel>,
    input: Seq<char>,
    starts: Seq<int>,
    bodies: Seq<int>,
)
    requires
        !is_blank(input),
        prints(lines_of(input), hunks_by_file(files_of_raw(raw)), starts, bodies),
    ensures
        ingest_text(input) matches Ok(got) && hunks_by_file(got.files) == hunks_by_file(
            files_of_raw(raw),
        ) && got.warnings == Seq::<WarningModel>::empty(),
{
    let text = lines_of(input);
    let hunks_of = hunks_by_file(files_of_raw(raw));
    lemma_preamble_skipped(text, 0, starts[0]);
    lemma_files_read(text, hunks_of, starts, bodies, 0);
    assert(hunks_of.skip(0) =~= hunks_of);
}

} // verus!
