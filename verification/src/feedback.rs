//! Rendering the feedback of a review as one text, file by file.

use vstd::prelude::*;
use crate::editor::with_newline;
use crate::lines::{lines_of, newline, split_lines};
use crate::text::{
    chars_of, lemma_chars_deep_view, push_all, push_str, same_chars, strip_newlines,
    without_newlines,
};
use crate::types::{
    lemma_deep_view_push, DiffLine, FeedbackKind, FeedbackModel, HunkFeedback, LineModel,
};

verus! {

broadcast use lemma_chars_deep_view;

/// The number of hunk lines shown on each side of a comment, unless the
/// caller says otherwise.
pub const DEFAULT_CONTEXT_LINES: usize = 5;

/// The line that shows a comment.
pub open spec fn comment_line(text: Seq<char>) -> Seq<char> {
    "# REVIEW COMMENT: "@ + text + newline()
}

/// The line that shows a line of the hunk: the mark of its kind, its
/// content without the line feeds that it ends with, and a line feed.
pub open spec fn shown_line(line: LineModel) -> Seq<char> {
    seq![line.kind.marker()] + without_newlines(line.content) + newline()
}

/// The line between two stretches of a hunk that are shown.
pub open spec fn gap_line() -> Seq<char> {
    "  ...\n"@
}

/// A stretch of a hunk that is shown, and the comments that it holds.
pub struct RegionModel {
    /// The index of the first line shown.
    pub start: int,
    /// The index after the last line shown.
    pub end: int,
    /// The comments, each with its position.
    pub comments: Seq<(usize, Seq<char>)>,
}

/// The index of the first line shown for a comment at `pos`.
pub open spec fn window_low(pos: int, context: int) -> int {
    if pos >= context {
        pos - context
    } else {
        0
    }
}

/// The index after the last line shown for a comment at `pos`, in a hunk of
/// `len` lines.
pub open spec fn window_high(pos: int, context: int, len: int) -> int {
    if pos + context <= len {
        pos + context
    } else {
        len
    }
}

/// The stretches for the first `k` comments: each comment is shown with
/// `context` lines on each side of it; a comment whose window starts
/// within, or just after, the stretch of the comment before it lengthens
/// that stretch and joins its comments.
pub open spec fn regions_upto(
    comments: Seq<(usize, Seq<char>)>,
    len: int,
    context: int,
    k: int,
) -> Seq<RegionModel>
    decreases k,
{
    if k <= 0 || k > comments.len() {
        Seq::empty()
    } else {
        let before = regions_upto(comments, len, context, k - 1);
        let low = window_low(comments[k - 1].0 as int, context);
        let high = window_high(comments[k - 1].0 as int, context, len);
        if before.len() > 0 && low <= before.last().end {
            before.drop_last().push(
                RegionModel {
                    start: before.last().start,
                    end: if before.last().end >= high {
                        before.last().end
                    } else {
                        high
                    },
                    comments: before.last().comments.push(comments[k - 1]),
                },
            )
        } else {
            before.push(RegionModel { start: low, end: high, comments: seq![comments[k - 1]] })
        }
    }
}

/// The comments of `comments` from index `idx` on, each on a line.
pub open spec fn comments_from(comments: Seq<(usize, Seq<char>)>, idx: int) -> Seq<char>
    decreases comments.len() - idx,
{
    if idx < 0 || idx >= comments.len() {
        Seq::empty()
    } else {
        comment_line(comments[idx].1) + comments_from(comments, idx + 1)
    }
}

/// What is shown of a stretch from line `i` on, the comments before index
/// `idx` being shown already: a comment stands before the line at its
/// position; the comments that are left after the last line follow it.
pub open spec fn shown_from(lines: Seq<LineModel>, region: RegionModel, i: int, idx: int) -> Seq<
    char,
>
    decreases region.end - i, region.comments.len() - idx,
{
    if i >= region.end || i < 0 || i >= lines.len() || idx < 0 {
        comments_from(region.comments, idx)
    } else if idx < region.comments.len() && region.comments[idx].0 == i {
        comment_line(region.comments[idx].1) + shown_from(lines, region, i, idx + 1)
    } else {
        shown_line(lines[i]) + shown_from(lines, region, i + 1, idx)
    }
}

/// What is shown of the stretches from index `k` on, with a gap line
/// between each two.
pub open spec fn regions_text(lines: Seq<LineModel>, regions: Seq<RegionModel>, k: int) -> Seq<
    char,
>
    decreases regions.len() - k,
{
    if k < 0 || k >= regions.len() {
        Seq::empty()
    } else {
        (if k > 0 {
            gap_line()
        } else {
            Seq::empty()
        }) + shown_from(lines, regions[k], regions[k].start, 0) + regions_text(
            lines,
            regions,
            k + 1,
        )
    }
}

/// The lines of `lines` from index `i` on, each shown as a comment.
pub open spec fn plain_comments_from(lines: Seq<Seq<char>>, i: int) -> Seq<char>
    decreases lines.len() - i,
{
    if i < 0 || i >= lines.len() {
        Seq::empty()
    } else {
        comment_line(lines[i]) + plain_comments_from(lines, i + 1)
    }
}

/// What is shown for a comment entry: where it has positions, the
/// stretches of the hunk around its comments; where it has none, the lines
/// of its content, each as a comment.
pub open spec fn comment_block(fb: FeedbackModel, context: usize) -> Seq<char> {
    if fb.comment_positions.len() == 0 {
        plain_comments_from(lines_of(fb.content), 0)
    } else {
        regions_text(
            fb.context_lines,
            regions_upto(
                fb.comment_positions,
                fb.context_lines.len() as int,
                context as int,
                fb.comment_positions.len() as int,
            ),
            0,
        )
    }
}

/// A stretch of a hunk that is shown, and the comments that it holds.
pub struct Region {
    pub start: usize,
    pub end: usize,
    pub comments: Vec<(usize, Vec<char>)>,
}

impl View for Region {
    type V = RegionModel;

    open spec fn view(&self) -> RegionModel {
        RegionModel {
            start: self.start as int,
            end: self.end as int,
            comments: self.comments.deep_view(),
        }
    }
}

impl DeepView for Region {
    type V = RegionModel;

    open spec fn deep_view(&self) -> RegionModel {
        self@
    }
}

/// Finds the stretches of the hunk to show for the comments of an entry.
fn find_regions(fb: &HunkFeedback, context: usize) -> (regions: Vec<Region>)
    ensures
        regions.deep_view() == regions_upto(
            fb@.comment_positions,
            fb@.context_lines.len() as int,
            context as int,
            fb@.comment_positions.len() as int,
        ),
        forall|j: int|
            0 <= j < regions.len() ==> (#[trigger] regions@[j]).end <= fb.context_lines.len(),
{
    let ghost cps = fb@.comment_positions;
    let n: usize = fb.context_lines.len();
    let ghost len = fb@.context_lines.len() as int;
    let mut regions: Vec<Region> = Vec::new();
    let mut k: usize = 0;
    assert(regions.deep_view() =~= regions_upto(cps, len, context as int, 0));
    while k < fb.comment_positions.len()
        invariant
            k <= fb.comment_positions.len(),
            cps == fb.comment_positions.deep_view(),
            n == fb.context_lines.len(),
            len == n,
            regions.deep_view() == regions_upto(cps, len, context as int, k as int),
            forall|j: int| 0 <= j < regions.len() ==> (#[trigger] regions@[j]).end <= n,
        decreases fb.comment_positions.len() - k,
    {
        let pos: usize = fb.comment_positions[k].0;
        let text = chars_of(fb.comment_positions[k].1.as_str());
        assert(cps[k as int] == (pos, text@));
        let low: usize = if pos >= context {
            pos - context
        } else {
            0
        };
        let high: usize = if pos <= n && context <= n - pos {
            pos + context
        } else {
            n
        };
        assert(low == window_low(pos as int, context as int));
        assert(high == window_high(pos as int, context as int, len));
        let ghost before = regions;
        let ghost prior = regions_upto(cps, len, context as int, k as int);
        let merge = regions.len() > 0 && low <= regions[regions.len() - 1].end;
        if merge {
            let mut last = regions.pop().unwrap();
            let ghost rest = regions;
            let ghost last_before = last;
            assert(last_before@ == prior.last());
            if last.end < high {
                last.end = high;
            }
            let ghost old_comments = last.comments;
            last.comments.push((pos, text));
            proof {
                assert(last.comments@.drop_last() =~= old_comments@);
                lemma_deep_view_push(old_comments, last.comments);
            }
            regions.push(last);
            proof {
                assert(regions@.drop_last() =~= rest@);
                lemma_deep_view_push(rest, regions);
                assert(rest.deep_view() =~= prior.drop_last());
                assert(regions.deep_view() =~= regions_upto(cps, len, context as int, k + 1));
            }
        } else {
            let mut comments: Vec<(usize, Vec<char>)> = Vec::new();
            comments.push((pos, text));
            assert(comments.deep_view() =~= seq![(pos, text@)]);
            regions.push(Region { start: low, end: high, comments });
            proof {
                assert(regions@.drop_last() =~= before@);
                lemma_deep_view_push(before, regions);
                assert(regions.deep_view() =~= regions_upto(cps, len, context as int, k + 1));
            }
        }
        k += 1;
    }
    regions
}

/// Appends the line that shows the comment `text` to `out`.
fn push_comment(out: &mut Vec<char>, text: &Vec<char>)
    ensures
        final(out)@ == old(out)@ + comment_line(text@),
{
    push_str(out, "# REVIEW COMMENT: ");
    push_all(out, text);
    out.push('\n');
    assert(out@ =~= old(out)@ + comment_line(text@));
}

/// Appends what is shown of one stretch to `out`.
fn push_region(out: &mut Vec<char>, lines: &Vec<DiffLine>, region: &Region)
    requires
        region.end <= lines.len(),
    ensures
        final(out)@ == old(out)@ + shown_from(
            lines.deep_view(),
            region@,
            region.start as int,
            0,
        ),
{
    let ghost ls = lines.deep_view();
    let ghost whole = shown_from(ls, region@, region.start as int, 0);
    let mut i: usize = region.start;
    let mut idx: usize = 0;
    while i < region.end
        invariant
            region.start <= i,
            idx <= region.comments.len(),
            region.end <= lines.len(),
            ls == lines.deep_view(),
            out@ + shown_from(ls, region@, i as int, idx as int) == old(out)@ + whole,
        decreases region.end - i, region.comments.len() - idx,
    {
        let ghost before = out@;
        let ghost here = shown_from(ls, region@, i as int, idx as int);
        if idx < region.comments.len() {
            assert(region@.comments[idx as int] == (
                region.comments@[idx as int].0,
                region.comments@[idx as int].1@,
            ));
        }
        if idx < region.comments.len() && region.comments[idx].0 == i {
            push_comment(out, &region.comments[idx].1);
            idx += 1;
        } else {
            assert(ls[i as int] == lines@[i as int]@);
            push_str(out, lines[i].kind.prefix());
            let content = chars_of(lines[i].content.as_str());
            push_all(out, &strip_newlines(&content));
            out.push('\n');
            i += 1;
        }
        assert(out@ + shown_from(ls, region@, i as int, idx as int) =~= before + here);
    }
    assert(shown_from(ls, region@, i as int, idx as int) == comments_from(
        region@.comments,
        idx as int,
    ));
    while idx < region.comments.len()
        invariant
            idx <= region.comments.len(),
            out@ + comments_from(region@.comments, idx as int) == old(out)@ + whole,
        decreases region.comments.len() - idx,
    {
        let ghost before = out@;
        assert(region@.comments[idx as int] == (
            region.comments@[idx as int].0,
            region.comments@[idx as int].1@,
        ));
        push_comment(out, &region.comments[idx].1);
        assert(out@ + comments_from(region@.comments, idx + 1) =~= before + comments_from(
            region@.comments,
            idx as int,
        ));
        idx += 1;
    }
    assert(out@ + comments_from(region@.comments, idx as int) =~= out@);
}

/// Appends to `output` what is shown for a comment entry: the lines of the
/// hunk around each comment, `context_count` on each side, with the comment
/// before the line at its position, and `  ...` between stretches that do
/// not meet.
pub fn format_comment_with_context(output: &mut String, fb: &HunkFeedback, context_count: usize)
    ensures
        final(output)@ == old(output)@ + comment_block(fb@, context_count),
{
    let mut out: Vec<char> = Vec::new();
    if fb.comment_positions.len() == 0 {
        let lines = split_lines(&chars_of(fb.content.as_str()));
        let ghost ls = lines.deep_view();
        let mut i: usize = 0;
        assert(out@ + plain_comments_from(ls, 0) =~= plain_comments_from(ls, 0));
        while i < lines.len()
            invariant
                i <= lines.len(),
                ls == lines.deep_view(),
                out@ + plain_comments_from(ls, i as int) == plain_comments_from(ls, 0),
            decreases lines.len() - i,
        {
            let ghost before = out@;
            assert(ls[i as int] == lines@[i as int]@);
            push_comment(&mut out, &lines[i]);
            assert(out@ + plain_comments_from(ls, i + 1) =~= before + plain_comments_from(
                ls,
                i as int,
            ));
            i += 1;
        }
        assert(out@ + plain_comments_from(ls, i as int) =~= out@);
    } else {
        let regions = find_regions(fb, context_count);
        let ghost rs = regions.deep_view();
        let ghost ls = fb@.context_lines;
        let mut k: usize = 0;
        assert(out@ + regions_text(ls, rs, 0) =~= regions_text(ls, rs, 0));
        while k < regions.len()
            invariant
                k <= regions.len(),
                rs == regions.deep_view(),
                ls == fb.context_lines.deep_view(),
                forall|j: int|
                    0 <= j < regions.len() ==> (#[trigger] regions@[j]).end
                        <= fb.context_lines.len(),
                out@ + regions_text(ls, rs, k as int) == regions_text(ls, rs, 0),
            decreases regions.len() - k,
        {
            let ghost before = out@;
            assert(rs[k as int] == regions@[k as int]@);
            if k > 0 {
                push_str(&mut out, "  ...\n");
            }
            push_region(&mut out, &fb.context_lines, &regions[k]);
            assert(out@ + regions_text(ls, rs, k + 1) =~= before + regions_text(ls, rs, k as int));
            k += 1;
        }
        assert(out@ + regions_text(ls, rs, k as int) =~= out@);
    }
    append_chars(output, &out);
}

/// Appends the characters of `src` to the string `dst`.
pub fn append_chars(dst: &mut String, src: &Vec<char>)
    ensures
        final(dst)@ == old(dst)@ + src@,
{
    let mut i: usize = 0;
    assert(dst@ =~= old(dst)@ + src@.take(0));
    while i < src.len()
        invariant
            i <= src.len(),
            dst@ == old(dst)@ + src@.take(i as int),
        decreases src.len() - i,
    {
        dst.push(src[i]);
        i += 1;
        assert(src@.take(i as int) =~= src@.take(i - 1).push(src@[i - 1]));
        assert(dst@ =~= old(dst)@ + src@.take(i as int));
    }
    assert(src@.take(i as int) =~= src@);
}


/// Whether `a` comes before `b` in the order of texts, from index `i` on,
/// the two being the same before `i`: the first character that differs
/// decides, and a text comes before every text that it begins.
pub open spec fn before_from(a: Seq<char>, b: Seq<char>, i: int) -> bool
    decreases a.len() - i,
{
    if i < 0 || i >= b.len() {
        false
    } else if i >= a.len() {
        true
    } else if a[i] != b[i] {
        a[i] < b[i]
    } else {
        before_from(a, b, i + 1)
    }
}

/// Whether `a` comes before `b` in the order of texts.
pub open spec fn comes_before(a: Seq<char>, b: Seq<char>) -> bool {
    before_from(a, b, 0)
}

/// Tests whether `a` comes before `b` in the order of texts.
pub fn is_before(a: &Vec<char>, b: &Vec<char>) -> (r: bool)
    ensures
        r == comes_before(a@, b@),
{
    let mut i: usize = 0;
    loop
        invariant
            i <= a.len(),
            i <= b.len(),
            before_from(a@, b@, i as int) == comes_before(a@, b@),
        decreases a.len() - i,
    {
        if i >= b.len() {
            return false;
        }
        if i >= a.len() {
            return true;
        }
        if a[i] != b[i] {
            return a[i] < b[i];
        }
        i += 1;
    }
}

/// The paths `paths`, in order and each once, with `path` put in its place
/// at or after index `i` unless it is there.
pub open spec fn with_path(paths: Seq<Seq<char>>, path: Seq<char>, i: int) -> Seq<Seq<char>>
    decreases paths.len() - i,
{
    if i < 0 || i >= paths.len() {
        paths.push(path)
    } else if paths[i] == path {
        paths
    } else if comes_before(path, paths[i]) {
        paths.insert(i, path)
    } else {
        with_path(paths, path, i + 1)
    }
}

/// The paths of the first `k` entries, in the order of texts and each once.
pub open spec fn paths_upto(entries: Seq<FeedbackModel>, k: int) -> Seq<Seq<char>>
    decreases k,
{
    if k <= 0 || k > entries.len() {
        Seq::empty()
    } else {
        with_path(paths_upto(entries, k - 1), entries[k - 1].file_path, 0)
    }
}

/// The paths of `entries`, in the order of texts and each once.
pub open spec fn paths_of(entries: Seq<FeedbackModel>) -> Seq<Seq<char>> {
    paths_upto(entries, entries.len() as int)
}

/// What is shown for one entry: the header of its hunk on a line, then its
/// diff, ending with a line feed, or the block of its comments.
pub open spec fn entry_text(fb: FeedbackModel, context: usize) -> Seq<char> {
    fb.hunk_header + newline() + match fb.kind {
        FeedbackKind::Edit => with_newline(fb.content),
        FeedbackKind::Comment => comment_block(fb, context),
    }
}

/// What is shown for the entries on `path` from index `i` on, in the order
/// in which they were given.
pub open spec fn entries_text(
    entries: Seq<FeedbackModel>,
    path: Seq<char>,
    context: usize,
    i: int,
) -> Seq<char>
    decreases entries.len() - i,
{
    if i < 0 || i >= entries.len() {
        Seq::empty()
    } else if entries[i].file_path == path {
        entry_text(entries[i], context) + entries_text(entries, path, context, i + 1)
    } else {
        entries_text(entries, path, context, i + 1)
    }
}

/// The two lines that name a file.
pub open spec fn file_header(path: Seq<char>) -> Seq<char> {
    "--- a/"@ + path + newline() + "+++ b/"@ + path + newline()
}

/// What is shown for the files `paths` from index `k` on: for each, the
/// lines that name it and then its entries.
pub open spec fn files_text(
    entries: Seq<FeedbackModel>,
    paths: Seq<Seq<char>>,
    context: usize,
    k: int,
) -> Seq<char>
    decreases paths.len() - k,
{
    if k < 0 || k >= paths.len() {
        Seq::empty()
    } else {
        file_header(paths[k]) + entries_text(entries, paths[k], context, 0) + files_text(
            entries,
            paths,
            context,
            k + 1,
        )
    }
}

/// The report of a review: the entries file by file, the files in the
/// order of their paths.
pub open spec fn feedback_text(entries: Seq<FeedbackModel>, context: usize) -> Seq<char> {
    files_text(entries, paths_of(entries), context, 0)
}

/// Puts `path` in its place among `paths` unless it is there.
fn add_path(paths: &mut Vec<Vec<char>>, path: Vec<char>)
    ensures
        final(paths).deep_view() == with_path(old(paths).deep_view(), path@, 0),
{
    let ghost ps = paths.deep_view();
    let mut i: usize = 0;
    while i < paths.len()
        invariant
            i <= paths.len(),
            *paths == *old(paths),
            ps == paths.deep_view(),
            with_path(ps, path@, i as int) == with_path(ps, path@, 0),
        decreases paths.len() - i,
    {
        assert(ps[i as int] == paths@[i as int]@);
        if same_chars(&paths[i], &path) {
            return;
        }
        if is_before(&path, &paths[i]) {
            paths.insert(i, path);
            assert(paths.deep_view() =~= ps.insert(i as int, path@));
            return;
        }
        i += 1;
    }
    let ghost before = *paths;
    paths.push(path);
    proof {
        assert(paths@.drop_last() =~= before@);
        lemma_deep_view_push(before, *paths);
    }
}

/// Finds the paths of `entries`, in the order of texts and each once.
fn sorted_paths(entries: &[HunkFeedback]) -> (paths: Vec<Vec<char>>)
    ensures
        paths.deep_view() == paths_of(entries.deep_view()),
{
    let ghost es = entries.deep_view();
    let mut paths: Vec<Vec<char>> = Vec::new();
    let mut k: usize = 0;
    assert(paths.deep_view() =~= paths_upto(es, 0));
    while k < entries.len()
        invariant
            k <= entries.len(),
            es == entries.deep_view(),
            paths.deep_view() == paths_upto(es, k as int),
        decreases entries.len() - k,
    {
        assert(es[k as int] == entries@[k as int]@);
        add_path(&mut paths, chars_of(entries[k].file_path.as_str()));
        k += 1;
    }
    paths
}

/// Appends to `output` what is shown for one entry.
fn push_entry(output: &mut String, fb: &HunkFeedback, context: usize)
    ensures
        final(output)@ == old(output)@ + entry_text(fb@, context),
{
    let mut head = chars_of(fb.hunk_header.as_str());
    head.push('\n');
    match fb.kind {
        FeedbackKind::Edit => {
            let content = chars_of(fb.content.as_str());
            push_all(&mut head, &content);
            if !(content.len() > 0 && content[content.len() - 1] == '\n') {
                head.push('\n');
            }
            assert(head@ =~= entry_text(fb@, context));
            append_chars(output, &head);
        },
        FeedbackKind::Comment => {
            append_chars(output, &head);
            format_comment_with_context(output, fb, context);
            assert(output@ =~= old(output)@ + entry_text(fb@, context));
        },
    }
}

/// Renders all feedback as one text.
///
/// The entries are grouped by file, the files in the order of their paths,
/// the entries of a file in the order in which they were given. Each file
/// starts with the `---` and `+++` lines that name it; each entry starts
/// with the header of its hunk. An edit shows its diff; comments are shown
/// among the lines of the hunk, `context_count` of them on each side.
pub fn format_feedback(feedbacks: &[HunkFeedback], context_count: usize) -> (r: String)
    ensures
        r@ == feedback_text(feedbacks.deep_view(), context_count),
{
    let ghost es = feedbacks.deep_view();
    let paths = sorted_paths(feedbacks);
    let ghost ps = paths.deep_view();
    let mut output = String::new();
    let mut k: usize = 0;
    assert(output@ + files_text(es, ps, context_count, 0) =~= feedback_text(es, context_count));
    while k < paths.len()
        invariant
            k <= paths.len(),
            es == feedbacks.deep_view(),
            ps == paths.deep_view(),
            output@ + files_text(es, ps, context_count, k as int) == feedback_text(
                es,
                context_count,
            ),
        decreases paths.len() - k,
    {
        let ghost start = output@;
        assert(ps[k as int] == paths@[k as int]@);
        let mut head: Vec<char> = Vec::new();
        push_str(&mut head, "--- a/");
        push_all(&mut head, &paths[k]);
        head.push('\n');
        push_str(&mut head, "+++ b/");
        push_all(&mut head, &paths[k]);
        head.push('\n');
        assert(head@ =~= file_header(ps[k as int]));
        append_chars(&mut output, &head);
        let mut i: usize = 0;
        while i < feedbacks.len()
            invariant
                i <= feedbacks.len(),
                k < paths.len(),
                es == feedbacks.deep_view(),
                ps == paths.deep_view(),
                ps[k as int] == paths@[k as int]@,
                output@ + entries_text(es, ps[k as int], context_count, i as int) == start
                    + file_header(ps[k as int]) + entries_text(
                    es,
                    ps[k as int],
                    context_count,
                    0,
                ),
            decreases feedbacks.len() - i,
        {
            let ghost before = output@;
            assert(es[i as int] == feedbacks@[i as int]@);
            let path = chars_of(feedbacks[i].file_path.as_str());
            if same_chars(&path, &paths[k]) {
                push_entry(&mut output, &feedbacks[i], context_count);
            }
            assert(output@ + entries_text(es, ps[k as int], context_count, i + 1) =~= before
                + entries_text(es, ps[k as int], context_count, i as int));
            i += 1;
        }
        assert(output@ + files_text(es, ps, context_count, k + 1) =~= start + files_text(
            es,
            ps,
            context_count,
            k as int,
        ));
        k += 1;
    }
    assert(output@ + files_text(es, ps, context_count, k as int) =~= output@);
    output
}

/// The order of texts is transitive, from any index on.
pub proof fn lemma_before_transitive(a: Seq<char>, b: Seq<char>, c: Seq<char>, i: int)
    requires
        0 <= i,
        before_from(a, b, i),
        before_from(b, c, i),
    ensures
        before_from(a, c, i),
    decreases a.len() - i,
{
    if i < a.len() && a[i] == b[i] && b[i] == c[i] {
        lemma_before_transitive(a, b, c, i + 1);
    }
}

/// Of two texts that differ from an index on, one comes before the other.
pub proof fn lemma_before_total(a: Seq<char>, b: Seq<char>, i: int)
    requires
        0 <= i <= a.len(),
        i <= b.len(),
        !before_from(a, b, i),
        !before_from(b, a, i),
    ensures
        a.skip(i) == b.skip(i),
    decreases a.len() - i,
{
    if i < a.len() && i < b.len() {
        assert(a[i] == b[i]);
        lemma_before_total(a, b, i + 1);
        assert(a.skip(i) =~= seq![a[i]] + a.skip(i + 1));
        assert(b.skip(i) =~= seq![b[i]] + b.skip(i + 1));
    } else {
        assert(a.skip(i) =~= b.skip(i));
    }
}

/// No text comes before itself.
pub proof fn lemma_before_irreflexive(a: Seq<char>, i: int)
    requires
        0 <= i,
    ensures
        !before_from(a, a, i),
    decreases a.len() - i,
{
    if i < a.len() {
        lemma_before_irreflexive(a, i + 1);
    }
}

/// Whether each of `paths` comes before those after it.
pub open spec fn is_ascending(paths: Seq<Seq<char>>) -> bool {
    forall|i: int, j: int|
        0 <= i < j < paths.len() ==> comes_before(#[trigger] paths[i], #[trigger] paths[j])
}

/// Putting a path in its place keeps the paths in order, keeps the paths
/// that were there, and adds the path and no other.
pub proof fn lemma_with_path(paths: Seq<Seq<char>>, path: Seq<char>, i: int)
    requires
        0 <= i <= paths.len(),
        is_ascending(paths),
        forall|k: int| 0 <= k < i ==> comes_before(#[trigger] paths[k], path),
    ensures
        is_ascending(with_path(paths, path, i)),
        with_path(paths, path, i).contains(path),
        forall|k: int| 0 <= k < paths.len() ==> with_path(paths, path, i).contains(paths[k]),
        forall|q: Seq<char>|
            with_path(paths, path, i).contains(q) ==> q == path || paths.contains(q),
    decreases paths.len() - i,
{
    let out = with_path(paths, path, i);
    if i >= paths.len() {
        assert(out[paths.len() as int] == path);
        assert forall|k: int| 0 <= k < paths.len() implies out.contains(paths[k]) by {
            assert(out[k] == paths[k]);
        }
        assert forall|q: Seq<char>| out.contains(q) implies q == path || paths.contains(q) by {
            let w = choose|w: int| 0 <= w < out.len() && out[w] == q;
            if w < paths.len() {
                assert(paths[w] == q);
            }
        }
    } else if paths[i] == path {
        assert(out[i] == path);
        assert forall|k: int| 0 <= k < paths.len() implies out.contains(paths[k]) by {
            assert(out[k] == paths[k]);
        }
    } else if comes_before(path, paths[i]) {
        assert(out[i] == path);
        assert forall|a: int, b: int| 0 <= a < b < out.len() implies comes_before(
            #[trigger] out[a],
            #[trigger] out[b],
        ) by {
            if b < i {
                assert(out[a] == paths[a] && out[b] == paths[b]);
            } else if b == i {
                assert(out[a] == paths[a]);
            } else if a < i {
                assert(out[a] == paths[a] && out[b] == paths[b - 1]);
            } else if a == i {
                assert(out[b] == paths[b - 1]);
                if b - 1 > i {
                    assert(comes_before(paths[i], paths[b - 1]));
                    lemma_before_transitive(path, paths[i], paths[b - 1], 0);
                }
            } else {
                assert(out[a] == paths[a - 1] && out[b] == paths[b - 1]);
            }
        }
        assert forall|k: int| 0 <= k < paths.len() implies out.contains(paths[k]) by {
            if k < i {
                assert(out[k] == paths[k]);
            } else {
                assert(out[k + 1] == paths[k]);
            }
        }
        assert forall|q: Seq<char>| out.contains(q) implies q == path || paths.contains(q) by {
            let w = choose|w: int| 0 <= w < out.len() && out[w] == q;
            if w < i {
                assert(paths[w] == q);
            } else if w > i {
                assert(paths[w - 1] == q);
            }
        }
    } else {
        if !comes_before(paths[i], path) {
            lemma_before_total(path, paths[i], 0);
            assert(path.skip(0) =~= path);
            assert(paths[i].skip(0) =~= paths[i]);
        }
        assert(comes_before(paths[i], path));
        lemma_with_path(paths, path, i + 1);
    }
}

/// The paths under which a report shows its entries come in the order of
/// texts, each once, and they are the paths of the entries and no others.
pub proof fn law_paths_in_order(entries: Seq<FeedbackModel>, k: int)
    requires
        0 <= k <= entries.len(),
    ensures
        is_ascending(paths_upto(entries, k)),
        forall|i: int, j: int|
            0 <= i < j < paths_upto(entries, k).len() ==> #[trigger] paths_upto(entries, k)[i]
                != #[trigger] paths_upto(entries, k)[j],
        forall|j: int|
            0 <= j < k ==> paths_upto(entries, k).contains((#[trigger] entries[j]).file_path),
        forall|q: Seq<char>|
            paths_upto(entries, k).contains(q) ==> exists|j: int|
                0 <= j < k && (#[trigger] entries[j]).file_path == q,
    decreases k,
{
    let paths = paths_upto(entries, k);
    assert forall|i: int, j: int| 0 <= i < j < paths.len() implies #[trigger] paths[i]
        != #[trigger] paths[j] by {
        lemma_before_irreflexive(paths_upto(entries, k)[i], 0);
        if k > 0 {
            law_paths_in_order(entries, k - 1);
            lemma_with_path(paths_upto(entries, k - 1), entries[k - 1].file_path, 0);
        }
    }
    if k > 0 {
        law_paths_in_order(entries, k - 1);
        let before = paths_upto(entries, k - 1);
        let path = entries[k - 1].file_path;
        lemma_with_path(before, path, 0);
        let out = paths_upto(entries, k);
        assert forall|j: int| 0 <= j < k implies out.contains(
            (#[trigger] entries[j]).file_path,
        ) by {
            if j < k - 1 {
                assert(before.contains(entries[j].file_path));
                let w = choose|w: int| 0 <= w < before.len() && before[w] == entries[j].file_path;
                assert(out.contains(before[w]));
            }
        }
        assert forall|q: Seq<char>| out.contains(q) implies exists|j: int|
            0 <= j < k && (#[trigger] entries[j]).file_path == q by {
            if q == path {
                assert(entries[k - 1].file_path == q);
            } else {
                assert(before.contains(q));
                let j = choose|j: int| 0 <= j < k - 1 && (#[trigger] entries[j]).file_path == q;
                assert(entries[j].file_path == q);
            }
        }
    }
}

} // verus!
