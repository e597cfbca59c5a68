//! The templates that the user edits, and what is recovered from them: an
//! edit as a unified diff, or comments at positions in the hunk.

use vstd::prelude::*;
use crate::lines::{join, join_lines, lines_between, lines_of, newline, split_lines};
use crate::text::{
    chars_of, is_blank, is_blank_chars, lemma_chars_deep_view, push_all, push_str, push_word,
    same_but_trailing, same_chars, same_trimmed, string_of, strip_prefix, strip_prefix_chars, trim,
    trim_chars,
};
use crate::types::{
    lemma_deep_view_push, DiffLine, FeedbackKind, FeedbackModel, Hunk, HunkFeedback, HunkModel,
    LineKind, LineModel,
};

verus! {

broadcast use lemma_chars_deep_view;

/// Copies of the lines of `lines`.
pub fn copy_all(lines: &[DiffLine]) -> (r: Vec<DiffLine>)
    ensures
        r.deep_view() == lines.deep_view(),
{
    let mut r: Vec<DiffLine> = Vec::new();
    let mut i: usize = 0;
    while i < lines.len()
        invariant
            i <= lines.len(),
            r.deep_view() == lines.deep_view().take(i as int),
        decreases lines.len() - i,
    {
        let ghost before = r;
        r.push(lines[i].copy());
        i += 1;
        proof {
            assert(r@.drop_last() =~= before@);
            lemma_deep_view_push(before, r);
            assert(r.deep_view() =~= lines.deep_view().take(i as int));
        }
    }
    assert(lines.deep_view().take(i as int) =~= lines.deep_view());
    r
}

/// The command that opens `editor` on `file_path` in a new pane beside the
/// current one, half as wide, and prints the pane's id. The editor and the
/// path are arguments of their own, so no shell reads them.
pub open spec fn tmux_split_command(editor: Seq<char>, file_path: Seq<char>) -> Seq<Seq<char>> {
    seq![
        "tmux"@,
        "split-window"@,
        "-h"@,
        "-p"@,
        "50"@,
        "-P"@,
        "-F"@,
        "#{pane_id}"@,
        "--"@,
        editor,
        file_path,
    ]
}

/// Builds the arguments of the command that opens the editor in a pane.
pub fn build_tmux_split_command(editor: &str, file_path: &str) -> (cmd: Vec<String>)
    ensures
        cmd.deep_view() == tmux_split_command(editor@, file_path@),
{
    let mut cmd: Vec<String> = Vec::new();
    assert(cmd.deep_view() =~= Seq::<Seq<char>>::empty());
    push_word(&mut cmd, "tmux");
    push_word(&mut cmd, "split-window");
    push_word(&mut cmd, "-h");
    push_word(&mut cmd, "-p");
    push_word(&mut cmd, "50");
    push_word(&mut cmd, "-P");
    push_word(&mut cmd, "-F");
    push_word(&mut cmd, "#{pane_id}");
    push_word(&mut cmd, "--");
    push_word(&mut cmd, editor);
    push_word(&mut cmd, file_path);
    assert(cmd.deep_view() =~= tmux_split_command(editor@, file_path@));
    cmd
}

/// The command that lists the ids of all panes, one on a line.
pub open spec fn pane_list_command() -> Seq<Seq<char>> {
    seq!["tmux"@, "list-panes"@, "-a"@, "-F"@, "#{pane_id}"@]
}

/// Builds the arguments of the command that lists the ids of all panes.
pub fn build_pane_exists_check_command() -> (cmd: Vec<String>)
    ensures
        cmd.deep_view() == pane_list_command(),
{
    let mut cmd: Vec<String> = Vec::new();
    assert(cmd.deep_view() =~= Seq::<Seq<char>>::empty());
    push_word(&mut cmd, "tmux");
    push_word(&mut cmd, "list-panes");
    push_word(&mut cmd, "-a");
    push_word(&mut cmd, "-F");
    push_word(&mut cmd, "#{pane_id}");
    assert(cmd.deep_view() =~= pane_list_command());
    cmd
}

/// The editor to open: `visual` where it is set, else `editor` where that is
/// set, else `vi`.
pub open spec fn chosen_editor(visual: Option<Seq<char>>, editor: Option<Seq<char>>) -> Seq<char> {
    match visual {
        Some(v) => v,
        None => match editor {
            Some(e) => e,
            None => "vi"@,
        },
    }
}

/// Chooses the editor from the values of the two settings that name one.
pub fn choose_editor(visual: Option<String>, editor: Option<String>) -> (r: String)
    ensures
        r@ == chosen_editor(visual.deep_view(), editor.deep_view()),
{
    match visual {
        Some(v) => v,
        None => match editor {
            Some(e) => e,
            None => "vi".to_owned(),
        },
    }
}

/// Whether a line of `pane_list` is `pane_id`, but for white space around it.
pub open spec fn lists_pane(pane_list: Seq<char>, pane_id: Seq<char>) -> bool {
    exists|i: int|
        0 <= i < lines_of(pane_list).len() && trim(#[trigger] lines_of(pane_list)[i]) == pane_id
}

/// Tests whether the pane `pane_id` is among the panes that `pane_list`
/// lists, one on a line.
pub fn pane_listed(pane_list: &str, pane_id: &str) -> (r: bool)
    ensures
        r == lists_pane(pane_list@, pane_id@),
{
    let list = chars_of(pane_list);
    let id = chars_of(pane_id);
    let lines = split_lines(&list);
    let ghost ls = lines.deep_view();
    let mut i: usize = 0;
    while i < lines.len()
        invariant
            i <= lines.len(),
            ls == lines.deep_view(),
            ls == lines_of(pane_list@),
            id@ == pane_id@,
            forall|k: int| 0 <= k < i ==> trim(#[trigger] ls[k]) != id@,
        decreases lines.len() - i,
    {
        assert(ls[i as int] == lines@[i as int]@);
        let line = trim_chars(&lines[i]);
        if same_chars(&line, &id) {
            assert(trim(lines_of(pane_list@)[i as int]) == pane_id@);
            return true;
        }
        i += 1;
    }
    false
}

/// `s`, followed by a line feed unless it ends with one.
pub open spec fn with_newline(s: Seq<char>) -> Seq<char> {
    if s.len() > 0 && s.last() == '\n' {
        s
    } else {
        s + newline()
    }
}

/// Appends `s` to `out`, and a line feed unless `s` ends with one.
fn push_with_newline(out: &mut Vec<char>, s: &Vec<char>)
    ensures
        final(out)@ == old(out)@ + with_newline(s@),
{
    push_all(out, s);
    if !(s.len() > 0 && s[s.len() - 1] == '\n') {
        out.push('\n');
    }
    assert(out@ =~= old(out)@ + with_newline(s@));
}

/// `s`, followed by a line feed unless it ends with one.
pub fn with_final_newline(s: &str) -> (r: String)
    ensures
        r@ == with_newline(s@),
{
    let mut out: Vec<char> = Vec::new();
    push_with_newline(&mut out, &chars_of(s));
    assert(out@ =~= with_newline(s@));
    string_of(&out)
}

/// The new side of the lines from index `from` on, as text: the content of
/// each context line and added line, each ending with a line feed.
pub open spec fn new_side_text_from(lines: Seq<LineModel>, from: int) -> Seq<char>
    decreases lines.len() - from,
{
    if from < 0 || from >= lines.len() {
        Seq::empty()
    } else if lines[from].kind.on_new_side() {
        with_newline(lines[from].content) + new_side_text_from(lines, from + 1)
    } else {
        new_side_text_from(lines, from + 1)
    }
}

/// The new side of a hunk's lines as text.
pub open spec fn new_side_text(lines: Seq<LineModel>) -> Seq<char> {
    new_side_text_from(lines, 0)
}

/// Extracts the new side of a hunk's lines: context and added lines, without
/// the removed ones. This is the text that the user edits.
pub fn extract_new_side_content(lines: &[DiffLine]) -> (r: String)
    ensures
        r@ == new_side_text(lines.deep_view()),
{
    let ghost ls = lines.deep_view();
    let mut out: Vec<char> = Vec::new();
    let mut i: usize = 0;
    assert(out@ + new_side_text_from(ls, 0) =~= new_side_text(ls));
    while i < lines.len()
        invariant
            i <= lines.len(),
            ls == lines.deep_view(),
            out@ + new_side_text_from(ls, i as int) == new_side_text(ls),
        decreases lines.len() - i,
    {
        assert(ls[i as int] == lines@[i as int]@);
        let ghost before = out@;
        match lines[i].kind {
            LineKind::Removed => {},
            _ => {
                let content = chars_of(lines[i].content.as_str());
                push_with_newline(&mut out, &content);
                assert(out@ + new_side_text_from(ls, i + 1) =~= before + new_side_text_from(
                    ls,
                    i as int,
                ));
            },
        }
        i += 1;
    }
    assert(out@ + new_side_text_from(ls, i as int) =~= out@);
    string_of(&out)
}

/// The lines of a hunk from index `from` on as they stand in the template
/// for comments: each with the mark of its kind before it, each ending with
/// a line feed.
pub open spec fn marked_lines_from(lines: Seq<LineModel>, from: int) -> Seq<char>
    decreases lines.len() - from,
{
    if from < 0 || from >= lines.len() {
        Seq::empty()
    } else {
        seq![lines[from].kind.marker()] + with_newline(lines[from].content) + marked_lines_from(
            lines,
            from + 1,
        )
    }
}

/// The template for comments on a hunk: two lines that say what to do, the
/// header of the hunk, an empty line, and the lines of the hunk.
pub open spec fn comment_template_text(hunk: HunkModel) -> Seq<char> {
    "# Add your comments anywhere in this file.\n"@
        + "# Any new lines you add will be captured as comments.\n"@ + "# "@ + hunk.header
        + newline() + newline() + marked_lines_from(hunk.lines, 0)
}

/// Builds the template for comments on a hunk.
pub fn comment_template(hunk: &Hunk) -> (r: String)
    ensures
        r@ == comment_template_text(hunk@),
{
    let ghost ls = hunk@.lines;
    let mut out: Vec<char> = Vec::new();
    push_str(&mut out, "# Add your comments anywhere in this file.\n");
    push_str(&mut out, "# Any new lines you add will be captured as comments.\n");
    push_str(&mut out, "# ");
    push_str(&mut out, hunk.header.as_str());
    out.push('\n');
    out.push('\n');
    let ghost head = out@;
    assert(head + marked_lines_from(ls, 0) =~= comment_template_text(hunk@));
    let mut i: usize = 0;
    while i < hunk.lines.len()
        invariant
            i <= hunk.lines.len(),
            ls == hunk.lines.deep_view(),
            out@ + marked_lines_from(ls, i as int) == head + marked_lines_from(ls, 0),
        decreases hunk.lines.len() - i,
    {
        assert(ls[i as int] == hunk.lines@[i as int]@);
        let ghost before = out@;
        push_str(&mut out, hunk.lines[i].kind.prefix());
        let content = chars_of(hunk.lines[i].content.as_str());
        push_with_newline(&mut out, &content);
        assert(out@ + marked_lines_from(ls, i + 1) =~= before + marked_lines_from(ls, i as int));
        i += 1;
    }
    assert(out@ + marked_lines_from(ls, i as int) =~= out@);
    string_of(&out)
}

/// The unified diff, hunk after hunk and without a file header, that the
/// line diff of `old` and `new` gives with `radius` lines of context.
pub uninterp spec fn unified_diff_of(old: Seq<char>, new: Seq<char>, radius: usize) -> Seq<char>;

/// `similar::udiff::unified_diff` with the default algorithm and no file
/// header: the text that it returns is a function of the two texts and the
/// number of context lines alone, and is named `unified_diff_of`.
#[verifier::external_body]
fn line_diff(original: &str, edited: &str, radius: usize) -> (r: String)
    ensures
        r@ == unified_diff_of(original@, edited@, radius),
{
    similar::udiff::unified_diff(similar::Algorithm::default(), original, edited, radius, None)
}

/// The number of context lines around the changes of an edit.
pub const EDIT_CONTEXT: usize = 3;

/// The feedback for an edit, `unified` being the diff of the template and
/// what the user saved: none where the two are the same or the diff is
/// empty, else an edit that holds the diff.
pub open spec fn edit_feedback(
    original: Seq<char>,
    edited: Seq<char>,
    file_path: Seq<char>,
    hunk_header: Seq<char>,
    hunk_lines: Seq<LineModel>,
    unified: Seq<char>,
) -> Option<FeedbackModel> {
    if original == edited || unified.len() == 0 {
        None
    } else {
        Some(
            FeedbackModel {
                file_path,
                hunk_header,
                kind: FeedbackKind::Edit,
                content: unified,
                context_lines: hunk_lines,
                comment_positions: Seq::empty(),
            },
        )
    }
}

/// Makes the feedback for an edit out of the diff of the template and what
/// the user saved.
pub fn edit_feedback_from(
    unified: String,
    original: &str,
    edited: &str,
    file_path: &str,
    hunk_header: &str,
    hunk_lines: &[DiffLine],
) -> (r: Option<HunkFeedback>)
    ensures
        r.deep_view() == edit_feedback(
            original@,
            edited@,
            file_path@,
            hunk_header@,
            hunk_lines.deep_view(),
            unified@,
        ),
{
    let a = chars_of(original);
    let b = chars_of(edited);
    if same_chars(&a, &b) {
        return None;
    }
    if unified.as_str().unicode_len() == 0 {
        return None;
    }
    let comment_positions: Vec<(usize, String)> = Vec::new();
    assert(comment_positions.deep_view() =~= Seq::<(usize, Seq<char>)>::empty());
    Some(
        HunkFeedback {
            file_path: file_path.to_owned(),
            hunk_header: hunk_header.to_owned(),
            kind: FeedbackKind::Edit,
            content: unified,
            context_lines: copy_all(hunk_lines),
            comment_positions,
        },
    )
}

/// Recovers an edit: compares the template with what the user saved, and
/// gives the difference as a unified diff. No difference, no feedback.
pub fn parse_edit_result(
    original: &str,
    edited: &str,
    file_path: &str,
    hunk_header: &str,
    hunk_lines: &[DiffLine],
) -> (r: Option<HunkFeedback>)
    ensures
        r.deep_view() == edit_feedback(
            original@,
            edited@,
            file_path@,
            hunk_header@,
            hunk_lines.deep_view(),
            unified_diff_of(original@, edited@, EDIT_CONTEXT),
        ),
{
    let unified = line_diff(original, edited, EDIT_CONTEXT);
    edit_feedback_from(unified, original, edited, file_path, hunk_header, hunk_lines)
}

/// Tests whether a line that the user saved is a line of the template: the
/// two are the same, or the same but for trailing white space.
pub fn lines_match(edited: &str, original: &str) -> (r: bool)
    ensures
        r == same_but_trailing(edited@, original@),
{
    let a = chars_of(edited);
    let b = chars_of(original);
    same_trimmed(&a, &b)
}


/// The index of the first empty line at or after `from`, if there is one.
pub open spec fn first_empty(lines: Seq<Seq<char>>, from: int) -> Option<int>
    decreases lines.len() - from,
{
    if from < 0 || from >= lines.len() {
        None
    } else if lines[from].len() == 0 {
        Some(from)
    } else {
        first_empty(lines, from + 1)
    }
}

/// The index at which the body of a template starts: after its first empty
/// line, or at its first line if no line is empty.
pub open spec fn body_start(lines: Seq<Seq<char>>) -> int {
    match first_empty(lines, 0) {
        Some(i) => i + 1,
        None => 0,
    }
}

/// The body of what the user saved, the body of the template starting at
/// `start`: the lines from `start` on, or all lines where there are fewer
/// than `start`.
pub open spec fn edited_body(lines: Seq<Seq<char>>, start: int) -> Seq<Seq<char>> {
    if start <= lines.len() {
        lines.skip(start)
    } else {
        lines
    }
}

/// The index of the first line of `body` at or after `from` that `line`
/// matches, if there is one.
pub open spec fn seek(body: Seq<Seq<char>>, line: Seq<char>, from: int) -> Option<int>
    decreases body.len() - from,
{
    if from < 0 || from >= body.len() {
        None
    } else if same_but_trailing(line, body[from]) {
        Some(from)
    } else {
        seek(body, line, from + 1)
    }
}

/// The text of the comment that `line` makes: the line without the
/// `# COMMENT:` that it begins with, if it does, and without white space
/// around it.
pub open spec fn comment_text(line: Seq<char>) -> Seq<char> {
    match strip_prefix(line, "# COMMENT:"@) {
        Some(rest) => trim(rest),
        None => trim(line),
    }
}

/// Whether `line` is the line of `body` at the cursor.
pub open spec fn matches_here(body: Seq<Seq<char>>, cursor: int, line: Seq<char>) -> bool {
    0 <= cursor < body.len() && same_but_trailing(line, body[cursor])
}

/// The cursor after `line` is read: past the line at the cursor where
/// `line` matches it; else, where `line` is not blank, past the first later
/// line that `line` matches; else where it was.
pub open spec fn advance(body: Seq<Seq<char>>, cursor: int, line: Seq<char>) -> int {
    if matches_here(body, cursor, line) {
        cursor + 1
    } else if is_blank(line) {
        cursor
    } else {
        match seek(body, line, cursor + 1) {
            Some(j) => j + 1,
            None => cursor,
        }
    }
}

/// The comment that `line` makes at the cursor, if it makes one: a line
/// that is not blank and matches neither the line at the cursor nor a later
/// one is a comment, at the cursor or at the last position `limit` if the
/// cursor is past it, unless its text is empty.
pub open spec fn comment_at(body: Seq<Seq<char>>, limit: usize, cursor: int, line: Seq<char>)
    -> Option<(usize, Seq<char>)> {
    if matches_here(body, cursor, line) || is_blank(line) || seek(body, line, cursor + 1) is Some
        || comment_text(line).len() == 0 {
        None
    } else if cursor <= limit {
        Some((cursor as usize, comment_text(line)))
    } else {
        Some((limit, comment_text(line)))
    }
}

/// The comments that the lines of `edited` from index `k` on make, the
/// cursor into `body` standing at `cursor`.
pub open spec fn walk(
    body: Seq<Seq<char>>,
    limit: usize,
    edited: Seq<Seq<char>>,
    k: int,
    cursor: int,
) -> Seq<(usize, Seq<char>)>
    decreases edited.len() - k,
{
    if k < 0 || k >= edited.len() {
        Seq::empty()
    } else {
        (match comment_at(body, limit, cursor, edited[k]) {
            Some(c) => seq![c],
            None => Seq::empty(),
        }) + walk(body, limit, edited, k + 1, advance(body, cursor, edited[k]))
    }
}

/// The comments recovered from what the user saved: the body of the
/// template and the body of the saved text are walked side by side.
pub open spec fn recovered_comments(original: Seq<char>, edited: Seq<char>, limit: usize) -> Seq<
    (usize, Seq<char>),
> {
    let template = lines_of(original);
    let start = body_start(template);
    walk(template.skip(start), limit, edited_body(lines_of(edited), start), 0, 0)
}

/// The texts of `comments`, in order.
pub open spec fn texts_of(comments: Seq<(usize, Seq<char>)>) -> Seq<Seq<char>> {
    Seq::new(comments.len(), |i: int| comments[i].1)
}

/// The feedback for comments: none where no comment was recovered, else a
/// comment entry that holds the positions and texts, and the texts joined
/// by line feeds.
pub open spec fn comment_feedback(
    original: Seq<char>,
    edited: Seq<char>,
    file_path: Seq<char>,
    hunk_header: Seq<char>,
    hunk_lines: Seq<LineModel>,
) -> Option<FeedbackModel> {
    let comments = recovered_comments(original, edited, hunk_lines.len() as usize);
    if comments.len() == 0 {
        None
    } else {
        Some(
            FeedbackModel {
                file_path,
                hunk_header,
                kind: FeedbackKind::Comment,
                content: join(texts_of(comments), newline()),
                context_lines: hunk_lines,
                comment_positions: comments,
            },
        )
    }
}

/// Finds where the body of a template starts.
fn find_body_start(lines: &Vec<Vec<char>>) -> (start: usize)
    ensures
        start == body_start(lines.deep_view()),
        start <= lines.len(),
{
    let ghost ls = lines.deep_view();
    let mut i: usize = 0;
    while i < lines.len()
        invariant
            i <= lines.len(),
            ls == lines.deep_view(),
            first_empty(ls, i as int) == first_empty(ls, 0),
        decreases lines.len() - i,
    {
        assert(ls[i as int] == lines@[i as int]@);
        if lines[i].len() == 0 {
            return i + 1;
        }
        i += 1;
    }
    0
}

/// Finds the first line of `body` at or after `from` that `line` matches.
fn seek_line(body: &Vec<Vec<char>>, line: &Vec<char>, from: usize) -> (r: Option<usize>)
    ensures
        match r {
            Some(j) => seek(body.deep_view(), line@, from as int) == Some(j as int) && from <= j
                < body.len(),
            None => seek(body.deep_view(), line@, from as int) is None,
        },
{
    let ghost bs = body.deep_view();
    let mut j: usize = from;
    while j < body.len()
        invariant
            from <= j,
            bs == body.deep_view(),
            seek(bs, line@, j as int) == seek(bs, line@, from as int),
        decreases body.len() - j,
    {
        assert(bs[j as int] == body@[j as int]@);
        if same_trimmed(line, &body[j]) {
            return Some(j);
        }
        j += 1;
    }
    None
}

/// Reads the text of the comment that `line` makes.
fn comment_text_of(line: &Vec<char>) -> (r: Vec<char>)
    ensures
        r@ == comment_text(line@),
{
    match strip_prefix_chars(line, "# COMMENT:") {
        Some(rest) => trim_chars(&rest),
        None => trim_chars(line),
    }
}

/// Walks the body of the saved text along the body of the template and
/// collects the comments.
fn collect_comments(body: &Vec<Vec<char>>, edited: &Vec<Vec<char>>, limit: usize) -> (r: (
    Vec<(usize, String)>,
    Vec<Vec<char>>,
))
    ensures
        r.0.deep_view() == walk(body.deep_view(), limit, edited.deep_view(), 0, 0),
        r.1.deep_view() == texts_of(r.0.deep_view()),
{
    let ghost bs = body.deep_view();
    let ghost es = edited.deep_view();
    let ghost whole = walk(bs, limit, es, 0, 0);
    let mut comments: Vec<(usize, String)> = Vec::new();
    let mut texts: Vec<Vec<char>> = Vec::new();
    let mut cursor: usize = 0;
    let mut k: usize = 0;
    assert(comments.deep_view() + whole =~= whole);
    assert(texts.deep_view() =~= texts_of(comments.deep_view()));
    while k < edited.len()
        invariant
            k <= edited.len(),
            cursor <= body.len(),
            bs == body.deep_view(),
            es == edited.deep_view(),
            comments.deep_view() + walk(bs, limit, es, k as int, cursor as int) == whole,
            texts.deep_view() == texts_of(comments.deep_view()),
        decreases edited.len() - k,
    {
        let line = &edited[k];
        assert(es[k as int] == line@);
        let ghost here = walk(bs, limit, es, k as int, cursor as int);
        let ghost found = comments.deep_view();
        if cursor < body.len() {
            assert(bs[cursor as int] == body@[cursor as int]@);
        }
        if cursor < body.len() && same_trimmed(line, &body[cursor]) {
            cursor += 1;
        } else if !is_blank_chars(line) {
            let ahead = if cursor < body.len() {
                seek_line(body, line, cursor + 1)
            } else {
                None
            };
            match ahead {
                Some(j) => {
                    cursor = j + 1;
                },
                None => {
                    let text = comment_text_of(line);
                    if text.len() > 0 {
                        let at: usize = if cursor <= limit {
                            cursor
                        } else {
                            limit
                        };
                        let ghost before = comments;
                        let ghost before_texts = texts;
                        comments.push((at, string_of(&text)));
                        texts.push(text);
                        proof {
                            assert(comments@.drop_last() =~= before@);
                            lemma_deep_view_push(before, comments);
                            assert(texts@.drop_last() =~= before_texts@);
                            lemma_deep_view_push(before_texts, texts);
                            assert(comment_at(bs, limit, cursor as int, line@) == Some(
                                (at, text@),
                            ));
                            assert(texts.deep_view() =~= texts_of(comments.deep_view()));
                        }
                    }
                },
            }
        }
        proof {
            assert(comments.deep_view() + walk(bs, limit, es, k + 1, cursor as int) =~= found
                + here);
        }
        k += 1;
    }
    assert(comments.deep_view() + walk(bs, limit, es, k as int, cursor as int)
        =~= comments.deep_view());
    (comments, texts)
}

/// Recovers comments: compares the template for comments with what the user
/// saved.
///
/// The body of the template is what follows its first empty line. The lines
/// that the user saved are read one by one against the body. A line that is
/// a line of the body, but for trailing white space, moves the cursor on,
/// also where lines of the body before it are gone. Any other line that is
/// not blank is a comment at the cursor. No comment, no feedback.
pub fn parse_comment_result(
    original: &str,
    edited: &str,
    file_path: &str,
    hunk_header: &str,
    hunk_lines: &[DiffLine],
) -> (r: Option<HunkFeedback>)
    ensures
        r.deep_view() == comment_feedback(
            original@,
            edited@,
            file_path@,
            hunk_header@,
            hunk_lines.deep_view(),
        ),
{
    let original_lines = split_lines(&chars_of(original));
    let edited_lines = split_lines(&chars_of(edited));
    let start = find_body_start(&original_lines);
    let body = lines_between(&original_lines, start, original_lines.len());
    let saved = if start <= edited_lines.len() {
        lines_between(&edited_lines, start, edited_lines.len())
    } else {
        edited_lines
    };
    proof {
        let template = lines_of(original@);
        assert(body.deep_view() =~= template.skip(start as int));
        assert(saved.deep_view() =~= edited_body(lines_of(edited@), start as int));
    }
    let limit: usize = hunk_lines.len();
    let (comments, texts) = collect_comments(&body, &saved, limit);
    if comments.len() == 0 {
        return None;
    }
    let mut sep: Vec<char> = Vec::new();
    sep.push('\n');
    assert(sep@ =~= newline());
    let content = join_lines(&texts, &sep);
    Some(
        HunkFeedback {
            file_path: file_path.to_owned(),
            hunk_header: hunk_header.to_owned(),
            kind: FeedbackKind::Comment,
            content: string_of(&content),
            context_lines: copy_all(hunk_lines),
            comment_positions: comments,
        },
    )
}


/// Whether the lines of `saved` are the lines of `body`, one for one, each
/// the same but for trailing white space.
pub open spec fn same_lines(saved: Seq<Seq<char>>, body: Seq<Seq<char>>) -> bool {
    &&& saved.len() == body.len()
    &&& forall|j: int| 0 <= j < saved.len() ==> same_but_trailing(#[trigger] saved[j], body[j])
}

/// Where `line` matches a line of `body` at or after `from`, `seek` finds
/// one, and none later than that.
pub proof fn lemma_seek_finds(body: Seq<Seq<char>>, line: Seq<char>, from: int, at: int)
    requires
        0 <= from <= at < body.len(),
        same_but_trailing(line, body[at]),
    ensures
        seek(body, line, from) matches Some(j) && from <= j <= at,
    decreases at - from,
{
    if !same_but_trailing(line, body[from]) {
        lemma_seek_finds(body, line, from + 1, at);
    }
}

/// Lines that are lines of the body, each at its own index shifted by
/// `shift` and none before the cursor, make no comment.
pub proof fn lemma_walk_matching(
    body: Seq<Seq<char>>,
    limit: usize,
    edited: Seq<Seq<char>>,
    k: int,
    cursor: int,
    shift: int,
)
    requires
        0 <= k <= edited.len(),
        0 <= cursor <= k + shift,
        edited.len() + shift <= body.len(),
        forall|j: int|
            k <= j < edited.len() ==> same_but_trailing(#[trigger] edited[j], body[j + shift]),
    ensures
        walk(body, limit, edited, k, cursor) == Seq::<(usize, Seq<char>)>::empty(),
    decreases edited.len() - k,
{
    if k < edited.len() {
        let line = edited[k];
        assert(same_but_trailing(line, body[k + shift]));
        if !matches_here(body, cursor, line) && !is_blank(line) {
            lemma_seek_finds(body, line, cursor + 1, k + shift);
        }
        lemma_walk_matching(body, limit, edited, k + 1, advance(body, cursor, line), shift);
        assert(walk(body, limit, edited, k, cursor) =~= Seq::<(usize, Seq<char>)>::empty());
    }
}

/// Lines that are the first lines of the body, one for one, move the cursor
/// along and make no comment.
pub proof fn lemma_walk_prefix(
    body: Seq<Seq<char>>,
    limit: usize,
    edited: Seq<Seq<char>>,
    k: int,
    upto: int,
)
    requires
        0 <= k <= upto <= edited.len(),
        upto <= body.len(),
        forall|j: int| 0 <= j < upto ==> same_but_trailing(#[trigger] edited[j], body[j]),
    ensures
        walk(body, limit, edited, k, k) == walk(body, limit, edited, upto, upto),
    decreases upto - k,
{
    if k < upto {
        assert(same_but_trailing(edited[k], body[k]));
        lemma_walk_prefix(body, limit, edited, k + 1, upto);
        assert(walk(body, limit, edited, k, k) =~= walk(body, limit, edited, k + 1, k + 1));
    }
}

/// The body of a template starts within the template.
pub proof fn lemma_body_start(lines: Seq<Seq<char>>, from: int)
    requires
        0 <= from,
    ensures
        first_empty(lines, from) matches Some(i) ==> from <= i < lines.len(),
    decreases lines.len() - from,
{
    if from < lines.len() && lines[from].len() != 0 {
        lemma_body_start(lines, from + 1);
    }
}

/// A template that the user saved as it was gives no feedback.
pub proof fn law_unchanged_template_gives_nothing(
    template: Seq<char>,
    file_path: Seq<char>,
    hunk_header: Seq<char>,
    hunk_lines: Seq<LineModel>,
)
    ensures
        comment_feedback(template, template, file_path, hunk_header, hunk_lines) is None,
{
    let lines = lines_of(template);
    let start = body_start(lines);
    lemma_body_start(lines, 0);
    let body = lines.skip(start);
    lemma_walk_matching(body, hunk_lines.len() as usize, body, 0, 0, 0);
}

/// Whether `line` is a comment wherever it stands at or after index `at` of
/// `body`: it is not blank, the text of its comment is not empty, and it
/// matches no line of `body` at or after `at`.
pub open spec fn is_new_line(body: Seq<Seq<char>>, line: Seq<char>, at: int) -> bool {
    &&& !is_blank(line)
    &&& comment_text(line).len() > 0
    &&& forall|j: int| at <= j < body.len() ==> !same_but_trailing(line, #[trigger] body[j])
}

/// A line that matches no line of `body` from `from` on is not found.
pub proof fn lemma_seek_misses(body: Seq<Seq<char>>, line: Seq<char>, from: int)
    requires
        forall|j: int| from <= j < body.len() ==> !same_but_trailing(line, #[trigger] body[j]),
    ensures
        seek(body, line, from) is None,
    decreases body.len() - from,
{
    if 0 <= from < body.len() {
        lemma_seek_misses(body, line, from + 1);
    }
}

/// The position of a comment made at the cursor: the cursor, or the last
/// position `limit` if the cursor is past it.
pub open spec fn position_at(cursor: int, limit: usize) -> usize {
    if cursor <= limit {
        cursor as usize
    } else {
        limit
    }
}

/// One new line put between the lines of a body, all of which were saved
/// the same but for trailing white space, is exactly one comment, at the
/// index before which it was put.
pub proof fn law_inserted_line_is_one_comment(
    body: Seq<Seq<char>>,
    saved: Seq<Seq<char>>,
    line: Seq<char>,
    at: int,
    limit: usize,
)
    requires
        same_lines(saved, body),
        0 <= at <= body.len(),
        is_new_line(body, line, at),
    ensures
        walk(body, limit, saved.take(at) + seq![line] + saved.skip(at), 0, 0) == seq![
            (position_at(at, limit), comment_text(line)),
        ],
{
    let edited = saved.take(at) + seq![line] + saved.skip(at);
    assert forall|j: int| 0 <= j < at implies same_but_trailing(#[trigger] edited[j], body[j]) by {
        assert(edited[j] == saved[j]);
    }
    lemma_walk_prefix(body, limit, edited, 0, at);
    assert(edited[at] == line);
    lemma_seek_misses(body, line, at + 1);
    assert(!matches_here(body, at, line));
    assert forall|j: int| at + 1 <= j < edited.len() implies same_but_trailing(
        #[trigger] edited[j],
        body[j - 1],
    ) by {
        assert(edited[j] == saved[j - 1]);
    }
    lemma_walk_matching(body, limit, edited, at + 1, at, -1);
    assert(walk(body, limit, edited, at, at) =~= seq![
        (position_at(at, limit), comment_text(line)),
    ]);
}

/// One new line put in the place of a line of a body, the other lines
/// saved the same but for trailing white space, is exactly one comment, at
/// the index of the line that it replaced: the lines after it make none.
pub proof fn law_replaced_line_is_one_comment(
    body: Seq<Seq<char>>,
    saved: Seq<Seq<char>>,
    line: Seq<char>,
    at: int,
    limit: usize,
)
    requires
        same_lines(saved, body),
        0 <= at < body.len(),
        is_new_line(body, line, at),
    ensures
        walk(body, limit, saved.update(at, line), 0, 0) == seq![
            (position_at(at, limit), comment_text(line)),
        ],
{
    let edited = saved.update(at, line);
    assert forall|j: int| 0 <= j < at implies same_but_trailing(#[trigger] edited[j], body[j]) by {
        assert(edited[j] == saved[j]);
    }
    lemma_walk_prefix(body, limit, edited, 0, at);
    assert(edited[at] == line);
    lemma_seek_misses(body, line, at + 1);
    assert(!matches_here(body, at, line));
    assert forall|j: int| at + 1 <= j < edited.len() implies same_but_trailing(
        #[trigger] edited[j],
        body[j + 0],
    ) by {
        assert(edited[j] == saved[j]);
    }
    lemma_walk_matching(body, limit, edited, at + 1, at, 0);
    assert(walk(body, limit, edited, at, at) =~= seq![
        (position_at(at, limit), comment_text(line)),
    ]);
}

/// A line that an editor has stripped of its trailing white space is still
/// the line of the template: the laws on lines that were saved the same but
/// for trailing white space hold of stripped lines.
pub proof fn law_stripped_line_matches(line: Seq<char>)
    ensures
        same_but_trailing(crate::text::trim_end(line), line),
    decreases line.len(),
{
    let t = crate::text::trim_end(line);
    if line.len() == 0 || !crate::text::is_space(line.last()) {
        assert(t =~= line);
    } else {
        law_stripped_line_matches(line.drop_last());
        lemma_trimmed_bounds(line.drop_last());
        assert(t =~= crate::text::trim_end(line.drop_last()));
    }
}

/// The length without trailing white space is at most the length.
pub proof fn lemma_trimmed_bounds(line: Seq<char>)
    ensures
        0 <= crate::text::trimmed_end(line) <= line.len(),
    decreases line.len(),
{
    if line.len() > 0 && crate::text::is_space(line.last()) {
        lemma_trimmed_bounds(line.drop_last());
    }
}

} // verus!
