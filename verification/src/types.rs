//! The line and hunk model that every other module reads and writes, and the
//! mathematical view of each of its types.

use vstd::prelude::*;

verus! {

/// What a line of a hunk does to the file.
#[derive(Debug, Clone, Copy, PartialEq, Eq, Structural)]
pub enum LineKind {
    Context,
    Added,
    Removed,
}

impl LineKind {
    /// The character that marks a line of this kind in a unified diff.
    pub open spec fn marker(self) -> char {
        match self {
            LineKind::Context => ' ',
            LineKind::Added => '+',
            LineKind::Removed => '-',
        }
    }

    /// Whether a line of this kind stands in the original file.
    pub open spec fn on_old_side(self) -> bool {
        self != LineKind::Added
    }

    /// Whether a line of this kind stands in the new file.
    pub open spec fn on_new_side(self) -> bool {
        self != LineKind::Removed
    }

    /// The one-character prefix of a line of this kind in a unified diff.
    pub fn prefix(self) -> (r: &'static str)
        ensures
            r@ == seq![self.marker()],
    {
        proof {
            reveal_strlit(" ");
            reveal_strlit("+");
            reveal_strlit("-");
        }
        let r = match self {
            LineKind::Context => " ",
            LineKind::Added => "+",
            LineKind::Removed => "-",
        };
        assert(r@ =~= seq![self.marker()]);
        r
    }
}

/// The review state of a hunk.
#[derive(Debug, Clone, Copy, PartialEq, Eq, Structural)]
pub enum HunkStatus {
    Pending,
    Staged,
    Skipped,
    Edited,
    Commented,
}

/// The kind of change that a file underwent.
#[derive(Debug, Clone, Copy, PartialEq, Eq, Structural)]
pub enum DeltaStatus {
    Modified,
    Added,
    Deleted,
    Renamed,
    Untracked,
}

/// The mode of the review session.
#[derive(Debug, Clone, Copy, PartialEq, Eq, Structural)]
pub enum AppMode {
    Browsing,
    WaitingForEditor,
    Help,
}

/// The panel that has the focus.
#[derive(Debug, Clone, Copy, PartialEq, Eq, Structural)]
pub enum FocusPanel {
    FileList,
    DiffView,
}

/// Whether a feedback entry is an edit or a comment.
#[derive(Debug, Clone, Copy, PartialEq, Eq, Structural)]
pub enum FeedbackKind {
    Edit,
    Comment,
}

/// One line of a hunk.
#[derive(Debug, Clone)]
pub struct DiffLine {
    pub kind: LineKind,
    pub content: String,
    pub old_lineno: Option<u32>,
    pub new_lineno: Option<u32>,
}

/// The mathematical view of a `DiffLine`.
pub struct LineModel {
    pub kind: LineKind,
    pub content: Seq<char>,
    pub old_lineno: Option<u32>,
    pub new_lineno: Option<u32>,
}

impl View for DiffLine {
    type V = LineModel;

    open spec fn view(&self) -> LineModel {
        LineModel {
            kind: self.kind,
            content: self.content@,
            old_lineno: self.old_lineno,
            new_lineno: self.new_lineno,
        }
    }
}

impl DeepView for DiffLine {
    type V = LineModel;

    open spec fn deep_view(&self) -> LineModel {
        self@
    }
}

impl DiffLine {
    /// A copy of this line.
    pub fn copy(&self) -> (r: DiffLine)
        ensures
            r@ == self@,
    {
        DiffLine {
            kind: self.kind,
            content: self.content.clone(),
            old_lineno: self.old_lineno,
            new_lineno: self.new_lineno,
        }
    }
}

/// Pushing onto a vector pushes the element's view onto the vector's deep view.
pub proof fn lemma_deep_view_push<T: DeepView>(before: Vec<T>, after: Vec<T>)
    requires
        after@.len() > 0,
        after@.drop_last() == before@,
    ensures
        after.deep_view() == before.deep_view().push(after@.last().deep_view()),
{
    assert(after.deep_view() =~= before.deep_view().push(after@.last().deep_view()));
}

/// Copies of the lines of `lines` from index `from` up to, not including, `to`.
pub(crate) fn copy_lines(lines: &Vec<DiffLine>, from: usize, to: usize) -> (r: Vec<DiffLine>)
    requires
        from <= to <= lines.len(),
    ensures
        r.deep_view() == lines.deep_view().subrange(from as int, to as int),
{
    let mut r: Vec<DiffLine> = Vec::new();
    let mut i: usize = from;
    while i < to
        invariant
            from <= i <= to <= lines.len(),
            r.deep_view() == lines.deep_view().subrange(from as int, i as int),
        decreases to - i,
    {
        let ghost before = r;
        r.push(lines[i].copy());
        i += 1;
        proof {
            assert(r@.drop_last() =~= before@);
            lemma_deep_view_push(before, r);
            assert(r.deep_view() =~= lines.deep_view().subrange(from as int, i as int));
        }
    }
    r
}

/// The number of lines of `lines` that stand in the original file.
pub open spec fn old_side_count(lines: Seq<LineModel>) -> nat
    decreases lines.len(),
{
    if lines.len() == 0 {
        0
    } else {
        old_side_count(lines.drop_last()) + if lines.last().kind.on_old_side() {
            1nat
        } else {
            0nat
        }
    }
}

/// The number of lines of `lines` that stand in the new file.
pub open spec fn new_side_count(lines: Seq<LineModel>) -> nat
    decreases lines.len(),
{
    if lines.len() == 0 {
        0
    } else {
        new_side_count(lines.drop_last()) + if lines.last().kind.on_new_side() {
            1nat
        } else {
            0nat
        }
    }
}

/// `n` as a `u32`, or the largest `u32` where `n` is larger.
pub open spec fn saturate_u32(n: nat) -> u32 {
    if n > u32::MAX {
        u32::MAX
    } else {
        n as u32
    }
}

/// Counts the lines of `lines` that stand in the original file and those
/// that stand in the new file. A count that no `u32` holds is given as the
/// largest `u32`.
pub fn side_counts(lines: &Vec<DiffLine>) -> (r: (u32, u32))
    ensures
        r.0 == saturate_u32(old_side_count(lines.deep_view())),
        r.1 == saturate_u32(new_side_count(lines.deep_view())),
{
    let mut old_count: usize = 0;
    let mut new_count: usize = 0;
    let mut i: usize = 0;
    assert(lines.deep_view().take(0) =~= Seq::<LineModel>::empty());
    while i < lines.len()
        invariant
            i <= lines.len(),
            old_count <= i,
            new_count <= i,
            old_count == old_side_count(lines.deep_view().take(i as int)),
            new_count == new_side_count(lines.deep_view().take(i as int)),
        decreases lines.len() - i,
    {
        assert(lines.deep_view().take(i + 1).drop_last() =~= lines.deep_view().take(i as int));
        match lines[i].kind {
            LineKind::Context => {
                old_count += 1;
                new_count += 1;
            },
            LineKind::Removed => {
                old_count += 1;
            },
            LineKind::Added => {
                new_count += 1;
            },
        }
        i += 1;
    }
    assert(lines.deep_view().take(i as int) =~= lines.deep_view());
    let o: u32 = if old_count > u32::MAX as usize {
        u32::MAX
    } else {
        old_count as u32
    };
    let n: u32 = if new_count > u32::MAX as usize {
        u32::MAX
    } else {
        new_count as u32
    };
    (o, n)
}

/// A contiguous block of a diff: one region of change and its context.
#[derive(Debug, Clone)]
pub struct Hunk {
    /// The `@@` header line.
    pub header: String,
    pub lines: Vec<DiffLine>,
    pub status: HunkStatus,
    /// The line of the original file at which the hunk starts.
    pub old_start: u32,
    /// The number of lines of the original file that the hunk covers.
    pub old_lines: u32,
    /// The line of the new file at which the hunk starts.
    pub new_start: u32,
    /// The number of lines of the new file that the hunk covers.
    pub new_lines: u32,
}

/// The mathematical view of a `Hunk`.
pub struct HunkModel {
    pub header: Seq<char>,
    pub lines: Seq<LineModel>,
    pub status: HunkStatus,
    pub old_start: u32,
    pub old_lines: u32,
    pub new_start: u32,
    pub new_lines: u32,
}

impl LineModel {
    /// The invariant of a line: it carries a line number on each side on
    /// which it stands, and on no other.
    pub open spec fn numbers_agree(self) -> bool {
        &&& self.old_lineno is Some <==> self.kind.on_old_side()
        &&& self.new_lineno is Some <==> self.kind.on_new_side()
    }
}

impl HunkModel {
    /// The invariant of a hunk: its two line counts are those of its lines.
    pub open spec fn counts_agree(self) -> bool {
        &&& self.old_lines == old_side_count(self.lines)
        &&& self.new_lines == new_side_count(self.lines)
    }

    /// What ingestion makes sure of a hunk: its two line counts are those
    /// of its lines, or the largest `u32` where there are more lines, and
    /// it is pending.
    pub open spec fn is_fresh(self) -> bool {
        &&& self.old_lines == saturate_u32(old_side_count(self.lines))
        &&& self.new_lines == saturate_u32(new_side_count(self.lines))
        &&& self.status == HunkStatus::Pending
    }
}

impl View for Hunk {
    type V = HunkModel;

    open spec fn view(&self) -> HunkModel {
        HunkModel {
            header: self.header@,
            lines: self.lines.deep_view(),
            status: self.status,
            old_start: self.old_start,
            old_lines: self.old_lines,
            new_start: self.new_start,
            new_lines: self.new_lines,
        }
    }
}

impl DeepView for Hunk {
    type V = HunkModel;

    open spec fn deep_view(&self) -> HunkModel {
        self@
    }
}

impl Hunk {
    /// A copy of this hunk.
    pub fn copy(&self) -> (r: Hunk)
        ensures
            r@ == self@,
    {
        let lines = copy_lines(&self.lines, 0, self.lines.len());
        assert(lines.deep_view() =~= self.lines.deep_view());
        Hunk {
            header: self.header.clone(),
            lines,
            status: self.status,
            old_start: self.old_start,
            old_lines: self.old_lines,
            new_start: self.new_start,
            new_lines: self.new_lines,
        }
    }
}

/// A file with changes: its path, its hunks, and what happened to it.
#[derive(Debug, Clone)]
pub struct FileDiff {
    pub path: String,
    pub hunks: Vec<Hunk>,
    pub status: DeltaStatus,
    pub is_binary: bool,
}

/// The mathematical view of a `FileDiff`.
pub struct FileModel {
    pub path: Seq<char>,
    pub hunks: Seq<HunkModel>,
    pub status: DeltaStatus,
    pub is_binary: bool,
}

impl View for FileDiff {
    type V = FileModel;

    open spec fn view(&self) -> FileModel {
        FileModel {
            path: self.path@,
            hunks: self.hunks.deep_view(),
            status: self.status,
            is_binary: self.is_binary,
        }
    }
}

impl DeepView for FileDiff {
    type V = FileModel;

    open spec fn deep_view(&self) -> FileModel {
        self@
    }
}

/// What the user said about a hunk: an edit, or comments at positions.
#[derive(Debug, Clone)]
pub struct HunkFeedback {
    pub file_path: String,
    pub hunk_header: String,
    pub kind: FeedbackKind,
    pub content: String,
    /// The lines of the hunk, kept to show the comments in context.
    pub context_lines: Vec<DiffLine>,
    /// For comments: the index into `context_lines` that each comment
    /// follows, and its text.
    pub comment_positions: Vec<(usize, String)>,
}

/// The mathematical view of a `HunkFeedback`.
pub struct FeedbackModel {
    pub file_path: Seq<char>,
    pub hunk_header: Seq<char>,
    pub kind: FeedbackKind,
    pub content: Seq<char>,
    pub context_lines: Seq<LineModel>,
    pub comment_positions: Seq<(usize, Seq<char>)>,
}

impl View for HunkFeedback {
    type V = FeedbackModel;

    open spec fn view(&self) -> FeedbackModel {
        FeedbackModel {
            file_path: self.file_path@,
            hunk_header: self.hunk_header@,
            kind: self.kind,
            content: self.content@,
            context_lines: self.context_lines.deep_view(),
            comment_positions: self.comment_positions.deep_view(),
        }
    }
}

impl DeepView for HunkFeedback {
    type V = FeedbackModel;

    open spec fn deep_view(&self) -> FeedbackModel {
        self@
    }
}

} // verus!
