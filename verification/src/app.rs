//! The state of a review session, and how the actions of the user change it.

use vstd::prelude::*;
use crate::diff::{split_hunk, split_model};
use crate::editor::{
    comment_feedback, edit_feedback, extract_new_side_content, new_side_text, parse_comment_result,
    parse_edit_result, unified_diff_of, EDIT_CONTEXT,
};
use crate::staging::{clamp, offset_before, staged_drift};
use crate::types::{
    lemma_deep_view_push, saturate_u32, AppMode, FeedbackModel, FileDiff, FileModel, FocusPanel,
    Hunk, HunkFeedback, HunkModel, HunkStatus,
};

verus! {

/// A rectangle of the screen.
#[derive(Debug, Clone, Copy, PartialEq, Eq, Structural)]
pub struct Area {
    pub x: u16,
    pub y: u16,
    pub width: u16,
    pub height: u16,
}

impl Area {
    /// The rectangle with its corner at `x`, `y` and the given size.
    pub fn new(x: u16, y: u16, width: u16, height: u16) -> (r: Area)
        ensures
            r == (Area { x, y, width, height }),
    {
        Area { x, y, width, height }
    }

    /// Whether the cell at `column`, `row` lies in the rectangle.
    pub open spec fn holds(self, column: u16, row: u16) -> bool {
        &&& self.x <= column < self.x + self.width
        &&& self.y <= row < self.y + self.height
    }

    /// Tests whether the cell at `column`, `row` lies in the rectangle.
    pub fn contains(&self, column: u16, row: u16) -> (r: bool)
        ensures
            r == self.holds(column, row),
    {
        column >= self.x && (column as u32) < self.x as u32 + self.width as u32 && row >= self.y
            && (row as u32) < self.y as u32 + self.height as u32
    }
}

/// The state of a review session.
#[derive(Debug, Clone)]
pub struct App {
    pub files: Vec<FileDiff>,
    pub selected_file: usize,
    pub selected_hunk: usize,
    pub scroll_offset: u32,
    pub feedback: Vec<HunkFeedback>,
    pub mode: AppMode,
    pub focus: FocusPanel,
    pub message: Option<String>,
    pub no_stage: bool,
    /// Where the file panel was drawn last, to place a click.
    pub file_list_area: Area,
    /// Whether the screen is to be drawn anew.
    pub dirty: bool,
}

/// The mathematical view of an `App`.
pub struct AppModel {
    pub files: Seq<FileModel>,
    pub selected_file: int,
    pub selected_hunk: int,
    pub scroll_offset: u32,
    pub feedback: Seq<FeedbackModel>,
    pub mode: AppMode,
    pub focus: FocusPanel,
    pub message: Option<Seq<char>>,
    pub no_stage: bool,
    pub file_list_area: Area,
    pub dirty: bool,
}

impl View for App {
    type V = AppModel;

    open spec fn view(&self) -> AppModel {
        AppModel {
            files: self.files.deep_view(),
            selected_file: self.selected_file as int,
            selected_hunk: self.selected_hunk as int,
            scroll_offset: self.scroll_offset,
            feedback: self.feedback.deep_view(),
            mode: self.mode,
            focus: self.focus,
            message: self.message.deep_view(),
            no_stage: self.no_stage,
            file_list_area: self.file_list_area,
            dirty: self.dirty,
        }
    }
}

impl AppModel {
    /// Whether a file is selected.
    pub open spec fn has_file(self) -> bool {
        0 <= self.selected_file < self.files.len()
    }

    /// Whether a hunk is selected.
    pub open spec fn has_hunk(self) -> bool {
        self.has_file() && 0 <= self.selected_hunk < self.files[self.selected_file].hunks.len()
    }

    /// The hunks of the selected file.
    pub open spec fn hunks(self) -> Seq<HunkModel> {
        self.files[self.selected_file].hunks
    }

    /// The selected hunk.
    pub open spec fn hunk(self) -> HunkModel {
        self.hunks()[self.selected_hunk]
    }

    /// Whether a hunk is selected and pending.
    pub open spec fn has_pending(self) -> bool {
        self.has_hunk() && self.hunk().status == HunkStatus::Pending
    }

    /// The state with the hunks of the selected file replaced by `hunks`.
    pub open spec fn with_hunks(self, hunks: Seq<HunkModel>) -> AppModel {
        AppModel {
            files: self.files.update(
                self.selected_file,
                FileModel { hunks, ..self.files[self.selected_file] },
            ),
            ..self
        }
    }

    /// The state with the selected hunk in the review state `status`.
    pub open spec fn with_status(self, status: HunkStatus) -> AppModel {
        self.with_hunks(
            self.hunks().update(self.selected_hunk, HunkModel { status, ..self.hunk() }),
        )
    }

    /// The state with the next file selected, the first after the last.
    pub open spec fn next_file(self) -> AppModel {
        if self.files.len() == 0 {
            self
        } else {
            AppModel {
                selected_file: if self.selected_file + 1 < self.files.len() {
                    self.selected_file + 1
                } else {
                    0
                },
                selected_hunk: 0,
                scroll_offset: 0,
                dirty: true,
                ..self
            }
        }
    }

    /// The state with the previous file selected, the last before the first.
    pub open spec fn prev_file(self) -> AppModel {
        if self.files.len() == 0 {
            self
        } else {
            AppModel {
                selected_file: if self.selected_file > 0 {
                    self.selected_file - 1
                } else {
                    self.files.len() - 1
                },
                selected_hunk: 0,
                scroll_offset: 0,
                dirty: true,
                ..self
            }
        }
    }

    /// The state scrolled to the selected hunk, if there is one: past the
    /// hunks before it, each with its header and a line that parts it from
    /// the next. The state is to be drawn anew.
    pub open spec fn at_hunk(self) -> AppModel {
        AppModel {
            scroll_offset: if self.has_hunk() {
                saturate_u32(rows_before(self.hunks(), self.selected_hunk))
            } else {
                self.scroll_offset
            },
            dirty: true,
            ..self
        }
    }

    /// The state with the next hunk selected: the next of the file, else the
    /// first of the next file, else the first of the first file.
    pub open spec fn next_hunk(self) -> AppModel {
        (if !self.has_file() {
            self
        } else if self.selected_hunk + 1 < self.hunks().len() {
            AppModel { selected_hunk: self.selected_hunk + 1, ..self }
        } else if self.selected_file + 1 < self.files.len() {
            AppModel { selected_file: self.selected_file + 1, selected_hunk: 0, ..self }
        } else {
            AppModel { selected_file: 0, selected_hunk: 0, ..self }
        }).at_hunk()
    }

    /// The state with the previous hunk selected: the previous of the file,
    /// else the last of the previous file.
    pub open spec fn prev_hunk(self) -> AppModel {
        (if self.selected_hunk > 0 {
            AppModel { selected_hunk: self.selected_hunk - 1, ..self }
        } else if self.selected_file > 0 {
            AppModel {
                selected_file: self.selected_file - 1,
                selected_hunk: if self.selected_file - 1 < self.files.len() {
                    if self.files[self.selected_file - 1].hunks.len() > 0 {
                        self.files[self.selected_file - 1].hunks.len() - 1
                    } else {
                        0
                    }
                } else {
                    self.selected_hunk
                },
                ..self
            }
        } else {
            self
        }).at_hunk()
    }

    /// The state once the selected hunk, if it is pending, is decided as
    /// `status`: the hunk has that state, `note` is shown, and the next
    /// hunk is selected.
    pub open spec fn decided(self, status: HunkStatus, note: Seq<char>) -> AppModel {
        if self.has_pending() {
            (AppModel { message: Some(note), ..self.with_status(status) }).next_hunk()
        } else {
            self
        }
    }

    /// The state once the selected hunk is split: where it falls into more
    /// than one part, the parts stand in its place, in order.
    pub open spec fn split(self) -> AppModel {
        if !self.has_hunk() {
            AppModel { dirty: true, ..self }
        } else if split_model(self.hunk()).len() > 1 {
            AppModel {
                message: Some("Hunk split"@),
                dirty: true,
                ..self.with_hunks(
                    self.hunks().take(self.selected_hunk) + split_model(self.hunk())
                        + self.hunks().skip(self.selected_hunk + 1),
                )
            }
        } else {
            AppModel { message: Some("Cannot split hunk further"@), dirty: true, ..self }
        }
    }

    /// The state once the cell at `column`, `row` is clicked: a click on a
    /// row of the file panel that shows a file selects that file.
    pub open spec fn clicked(self, column: u16, row: u16) -> AppModel {
        if self.file_list_area.holds(column, row) && clicked_row(self.file_list_area, row)
            < self.files.len() {
            AppModel {
                selected_file: clicked_row(self.file_list_area, row),
                selected_hunk: 0,
                scroll_offset: 0,
                focus: FocusPanel::FileList,
                dirty: true,
                ..self
            }
        } else {
            self
        }
    }

    /// The feedback that the text `edited`, saved by the user, holds for the
    /// selected hunk, `original` being the template for comments.
    pub open spec fn feedback_in(self, edited: Seq<char>, is_comment: bool, original: Seq<char>)
        -> Option<FeedbackModel> {
        if !self.has_hunk() {
            None
        } else if is_comment {
            comment_feedback(
                original,
                edited,
                self.files[self.selected_file].path,
                self.hunk().header,
                self.hunk().lines,
            )
        } else {
            edit_feedback(
                new_side_text(self.hunk().lines),
                edited,
                self.files[self.selected_file].path,
                self.hunk().header,
                self.hunk().lines,
                unified_diff_of(new_side_text(self.hunk().lines), edited, EDIT_CONTEXT),
            )
        }
    }

    /// The state once the editor is closed: feedback, if there is any, is
    /// kept and marks the hunk; the session is browsed again.
    pub open spec fn flushed(self, edited: Seq<char>, is_comment: bool, original: Seq<char>)
        -> AppModel {
        match self.feedback_in(edited, is_comment, original) {
            Some(fb) => AppModel {
                feedback: self.feedback.push(fb),
                mode: AppMode::Browsing,
                dirty: true,
                ..self.with_status(
                    if is_comment {
                        HunkStatus::Commented
                    } else {
                        HunkStatus::Edited
                    },
                )
            },
            None => AppModel { mode: AppMode::Browsing, dirty: true, ..self },
        }
    }
}

/// The number of rows that the first `k` hunks of `hunks` take: for each,
/// its header, its lines, and the line that parts it from the next.
pub open spec fn rows_before(hunks: Seq<HunkModel>, k: int) -> nat
    decreases k,
{
    if k <= 0 || k > hunks.len() {
        0
    } else {
        rows_before(hunks, k - 1) + hunks[k - 1].lines.len() + 2
    }
}

/// The index of the file shown in the row `row` of the file panel `area`:
/// the first file stands below the border.
pub open spec fn clicked_row(area: Area, row: u16) -> int {
    if row >= area.y + 1 {
        row - (area.y + 1)
    } else {
        0
    }
}

/// Sets the review state of hunk `hi` of file `fi`.
fn set_status(files: &mut Vec<FileDiff>, fi: usize, hi: usize, status: HunkStatus)
    requires
        fi < old(files).len(),
        hi < old(files)[fi as int].hunks.len(),
    ensures
        final(files).deep_view() == old(files).deep_view().update(
            fi as int,
            FileModel {
                hunks: old(files).deep_view()[fi as int].hunks.update(
                    hi as int,
                    HunkModel { status, ..old(files).deep_view()[fi as int].hunks[hi as int] },
                ),
                ..old(files).deep_view()[fi as int]
            },
        ),
{
    let ghost before = *files;
    let mut file = files.remove(fi);
    let ghost file_before = file;
    let mut hunk = file.hunks.remove(hi);
    let ghost hunk_before = hunk;
    hunk.status = status;
    file.hunks.insert(hi, hunk);
    assert(file.hunks.deep_view() =~= file_before.hunks.deep_view().update(
        hi as int,
        HunkModel { status, ..hunk_before@ },
    ));
    files.insert(fi, file);
    assert(files.deep_view() =~= before.deep_view().update(
        fi as int,
        FileModel {
            hunks: before.deep_view()[fi as int].hunks.update(
                hi as int,
                HunkModel { status, ..before.deep_view()[fi as int].hunks[hi as int] },
            ),
            ..before.deep_view()[fi as int]
        },
    ));
}

impl App {
    /// The session at its start: the first hunk of the first file is
    /// selected, the diff panel has the focus, and the screen is to be drawn.
    pub fn new(files: Vec<FileDiff>, no_stage: bool) -> (app: App)
        ensures
            app@ == (AppModel {
                files: files.deep_view(),
                selected_file: 0,
                selected_hunk: 0,
                scroll_offset: 0,
                feedback: Seq::empty(),
                mode: AppMode::Browsing,
                focus: FocusPanel::DiffView,
                message: None,
                no_stage,
                file_list_area: Area { x: 0, y: 0, width: 0, height: 0 },
                dirty: true,
            }),
    {
        let feedback: Vec<HunkFeedback> = Vec::new();
        assert(feedback.deep_view() =~= Seq::<FeedbackModel>::empty());
        App {
            files,
            selected_file: 0,
            selected_hunk: 0,
            scroll_offset: 0,
            feedback,
            mode: AppMode::Browsing,
            focus: FocusPanel::DiffView,
            message: None,
            no_stage,
            file_list_area: Area { x: 0, y: 0, width: 0, height: 0 },
            dirty: true,
        }
    }

    /// The selected file, if there is one.
    pub fn current_file(&self) -> (r: Option<&FileDiff>)
        ensures
            match r {
                Some(file) => self@.has_file() && *file == self.files[self.selected_file as int],
                None => !self@.has_file(),
            },
    {
        if self.selected_file < self.files.len() {
            Some(&self.files[self.selected_file])
        } else {
            None
        }
    }

    /// The selected hunk, if there is one.
    pub fn current_hunk(&self) -> (r: Option<&Hunk>)
        ensures
            match r {
                Some(hunk) => self@.has_hunk() && *hunk == self.files[self.selected_file
                    as int].hunks[self.selected_hunk as int],
                None => !self@.has_hunk(),
            },
    {
        match self.current_file() {
            Some(file) => {
                assert(self@.files[self.selected_file as int] == file@);
                if self.selected_hunk < file.hunks.len() {
                    Some(&file.hunks[self.selected_hunk])
                } else {
                    None
                }
            },
            None => None,
        }
    }

    /// Selects the next file, the first after the last.
    pub fn select_next_file(&mut self)
        ensures
            final(self)@ == old(self)@.next_file(),
    {
        if self.files.len() == 0 {
            return;
        }
        if self.selected_file < self.files.len() - 1 {
            self.selected_file += 1;
        } else {
            self.selected_file = 0;
        }
        self.selected_hunk = 0;
        self.scroll_offset = 0;
        self.dirty = true;
    }

    /// Selects the previous file, the last before the first.
    pub fn select_prev_file(&mut self)
        ensures
            final(self)@ == old(self)@.prev_file(),
    {
        if self.files.len() == 0 {
            return;
        }
        if self.selected_file > 0 {
            self.selected_file -= 1;
        } else {
            self.selected_file = self.files.len() - 1;
        }
        self.selected_hunk = 0;
        self.scroll_offset = 0;
        self.dirty = true;
    }

    /// Scrolls to the selected hunk, if there is one, and asks for the
    /// screen to be drawn anew.
    fn scroll_to_selected_hunk(&mut self)
        ensures
            final(self)@ == old(self)@.at_hunk(),
    {
        self.dirty = true;
        if self.selected_file >= self.files.len() {
            return;
        }
        let file = &self.files[self.selected_file];
        assert(self@.files[self.selected_file as int] == file@);
        if self.selected_hunk >= file.hunks.len() {
            return;
        }
        let ghost hs = file@.hunks;
        let mut rows: u128 = 0;
        let mut i: usize = 0;
        while i < self.selected_hunk
            invariant
                i <= self.selected_hunk < file.hunks.len(),
                hs == file.hunks.deep_view(),
                rows == rows_before(hs, i as int),
                rows <= (i as int) * 0x1_0000_0000_0000_0002,
            decreases self.selected_hunk - i,
        {
            assert(hs[i as int] == file.hunks@[i as int]@);
            rows = rows + file.hunks[i].lines.len() as u128 + 2;
            i += 1;
        }
        self.scroll_offset = if rows > u32::MAX as u128 {
            u32::MAX
        } else {
            rows as u32
        };
    }

    /// Selects the next hunk: the next of the file, else the first of the
    /// next file, else the first of the first file.
    pub fn select_next_hunk(&mut self)
        ensures
            final(self)@ == old(self)@.next_hunk(),
    {
        if self.selected_file < self.files.len() {
            let count = self.files[self.selected_file].hunks.len();
            assert(self@.files[self.selected_file as int] == self.files[self.selected_file
                as int]@);
            if count > 0 && self.selected_hunk < count - 1 {
                self.selected_hunk += 1;
            } else if self.selected_file < self.files.len() - 1 {
                self.selected_file += 1;
                self.selected_hunk = 0;
            } else {
                self.selected_file = 0;
                self.selected_hunk = 0;
            }
        }
        self.scroll_to_selected_hunk();
    }

    /// Selects the previous hunk: the previous of the file, else the last of
    /// the previous file.
    pub fn select_prev_hunk(&mut self)
        ensures
            final(self)@ == old(self)@.prev_hunk(),
    {
        if self.selected_hunk > 0 {
            self.selected_hunk -= 1;
        } else if self.selected_file > 0 {
            self.selected_file -= 1;
            if self.selected_file < self.files.len() {
                let count = self.files[self.selected_file].hunks.len();
                assert(self@.files[self.selected_file as int] == self.files[self.selected_file
                    as int]@);
                self.selected_hunk = if count > 0 {
                    count - 1
                } else {
                    0
                };
            }
        }
        self.scroll_to_selected_hunk();
    }

    /// Scrolls the diff panel down by one row.
    pub fn scroll_down(&mut self)
        ensures
            final(self)@ == (AppModel {
                scroll_offset: if old(self).scroll_offset == u32::MAX {
                    u32::MAX
                } else {
                    (old(self).scroll_offset + 1) as u32
                },
                dirty: true,
                ..old(self)@
            }),
    {
        if self.scroll_offset < u32::MAX {
            self.scroll_offset += 1;
        }
        self.dirty = true;
    }

    /// Scrolls the diff panel up by one row.
    pub fn scroll_up(&mut self)
        ensures
            final(self)@ == (AppModel {
                scroll_offset: if old(self).scroll_offset == 0 {
                    0
                } else {
                    (old(self).scroll_offset - 1) as u32
                },
                dirty: true,
                ..old(self)@
            }),
    {
        if self.scroll_offset > 0 {
            self.scroll_offset -= 1;
        }
        self.dirty = true;
    }

    /// Moves the focus to the other panel.
    pub fn toggle_focus(&mut self)
        ensures
            final(self)@ == (AppModel {
                focus: if old(self).focus == FocusPanel::FileList {
                    FocusPanel::DiffView
                } else {
                    FocusPanel::FileList
                },
                dirty: true,
                ..old(self)@
            }),
    {
        self.focus = match self.focus {
            FocusPanel::FileList => FocusPanel::DiffView,
            FocusPanel::DiffView => FocusPanel::FileList,
        };
        self.dirty = true;
    }

    /// The drift in line numbers at hunk `hunk_idx` of file `file_idx` that
    /// the staged hunks before it in the file have caused; zero where there
    /// is no such file.
    pub fn compute_line_offset(&self, file_idx: usize, hunk_idx: usize) -> (r: i64)
        ensures
            r == if file_idx < self.files.len() {
                clamp(
                    staged_drift(
                        self@.files[file_idx as int].hunks,
                        if hunk_idx <= self@.files[file_idx as int].hunks.len() {
                            hunk_idx as int
                        } else {
                            self@.files[file_idx as int].hunks.len() as int
                        },
                    ),
                    i64::MIN as int,
                    i64::MAX as int,
                )
            } else {
                0
            },
    {
        if file_idx < self.files.len() {
            assert(self@.files[file_idx as int] == self.files[file_idx as int]@);
            offset_before(&self.files[file_idx], hunk_idx)
        } else {
            0
        }
    }

    /// Tests whether a hunk is selected and pending.
    pub fn has_pending_hunk(&self) -> (r: bool)
        ensures
            r == self@.has_pending(),
    {
        match self.current_hunk() {
            Some(hunk) => {
                assert(self@.hunk() == hunk@) by {
                    assert(self@.files[self.selected_file as int] == self.files[self.selected_file
                        as int]@);
                    assert(self@.hunks()[self.selected_hunk as int] == self.files[self.selected_file
                        as int].hunks[self.selected_hunk as int]@);
                }
                hunk.status == HunkStatus::Pending
            },
            None => false,
        }
    }

    /// Decides the selected hunk, if it is pending, as `status`, shows
    /// `note`, and selects the next hunk.
    fn decide(&mut self, status: HunkStatus, note: &str)
        ensures
            final(self)@ == old(self)@.decided(status, note@),
    {
        if !self.has_pending_hunk() {
            return;
        }
        let fi = self.selected_file;
        let hi = self.selected_hunk;
        assert(self@.files[fi as int] == self.files[fi as int]@);
        set_status(&mut self.files, fi, hi, status);
        self.message = Some(note.to_owned());
        self.select_next_hunk();
    }

    /// Marks the selected hunk, if it is pending, as staged, and selects the
    /// next hunk. Where hunks are staged for real, this follows the writing
    /// of the new content.
    pub fn stage_current_hunk(&mut self)
        ensures
            final(self)@ == old(self)@.decided(HunkStatus::Staged, "Hunk staged"@),
    {
        self.decide(HunkStatus::Staged, "Hunk staged");
    }

    /// Marks the selected hunk, if it is pending, as skipped, and selects
    /// the next hunk.
    pub fn skip_current_hunk(&mut self)
        ensures
            final(self)@ == old(self)@.decided(HunkStatus::Skipped, "Hunk skipped"@),
    {
        self.decide(HunkStatus::Skipped, "Hunk skipped");
    }

    /// Splits the selected hunk, if there is one: where it falls into more
    /// than one part, the parts take its place.
    pub fn split_current_hunk(&mut self)
        ensures
            final(self)@ == old(self)@.split(),
    {
        self.dirty = true;
        let fi = self.selected_file;
        let hi = self.selected_hunk;
        if fi >= self.files.len() {
            return;
        }
        assert(self@.files[fi as int] == self.files[fi as int]@);
        if hi >= self.files[fi].hunks.len() {
            return;
        }
        assert(self@.hunks()[hi as int] == self.files[fi as int].hunks[hi as int]@);
        let mut parts = split_hunk(&self.files[fi].hunks[hi]);
        if parts.len() <= 1 {
            self.message = Some("Cannot split hunk further".to_owned());
            return;
        }
        let ghost before = self.files;
        let ghost target = old(self)@.hunks().take(hi as int) + split_model(old(self)@.hunk())
            + old(self)@.hunks().skip(hi + 1);
        let mut file = self.files.remove(fi);
        let ghost file_before = file;
        let _ = file.hunks.remove(hi);
        let ghost all = parts.deep_view();
        let ghost head = file_before@.hunks.take(hi as int);
        let ghost tail = file_before@.hunks.skip(hi + 1);
        assert(file.hunks.deep_view() =~= head + all.skip(all.len() as int) + tail);
        while parts.len() > 0
            invariant
                hi <= file.hunks.len(),
                parts.len() <= all.len(),
                file.path == file_before.path,
                file.status == file_before.status,
                file.is_binary == file_before.is_binary,
                parts.deep_view() == all.take(parts.len() as int),
                file.hunks.deep_view() == head + all.skip(parts.len() as int) + tail,
                head.len() == hi,
            decreases parts.len(),
        {
            let ghost parts_before = parts;
            let ghost hunks_before = file.hunks;
            let part = parts.pop().unwrap();
            proof {
                let n = parts_before.len() as int;
                assert(part == parts_before@[n - 1]);
                assert(parts_before.deep_view()[n - 1] == part@);
                assert(all.take(n)[n - 1] == all[n - 1]);
                assert(parts.deep_view() =~= all.take(n - 1)) by {
                    assert forall|k: int| 0 <= k < n - 1 implies parts.deep_view()[k] == all.take(
                        n - 1,
                    )[k] by {
                        assert(parts@[k] == parts_before@[k]);
                        assert(parts_before.deep_view()[k] == parts_before@[k]@);
                        assert(all.take(n)[k] == all[k]);
                    }
                }
            }
            file.hunks.insert(hi, part);
            assert(file.hunks.deep_view() =~= head + all.skip(parts.len() as int) + tail) by {
                assert(file.hunks.deep_view() =~= hunks_before.deep_view().insert(
                    hi as int,
                    part@,
                ));
            }
        }
        assert(all.skip(0) =~= all);
        assert(file_before@ == before.deep_view()[fi as int]);
        assert(file.hunks.deep_view() =~= target);
        self.files.insert(fi, file);
        assert(self.files.deep_view() =~= before.deep_view().update(
            fi as int,
            FileModel { hunks: target, ..before.deep_view()[fi as int] },
        ));
        self.message = Some("Hunk split".to_owned());
    }

    /// Handles a click on the cell at `column`, `row`: a click on a row of
    /// the file panel that shows a file selects that file.
    pub fn handle_mouse_click(&mut self, column: u16, row: u16)
        ensures
            final(self)@ == old(self)@.clicked(column, row),
    {
        let area = self.file_list_area;
        if !area.contains(column, row) {
            return;
        }
        let first: u32 = area.y as u32 + 1;
        let idx: usize = if row as u32 >= first {
            (row as u32 - first) as usize
        } else {
            0
        };
        if idx < self.files.len() {
            self.selected_file = idx;
            self.selected_hunk = 0;
            self.scroll_offset = 0;
            self.focus = FocusPanel::FileList;
            self.dirty = true;
        }
    }

    /// Notes that the editor was opened: the session waits for it.
    pub fn editor_opened(&mut self)
        ensures
            final(self)@ == (AppModel {
                mode: AppMode::WaitingForEditor,
                dirty: true,
                ..old(self)@
            }),
    {
        self.mode = AppMode::WaitingForEditor;
        self.dirty = true;
    }

    /// Takes in what the user saved in the editor, `edited`, for the
    /// selected hunk: comments against the template `original_content`, or
    /// an edit against the new side of the hunk. Feedback is kept and marks
    /// the hunk; the session is browsed again. It says whether there was
    /// feedback.
    pub fn flush_pending_editor_state(
        &mut self,
        edited: &str,
        is_comment: bool,
        original_content: &str,
    ) -> (captured: bool)
        ensures
            final(self)@ == old(self)@.flushed(edited@, is_comment, original_content@),
            captured == old(self)@.feedback_in(edited@, is_comment, original_content@) is Some,
    {
        self.mode = AppMode::Browsing;
        self.dirty = true;
        let fi = self.selected_file;
        let hi = self.selected_hunk;
        if fi >= self.files.len() {
            return false;
        }
        assert(self@.files[fi as int] == self.files[fi as int]@);
        if hi >= self.files[fi].hunks.len() {
            return false;
        }
        assert(self@.hunks()[hi as int] == self.files[fi as int].hunks[hi as int]@);
        let file = &self.files[fi];
        let hunk = &file.hunks[hi];
        let lines = hunk.lines.as_slice();
        assert(lines.deep_view() =~= hunk.lines.deep_view());
        let found = if is_comment {
            parse_comment_result(
                original_content,
                edited,
                file.path.as_str(),
                hunk.header.as_str(),
                lines,
            )
        } else {
            let original = extract_new_side_content(lines);
            parse_edit_result(
                original.as_str(),
                edited,
                file.path.as_str(),
                hunk.header.as_str(),
                lines,
            )
        };
        assert(found.deep_view() == old(self)@.feedback_in(edited@, is_comment, original_content@));
        match found {
            Some(fb) => {
                let ghost before = self.feedback;
                self.feedback.push(fb);
                proof {
                    assert(self.feedback@.drop_last() =~= before@);
                    lemma_deep_view_push(before, self.feedback);
                }
                set_status(
                    &mut self.files,
                    fi,
                    hi,
                    if is_comment {
                        HunkStatus::Commented
                    } else {
                        HunkStatus::Edited
                    },
                );
                true
            },
            None => false,
        }
    }
}


/// A key of the keyboard, as far as the session tells keys apart.
#[derive(Debug, Clone, Copy, PartialEq, Eq, Structural)]
pub enum Key {
    Char(char),
    Down,
    Up,
    Tab,
    Other,
}

/// What the terminal reports.
#[derive(Debug, Clone, Copy, PartialEq, Eq, Structural)]
pub enum Event {
    Key(Key),
    WheelDown,
    WheelUp,
    LeftClick { column: u16, row: u16 },
    Resize,
    Other,
}

/// What the user asks for.
#[derive(Debug, Clone, Copy, PartialEq, Eq, Structural)]
pub enum Command {
    Quit,
    ScrollDown,
    ScrollUp,
    NextFile,
    PrevFile,
    NextHunk,
    PrevHunk,
    ToggleFocus,
    Stage,
    Skip,
    Split,
    Edit,
    Comment,
    Click { column: u16, row: u16 },
    Redraw,
    Nothing,
}

/// What a key asks for while the session is browsed.
pub open spec fn key_command(focus: FocusPanel, key: Key) -> Command {
    match key {
        Key::Char(c) => if c == 'q' {
            Command::Quit
        } else if c == 'j' {
            Command::ScrollDown
        } else if c == 'k' {
            Command::ScrollUp
        } else if c == 'y' {
            Command::Stage
        } else if c == 'n' {
            Command::Skip
        } else if c == 's' {
            Command::Split
        } else if c == 'e' {
            Command::Edit
        } else if c == 'c' {
            Command::Comment
        } else {
            Command::Nothing
        },
        Key::Down => if focus == FocusPanel::FileList {
            Command::NextFile
        } else {
            Command::NextHunk
        },
        Key::Up => if focus == FocusPanel::FileList {
            Command::PrevFile
        } else {
            Command::PrevHunk
        },
        Key::Tab => Command::ToggleFocus,
        Key::Other => Command::Nothing,
    }
}

/// What an event asks for. While the session waits for the editor, the
/// only key that is heard is `q`. The wheel and the left button are heard
/// in every mode.
pub open spec fn command_of(mode: AppMode, focus: FocusPanel, event: Event) -> Command {
    match event {
        Event::Key(key) => if mode == AppMode::WaitingForEditor {
            if key == Key::Char('q') {
                Command::Quit
            } else {
                Command::Nothing
            }
        } else {
            key_command(focus, key)
        },
        Event::WheelDown => Command::ScrollDown,
        Event::WheelUp => Command::ScrollUp,
        Event::LeftClick { column, row } => Command::Click { column, row },
        Event::Resize => Command::Redraw,
        Event::Other => Command::Nothing,
    }
}

/// Says what an event asks for.
pub fn command_for(mode: AppMode, focus: FocusPanel, event: Event) -> (r: Command)
    ensures
        r == command_of(mode, focus, event),
{
    match event {
        Event::Key(key) => {
            if mode == AppMode::WaitingForEditor {
                return match key {
                    Key::Char(c) => if c == 'q' {
                        Command::Quit
                    } else {
                        Command::Nothing
                    },
                    _ => Command::Nothing,
                };
            }
            let in_files = focus == FocusPanel::FileList;
            match key {
                Key::Char(c) => {
                    if c == 'q' {
                        Command::Quit
                    } else if c == 'j' {
                        Command::ScrollDown
                    } else if c == 'k' {
                        Command::ScrollUp
                    } else if c == 'y' {
                        Command::Stage
                    } else if c == 'n' {
                        Command::Skip
                    } else if c == 's' {
                        Command::Split
                    } else if c == 'e' {
                        Command::Edit
                    } else if c == 'c' {
                        Command::Comment
                    } else {
                        Command::Nothing
                    }
                },
                Key::Down => if in_files {
                    Command::NextFile
                } else {
                    Command::NextHunk
                },
                Key::Up => if in_files {
                    Command::PrevFile
                } else {
                    Command::PrevHunk
                },
                Key::Tab => Command::ToggleFocus,
                Key::Other => Command::Nothing,
            }
        },
        Event::WheelDown => Command::ScrollDown,
        Event::WheelUp => Command::ScrollUp,
        Event::LeftClick { column, row } => Command::Click { column, row },
        Event::Resize => Command::Redraw,
        Event::Other => Command::Nothing,
    }
}

/// What is left to do outside the session once a command is carried out.
#[derive(Debug, Clone, Copy, PartialEq, Eq, Structural)]
pub enum Effect {
    /// Nothing.
    Nothing,
    /// End the session and hand out the feedback.
    Quit,
    /// Write the new content of the file for this hunk at this offset, and
    /// mark the hunk as staged once it is written.
    Stage { file_idx: usize, hunk_idx: usize, offset: i64 },
    /// Open the editor on the template for an edit, or for comments.
    OpenEditor { is_comment: bool },
}

impl AppModel {
    /// The drift in line numbers at the selected hunk.
    pub open spec fn offset_here(self) -> int {
        clamp(staged_drift(self.hunks(), self.selected_hunk), i64::MIN as int, i64::MAX as int)
    }

    /// The state once `command` is carried out, as far as the session
    /// carries it out itself.
    pub open spec fn after(self, command: Command) -> AppModel {
        match command {
            Command::Quit => self,
            Command::ScrollDown => AppModel {
                scroll_offset: if self.scroll_offset == u32::MAX {
                    u32::MAX
                } else {
                    (self.scroll_offset + 1) as u32
                },
                dirty: true,
                ..self
            },
            Command::ScrollUp => AppModel {
                scroll_offset: if self.scroll_offset == 0 {
                    0
                } else {
                    (self.scroll_offset - 1) as u32
                },
                dirty: true,
                ..self
            },
            Command::NextFile => self.next_file(),
            Command::PrevFile => self.prev_file(),
            Command::NextHunk => self.next_hunk(),
            Command::PrevHunk => self.prev_hunk(),
            Command::ToggleFocus => AppModel {
                focus: if self.focus == FocusPanel::FileList {
                    FocusPanel::DiffView
                } else {
                    FocusPanel::FileList
                },
                dirty: true,
                ..self
            },
            Command::Stage => if self.no_stage {
                self.decided(HunkStatus::Staged, "Hunk staged"@)
            } else {
                self
            },
            Command::Skip => self.decided(HunkStatus::Skipped, "Hunk skipped"@),
            Command::Split => self.split(),
            Command::Edit | Command::Comment => if self.has_hunk() {
                self
            } else {
                AppModel { message: Some("No hunk selected"@), ..self }
            },
            Command::Click { column, row } => self.clicked(column, row),
            Command::Redraw => AppModel { dirty: true, ..self },
            Command::Nothing => self,
        }
    }

    /// What is left to do outside the session once `command` is carried out.
    pub open spec fn effect_of(self, command: Command) -> Effect {
        match command {
            Command::Quit => Effect::Quit,
            Command::Stage => if self.has_pending() && !self.no_stage {
                Effect::Stage {
                    file_idx: self.selected_file as usize,
                    hunk_idx: self.selected_hunk as usize,
                    offset: self.offset_here() as i64,
                }
            } else {
                Effect::Nothing
            },
            Command::Edit => if self.has_hunk() {
                Effect::OpenEditor { is_comment: false }
            } else {
                Effect::Nothing
            },
            Command::Comment => if self.has_hunk() {
                Effect::OpenEditor { is_comment: true }
            } else {
                Effect::Nothing
            },
            _ => Effect::Nothing,
        }
    }
}

/// The note shown once the editor is closed.
pub open spec fn editor_note(captured: bool, is_comment: bool) -> Seq<char> {
    if !captured {
        "No changes detected"@
    } else if is_comment {
        "Comment captured"@
    } else {
        "Edit captured"@
    }
}

impl App {
    /// Carries out `command` as far as the session can, and says what is
    /// left to do outside it.
    pub fn apply(&mut self, command: Command) -> (effect: Effect)
        ensures
            final(self)@ == old(self)@.after(command),
            effect == old(self)@.effect_of(command),
    {
        match command {
            Command::Quit => Effect::Quit,
            Command::ScrollDown => {
                self.scroll_down();
                Effect::Nothing
            },
            Command::ScrollUp => {
                self.scroll_up();
                Effect::Nothing
            },
            Command::NextFile => {
                self.select_next_file();
                Effect::Nothing
            },
            Command::PrevFile => {
                self.select_prev_file();
                Effect::Nothing
            },
            Command::NextHunk => {
                self.select_next_hunk();
                Effect::Nothing
            },
            Command::PrevHunk => {
                self.select_prev_hunk();
                Effect::Nothing
            },
            Command::ToggleFocus => {
                self.toggle_focus();
                Effect::Nothing
            },
            Command::Stage => {
                if !self.has_pending_hunk() {
                    return Effect::Nothing;
                }
                if self.no_stage {
                    self.stage_current_hunk();
                    return Effect::Nothing;
                }
                let offset = self.compute_line_offset(self.selected_file, self.selected_hunk);
                Effect::Stage {
                    file_idx: self.selected_file,
                    hunk_idx: self.selected_hunk,
                    offset,
                }
            },
            Command::Skip => {
                self.skip_current_hunk();
                Effect::Nothing
            },
            Command::Split => {
                self.split_current_hunk();
                Effect::Nothing
            },
            Command::Edit => {
                if self.current_hunk().is_some() {
                    Effect::OpenEditor { is_comment: false }
                } else {
                    self.message = Some("No hunk selected".to_owned());
                    Effect::Nothing
                }
            },
            Command::Comment => {
                if self.current_hunk().is_some() {
                    Effect::OpenEditor { is_comment: true }
                } else {
                    self.message = Some("No hunk selected".to_owned());
                    Effect::Nothing
                }
            },
            Command::Click { column, row } => {
                self.handle_mouse_click(column, row);
                Effect::Nothing
            },
            Command::Redraw => {
                self.dirty = true;
                Effect::Nothing
            },
            Command::Nothing => Effect::Nothing,
        }
    }

    /// Shows the note that says whether the editor left feedback.
    pub fn note_editor_result(&mut self, captured: bool, is_comment: bool)
        ensures
            final(self)@ == (AppModel {
                message: Some(editor_note(captured, is_comment)),
                dirty: true,
                ..old(self)@
            }),
    {
        let note = if !captured {
            "No changes detected"
        } else if is_comment {
            "Comment captured"
        } else {
            "Edit captured"
        };
        self.message = Some(note.to_owned());
        self.dirty = true;
    }
}

} // verus!
