//! What the file panel shows for each file.

use vstd::prelude::*;
use crate::types::{DeltaStatus, FileDiff, HunkModel, HunkStatus};

verus! {

/// Whether every hunk of `hunks` is staged.
pub open spec fn all_staged(hunks: Seq<HunkModel>) -> bool {
    forall|i: int| 0 <= i < hunks.len() ==> (#[trigger] hunks[i]).status == HunkStatus::Staged
}

/// Whether no hunk of `hunks` is pending.
pub open spec fn all_done(hunks: Seq<HunkModel>) -> bool {
    forall|i: int| 0 <= i < hunks.len() ==> (#[trigger] hunks[i]).status != HunkStatus::Pending
}

/// Whether a hunk of `hunks` is staged.
pub open spec fn any_staged(hunks: Seq<HunkModel>) -> bool {
    exists|i: int| 0 <= i < hunks.len() && (#[trigger] hunks[i]).status == HunkStatus::Staged
}

/// How far the review of a file is.
#[derive(Debug, Clone, Copy, PartialEq, Eq, Structural)]
pub enum ReviewState {
    /// The file has no hunks.
    Empty,
    /// Every hunk is staged.
    AllStaged,
    /// No hunk is pending, and not every hunk is staged.
    AllDone,
    /// Some hunks are staged, and some are pending.
    SomeStaged,
    /// Some hunks are pending, and none is staged.
    NoneStaged,
}

/// How far the review of a file with the hunks `hunks` is.
pub open spec fn review_state(hunks: Seq<HunkModel>) -> ReviewState {
    if hunks.len() == 0 {
        ReviewState::Empty
    } else if all_staged(hunks) {
        ReviewState::AllStaged
    } else if all_done(hunks) {
        ReviewState::AllDone
    } else if any_staged(hunks) {
        ReviewState::SomeStaged
    } else {
        ReviewState::NoneStaged
    }
}

/// The sign for a state of review: a blank for a file without hunks, a
/// check mark where every hunk is staged, a full circle where none is
/// pending, a half circle where some are staged, else an empty circle.
pub open spec fn state_sign(state: ReviewState) -> Seq<char> {
    match state {
        ReviewState::Empty => " "@,
        ReviewState::AllStaged => "✓"@,
        ReviewState::AllDone => "●"@,
        ReviewState::SomeStaged => "◐"@,
        ReviewState::NoneStaged => "○"@,
    }
}

/// The sign for how far the review of a file with the hunks `hunks` is.
pub open spec fn review_sign(hunks: Seq<HunkModel>) -> Seq<char> {
    state_sign(review_state(hunks))
}

/// Says how far the review of `file` is.
pub fn file_review_state(file: &FileDiff) -> (r: ReviewState)
    ensures
        r == review_state(file@.hunks),
{
    if file.hunks.len() == 0 {
        return ReviewState::Empty;
    }
    let ghost hs = file@.hunks;
    let mut every_staged = true;
    let mut none_pending = true;
    let mut some_staged = false;
    let mut i: usize = 0;
    while i < file.hunks.len()
        invariant
            i <= file.hunks.len(),
            hs == file.hunks.deep_view(),
            every_staged == all_staged(hs.take(i as int)),
            none_pending == all_done(hs.take(i as int)),
            some_staged == any_staged(hs.take(i as int)),
        decreases file.hunks.len() - i,
    {
        let status = file.hunks[i].status;
        assert(hs[i as int] == file.hunks@[i as int]@);
        proof {
            let before = hs.take(i as int);
            let after = hs.take(i + 1);
            assert(after[i as int] == hs[i as int]);
            assert forall|k: int| 0 <= k < before.len() implies #[trigger] before[k] == after[k] by {}
            if any_staged(before) {
                let w = choose|k: int|
                    0 <= k < before.len() && (#[trigger] before[k]).status == HunkStatus::Staged;
                assert(after[w].status == HunkStatus::Staged);
            }
            if any_staged(after) && status != HunkStatus::Staged {
                let w = choose|k: int|
                    0 <= k < after.len() && (#[trigger] after[k]).status == HunkStatus::Staged;
                assert(before[w].status == HunkStatus::Staged);
            }
            if all_staged(after) {
                assert forall|k: int| 0 <= k < before.len() implies (#[trigger] before[k]).status
                    == HunkStatus::Staged by {
                    assert(after[k].status == HunkStatus::Staged);
                }
            }
            if all_done(after) {
                assert forall|k: int| 0 <= k < before.len() implies (#[trigger] before[k]).status
                    != HunkStatus::Pending by {
                    assert(after[k].status != HunkStatus::Pending);
                }
            }
        }
        if status != HunkStatus::Staged {
            every_staged = false;
        } else {
            some_staged = true;
        }
        if status == HunkStatus::Pending {
            none_pending = false;
        }
        i += 1;
    }
    assert(hs.take(i as int) =~= hs);
    if every_staged {
        ReviewState::AllStaged
    } else if none_pending {
        ReviewState::AllDone
    } else if some_staged {
        ReviewState::SomeStaged
    } else {
        ReviewState::NoneStaged
    }
}

/// The sign for how far the review of `file` is.
pub fn file_status_icon(file: &FileDiff) -> (r: &'static str)
    ensures
        r@ == review_sign(file@.hunks),
{
    match file_review_state(file) {
        ReviewState::Empty => " ",
        ReviewState::AllStaged => "✓",
        ReviewState::AllDone => "●",
        ReviewState::SomeStaged => "◐",
        ReviewState::NoneStaged => "○",
    }
}

/// The letter that stands for a kind of change.
pub open spec fn delta_letter(status: DeltaStatus) -> Seq<char> {
    match status {
        DeltaStatus::Modified => "M"@,
        DeltaStatus::Added => "A"@,
        DeltaStatus::Deleted => "D"@,
        DeltaStatus::Renamed => "R"@,
        DeltaStatus::Untracked => "?"@,
    }
}

/// The letter shown for the kind of change `status`.
pub fn delta_status_icon(status: DeltaStatus) -> (r: &'static str)
    ensures
        r@ == delta_letter(status),
{
    match status {
        DeltaStatus::Modified => "M",
        DeltaStatus::Added => "A",
        DeltaStatus::Deleted => "D",
        DeltaStatus::Renamed => "R",
        DeltaStatus::Untracked => "?",
    }
}

} // verus!
