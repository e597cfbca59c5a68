//! What the status bar says about the progress of the review.

use vstd::prelude::*;
use crate::text::{decimal, push_decimal, push_str, string_of};
use crate::types::{AppMode, FileDiff, FileModel, HunkModel, HunkStatus};

verus! {

/// The number of the first `k` hunks of `hunks` that are not pending.
pub open spec fn reviewed_upto(hunks: Seq<HunkModel>, k: int) -> nat
    decreases k,
{
    if k <= 0 || k > hunks.len() {
        0
    } else {
        reviewed_upto(hunks, k - 1) + if hunks[k - 1].status != HunkStatus::Pending {
            1nat
        } else {
            0nat
        }
    }
}

/// The number of hunks of the first `k` files that are not pending.
pub open spec fn reviewed_hunks(files: Seq<FileModel>, k: int) -> nat
    decreases k,
{
    if k <= 0 || k > files.len() {
        0
    } else {
        reviewed_hunks(files, k - 1) + reviewed_upto(
            files[k - 1].hunks,
            files[k - 1].hunks.len() as int,
        )
    }
}

/// The number of hunks of the first `k` files.
pub open spec fn total_hunks(files: Seq<FileModel>, k: int) -> nat
    decreases k,
{
    if k <= 0 || k > files.len() {
        0
    } else {
        total_hunks(files, k - 1) + files[k - 1].hunks.len()
    }
}

/// `n` as a `usize`, or the largest `usize` where `n` is larger.
pub open spec fn saturate_usize(n: nat) -> usize {
    if n > usize::MAX {
        usize::MAX
    } else {
        n as usize
    }
}

/// Counts the hunks that are reviewed, that is not pending, and all hunks.
/// A count that no `usize` holds is given as the largest `usize`.
pub fn compute_progress(files: &[FileDiff]) -> (r: (usize, usize))
    ensures
        r.0 == saturate_usize(reviewed_hunks(files.deep_view(), files.len() as int)),
        r.1 == saturate_usize(total_hunks(files.deep_view(), files.len() as int)),
{
    let ghost fs = files.deep_view();
    let mut reviewed: u128 = 0;
    let mut total: u128 = 0;
    let mut k: usize = 0;
    while k < files.len()
        invariant
            k <= files.len(),
            fs == files.deep_view(),
            reviewed == reviewed_hunks(fs, k as int),
            total == total_hunks(fs, k as int),
            reviewed <= total <= (k as int) * 0x1_0000_0000_0000_0000,
        decreases files.len() - k,
    {
        let file = &files[k];
        assert(fs[k as int] == file@);
        let ghost hs = file@.hunks;
        let mut done: usize = 0;
        let mut i: usize = 0;
        while i < file.hunks.len()
            invariant
                i <= file.hunks.len(),
                hs == file.hunks.deep_view(),
                done <= i,
                done == reviewed_upto(hs, i as int),
            decreases file.hunks.len() - i,
        {
            assert(hs[i as int] == file.hunks@[i as int]@);
            if file.hunks[i].status != HunkStatus::Pending {
                done += 1;
            }
            i += 1;
        }
        reviewed = reviewed + done as u128;
        total = total + file.hunks.len() as u128;
        k += 1;
    }
    let r0: usize = if reviewed > usize::MAX as u128 {
        usize::MAX
    } else {
        reviewed as usize
    };
    let r1: usize = if total > usize::MAX as u128 {
        usize::MAX
    } else {
        total as usize
    };
    (r0, r1)
}

/// What the status bar says: while the editor is open, that the session
/// waits for it; while the help is shown, how to leave it; else the note of
/// the last action, if there is one; else the keys and the progress. The
/// key `y` accepts hunks where none is staged, and stages them otherwise.
pub open spec fn status_text(
    mode: AppMode,
    message: Option<Seq<char>>,
    progress: (usize, usize),
    no_stage: bool,
) -> Seq<char> {
    match mode {
        AppMode::WaitingForEditor => " Editing in split pane... (waiting for editor to close)"@,
        AppMode::Help => " Press any key to dismiss help "@,
        AppMode::Browsing => match message {
            Some(note) => " "@ + note + " "@,
            None => " "@ + (if no_stage {
                "y:accept"@
            } else {
                "y:stage"@
            }) + "  n:skip  s:split  e:edit  c:comment  q:quit  ?:help  ["@ + decimal(
                progress.0 as nat,
            ) + "/"@ + decimal(progress.1 as nat) + "] "@,
        },
    }
}

/// Makes what the status bar says.
pub fn status_line(mode: AppMode, message: Option<&str>, progress: (usize, usize), no_stage: bool)
    -> (r: String)
    ensures
        r@ == status_text(mode, message.deep_view(), progress, no_stage),
{
    let mut out: Vec<char> = Vec::new();
    match mode {
        AppMode::WaitingForEditor => {
            push_str(&mut out, " Editing in split pane... (waiting for editor to close)");
            assert(out@ =~= status_text(mode, message.deep_view(), progress, no_stage));
        },
        AppMode::Help => {
            push_str(&mut out, " Press any key to dismiss help ");
            assert(out@ =~= status_text(mode, message.deep_view(), progress, no_stage));
        },
        AppMode::Browsing => match message {
            Some(note) => {
                push_str(&mut out, " ");
                push_str(&mut out, note);
                push_str(&mut out, " ");
                assert(out@ =~= status_text(mode, message.deep_view(), progress, no_stage));
            },
            None => {
                push_str(&mut out, " ");
                if no_stage {
                    push_str(&mut out, "y:accept");
                } else {
                    push_str(&mut out, "y:stage");
                }
                push_str(&mut out, "  n:skip  s:split  e:edit  c:comment  q:quit  ?:help  [");
                push_decimal(&mut out, progress.0 as u64);
                push_str(&mut out, "/");
                push_decimal(&mut out, progress.1 as u64);
                push_str(&mut out, "] ");
                assert(out@ =~= status_text(mode, message.deep_view(), progress, no_stage));
            },
        },
    }
    string_of(&out)
}

} // verus!
