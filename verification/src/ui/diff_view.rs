//! What the diff panel shows besides the lines themselves.

use vstd::prelude::*;
use crate::text::{decimal, decimal_chars, push_all, push_str, string_of};
use crate::types::{Hunk, HunkStatus, LineKind};

verus! {

/// The sign that stands for a review state.
pub open spec fn status_sign(status: HunkStatus) -> Seq<char> {
    match status {
        HunkStatus::Pending => "○"@,
        HunkStatus::Staged => "✓"@,
        HunkStatus::Skipped => "✗"@,
        HunkStatus::Edited => "✎"@,
        HunkStatus::Commented => "💬"@,
    }
}

/// The sign shown before the header of `hunk`: that of its review state.
pub fn hunk_status_indicator(hunk: &Hunk) -> (r: &'static str)
    ensures
        r@ == status_sign(hunk.status),
{
    match hunk.status {
        HunkStatus::Pending => "○",
        HunkStatus::Staged => "✓",
        HunkStatus::Skipped => "✗",
        HunkStatus::Edited => "✎",
        HunkStatus::Commented => "💬",
    }
}

/// How a line of a hunk is coloured.
#[derive(Debug, Clone, Copy, PartialEq, Eq, Structural)]
pub enum Treatment {
    /// Dimmed, and its syntax not coloured.
    Dimmed,
    /// Its syntax coloured, on the background of added lines or on none.
    Highlighted { added: bool },
}

/// Says how a line of kind `kind` is coloured: a removed line is dimmed;
/// an added line and a context line have their syntax coloured, the added
/// line on a background of its own.
pub fn treatment_of(kind: LineKind) -> (r: Treatment)
    ensures
        r == match kind {
            LineKind::Removed => Treatment::Dimmed,
            LineKind::Added => Treatment::Highlighted { added: true },
            LineKind::Context => Treatment::Highlighted { added: false },
        },
{
    match kind {
        LineKind::Removed => Treatment::Dimmed,
        LineKind::Added => Treatment::Highlighted { added: true },
        LineKind::Context => Treatment::Highlighted { added: false },
    }
}

/// The width of the column that shows a line number.
pub const GUTTER_WIDTH: usize = 4;

/// `count` spaces.
pub open spec fn spaces(count: nat) -> Seq<char> {
    Seq::new(count, |i: int| ' ')
}

/// What the gutter shows for a line number: the number, with spaces before
/// it where it has fewer than four digits; four spaces for no number.
pub open spec fn gutter_text(number: Option<u32>) -> Seq<char> {
    match number {
        Some(n) => (if decimal(n as nat).len() < GUTTER_WIDTH {
            spaces((GUTTER_WIDTH - decimal(n as nat).len()) as nat)
        } else {
            Seq::empty()
        }) + decimal(n as nat),
        None => spaces(GUTTER_WIDTH as nat),
    }
}

/// Makes what the gutter shows for a line number.
pub fn gutter(number: Option<u32>) -> (r: String)
    ensures
        r@ == gutter_text(number),
{
    let digits: Vec<char> = match number {
        Some(n) => decimal_chars(n as u64),
        None => Vec::new(),
    };
    let pad: usize = if digits.len() < GUTTER_WIDTH {
        GUTTER_WIDTH - digits.len()
    } else {
        0
    };
    let mut out: Vec<char> = Vec::new();
    let mut i: usize = 0;
    while i < pad
        invariant
            i <= pad,
            out@ == spaces(i as nat),
        decreases pad - i,
    {
        out.push(' ');
        i += 1;
        assert(out@ =~= spaces(i as nat));
    }
    push_all(&mut out, &digits);
    proof {
        match number {
            Some(n) => {
                assert(out@ =~= gutter_text(number));
            },
            None => {
                assert(out@ =~= gutter_text(number));
            },
        }
    }
    string_of(&out)
}

/// The title of the diff panel: the path of the selected file between two
/// spaces, or a note that no file is selected.
pub open spec fn title_text(path: Option<Seq<char>>) -> Seq<char> {
    match path {
        Some(p) => " "@ + p + " "@,
        None => " No file selected "@,
    }
}

/// Makes the title of the diff panel.
pub fn panel_title(path: Option<&str>) -> (r: String)
    ensures
        r@ == title_text(path.deep_view()),
{
    let mut out: Vec<char> = Vec::new();
    match path {
        Some(p) => {
            push_str(&mut out, " ");
            push_str(&mut out, p);
            push_str(&mut out, " ");
            assert(out@ =~= " "@ + p@ + " "@);
        },
        None => {
            push_str(&mut out, " No file selected ");
            assert(out@ =~= " No file selected "@);
        },
    }
    string_of(&out)
}

} // verus!
