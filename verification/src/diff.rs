//! Splitting a hunk into the smallest hunks that can be staged on their own.

use vstd::prelude::*;
use crate::text::{decimal, push_decimal, push_str, string_of};
use crate::types::{
    copy_lines, lemma_deep_view_push, new_side_count, old_side_count, saturate_u32, side_counts,
    DeltaStatus, DiffLine, FileDiff, FileModel, Hunk, HunkModel, HunkStatus, LineKind, LineModel,
};

verus! {

/// The number of context lines that a part of a split hunk keeps on each
/// side of its changes, at most.
pub const SPLIT_CONTEXT: usize = 3;

/// Whether a line changes the file: it is added or removed.
pub open spec fn is_change(l: LineModel) -> bool {
    l.kind != LineKind::Context
}

/// The first index at or after `from` that holds no change, or the number of
/// lines if there is none.
pub open spec fn region_end(lines: Seq<LineModel>, from: int) -> int
    decreases lines.len() - from,
{
    if from >= lines.len() {
        lines.len() as int
    } else if !is_change(lines[from]) {
        from
    } else {
        region_end(lines, from + 1)
    }
}

/// `region_end` stays between `from` and the number of lines, passes
/// changes only, and stops at a context line.
pub proof fn lemma_region_end(lines: Seq<LineModel>, from: int)
    requires
        0 <= from <= lines.len(),
    ensures
        from <= region_end(lines, from) <= lines.len(),
        forall|k: int| from <= k < region_end(lines, from) ==> is_change(#[trigger] lines[k]),
        region_end(lines, from) < lines.len() ==> !is_change(lines[region_end(lines, from)]),
    decreases lines.len() - from,
{
    if from < lines.len() && is_change(lines[from]) {
        lemma_region_end(lines, from + 1);
    }
}

/// The regions of `lines` that start at or after `from`: the maximal runs of
/// changes, each as the index of its first line and the index after its last.
pub open spec fn regions_from(lines: Seq<LineModel>, from: int) -> Seq<(int, int)>
    decreases lines.len() - from,
{
    if from < 0 || from >= lines.len() {
        Seq::empty()
    } else if !is_change(lines[from]) {
        regions_from(lines, from + 1)
    } else {
        proof {
            lemma_region_end(lines, from + 1);
        }
        seq![(from, region_end(lines, from + 1))] + regions_from(
            lines,
            region_end(lines, from + 1),
        )
    }
}

/// The regions of `lines`.
pub open spec fn regions(lines: Seq<LineModel>) -> Seq<(int, int)> {
    regions_from(lines, 0)
}

/// The index at which the context between region `k` and the next is
/// divided: the midpoint of the two, the odd line going to region `k`.
pub open spec fn cut_after(rs: Seq<(int, int)>, k: int) -> int {
    rs[k].1 + (rs[k + 1].0 - rs[k].1 + 1) / 2
}

/// The index of the first line of the part for region `k`: up to three
/// lines before the region, and none from before the cut.
pub open spec fn window_start(rs: Seq<(int, int)>, k: int) -> int {
    let lead = if rs[k].0 >= SPLIT_CONTEXT {
        rs[k].0 - SPLIT_CONTEXT
    } else {
        0
    };
    if k == 0 || lead >= cut_after(rs, k - 1) {
        lead
    } else {
        cut_after(rs, k - 1)
    }
}

/// The index after the last line of the part for region `k`: up to three
/// lines after the region, and none from the cut on.
pub open spec fn window_end(rs: Seq<(int, int)>, k: int, len: int) -> int {
    let trail = if len - rs[k].1 < SPLIT_CONTEXT {
        len
    } else {
        rs[k].1 + SPLIT_CONTEXT
    };
    if k + 1 == rs.len() || trail <= cut_after(rs, k) {
        trail
    } else {
        cut_after(rs, k)
    }
}

/// The first line number on the original side that a line of `lines` at or
/// after `from` carries.
pub open spec fn first_old_lineno(lines: Seq<LineModel>, from: int) -> Option<u32>
    decreases lines.len() - from,
{
    if from < 0 || from >= lines.len() {
        None
    } else if lines[from].old_lineno is Some {
        lines[from].old_lineno
    } else {
        first_old_lineno(lines, from + 1)
    }
}

/// The first line number on the new side that a line of `lines` at or after
/// `from` carries.
pub open spec fn first_new_lineno(lines: Seq<LineModel>, from: int) -> Option<u32>
    decreases lines.len() - from,
{
    if from < 0 || from >= lines.len() {
        None
    } else if lines[from].new_lineno is Some {
        lines[from].new_lineno
    } else {
        first_new_lineno(lines, from + 1)
    }
}

/// The header of part `part` of `total`: the ranges, and the mark of the split.
pub open spec fn split_header(
    old_start: u32,
    old_lines: u32,
    new_start: u32,
    new_lines: u32,
    part: nat,
    total: nat,
) -> Seq<char> {
    "@@ -"@ + decimal(old_start as nat) + ","@ + decimal(old_lines as nat) + " +"@ + decimal(
        new_start as nat,
    ) + ","@ + decimal(new_lines as nat) + " @@ split "@ + decimal(part) + "/"@ + decimal(total)
}

/// The hunk made of `lines`, a slice of the lines of `parent`, as part
/// `part` of `total`. It starts where its first numbered line says, or where
/// `parent` starts if no line has a number; its counts are those of its
/// lines; it is pending.
pub open spec fn part_of(parent: HunkModel, lines: Seq<LineModel>, part: nat, total: nat)
    -> HunkModel {
    let old_start = match first_old_lineno(lines, 0) {
        Some(n) => n,
        None => parent.old_start,
    };
    let new_start = match first_new_lineno(lines, 0) {
        Some(n) => n,
        None => parent.new_start,
    };
    let old_lines = saturate_u32(old_side_count(lines));
    let new_lines = saturate_u32(new_side_count(lines));
    HunkModel {
        header: split_header(old_start, old_lines, new_start, new_lines, part, total),
        lines,
        status: HunkStatus::Pending,
        old_start,
        old_lines,
        new_start,
        new_lines,
    }
}

/// The part of `h` for region `k` of `rs`.
pub open spec fn sub_hunk(h: HunkModel, rs: Seq<(int, int)>, k: int) -> HunkModel {
    part_of(
        h,
        h.lines.subrange(window_start(rs, k), window_end(rs, k, h.lines.len() as int)),
        (k + 1) as nat,
        rs.len(),
    )
}

/// What splitting `h` gives: `h` itself where it has at most one region,
/// else one part for each region, in order.
pub open spec fn split_model(h: HunkModel) -> Seq<HunkModel> {
    let rs = regions(h.lines);
    if rs.len() <= 1 {
        seq![h]
    } else {
        Seq::new(rs.len(), |k: int| sub_hunk(h, rs, k))
    }
}

/// The regions held in a vector, as a sequence of pairs of integers.
pub open spec fn region_pairs(regs: Seq<(usize, usize)>) -> Seq<(int, int)> {
    Seq::new(regs.len(), |j: int| (regs[j].0 as int, regs[j].1 as int))
}

/// Finds the regions of `lines`.
fn find_regions(lines: &Vec<DiffLine>) -> (regs: Vec<(usize, usize)>)
    ensures
        region_pairs(regs@) == regions(lines.deep_view()),
        forall|j: int| 0 <= j < regs.len() ==> (#[trigger] regs@[j]).0 < regs@[j].1 <= lines.len(),
        forall|j: int| 0 <= j && j + 1 < regs.len() ==> (#[trigger] regs@[j]).1 < regs@[j + 1].0,
{
    let ghost ls = lines.deep_view();
    let mut regs: Vec<(usize, usize)> = Vec::new();
    let mut i: usize = 0;
    assert(region_pairs(regs@) + regions_from(ls, 0) =~= regions(ls));
    while i < lines.len()
        invariant
            i <= lines.len(),
            ls == lines.deep_view(),
            region_pairs(regs@) + regions_from(ls, i as int) == regions(ls),
            forall|j: int| 0 <= j < regs.len() ==> (#[trigger] regs@[j]).0 < regs@[j].1 <= i,
            forall|j: int| 0 <= j && j + 1 < regs.len() ==> (#[trigger] regs@[j]).1 < regs@[j + 1].0,
            regs.len() > 0 && regs[regs.len() - 1].1 == i && i < lines.len() ==> !is_change(
                ls[i as int],
            ),
        decreases lines.len() - i,
    {
        assert(ls[i as int] == lines@[i as int]@);
        match lines[i].kind {
            LineKind::Context => {
                i += 1;
            },
            _ => {
                let mut e: usize = i + 1;
                while e < lines.len() && !matches!(lines[e].kind, LineKind::Context)
                    invariant
                        i < e <= lines.len(),
                        ls == lines.deep_view(),
                        region_end(ls, e as int) == region_end(ls, i + 1),
                    decreases lines.len() - e,
                {
                    assert(ls[e as int] == lines@[e as int]@);
                    e += 1;
                }
                proof {
                    if e < lines.len() {
                        assert(ls[e as int] == lines@[e as int]@);
                    }
                    assert(region_end(ls, i + 1) == e);
                }
                let ghost before = regs@;
                regs.push((i, e));
                proof {
                    assert(region_pairs(regs@) =~= region_pairs(before).push((i as int, e as int)));
                    assert(region_pairs(regs@) + regions_from(ls, e as int) =~= region_pairs(
                        before,
                    ) + regions_from(ls, i as int));
                }
                i = e;
            },
        }
    }
    assert(region_pairs(regs@) + regions_from(ls, i as int) =~= region_pairs(regs@));
    regs
}

/// Finds the first line number on the original side and the first on the
/// new side that the lines of `lines` carry.
fn first_linenos(lines: &Vec<DiffLine>) -> (r: (Option<u32>, Option<u32>))
    ensures
        r.0 == first_old_lineno(lines.deep_view(), 0),
        r.1 == first_new_lineno(lines.deep_view(), 0),
{
    let ghost ls = lines.deep_view();
    let mut first_old: Option<u32> = None;
    let mut i: usize = 0;
    while i < lines.len() && first_old.is_none()
        invariant
            i <= lines.len(),
            ls == lines.deep_view(),
            first_old is None ==> first_old_lineno(ls, i as int) == first_old_lineno(ls, 0),
            first_old is Some ==> first_old == first_old_lineno(ls, 0),
        decreases lines.len() - i,
    {
        assert(ls[i as int] == lines@[i as int]@);
        first_old = lines[i].old_lineno;
        i += 1;
    }
    let mut first_new: Option<u32> = None;
    let mut j: usize = 0;
    while j < lines.len() && first_new.is_none()
        invariant
            j <= lines.len(),
            ls == lines.deep_view(),
            first_new is None ==> first_new_lineno(ls, j as int) == first_new_lineno(ls, 0),
            first_new is Some ==> first_new == first_new_lineno(ls, 0),
        decreases lines.len() - j,
    {
        assert(ls[j as int] == lines@[j as int]@);
        first_new = lines[j].new_lineno;
        j += 1;
    }
    (first_old, first_new)
}

/// Makes the hunk of `lines`, a slice of the lines of `parent`, as part
/// `part` of `total`.
fn make_part(parent: &Hunk, lines: Vec<DiffLine>, part: usize, total: usize) -> (r: Hunk)
    ensures
        r@ == part_of(parent@, lines.deep_view(), part as nat, total as nat),
{
    let (old_lines, new_lines) = side_counts(&lines);
    let (first_old, first_new) = first_linenos(&lines);
    let old_start = match first_old {
        Some(n) => n,
        None => parent.old_start,
    };
    let new_start = match first_new {
        Some(n) => n,
        None => parent.new_start,
    };
    let mut header: Vec<char> = Vec::new();
    push_str(&mut header, "@@ -");
    push_decimal(&mut header, old_start as u64);
    push_str(&mut header, ",");
    push_decimal(&mut header, old_lines as u64);
    push_str(&mut header, " +");
    push_decimal(&mut header, new_start as u64);
    push_str(&mut header, ",");
    push_decimal(&mut header, new_lines as u64);
    push_str(&mut header, " @@ split ");
    push_decimal(&mut header, part as u64);
    push_str(&mut header, "/");
    push_decimal(&mut header, total as u64);
    assert(header@ =~= split_header(
        old_start,
        old_lines,
        new_start,
        new_lines,
        part as nat,
        total as nat,
    ));
    Hunk {
        header: string_of(&header),
        lines,
        status: HunkStatus::Pending,
        old_start,
        old_lines,
        new_start,
        new_lines,
    }
}

/// Splits a hunk into one hunk for each of its regions.
///
/// A region is a maximal run of added and removed lines. A hunk with at most
/// one region is returned as it is, alone. Otherwise each region gets a part
/// of its own: the region, and up to three context lines on each side of it.
/// The context between two regions is divided at its midpoint, so no line
/// comes into two parts. Every part is pending.
pub fn split_hunk(hunk: &Hunk) -> (parts: Vec<Hunk>)
    ensures
        parts.deep_view() == split_model(hunk@),
{
    let regs = find_regions(&hunk.lines);
    let ghost rs = regions(hunk@.lines);
    let total: usize = regs.len();
    let len: usize = hunk.lines.len();
    let mut parts: Vec<Hunk> = Vec::new();
    if total <= 1 {
        parts.push(hunk.copy());
        assert(parts.deep_view() =~= seq![hunk@]);
        return parts;
    }
    let mut k: usize = 0;
    while k < total
        invariant
            k <= total == regs.len(),
            total > 1,
            len == hunk.lines.len(),
            rs == regions(hunk@.lines),
            region_pairs(regs@) == rs,
            forall|j: int| 0 <= j < regs.len() ==> (#[trigger] regs@[j]).0 < regs@[j].1 <= len,
            forall|j: int| 0 <= j && j + 1 < regs.len() ==> (#[trigger] regs@[j]).1 < regs@[j + 1].0,
            parts.len() == k,
            forall|j: int| 0 <= j < k ==> (#[trigger] parts@[j])@ == sub_hunk(hunk@, rs, j),
        decreases total - k,
    {
        let (start, end) = regs[k];
        assert(rs[k as int] == (start as int, end as int));
        let lead: usize = if start >= SPLIT_CONTEXT {
            start - SPLIT_CONTEXT
        } else {
            0
        };
        let lo: usize = if k == 0 {
            lead
        } else {
            let prev_end: usize = regs[k - 1].1;
            assert(rs[k - 1] == (regs[k - 1].0 as int, prev_end as int));
            let cut: usize = prev_end + (start - prev_end + 1) / 2;
            if lead >= cut {
                lead
            } else {
                cut
            }
        };
        let trail: usize = if len - end < SPLIT_CONTEXT {
            len
        } else {
            end + SPLIT_CONTEXT
        };
        let hi: usize = if k + 1 == total {
            trail
        } else {
            let next_start: usize = regs[k + 1].0;
            assert(rs[k + 1] == (next_start as int, regs[k + 1].1 as int));
            let cut: usize = end + (next_start - end + 1) / 2;
            if trail <= cut {
                trail
            } else {
                cut
            }
        };
        assert(lo == window_start(rs, k as int));
        assert(hi == window_end(rs, k as int, len as int));
        let lines = copy_lines(&hunk.lines, lo, hi);
        let part = make_part(hunk, lines, k + 1, total);
        assert(part@ == sub_hunk(hunk@, rs, k as int));
        parts.push(part);
        k += 1;
    }
    assert(parts.deep_view() =~= split_model(hunk@));
    parts
}


/// The lines of the hunks of `hs` from index `from` on, one hunk after the
/// other.
pub open spec fn lines_from_hunk(hs: Seq<HunkModel>, from: int) -> Seq<LineModel>
    decreases hs.len() - from,
{
    if from < 0 || from >= hs.len() {
        Seq::empty()
    } else {
        hs[from].lines + lines_from_hunk(hs, from + 1)
    }
}

/// The lines of the hunks of `hs`, one hunk after the other.
pub open spec fn all_lines(hs: Seq<HunkModel>) -> Seq<LineModel> {
    lines_from_hunk(hs, 0)
}

/// Whether the context of `lines` lies within the windows of its regions:
/// at most three context lines before the first region and after the last,
/// and at most six between two regions.
pub open spec fn tightly_framed(lines: Seq<LineModel>) -> bool {
    let rs = regions(lines);
    rs.len() > 0 ==> {
        &&& rs[0].0 <= SPLIT_CONTEXT
        &&& lines.len() - rs[rs.len() - 1].1 <= SPLIT_CONTEXT
        &&& forall|k: int|
            0 <= k && k + 1 < rs.len() ==> rs[k + 1].0 - (#[trigger] rs[k]).1 <= 2 * SPLIT_CONTEXT
    }
}

/// The regions of `lines` from `from` on start at a change, lie within the
/// lines, and follow one another with at least one line between them.
pub proof fn lemma_regions_from(lines: Seq<LineModel>, from: int)
    requires
        0 <= from <= lines.len(),
    ensures
        forall|j: int|
            0 <= j < regions_from(lines, from).len() ==> {
                &&& from <= (#[trigger] regions_from(lines, from)[j]).0
                &&& regions_from(lines, from)[j].0 < regions_from(lines, from)[j].1
                &&& regions_from(lines, from)[j].1 <= lines.len()
                &&& is_change(lines[regions_from(lines, from)[j].0])
            },
        forall|j: int|
            0 <= j && j + 1 < regions_from(lines, from).len() ==> (#[trigger] regions_from(
                lines,
                from,
            )[j]).1 < regions_from(lines, from)[j + 1].0,
    decreases lines.len() - from,
{
    if from < lines.len() {
        if !is_change(lines[from]) {
            lemma_regions_from(lines, from + 1);
            assert(regions_from(lines, from) == regions_from(lines, from + 1));
        } else {
            lemma_region_end(lines, from + 1);
            let e = region_end(lines, from + 1);
            lemma_regions_from(lines, e);
            let rest = regions_from(lines, e);
            let rs = regions_from(lines, from);
            assert(rs =~= seq![(from, e)] + rest);
            assert forall|j: int| 0 <= j < rs.len() implies {
                &&& from <= (#[trigger] rs[j]).0
                &&& rs[j].0 < rs[j].1
                &&& rs[j].1 <= lines.len()
                &&& is_change(lines[rs[j].0])
            } by {
                if j > 0 {
                    assert(rs[j] == rest[j - 1]);
                }
            }
            assert forall|j: int| 0 <= j && j + 1 < rs.len() implies (#[trigger] rs[j]).1 < rs[j
                + 1].0 by {
                assert(rs[j + 1] == rest[j]);
                if j > 0 {
                    assert(rs[j] == rest[j - 1]);
                } else {
                    assert(is_change(lines[rest[0].0]));
                }
            }
        }
    }
}

/// Region `k` of `lines` is not empty and lies within the lines, and the
/// next region, if there is one, starts after a line that follows it.
pub proof fn lemma_region_bounds(lines: Seq<LineModel>, k: int)
    requires
        0 <= k < regions(lines).len(),
    ensures
        0 <= regions(lines)[k].0 < regions(lines)[k].1 <= lines.len(),
        k + 1 < regions(lines).len() ==> regions(lines)[k].1 < regions(lines)[k + 1].0,
{
    lemma_regions_from(lines, 0);
    let rs = regions_from(lines, 0);
    assert(0 <= rs[k].0);
    if k + 1 < rs.len() {
        assert(rs[k].1 < rs[k + 1].0);
    }
}

/// Where at most six lines lie between region `k` and the next, the part
/// for region `k` ends where the part for the next region starts.
proof fn lemma_windows_meet(rs: Seq<(int, int)>, k: int, len: int)
    requires
        0 <= k,
        k + 1 < rs.len(),
        0 <= rs[k].0 < rs[k].1 < rs[k + 1].0 < rs[k + 1].1 <= len,
        rs[k + 1].0 - rs[k].1 <= 2 * SPLIT_CONTEXT,
    ensures
        window_end(rs, k, len) == window_start(rs, k + 1),
        window_end(rs, k, len) == cut_after(rs, k),
        rs[k].1 <= cut_after(rs, k) <= rs[k + 1].0,
{
}

/// Where the context lies within the windows, the parts from `k` on hold
/// the lines of the hunk from the start of part `k` on.
proof fn lemma_parts_tile(h: HunkModel, k: int)
    requires
        regions(h.lines).len() > 1,
        tightly_framed(h.lines),
        0 <= k < regions(h.lines).len(),
    ensures
        0 <= window_start(regions(h.lines), k) <= regions(h.lines)[k].0,
        lines_from_hunk(split_model(h), k) == h.lines.skip(window_start(regions(h.lines), k)),
    decreases regions(h.lines).len() - k,
{
    let rs = regions(h.lines);
    let len = h.lines.len() as int;
    let parts = split_model(h);
    lemma_region_bounds(h.lines, k);
    let lo = window_start(rs, k);
    let hi = window_end(rs, k, len);
    assert(parts[k] == sub_hunk(h, rs, k));
    assert(parts[k].lines == h.lines.subrange(lo, hi));
    if k > 0 {
        lemma_region_bounds(h.lines, k - 1);
        assert(rs[k].0 - rs[k - 1].1 <= 2 * SPLIT_CONTEXT);
        lemma_windows_meet(rs, k - 1, len);
    }
    assert(0 <= lo <= rs[k].0);
    if k + 1 == rs.len() {
        assert(hi == len);
        assert(lines_from_hunk(parts, k + 1) =~= Seq::<LineModel>::empty());
        assert(h.lines.subrange(lo, hi) + Seq::<LineModel>::empty() =~= h.lines.skip(lo));
    } else {
        lemma_parts_tile(h, k + 1);
        lemma_region_bounds(h.lines, k + 1);
        assert(rs[k + 1].0 - rs[k].1 <= 2 * SPLIT_CONTEXT);
        lemma_windows_meet(rs, k, len);
        assert(h.lines.subrange(lo, hi) + h.lines.skip(hi) =~= h.lines.skip(lo));
    }
}

/// Each part of a split hunk holds its region whole and no line of another
/// region, and no line of the hunk comes into two parts: the part for
/// region `k` starts after the region before it and no later than its own
/// region, and ends no earlier than its own region and before the next;
/// where a part follows, that part starts no earlier than this one ends.
pub proof fn law_split_parts_keep_apart(h: HunkModel, k: int)
    requires
        regions(h.lines).len() > 1,
        0 <= k < regions(h.lines).len(),
    ensures
        split_model(h)[k].lines == h.lines.subrange(
            window_start(regions(h.lines), k),
            window_end(regions(h.lines), k, h.lines.len() as int),
        ),
        0 <= window_start(regions(h.lines), k) <= regions(h.lines)[k].0,
        regions(h.lines)[k].1 <= window_end(regions(h.lines), k, h.lines.len() as int)
            <= h.lines.len(),
        k > 0 ==> regions(h.lines)[k - 1].1 <= window_start(regions(h.lines), k),
        k + 1 < regions(h.lines).len() ==> window_end(
            regions(h.lines),
            k,
            h.lines.len() as int,
        ) <= window_start(regions(h.lines), k + 1) <= regions(h.lines)[k + 1].0,
{
    let rs = regions(h.lines);
    lemma_region_bounds(h.lines, k);
    if k > 0 {
        lemma_region_bounds(h.lines, k - 1);
    }
    if k + 1 < rs.len() {
        lemma_region_bounds(h.lines, k + 1);
    }
    assert(split_model(h)[k] == sub_hunk(h, rs, k));
}

/// The parts of a split hunk, one after the other, hold the lines of the
/// hunk, each once and in order, where the context of the hunk lies within
/// the windows of its regions; a hunk with at most one region comes back
/// alone and as it is.
pub proof fn law_split_keeps_lines(h: HunkModel)
    requires
        regions(h.lines).len() <= 1 || tightly_framed(h.lines),
    ensures
        all_lines(split_model(h)) == h.lines,
        regions(h.lines).len() <= 1 ==> split_model(h) == seq![h],
{
    let rs = regions(h.lines);
    if rs.len() <= 1 {
        assert(lines_from_hunk(seq![h], 1) =~= Seq::<LineModel>::empty());
        assert(all_lines(seq![h]) =~= h.lines);
    } else {
        lemma_region_bounds(h.lines, 0);
        lemma_parts_tile(h, 0);
        assert(window_start(rs, 0) == 0);
        assert(h.lines.skip(0) =~= h.lines);
    }
}


/// What a version-control library says has happened to a file.
#[derive(Debug, Clone, Copy, PartialEq, Eq, Structural)]
pub enum RawStatus {
    Unmodified,
    Added,
    Deleted,
    Modified,
    Renamed,
    Copied,
    Ignored,
    Untracked,
    Typechange,
    Unreadable,
    Conflicted,
}

/// A line of a hunk as a version-control library hands it out.
#[derive(Debug, Clone)]
pub struct RawLine {
    /// The mark of the line: `+`, `-`, a space, or another character.
    pub origin: char,
    /// The bytes of the line, its line feed included.
    pub content: Vec<u8>,
    pub old_lineno: Option<u32>,
    pub new_lineno: Option<u32>,
}

/// The mathematical view of a `RawLine`.
pub struct RawLineModel {
    pub origin: char,
    pub content: Seq<u8>,
    pub old_lineno: Option<u32>,
    pub new_lineno: Option<u32>,
}

impl View for RawLine {
    type V = RawLineModel;

    open spec fn view(&self) -> RawLineModel {
        RawLineModel {
            origin: self.origin,
            content: self.content@,
            old_lineno: self.old_lineno,
            new_lineno: self.new_lineno,
        }
    }
}

impl DeepView for RawLine {
    type V = RawLineModel;

    open spec fn deep_view(&self) -> RawLineModel {
        self@
    }
}

/// A hunk as a version-control library hands it out.
#[derive(Debug, Clone)]
pub struct RawHunk {
    /// The bytes of the `@@` header line.
    pub header: Vec<u8>,
    pub old_start: u32,
    pub old_lines: u32,
    pub new_start: u32,
    pub new_lines: u32,
    pub lines: Vec<RawLine>,
}

/// The mathematical view of a `RawHunk`.
pub struct RawHunkModel {
    pub header: Seq<u8>,
    pub old_start: u32,
    pub old_lines: u32,
    pub new_start: u32,
    pub new_lines: u32,
    pub lines: Seq<RawLineModel>,
}

impl View for RawHunk {
    type V = RawHunkModel;

    open spec fn view(&self) -> RawHunkModel {
        RawHunkModel {
            header: self.header@,
            old_start: self.old_start,
            old_lines: self.old_lines,
            new_start: self.new_start,
            new_lines: self.new_lines,
            lines: self.lines.deep_view(),
        }
    }
}

impl DeepView for RawHunk {
    type V = RawHunkModel;

    open spec fn deep_view(&self) -> RawHunkModel {
        self@
    }
}

/// A changed file as a version-control library hands it out.
#[derive(Debug, Clone)]
pub struct RawDelta {
    /// The path of the file after the change, if it has one.
    pub new_path: Option<String>,
    /// The path of the file before the change, if it had one.
    pub old_path: Option<String>,
    pub status: RawStatus,
    pub is_binary: bool,
    /// The hunks of the file, if the library could give them.
    pub hunks: Option<Vec<RawHunk>>,
}

/// The mathematical view of a `RawDelta`.
pub struct RawDeltaModel {
    pub new_path: Option<Seq<char>>,
    pub old_path: Option<Seq<char>>,
    pub status: RawStatus,
    pub is_binary: bool,
    pub hunks: Option<Seq<RawHunkModel>>,
}

impl View for RawDelta {
    type V = RawDeltaModel;

    open spec fn view(&self) -> RawDeltaModel {
        RawDeltaModel {
            new_path: self.new_path.deep_view(),
            old_path: self.old_path.deep_view(),
            status: self.status,
            is_binary: self.is_binary,
            hunks: self.hunks.deep_view(),
        }
    }
}

impl DeepView for RawDelta {
    type V = RawDeltaModel;

    open spec fn deep_view(&self) -> RawDeltaModel {
        self@
    }
}

/// The text that `String::from_utf8_lossy` makes of `bytes`.
pub uninterp spec fn lossy_text(bytes: Seq<u8>) -> Seq<char>;

/// `String::from_utf8_lossy` of the standard library: the text is a
/// function of the bytes alone, named `lossy_text`; bytes that are UTF-8
/// give the text that they encode.
#[verifier::external_body]
fn decode_lossy(bytes: &Vec<u8>) -> (r: String)
    ensures
        r@ == lossy_text(bytes@),
        vstd::utf8::valid_utf8(bytes@) ==> r@ == vstd::utf8::decode_utf8(bytes@),
{
    String::from_utf8_lossy(bytes).into_owned()
}

/// The kind of a line whose mark is `origin`: added for `+`, removed for
/// `-`, context for every other mark.
pub open spec fn kind_of_origin(origin: char) -> LineKind {
    if origin == '+' {
        LineKind::Added
    } else if origin == '-' {
        LineKind::Removed
    } else {
        LineKind::Context
    }
}

/// The kind of change that a status stands for: added, deleted, renamed and
/// untracked files are told apart; every other file counts as modified.
pub open spec fn status_of(raw: RawStatus) -> DeltaStatus {
    match raw {
        RawStatus::Added => DeltaStatus::Added,
        RawStatus::Deleted => DeltaStatus::Deleted,
        RawStatus::Renamed => DeltaStatus::Renamed,
        RawStatus::Untracked => DeltaStatus::Untracked,
        _ => DeltaStatus::Modified,
    }
}

/// The line that a raw line stands for.
pub open spec fn line_of_raw(raw: RawLineModel) -> LineModel {
    LineModel {
        kind: kind_of_origin(raw.origin),
        content: lossy_text(raw.content),
        old_lineno: raw.old_lineno,
        new_lineno: raw.new_lineno,
    }
}

/// The lines that raw lines stand for.
pub open spec fn lines_of_raw(raw: Seq<RawLineModel>) -> Seq<LineModel> {
    Seq::new(raw.len(), |i: int| line_of_raw(raw[i]))
}

/// The hunk that a raw hunk stands for: its header without trailing white
/// space, its lines, the starts that the library gives, and the counts of
/// its lines. It is pending.
pub open spec fn hunk_of_raw(raw: RawHunkModel) -> HunkModel {
    HunkModel {
        header: crate::text::trim_end(lossy_text(raw.header)),
        lines: lines_of_raw(raw.lines),
        status: HunkStatus::Pending,
        old_start: raw.old_start,
        old_lines: saturate_u32(old_side_count(lines_of_raw(raw.lines))),
        new_start: raw.new_start,
        new_lines: saturate_u32(new_side_count(lines_of_raw(raw.lines))),
    }
}

/// The path of a changed file: the new path, else the old path, else
/// `<unknown>`.
pub open spec fn path_of_raw(raw: RawDeltaModel) -> Seq<char> {
    match raw.new_path {
        Some(p) => p,
        None => match raw.old_path {
            Some(p) => p,
            None => "<unknown>"@,
        },
    }
}

/// The file that a raw delta stands for. A binary file has no hunks, nor
/// has a file whose hunks the library could not give.
pub open spec fn file_of_raw(raw: RawDeltaModel) -> FileModel {
    FileModel {
        path: path_of_raw(raw),
        hunks: if raw.is_binary || raw.hunks is None {
            Seq::empty()
        } else {
            Seq::new(raw.hunks->Some_0.len(), |i: int| hunk_of_raw(raw.hunks->Some_0[i]))
        },
        status: status_of(raw.status),
        is_binary: raw.is_binary,
    }
}

/// The files that raw deltas stand for.
pub open spec fn files_of_raw(raw: Seq<RawDeltaModel>) -> Seq<FileModel> {
    Seq::new(raw.len(), |i: int| file_of_raw(raw[i]))
}

/// Makes the hunk that a raw hunk stands for.
fn ingest_hunk(raw: &RawHunk) -> (r: Hunk)
    ensures
        r@ == hunk_of_raw(raw@),
{
    let mut lines: Vec<DiffLine> = Vec::new();
    let mut i: usize = 0;
    assert(lines.deep_view() =~= lines_of_raw(raw@.lines).take(0));
    while i < raw.lines.len()
        invariant
            i <= raw.lines.len(),
            lines.deep_view() == lines_of_raw(raw@.lines).take(i as int),
        decreases raw.lines.len() - i,
    {
        let line = &raw.lines[i];
        assert(raw@.lines[i as int] == line@);
        let kind = if line.origin == '+' {
            LineKind::Added
        } else if line.origin == '-' {
            LineKind::Removed
        } else {
            LineKind::Context
        };
        let ghost before = lines;
        lines.push(
            DiffLine {
                kind,
                content: decode_lossy(&line.content),
                old_lineno: line.old_lineno,
                new_lineno: line.new_lineno,
            },
        );
        proof {
            assert(lines@.drop_last() =~= before@);
            lemma_deep_view_push(before, lines);
            assert(lines.deep_view() =~= lines_of_raw(raw@.lines).take(i + 1));
        }
        i += 1;
    }
    assert(lines_of_raw(raw@.lines).take(i as int) =~= lines_of_raw(raw@.lines));
    let (old_lines, new_lines) = side_counts(&lines);
    let header = crate::text::chars_of(decode_lossy(&raw.header).as_str());
    Hunk {
        header: string_of(&crate::text::trim_end_chars(&header)),
        lines,
        status: HunkStatus::Pending,
        old_start: raw.old_start,
        old_lines,
        new_start: raw.new_start,
        new_lines,
    }
}

/// Makes the file that a raw delta stands for.
fn ingest_delta(raw: &RawDelta) -> (r: FileDiff)
    ensures
        r@ == file_of_raw(raw@),
{
    let path = match &raw.new_path {
        Some(p) => p.clone(),
        None => match &raw.old_path {
            Some(p) => p.clone(),
            None => "<unknown>".to_owned(),
        },
    };
    let status = match raw.status {
        RawStatus::Added => DeltaStatus::Added,
        RawStatus::Deleted => DeltaStatus::Deleted,
        RawStatus::Renamed => DeltaStatus::Renamed,
        RawStatus::Untracked => DeltaStatus::Untracked,
        _ => DeltaStatus::Modified,
    };
    let mut hunks: Vec<Hunk> = Vec::new();
    assert(hunks.deep_view() =~= Seq::<HunkModel>::empty());
    if !raw.is_binary {
        match &raw.hunks {
            Some(raw_hunks) => {
                let ghost rs = raw_hunks.deep_view();
                let ghost all = Seq::new(rs.len(), |i: int| hunk_of_raw(rs[i]));
                let mut i: usize = 0;
                assert(hunks.deep_view() =~= all.take(0));
                while i < raw_hunks.len()
                    invariant
                        i <= raw_hunks.len(),
                        rs == raw_hunks.deep_view(),
                        all == Seq::new(rs.len(), |i: int| hunk_of_raw(rs[i])),
                        hunks.deep_view() == all.take(i as int),
                    decreases raw_hunks.len() - i,
                {
                    assert(rs[i as int] == raw_hunks@[i as int]@);
                    let ghost before = hunks;
                    hunks.push(ingest_hunk(&raw_hunks[i]));
                    proof {
                        assert(hunks@.drop_last() =~= before@);
                        lemma_deep_view_push(before, hunks);
                        assert(hunks.deep_view() =~= all.take(i + 1));
                    }
                    i += 1;
                }
                assert(all.take(i as int) =~= all);
            },
            None => {},
        }
    }
    FileDiff { path, hunks, status, is_binary: raw.is_binary }
}

/// Reads a change set from what a version-control library hands out: one
/// file for each delta, in order.
///
/// The path of a file is its new path, or its old path if it has no new
/// one. A line is added or removed by its mark, and context otherwise; its
/// two line numbers are kept. Bytes that are not UTF-8 are replaced.
pub fn parse_diff(deltas: &[RawDelta]) -> (files: Vec<FileDiff>)
    ensures
        files.deep_view() == files_of_raw(deltas.deep_view()),
{
    let ghost ds = deltas.deep_view();
    let mut files: Vec<FileDiff> = Vec::new();
    let mut i: usize = 0;
    assert(files.deep_view() =~= files_of_raw(ds).take(0));
    while i < deltas.len()
        invariant
            i <= deltas.len(),
            ds == deltas.deep_view(),
            files.deep_view() == files_of_raw(ds).take(i as int),
        decreases deltas.len() - i,
    {
        assert(ds[i as int] == deltas@[i as int]@);
        let ghost before = files;
        files.push(ingest_delta(&deltas[i]));
        proof {
            assert(files@.drop_last() =~= before@);
            lemma_deep_view_push(before, files);
            assert(files.deep_view() =~= files_of_raw(ds).take(i + 1));
        }
        i += 1;
    }
    assert(files_of_raw(ds).take(i as int) =~= files_of_raw(ds));
    files
}

} // verus!
