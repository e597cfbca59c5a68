//! Applying one hunk to the stored content of a file, and the drift in line
//! numbers that hunks applied earlier have caused.

use vstd::prelude::*;
use crate::lines::{join, join_lines, lines_of, newline, push_lines, split_lines};
use crate::text::{chars_of, lemma_chars_deep_view, string_of, strip_newlines, without_newlines};
use crate::types::{
    lemma_deep_view_push, DiffLine, FileDiff, Hunk, HunkModel, HunkStatus, LineKind, LineModel,
};

verus! {

broadcast use lemma_chars_deep_view;

/// Why content cannot be staged as text.
#[derive(Debug, Clone, Copy, PartialEq, Eq, Structural)]
pub enum BinaryReason {
    /// The content holds a NUL.
    NulByte,
    /// The content is not UTF-8.
    InvalidUtf8,
}

/// The content to stage is not text. `path` names the file where the
/// function that found it knows the file, and is empty where it does not.
#[derive(Debug, Clone)]
pub struct BinaryContentError {
    pub path: String,
    pub reason: BinaryReason,
}

/// The mathematical view of a `BinaryContentError`.
pub struct BinaryContentModel {
    pub path: Seq<char>,
    pub reason: BinaryReason,
}

impl View for BinaryContentError {
    type V = BinaryContentModel;

    open spec fn view(&self) -> BinaryContentModel {
        BinaryContentModel { path: self.path@, reason: self.reason }
    }
}

/// What the lines of a hunk from index `from` on leave in the new file:
/// the content of each context line and added line, without the line feeds
/// that it ends with.
pub open spec fn new_side_from(lines: Seq<LineModel>, from: int) -> Seq<Seq<char>>
    decreases lines.len() - from,
{
    if from < 0 || from >= lines.len() {
        Seq::empty()
    } else if lines[from].kind.on_new_side() {
        seq![without_newlines(lines[from].content)] + new_side_from(lines, from + 1)
    } else {
        new_side_from(lines, from + 1)
    }
}

/// What the lines of a hunk leave in the new file.
pub open spec fn new_side(lines: Seq<LineModel>) -> Seq<Seq<char>> {
    new_side_from(lines, 0)
}

/// `x`, or the nearest bound where it lies outside `lo..=hi`.
pub open spec fn clamp(x: int, lo: int, hi: int) -> int {
    if x < lo {
        lo
    } else if x > hi {
        hi
    } else {
        x
    }
}

/// The index of the first line that a hunk replaces in a file whose line
/// numbers have drifted by `offset`: `max(0, old_start + offset - 1)`.
pub open spec fn start_index(hunk: HunkModel, offset: int) -> int {
    if hunk.old_start + offset - 1 < 0 {
        0
    } else {
        hunk.old_start + offset - 1
    }
}

/// The lines of a file after a hunk is applied: the lines before the hunk,
/// what the hunk leaves, and the lines after those that the hunk covers.
pub open spec fn apply_lines(orig: Seq<Seq<char>>, hunk: HunkModel, offset: int) -> Seq<Seq<char>> {
    let start = start_index(hunk, offset);
    orig.take(clamp(start, 0, orig.len() as int)) + new_side(hunk.lines) + orig.skip(
        clamp(start + hunk.old_lines, 0, orig.len() as int),
    )
}

/// Whether the result of applying a hunk to `original` ends with a line
/// feed: it does if `original` is empty or ends with one.
pub open spec fn keeps_final_newline(original: Seq<char>) -> bool {
    original.len() == 0 || original.last() == '\n'
}

/// The content of a file after a hunk is applied to `original`.
pub open spec fn apply_text(original: Seq<char>, hunk: HunkModel, offset: int) -> Seq<char> {
    join(apply_lines(lines_of(original), hunk, offset), newline()) + if keeps_final_newline(
        original,
    ) {
        newline()
    } else {
        Seq::empty()
    }
}

/// Whether `s` holds a NUL.
pub open spec fn has_nul(s: Seq<char>) -> bool {
    exists|i: int| 0 <= i < s.len() && s[i] == '\0'
}

/// Tests whether `s` holds a NUL.
pub fn contains_nul(s: &Vec<char>) -> (r: bool)
    ensures
        r == has_nul(s@),
{
    let mut i: usize = 0;
    while i < s.len()
        invariant
            i <= s.len(),
            forall|k: int| 0 <= k < i ==> s@[k] != '\0',
        decreases s.len() - i,
    {
        if s[i] == '\0' {
            return true;
        }
        i += 1;
    }
    false
}

/// Appends to `out` what the lines of a hunk leave in the new file.
fn push_new_side(out: &mut Vec<Vec<char>>, lines: &Vec<DiffLine>)
    ensures
        final(out).deep_view() == old(out).deep_view() + new_side(lines.deep_view()),
{
    let mut i: usize = 0;
    assert(out.deep_view() + new_side_from(lines.deep_view(), 0) =~= old(out).deep_view()
        + new_side(lines.deep_view()));
    while i < lines.len()
        invariant
            i <= lines.len(),
            out.deep_view() + new_side_from(lines.deep_view(), i as int) == old(out).deep_view()
                + new_side(lines.deep_view()),
        decreases lines.len() - i,
    {
        let ghost before = *out;
        match lines[i].kind {
            LineKind::Removed => {},
            _ => {
                let content = chars_of(lines[i].content.as_str());
                out.push(strip_newlines(&content));
                proof {
                    assert(out@.drop_last() =~= before@);
                    lemma_deep_view_push(before, *out);
                    assert(out.deep_view() + new_side_from(lines.deep_view(), i + 1)
                        =~= before.deep_view() + new_side_from(lines.deep_view(), i as int));
                }
            },
        }
        i += 1;
    }
    assert(out.deep_view() + new_side_from(lines.deep_view(), i as int) =~= out.deep_view());
}

/// Reconstructs the content of a file with one hunk applied.
///
/// `line_offset` is the drift in line numbers that hunks applied earlier to
/// the same file have caused. The lines of `original` before the hunk are
/// kept, then come the context and added lines of the hunk, then the lines of
/// `original` after the `old_lines` lines that the hunk covers. The result
/// ends with a line feed if `original` is empty or ends with one. Content
/// that holds a NUL is refused.
pub fn reconstruct_blob(original: &str, hunk: &Hunk, line_offset: i64) -> (r: Result<
    String,
    BinaryContentError,
>)
    ensures
        r is Err <==> has_nul(original@),
        r matches Ok(s) ==> s@ == apply_text(original@, hunk@, line_offset as int),
        r matches Err(e) ==> e.reason == BinaryReason::NulByte && e.path@.len() == 0,
{
    let text = chars_of(original);
    if contains_nul(&text) {
        return Err(BinaryContentError { path: String::new(), reason: BinaryReason::NulByte });
    }
    let orig_lines = split_lines(&text);
    let n: usize = orig_lines.len();
    let shifted: i128 = hunk.old_start as i128 + line_offset as i128 - 1;
    let start: i128 = if shifted < 0 {
        0
    } else {
        shifted
    };
    let after: i128 = start + hunk.old_lines as i128;
    let start_idx: usize = if start > n as i128 {
        n
    } else {
        start as usize
    };
    let after_idx: usize = if after > n as i128 {
        n
    } else {
        after as usize
    };
    let mut result: Vec<Vec<char>> = Vec::new();
    assert(result.deep_view() =~= Seq::<Seq<char>>::empty());
    push_lines(&mut result, &orig_lines, 0, start_idx);
    push_new_side(&mut result, &hunk.lines);
    push_lines(&mut result, &orig_lines, after_idx, n);
    proof {
        let orig = lines_of(original@);
        assert(orig.take(start_idx as int) =~= orig.subrange(0, start_idx as int));
        assert(orig.skip(after_idx as int) =~= orig.subrange(after_idx as int, n as int));
        assert(result.deep_view() =~= apply_lines(orig, hunk@, line_offset as int));
    }
    let mut sep: Vec<char> = Vec::new();
    sep.push('\n');
    assert(sep@ =~= newline());
    let mut output = join_lines(&result, &sep);
    if text.len() == 0 || text[text.len() - 1] == '\n' {
        output.push('\n');
    }
    assert(output@ =~= apply_text(original@, hunk@, line_offset as int));
    Ok(string_of(&output))
}

/// The drift in line numbers that the staged hunks among the first `upto`
/// of `hunks` have caused: the sum of `new_lines - old_lines` over them.
pub open spec fn staged_drift(hunks: Seq<HunkModel>, upto: int) -> int
    decreases upto,
{
    if upto <= 0 || upto > hunks.len() {
        0
    } else {
        staged_drift(hunks, upto - 1) + if hunks[upto - 1].status == HunkStatus::Staged {
            hunks[upto - 1].new_lines - hunks[upto - 1].old_lines
        } else {
            0
        }
    }
}

/// The drift in line numbers at hunk `hunk_idx` of `file` that the staged
/// hunks before it have caused. An index past the last hunk counts every
/// hunk. A sum outside `i64` is given as the nearest bound of `i64`.
pub fn offset_before(file: &FileDiff, hunk_idx: usize) -> (r: i64)
    ensures
        r == clamp(
            staged_drift(
                file@.hunks,
                if hunk_idx <= file.hunks.len() {
                    hunk_idx as int
                } else {
                    file.hunks.len() as int
                },
            ),
            i64::MIN as int,
            i64::MAX as int,
        ),
{
    let upto: usize = if hunk_idx <= file.hunks.len() {
        hunk_idx
    } else {
        file.hunks.len()
    };
    let mut sum: i128 = 0;
    let mut i: usize = 0;
    while i < upto
        invariant
            i <= upto <= file.hunks.len(),
            sum == staged_drift(file@.hunks, i as int),
            -(i as int) * 0x1_0000_0000 <= sum <= (i as int) * 0x1_0000_0000,
        decreases upto - i,
    {
        let h = &file.hunks[i];
        assert(file@.hunks[i as int] == h@);
        if h.status == HunkStatus::Staged {
            sum = sum + (h.new_lines as i128 - h.old_lines as i128);
        }
        i += 1;
    }
    if sum > i64::MAX as i128 {
        i64::MAX
    } else if sum < i64::MIN as i128 {
        i64::MIN
    } else {
        sum as i64
    }
}


/// What a hunk leaves in the new file has one line for each of its context
/// and added lines.
pub proof fn lemma_new_side_len(lines: Seq<LineModel>, from: int)
    requires
        0 <= from <= lines.len(),
    ensures
        new_side_from(lines, from).len() + crate::types::new_side_count(lines.take(from))
            == crate::types::new_side_count(lines),
    decreases lines.len() - from,
{
    if from < lines.len() {
        lemma_new_side_len(lines, from + 1);
        assert(lines.take(from + 1).drop_last() =~= lines.take(from));
    } else {
        assert(lines.take(from) =~= lines);
    }
}

/// The lines of a file after two hunks are applied to it at once, at line
/// numbers that have drifted by `offset`: the second hunk starts where the
/// first has ended, or later.
pub open spec fn apply_both(
    orig: Seq<Seq<char>>,
    first: HunkModel,
    second: HunkModel,
    offset: int,
) -> Seq<Seq<char>> {
    let s1 = start_index(first, offset);
    let s2 = start_index(second, offset);
    orig.take(s1) + new_side(first.lines) + orig.subrange(s1 + first.old_lines, s2) + new_side(
        second.lines,
    ) + orig.skip(s2 + second.old_lines)
}

/// Whether two hunks can be applied one after the other to a file of `len`
/// lines at line numbers that have drifted by `offset`: the first keeps its
/// count of new lines, the second starts at a line of the file, no earlier
/// than the first ends, and ends within the file.
pub open spec fn in_sequence(len: int, first: HunkModel, second: HunkModel, offset: int) -> bool {
    &&& first.new_lines == crate::types::new_side_count(first.lines)
    &&& second.old_start + offset >= 1
    &&& start_index(first, offset) + first.old_lines <= start_index(second, offset)
    &&& start_index(second, offset) + second.old_lines <= len
}

/// Applying a hunk, and then a later hunk at the drift that the first has
/// added, gives the lines that applying both at once gives.
pub proof fn lemma_apply_in_sequence(
    orig: Seq<Seq<char>>,
    first: HunkModel,
    second: HunkModel,
    offset: int,
)
    requires
        in_sequence(orig.len() as int, first, second, offset),
    ensures
        apply_lines(
            apply_lines(orig, first, offset),
            second,
            offset + first.new_lines - first.old_lines,
        ) == apply_both(orig, first, second, offset),
{
    lemma_new_side_len(first.lines, 0);
    assert(first.lines.take(0) =~= Seq::<LineModel>::empty());
    let s1 = start_index(first, offset);
    let s2 = start_index(second, offset);
    let mid = apply_lines(orig, first, offset);
    let d = first.new_lines - first.old_lines;
    assert(mid.len() == orig.len() + d);
    assert(start_index(second, offset + d) == s2 + d);
    assert(mid.take(s2 + d) =~= orig.take(s1) + new_side(first.lines) + orig.subrange(
        s1 + first.old_lines,
        s2,
    ));
    assert(mid.skip(s2 + d + second.old_lines) =~= orig.skip(s2 + second.old_lines));
}

/// Staging a hunk and then the hunk after it, at the offset computed once
/// the first is staged, gives the content that applying both hunks to the
/// original at once gives.
///
/// `file` holds the two hunks at indices `i` and `i + 1`, the first of them
/// staged; `offset` is the drift before hunk `i`. The content written for
/// the first hunk must read back as the lines that were written, and end
/// with a line feed where the original does.
pub proof fn law_staging_in_sequence(
    original: Seq<char>,
    file: crate::types::FileModel,
    i: int,
)
    requires
        0 <= i,
        i + 1 < file.hunks.len(),
        file.hunks[i].status == HunkStatus::Staged,
        in_sequence(
            lines_of(original).len() as int,
            file.hunks[i],
            file.hunks[i + 1],
            staged_drift(file.hunks, i),
        ),
        lines_of(apply_text(original, file.hunks[i], staged_drift(file.hunks, i))) == apply_lines(
            lines_of(original),
            file.hunks[i],
            staged_drift(file.hunks, i),
        ),
        keeps_final_newline(apply_text(original, file.hunks[i], staged_drift(file.hunks, i)))
            == keeps_final_newline(original),
    ensures
        apply_text(
            apply_text(original, file.hunks[i], staged_drift(file.hunks, i)),
            file.hunks[i + 1],
            staged_drift(file.hunks, i + 1),
        ) == join(
            apply_both(
                lines_of(original),
                file.hunks[i],
                file.hunks[i + 1],
                staged_drift(file.hunks, i),
            ),
            newline(),
        ) + if keeps_final_newline(original) {
            newline()
        } else {
            Seq::empty()
        },
{
    lemma_apply_in_sequence(
        lines_of(original),
        file.hunks[i],
        file.hunks[i + 1],
        staged_drift(file.hunks, i),
    );
}


/// When the content written for a hunk reads back as the lines that were
/// written, as staging in sequence asks: where the original is empty or
/// ends with a line feed, and applying the hunk leaves at least one line and
/// only plain lines, the content reads back as those lines and ends with a
/// line feed.
pub proof fn law_applied_text_reads_back(original: Seq<char>, hunk: HunkModel, offset: int)
    requires
        keeps_final_newline(original),
        apply_lines(lines_of(original), hunk, offset).len() > 0,
        forall|k: int|
            0 <= k < apply_lines(lines_of(original), hunk, offset).len()
                ==> crate::lines::is_plain_line(
                #[trigger] apply_lines(lines_of(original), hunk, offset)[k],
            ),
    ensures
        lines_of(apply_text(original, hunk, offset)) == apply_lines(
            lines_of(original),
            hunk,
            offset,
        ),
        keeps_final_newline(apply_text(original, hunk, offset)),
{
    crate::lines::lemma_lines_read_back(apply_lines(lines_of(original), hunk, offset));
}


/// `std::str::from_utf8` of the standard library: bytes are a text exactly
/// when they are UTF-8, and the text is then the one that they encode.
#[verifier::external_body]
fn decode_text(bytes: &Vec<u8>) -> (r: Option<String>)
    ensures
        r is Some <==> vstd::utf8::valid_utf8(bytes@),
        r matches Some(s) ==> s@ == vstd::utf8::decode_utf8(bytes@),
{
    match std::str::from_utf8(bytes) {
        Ok(s) => Some(s.to_owned()),
        Err(_) => None,
    }
}

/// Whether `bytes` holds a zero byte.
pub open spec fn has_zero_byte(bytes: Seq<u8>) -> bool {
    exists|i: int| 0 <= i < bytes.len() && bytes[i] == 0
}

/// Why stored bytes are no text, if they are none: a zero byte comes
/// before bytes that are not UTF-8.
pub open spec fn binary_reason(bytes: Seq<u8>) -> Option<BinaryReason> {
    if has_zero_byte(bytes) {
        Some(BinaryReason::NulByte)
    } else if !vstd::utf8::valid_utf8(bytes) {
        Some(BinaryReason::InvalidUtf8)
    } else {
        None
    }
}

/// Reads the stored content of the file `path` as text. A file that is not
/// stored yet has empty content. Content that holds a zero byte, or is not
/// UTF-8, is refused, and the error names the file.
pub fn index_content(stored: Option<&Vec<u8>>, path: &str) -> (r: Result<
    String,
    BinaryContentError,
>)
    ensures
        match r {
            Ok(s) => match stored {
                Some(bytes) => binary_reason(bytes@) is None && s@ == vstd::utf8::decode_utf8(
                    bytes@,
                ),
                None => s@.len() == 0,
            },
            Err(e) => stored matches Some(bytes) && binary_reason(bytes@) == Some(e.reason)
                && e.path@ == path@,
        },
{
    let bytes = match stored {
        Some(bytes) => bytes,
        None => {
            return Ok(String::new());
        },
    };
    let mut i: usize = 0;
    while i < bytes.len()
        invariant
            i <= bytes.len(),
            stored == Some(bytes),
            forall|k: int| 0 <= k < i ==> bytes@[k] != 0,
        decreases bytes.len() - i,
    {
        if bytes[i] == 0 {
            assert(has_zero_byte(bytes@));
            return Err(BinaryContentError { path: path.to_owned(), reason: BinaryReason::NulByte });
        }
        i += 1;
    }
    match decode_text(bytes) {
        Some(s) => Ok(s),
        None => Err(
            BinaryContentError { path: path.to_owned(), reason: BinaryReason::InvalidUtf8 },
        ),
    }
}

/// The flag of an index entry that marks a file as only meant to be added.
pub const INTENT_TO_ADD: u16 = 0x2000;

/// The mode of a regular file.
pub const MODE_FILE: u32 = 0o100644;

/// The mode of an executable file.
pub const MODE_EXECUTABLE: u32 = 0o100755;

/// The fields of an index entry that staging sets or keeps.
#[derive(Debug, Clone, Copy, PartialEq, Eq, Structural)]
pub struct EntryFields {
    pub mode: u32,
    pub file_size: u32,
    pub flags: u16,
    pub flags_extended: u16,
}

/// The size of content of `len` bytes as an index entry holds it: the low
/// thirty-two bits.
pub open spec fn entry_size(len: int) -> u32 {
    (len % 0x1_0000_0000) as u32
}

/// The index entry for a file whose new content has `content_len` bytes:
/// the entry that the file has, or that of a regular file if it has none,
/// with the size of the new content and without the mark of intent to add.
pub fn staged_entry(existing: Option<EntryFields>, content_len: usize) -> (r: EntryFields)
    ensures
        r.file_size == entry_size(content_len as int),
        r.flags_extended & INTENT_TO_ADD == 0,
        match existing {
            Some(e) => r.mode == e.mode && r.flags == e.flags && r.flags_extended
                == e.flags_extended & !INTENT_TO_ADD,
            None => r.mode == MODE_FILE && r.flags == 0 && r.flags_extended == 0,
        },
{
    let base = match existing {
        Some(e) => e,
        None => EntryFields { mode: MODE_FILE, file_size: 0, flags: 0, flags_extended: 0 },
    };
    let kept: u16 = base.flags_extended;
    let cleared: u16 = kept & !INTENT_TO_ADD;
    assert(cleared & 0x2000u16 == 0) by (bit_vector)
        requires
            cleared == kept & !0x2000u16,
    ;
    assert(0u16 & !0x2000u16 == 0) by (bit_vector);
    EntryFields {
        mode: base.mode,
        file_size: ((content_len as u64) % 0x1_0000_0000u64) as u32,
        flags: base.flags,
        flags_extended: cleared,
    }
}

/// The index entry that marks an untracked file as meant to be added: empty
/// content, the mode of an executable or of a regular file, and the mark.
pub fn intent_entry(executable: bool) -> (r: EntryFields)
    ensures
        r == (EntryFields {
            mode: if executable {
                MODE_EXECUTABLE
            } else {
                MODE_FILE
            },
            file_size: 0,
            flags: 0,
            flags_extended: INTENT_TO_ADD,
        }),
{
    EntryFields {
        mode: if executable {
            MODE_EXECUTABLE
        } else {
            MODE_FILE
        },
        file_size: 0,
        flags: 0,
        flags_extended: INTENT_TO_ADD,
    }
}

/// What staging a hunk writes: the new content of the file, and the fields
/// of its index entry.
#[derive(Debug, Clone)]
pub struct StagePlan {
    pub content: String,
    pub entry: EntryFields,
}

/// What planning the staging of a hunk comes to: the new content, or why
/// the stored content is no text.
pub open spec fn stage_outcome(stored: Option<Seq<u8>>, hunk: HunkModel, offset: int) -> Result<
    Seq<char>,
    BinaryReason,
> {
    match stored {
        None => Ok(apply_text(Seq::empty(), hunk, offset)),
        Some(bytes) => match binary_reason(bytes) {
            Some(reason) => Err(reason),
            None => if has_nul(vstd::utf8::decode_utf8(bytes)) {
                Err(BinaryReason::NulByte)
            } else {
                Ok(apply_text(vstd::utf8::decode_utf8(bytes), hunk, offset))
            },
        },
    }
}

/// Plans the staging of one hunk of the file `path`: reads the stored
/// content as text, applies the hunk at `line_offset`, and sets up the index
/// entry for the new content, without the mark of intent to add. Content
/// that is not text is refused, and the error names the file.
pub fn plan_stage(
    stored: Option<&Vec<u8>>,
    path: &str,
    hunk: &Hunk,
    line_offset: i64,
    existing: Option<EntryFields>,
) -> (r: Result<StagePlan, BinaryContentError>)
    ensures
        match r {
            Ok(plan) => {
                &&& stage_outcome(stored.deep_view(), hunk@, line_offset as int) == Ok::<
                    Seq<char>,
                    BinaryReason,
                >(plan.content@)
                &&& plan.entry.file_size == entry_size(
                    (vstd::utf8::encode_utf8(plan.content@).len() as usize) as int,
                )
                &&& plan.entry.flags_extended & INTENT_TO_ADD == 0
                &&& match existing {
                    Some(e) => plan.entry.mode == e.mode && plan.entry.flags == e.flags
                        && plan.entry.flags_extended == e.flags_extended & !INTENT_TO_ADD,
                    None => plan.entry.mode == MODE_FILE && plan.entry.flags == 0
                        && plan.entry.flags_extended == 0,
                }
            },
            Err(e) => stage_outcome(stored.deep_view(), hunk@, line_offset as int) == Err::<
                Seq<char>,
                BinaryReason,
            >(e.reason) && e.path@ == path@,
        },
{
    proof {
        match stored {
            Some(bytes) => {
                assert(bytes.deep_view() =~= bytes@);
            },
            None => {},
        }
    }
    let original = match index_content(stored, path) {
        Ok(s) => s,
        Err(e) => {
            return Err(e);
        },
    };
    assert(stored is None ==> original@ =~= Seq::<char>::empty());
    match reconstruct_blob(original.as_str(), hunk, line_offset) {
        Ok(content) => {
            let size = content.as_str().len();
            Ok(StagePlan { content, entry: staged_entry(existing, size) })
        },
        Err(e) => Err(BinaryContentError { path: path.to_owned(), reason: e.reason }),
    }
}

} // verus!
