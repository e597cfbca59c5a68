//! Reading numbers and words out of text.

use vstd::prelude::*;
use crate::text::{
    is_space, is_space_char, lemma_chars_deep_view, slice_of, trim_end_len, trimmed_end,
};
use crate::types::lemma_deep_view_push;

verus! {

broadcast use lemma_chars_deep_view;

/// Whether `c` is a decimal digit.
pub open spec fn is_digit(c: char) -> bool {
    '0' <= c <= '9'
}

/// The value of the decimal digit `c`.
pub open spec fn digit_value(c: char) -> nat {
    (c as u32 - '0' as u32) as nat
}

/// The number that the decimal digits of `s` write.
pub open spec fn number_value(s: Seq<char>) -> nat
    decreases s.len(),
{
    if s.len() == 0 {
        0
    } else {
        number_value(s.drop_last()) * 10 + digit_value(s.last())
    }
}

/// Whether every character of `s` is a decimal digit.
pub open spec fn all_digits(s: Seq<char>) -> bool {
    forall|i: int| 0 <= i < s.len() ==> is_digit(#[trigger] s[i])
}

/// `s` without the plus sign that it begins with, if it begins with one.
pub open spec fn unsigned_part(s: Seq<char>) -> Seq<char> {
    if s.len() > 0 && s[0] == '+' {
        s.skip(1)
    } else {
        s
    }
}

/// The number that `s` writes, if `s` is an optional plus sign and then at
/// least one decimal digit, and the number is at most the largest `u32`.
pub open spec fn number_of(s: Seq<char>) -> Option<u32> {
    let d = unsigned_part(s);
    if d.len() > 0 && all_digits(d) && number_value(d) <= u32::MAX {
        Some(number_value(d) as u32)
    } else {
        None
    }
}

/// More digits write no smaller a number.
pub proof fn lemma_number_value_grows(s: Seq<char>, i: int)
    requires
        0 <= i <= s.len(),
    ensures
        number_value(s.take(i)) <= number_value(s),
    decreases s.len() - i,
{
    if i < s.len() {
        lemma_number_value_grows(s, i + 1);
        assert(s.take(i + 1).drop_last() =~= s.take(i));
    } else {
        assert(s.take(i) =~= s);
    }
}

/// Reads the number that `s` writes.
pub fn parse_number(s: &Vec<char>) -> (r: Option<u32>)
    ensures
        r == number_of(s@),
{
    let from: usize = if s.len() > 0 && s[0] == '+' {
        1
    } else {
        0
    };
    let ghost d = unsigned_part(s@);
    assert(d =~= s@.skip(from as int));
    if from == s.len() {
        return None;
    }
    let mut acc: u64 = 0;
    let mut i: usize = from;
    assert(d.take(0) =~= Seq::<char>::empty());
    while i < s.len()
        invariant
            from <= i <= s.len(),
            d == s@.skip(from as int),
            d == unsigned_part(s@),
            acc == number_value(d.take(i - from)),
            acc <= u32::MAX,
            forall|k: int| 0 <= k < i - from ==> is_digit(#[trigger] d[k]),
        decreases s.len() - i,
    {
        let c = s[i];
        assert(d[i - from] == c);
        if !('0' <= c && c <= '9') {
            assert(!is_digit(d[i - from]));
            assert(!all_digits(d));
            return None;
        }
        let v: u64 = (c as u32 - '0' as u32) as u64;
        assert(d.take(i - from + 1).drop_last() =~= d.take(i - from));
        assert(d.take(i - from + 1).last() == c);
        acc = acc * 10 + v;
        assert(acc == number_value(d.take(i - from + 1)));
        if acc > u32::MAX as u64 {
            proof {
                lemma_number_value_grows(d, i - from + 1);
            }
            return None;
        }
        i += 1;
    }
    assert(d.take(i - from) =~= d);
    Some(acc as u32)
}

/// The index at which the last word of `s` starts, where `s` does not end
/// with white space: the index after the last white space of `s`.
pub open spec fn last_word_start(s: Seq<char>) -> int
    decreases s.len(),
{
    if s.len() == 0 || is_space(s.last()) {
        s.len() as int
    } else {
        last_word_start(s.drop_last())
    }
}

/// The last word of `s`: the longest run of characters that are no white
/// space, before the white space that `s` ends with. There is none if `s`
/// is blank.
pub open spec fn last_word(s: Seq<char>) -> Option<Seq<char>> {
    let end = trimmed_end(s);
    if end == 0 {
        None
    } else {
        Some(s.subrange(last_word_start(s.take(end)), end))
    }
}

/// Finds the last word of `s`.
pub fn find_last_word(s: &Vec<char>) -> (r: Option<Vec<char>>)
    ensures
        r.deep_view() == last_word(s@),
{
    let end = trim_end_len(s);
    if end == 0 {
        return None;
    }
    let ghost t = s@.take(end as int);
    let mut start: usize = end;
    assert(t.take(end as int) =~= t);
    while start > 0 && !is_space_char(s[start - 1])
        invariant
            start <= end <= s.len(),
            t == s@.take(end as int),
            last_word_start(t.take(start as int)) == last_word_start(t),
        decreases start,
    {
        assert(t.take(start as int).drop_last() =~= t.take(start - 1));
        start -= 1;
    }
    Some(slice_of(s, start, end))
}

/// The number of white-space characters of `s` from index `from` on, before
/// the first that is none.
pub open spec fn skip_space(s: Seq<char>, from: int) -> int
    decreases s.len() - from,
{
    if from >= s.len() {
        s.len() as int
    } else if !is_space(s[from]) {
        from
    } else {
        skip_space(s, from + 1)
    }
}

/// The first index at or after `from` that holds white space, or the length
/// of `s` if there is none.
pub open spec fn word_end(s: Seq<char>, from: int) -> int
    decreases s.len() - from,
{
    if from >= s.len() {
        s.len() as int
    } else if is_space(s[from]) {
        from
    } else {
        word_end(s, from + 1)
    }
}

/// `skip_space` and `word_end` do not go back, nor past the end.
pub proof fn lemma_scan_bounds(s: Seq<char>, from: int)
    requires
        0 <= from <= s.len(),
    ensures
        from <= skip_space(s, from) <= s.len(),
        skip_space(s, from) < s.len() ==> !is_space(s[skip_space(s, from)]),
        from <= word_end(s, from) <= s.len(),
        from < s.len() && !is_space(s[from]) ==> from < word_end(s, from),
    decreases s.len() - from,
{
    if from < s.len() {
        lemma_scan_bounds(s, from + 1);
    }
}

/// The words of `s` from index `from` on: the maximal runs of characters
/// that are no white space.
pub open spec fn words_from(s: Seq<char>, from: int) -> Seq<Seq<char>>
    decreases s.len() - from,
{
    if from < 0 || from >= s.len() {
        Seq::empty()
    } else {
        let b = skip_space(s, from);
        if b >= s.len() {
            Seq::empty()
        } else {
            proof {
                lemma_scan_bounds(s, from);
                lemma_scan_bounds(s, b);
            }
            seq![s.subrange(b, word_end(s, b))] + words_from(s, word_end(s, b))
        }
    }
}

/// The words of `s`.
pub open spec fn words(s: Seq<char>) -> Seq<Seq<char>> {
    words_from(s, 0)
}

/// Splits `s` into its words.
pub fn split_words(s: &Vec<char>) -> (out: Vec<Vec<char>>)
    ensures
        out.deep_view() == words(s@),
{
    let mut out: Vec<Vec<char>> = Vec::new();
    let mut pos: usize = 0;
    assert(out.deep_view() + words_from(s@, 0) =~= words(s@));
    while pos < s.len()
        invariant
            pos <= s.len(),
            out.deep_view() + words_from(s@, pos as int) == words(s@),
        decreases s.len() - pos,
    {
        let mut b: usize = pos;
        while b < s.len() && is_space_char(s[b])
            invariant
                pos <= b <= s.len(),
                skip_space(s@, b as int) == skip_space(s@, pos as int),
            decreases s.len() - b,
        {
            b += 1;
        }
        assert(skip_space(s@, pos as int) == b);
        if b >= s.len() {
            assert(words_from(s@, pos as int) =~= Seq::<Seq<char>>::empty());
            pos = s.len();
            assert(words_from(s@, pos as int) =~= Seq::<Seq<char>>::empty());
        } else {
            let mut e: usize = b + 1;
            assert(word_end(s@, b as int) == word_end(s@, b + 1));
            while e < s.len() && !is_space_char(s[e])
                invariant
                    b < e <= s.len(),
                    word_end(s@, e as int) == word_end(s@, b as int),
                decreases s.len() - e,
            {
                e += 1;
            }
            assert(word_end(s@, b as int) == e);
            let ghost before = out;
            out.push(slice_of(s, b, e));
            proof {
                assert(out@.drop_last() =~= before@);
                lemma_deep_view_push(before, out);
                assert(words_from(s@, pos as int) =~= seq![s@.subrange(b as int, e as int)]
                    + words_from(s@, e as int));
                assert(out.deep_view() + words_from(s@, e as int) =~= before.deep_view()
                    + words_from(s@, pos as int));
            }
            pos = e;
        }
    }
    assert(words_from(s@, pos as int) =~= Seq::<Seq<char>>::empty());
    assert(out.deep_view() + words_from(s@, pos as int) =~= out.deep_view());
    out
}

} // verus!
