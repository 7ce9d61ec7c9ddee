//! Character-level helpers: conversions between strings and characters,
//! ASCII case folding and case-insensitive substring search.

use vstd::prelude::*;

verus! {

/// Relies on `str::chars` collected into a `Vec`: the characters of `s` in order.
#[verifier::external_body]
pub(crate) fn chars_of(s: &str) -> (r: Vec<char>)
    ensures
        r@ == s@,
{
    s.chars().collect()
}

/// Relies on `String: FromIterator<&char>`: the string made of `cs` in order.
#[verifier::external_body]
pub(crate) fn string_of(cs: &[char]) -> (r: String)
    ensures
        r@ == cs@,
{
    cs.iter().collect()
}

/// ASCII case folding: upper-case ASCII letters become lower-case, every
/// other character is kept.
pub open spec fn fold_char(c: char) -> char {
    if 'A' <= c && c <= 'Z' {
        (((c as u8) + 32) as u8) as char
    } else {
        c
    }
}

pub fn fold(c: char) -> (r: char)
    ensures
        r == fold_char(c),
{
    if 'A' <= c && c <= 'Z' {
        ((c as u8) + 32) as char
    } else {
        c
    }
}

/// `s` with every character folded.
pub open spec fn fold_seq(s: Seq<char>) -> Seq<char> {
    s.map_values(|c: char| fold_char(c))
}

/// `needle` occurs in `hay` starting at position `i`.
pub open spec fn occurs_at(hay: Seq<char>, needle: Seq<char>, i: int) -> bool {
    0 <= i && i + needle.len() <= hay.len() && hay.subrange(i, i + needle.len()) == needle
}

/// `needle` is a contiguous piece of `hay` (the empty sequence is a piece of every sequence).
pub open spec fn contains_seq(hay: Seq<char>, needle: Seq<char>) -> bool {
    exists|i: int| #[trigger] occurs_at(hay, needle, i)
}

/// `needle` is a piece of `hay` once both are ASCII case folded.
pub open spec fn contains_folded(hay: Seq<char>, needle: Seq<char>) -> bool {
    contains_seq(fold_seq(hay), fold_seq(needle))
}

/// Case-insensitive (ASCII) substring test.
pub fn contains_ignoring_case(hay: &[char], needle: &[char]) -> (r: bool)
    ensures
        r == contains_folded(hay@, needle@),
{
    let ghost fh = fold_seq(hay@);
    let ghost fnd = fold_seq(needle@);
    let h = hay.len();
    let n = needle.len();
    if n > h {
        assert(forall|j: int| !#[trigger] occurs_at(fh, fnd, j));
        return false;
    }
    let mut i: usize = 0;
    while i <= h - n
        invariant
            n <= h,
            h == hay@.len(),
            n == needle@.len(),
            fh == fold_seq(hay@),
            fnd == fold_seq(needle@),
            i <= h - n + 1,
            forall|j: int| 0 <= j < i ==> !#[trigger] occurs_at(fh, fnd, j),
        decreases h - i,
    {
        let mut k: usize = 0;
        while k < n && fold(hay[i + k]) == fold(needle[k])
            invariant
                i + n <= h,
                h == hay@.len(),
                n == needle@.len(),
                fh == fold_seq(hay@),
                fnd == fold_seq(needle@),
                k <= n,
                forall|t: int| 0 <= t < k ==> fh[i + t] == fnd[t],
            decreases n - k,
        {
            k = k + 1;
        }
        if k == n {
            assert(fh.subrange(i as int, i + n) =~= fnd);
            assert(occurs_at(fh, fnd, i as int));
            return true;
        }
        assert(fh.subrange(i as int, i + n)[k as int] != fnd[k as int]);
        assert(!occurs_at(fh, fnd, i as int));
        i = i + 1;
    }
    assert forall|j: int| !#[trigger] occurs_at(fh, fnd, j) by {
        if 0 <= j < i {
        }
    }
    false
}

} // verus!
