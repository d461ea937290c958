//! Substring containment and case folding for the match predicate.

use vstd::prelude::*;

verus! {

/// `needle` occurs as a contiguous subsequence of `hay`.
pub open spec fn contains_seq(hay: Seq<char>, needle: Seq<char>) -> bool {
    exists|i: int|
        0 <= i && i + needle.len() <= hay.len() && #[trigger] hay.subrange(i, i + needle.len())
            == needle
}

/// Compares `needle` against the span of `hay` that starts at `at`.
pub(crate) fn matches_at(hay: &str, at: usize, needle: &str) -> (r: bool)
    requires
        at + needle@.len() <= hay@.len(),
    ensures
        r == (hay@.subrange(at as int, at + needle@.len()) == needle@),
{
    let h = hay.unicode_len();
    let n = needle.unicode_len();
    let mut j: usize = 0;
    while j < n
        invariant
            h == hay@.len(),
            n == needle@.len(),
            at + n <= h,
            0 <= j <= n,
            forall|k: int| 0 <= k < j ==> hay@[at + k] == needle@[k],
        decreases n - j,
    {
        if hay.get_char(at + j) != needle.get_char(j) {
            assert(hay@.subrange(at as int, at + needle@.len())[j as int] != needle@[j as int]);
            return false;
        }
        j = j + 1;
    }
    assert(hay@.subrange(at as int, at + needle@.len()) =~= needle@);
    true
}

/// Substring search: scans every starting position from the left.
pub fn contains_str(hay: &str, needle: &str) -> (r: bool)
    ensures
        r == contains_seq(hay@, needle@),
{
    let h = hay.unicode_len();
    let n = needle.unicode_len();
    if n > h {
        assert(!contains_seq(hay@, needle@));
        return false;
    }
    if n == 0 {
        assert(hay@.subrange(0, 0 + needle@.len() as int) =~= needle@);
        return true;
    }
    let mut i: usize = 0;
    while i <= h - n
        invariant
            h == hay@.len(),
            n == needle@.len(),
            0 < n <= h,
            0 <= i <= h,
            forall|k: int|
                0 <= k < i ==> #[trigger] hay@.subrange(k, k + needle@.len()) != needle@,
        decreases h - i,
    {
        if matches_at(hay, i, needle) {
            return true;
        }
        i = i + 1;
    }
    assert(!contains_seq(hay@, needle@));
    false
}

/// The character sequence that `str::to_lowercase` produces for `s`.
/// The full Unicode mapping is not written out here; the sequence is a
/// function of `s` alone.
pub uninterp spec fn lower_of(s: Seq<char>) -> Seq<char>;

/// Relies on `str::to_lowercase`: the result depends on the characters of
/// `s` alone.
#[verifier::external_body]
pub(crate) fn lowercase(s: &str) -> (r: String)
    ensures
        r@ == lower_of(s@),
{
    s.to_lowercase()
}

/// The match predicate of the scanner: substring containment, after
/// lowercasing both sides when `case_insensitive` is set.
pub open spec fn match_spec(line: Seq<char>, query: Seq<char>, case_insensitive: bool) -> bool {
    if case_insensitive {
        contains_seq(lower_of(line), lower_of(query))
    } else {
        contains_seq(line, query)
    }
}

/// A line is emitted when it matches, or, under an inverted match, when it
/// does not.
pub open spec fn emit_spec(
    line: Seq<char>,
    query: Seq<char>,
    case_insensitive: bool,
    invert_match: bool,
) -> bool {
    match_spec(line, query, case_insensitive) != invert_match
}

/// Decides whether `line` matches `query` under the configured case
/// sensitivity.
pub fn line_matches(line: &str, query: &str, case_insensitive: bool) -> (r: bool)
    ensures
        r == match_spec(line@, query@, case_insensitive),
{
    if case_insensitive {
        let lowered_line = lowercase(line);
        let lowered_query = lowercase(query);
        contains_str(lowered_line.as_str(), lowered_query.as_str())
    } else {
        contains_str(line, query)
    }
}

/// Decides whether `line` is emitted: the match decision, negated when
/// `invert_match` is set.
pub fn should_emit(line: &str, query: &str, case_insensitive: bool, invert_match: bool) -> (r:
    bool)
    ensures
        r == emit_spec(line@, query@, case_insensitive, invert_match),
{
    let matched = line_matches(line, query, case_insensitive);
    if invert_match {
        !matched
    } else {
        matched
    }
}

} // verus!
