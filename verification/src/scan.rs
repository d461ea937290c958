//! Line-oriented scanning: which lines of a file are emitted, and in
//! which order.

use vstd::prelude::*;
use crate::config::Config;
use crate::text::{emit_spec, lower_of, match_spec, should_emit};

verus! {

/// One emitted line: its zero-based index and its raw content.
pub struct MatchedLine {
    pub line_index: usize,
    pub text: String,
}

/// The indices of the lines among `lines[0], ..., lines[end - 1]` that are
/// emitted for `query` under the given case sensitivity and inversion, in
/// increasing order.
pub open spec fn emitted_upto(
    lines: Seq<String>,
    query: Seq<char>,
    case_insensitive: bool,
    invert_match: bool,
    end: int,
) -> Seq<int>
    decreases end,
{
    if end <= 0 || end > lines.len() {
        Seq::empty()
    } else if emit_spec(lines[end - 1]@, query, case_insensitive, invert_match) {
        emitted_upto(lines, query, case_insensitive, invert_match, end - 1).push(end - 1)
    } else {
        emitted_upto(lines, query, case_insensitive, invert_match, end - 1)
    }
}

/// An index stands in `emitted_upto(..., end)` exactly when it lies below
/// `end` and its line is emitted.
pub proof fn lemma_emitted_upto_contains(
    lines: Seq<String>,
    query: Seq<char>,
    case_insensitive: bool,
    invert_match: bool,
    end: int,
    i: int,
)
    requires
        0 <= end <= lines.len(),
    ensures
        emitted_upto(lines, query, case_insensitive, invert_match, end).contains(i) <==> (0 <= i
            < end && emit_spec(lines[i]@, query, case_insensitive, invert_match)),
    decreases end,
{
    if end > 0 {
        lemma_emitted_upto_contains(lines, query, case_insensitive, invert_match, end - 1, i);
        let prev = emitted_upto(lines, query, case_insensitive, invert_match, end - 1);
        if emit_spec(lines[end - 1]@, query, case_insensitive, invert_match) {
            let cur = prev.push(end - 1);
            assert forall|j: int| cur.contains(j) implies prev.contains(j) || j == end - 1 by {
                let k = choose|k: int| 0 <= k < cur.len() && cur[k] == j;
                if k < prev.len() {
                    assert(prev[k] == j);
                }
            }
            if prev.contains(i) {
                let k = choose|k: int| 0 <= k < prev.len() && prev[k] == i;
                assert(cur[k] == i);
            }
            if i == end - 1 {
                assert(cur[cur.len() - 1] == i);
            }
        }
    }
}

/// Toggling `invert_match` emits exactly the complementary set of line
/// indices: for every index below `end`, it stands in the inverted run's
/// emitted indices exactly when it does not stand in the plain run's.
pub proof fn lemma_invert_complement(
    lines: Seq<String>,
    query: Seq<char>,
    case_insensitive: bool,
    end: int,
)
    requires
        0 <= end <= lines.len(),
    ensures
        forall|i: int|
            #[trigger] emitted_upto(lines, query, case_insensitive, true, end).contains(i) <==> (0
                <= i < end && !emitted_upto(lines, query, case_insensitive, false, end).contains(
                i,
            )),
{
    assert forall|i: int|
        #[trigger] emitted_upto(lines, query, case_insensitive, true, end).contains(i) <==> (0 <= i
            < end && !emitted_upto(lines, query, case_insensitive, false, end).contains(i)) by {
        lemma_emitted_upto_contains(lines, query, case_insensitive, true, end, i);
        lemma_emitted_upto_contains(lines, query, case_insensitive, false, end, i);
    }
}

/// Case-insensitive matching is stable on inputs that lowercasing leaves
/// unchanged: lowercasing such a line and query once more does not change
/// the match decision.
pub proof fn lemma_ci_match_stable(line: Seq<char>, query: Seq<char>)
    requires
        lower_of(line) == line,
        lower_of(query) == query,
    ensures
        match_spec(line, query, true) == match_spec(lower_of(line), lower_of(query), true),
{
}

/// Scans the lines of one file and returns the emitted lines, each with
/// its zero-based index, in order of appearance.
pub fn scan_lines(lines: &Vec<String>, config: &Config) -> (r: Vec<MatchedLine>)
    ensures
        ({
            let emitted = emitted_upto(
                lines@,
                config.query_str@,
                config.case_insensitive,
                config.invert_match,
                lines@.len() as int,
            );
            &&& r@.len() == emitted.len()
            &&& forall|k: int|
                0 <= k < r@.len() ==> (#[trigger] r@[k]).line_index as int == emitted[k]
                    && r@[k].text@ == lines@[emitted[k]]@
        }),
{
    let mut r: Vec<MatchedLine> = Vec::new();
    let n = lines.len();
    let mut i: usize = 0;
    while i < n
        invariant
            n == lines@.len(),
            0 <= i <= n,
            ({
                let emitted = emitted_upto(
                    lines@,
                    config.query_str@,
                    config.case_insensitive,
                    config.invert_match,
                    i as int,
                );
                &&& r@.len() == emitted.len()
                &&& forall|k: int|
                    0 <= k < r@.len() ==> (#[trigger] r@[k]).line_index as int == emitted[k]
                        && r@[k].text@ == lines@[emitted[k]]@
            }),
        decreases n - i,
    {
        if should_emit(
            lines[i].as_str(),
            config.query_str.as_str(),
            config.case_insensitive,
            config.invert_match,
        ) {
            let text = lines[i].clone();
            r.push(MatchedLine { line_index: i, text });
        }
        i = i + 1;
    }
    r
}

} // verus!
