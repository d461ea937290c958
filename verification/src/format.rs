//! Rendering of an emitted line: highlighting of matched spans and the
//! filename / line-number prefixes.
//!
//! A highlighted span is wrapped in the terminal's red-foreground marker
//! and the reset marker. Stripping every marker from a rendered line
//! gives the raw line back, as long as the raw line holds no escape
//! character of its own.

use vstd::prelude::*;
use colored::Colorize;
use crate::config::Config;
use crate::text::{contains_seq, lower_of, lowercase, matches_at};

verus! {

/// The escape character that opens every highlight marker.
pub open spec fn esc_char() -> char {
    '\u{1b}'
}

/// The marker that switches the terminal to a red foreground.
pub open spec fn red_marker() -> Seq<char> {
    seq![esc_char(), '[', '3', '1', 'm']
}

/// The marker that resets the terminal's colors.
pub open spec fn reset_marker() -> Seq<char> {
    seq![esc_char(), '[', '0', 'm']
}

/// `s` holds the escape character somewhere.
pub open spec fn has_esc(s: Seq<char>) -> bool {
    exists|j: int| 0 <= j < s.len() && s[j] == esc_char()
}

/// Removes every highlight marker, scanning from the left.
pub open spec fn strip_markers(s: Seq<char>) -> Seq<char>
    decreases s.len(),
{
    if s.len() == 0 {
        s
    } else if s.len() >= 5 && s.take(5) == red_marker() {
        strip_markers(s.skip(5))
    } else if s.len() >= 4 && s.take(4) == reset_marker() {
        strip_markers(s.skip(4))
    } else {
        seq![s[0]] + strip_markers(s.skip(1))
    }
}

/// Stripping walks over an escape-free prefix unchanged.
proof fn lemma_strip_escfree(u: Seq<char>, t: Seq<char>)
    requires
        !has_esc(u),
    ensures
        strip_markers(u + t) == u + strip_markers(t),
    decreases u.len(),
{
    if u.len() == 0 {
        assert(u + t =~= t);
        assert(u + strip_markers(t) =~= strip_markers(t));
    } else {
        let s = u + t;
        assert(s[0] == u[0]);
        assert(u[0] != esc_char());
        if s.len() >= 5 && s.take(5) == red_marker() {
            assert(s.take(5)[0] == s[0]);
            assert(false);
        }
        if s.len() >= 4 && s.take(4) == reset_marker() {
            assert(s.take(4)[0] == s[0]);
            assert(false);
        }
        assert(strip_markers(s) == seq![s[0]] + strip_markers(s.skip(1)));
        assert(s.skip(1) =~= u.skip(1) + t);
        assert(!has_esc(u.skip(1))) by {
            assert(forall|j: int|
                0 <= j < u.skip(1).len() ==> u.skip(1)[j] == u[j + 1] && u[j + 1] != esc_char());
        }
        lemma_strip_escfree(u.skip(1), t);
        assert(seq![u[0]] + (u.skip(1) + strip_markers(t)) =~= u + strip_markers(t));
    }
}

/// Stripping drops a leading red marker.
proof fn lemma_strip_red(t: Seq<char>)
    ensures
        strip_markers(red_marker() + t) == strip_markers(t),
{
    let s = red_marker() + t;
    assert(s.take(5) =~= red_marker());
    assert(s.skip(5) =~= t);
}

/// Stripping drops a leading reset marker.
proof fn lemma_strip_reset(t: Seq<char>)
    ensures
        strip_markers(reset_marker() + t) == strip_markers(t),
{
    let s = reset_marker() + t;
    if s.len() >= 5 && s.take(5) == red_marker() {
        assert(s.take(5)[2] == s[2]);
        assert(s[2] == reset_marker()[2]);
        assert(false);
    }
    assert(s.take(4) =~= reset_marker());
    assert(s.skip(4) =~= t);
}

/// `p` is what stripping recovers from `a`, whatever follows `a`.
pub open spec fn strips_to(a: Seq<char>, p: Seq<char>) -> bool {
    forall|t: Seq<char>| #[trigger] strip_markers(a + t) == p + strip_markers(t)
}

proof fn lemma_strips_to_empty()
    ensures
        strips_to(Seq::<char>::empty(), Seq::<char>::empty()),
{
    assert forall|t: Seq<char>|
        #[trigger] strip_markers(Seq::<char>::empty() + t) == Seq::<char>::empty()
            + strip_markers(t) by {
        assert(Seq::<char>::empty() + t =~= t);
        assert(Seq::<char>::empty() + strip_markers(t) =~= strip_markers(t));
    }
}

/// Appending one escape-free character extends the stripped content by
/// that character.
proof fn lemma_strips_to_char(a: Seq<char>, p: Seq<char>, c: char)
    requires
        strips_to(a, p),
        c != esc_char(),
    ensures
        strips_to(a.push(c), p.push(c)),
{
    assert forall|t: Seq<char>|
        #[trigger] strip_markers(a.push(c) + t) == p.push(c) + strip_markers(t) by {
        assert(a.push(c) + t =~= a + (seq![c] + t));
        assert(strip_markers(a + (seq![c] + t)) == p + strip_markers(seq![c] + t));
        assert(!has_esc(seq![c])) by {
            assert(forall|j: int| 0 <= j < 1 ==> seq![c][j] == c);
        }
        lemma_strip_escfree(seq![c], t);
        assert(p + (seq![c] + strip_markers(t)) =~= p.push(c) + strip_markers(t));
    }
}

/// Stripping a painted escape-free span followed by anything gives the
/// span, then whatever stripping the rest gives.
proof fn lemma_strip_painted(span: Seq<char>, painted: Seq<char>, t: Seq<char>)
    requires
        !has_esc(span),
        painted == span || painted == red_marker() + span + reset_marker(),
    ensures
        strip_markers(painted + t) == span + strip_markers(t),
{
    if painted == span {
        lemma_strip_escfree(span, t);
    } else {
        assert(painted + t =~= red_marker() + (span + (reset_marker() + t)));
        lemma_strip_red(span + (reset_marker() + t));
        lemma_strip_escfree(span, reset_marker() + t);
        lemma_strip_reset(t);
        assert(strip_markers(painted + t) == strip_markers(span + (reset_marker() + t)));
        assert(strip_markers(span + (reset_marker() + t)) == span + strip_markers(
            reset_marker() + t,
        ));
    }
}

/// Appending a painted escape-free span extends the stripped content by
/// the span itself, whether or not the paint added markers.
#[verifier::rlimit(30)]
proof fn lemma_strips_to_span(a: Seq<char>, p: Seq<char>, span: Seq<char>, painted: Seq<char>)
    requires
        strips_to(a, p),
        !has_esc(span),
        painted == span || painted == red_marker() + span + reset_marker(),
    ensures
        strips_to(a + painted, p + span),
{
    assert forall|t: Seq<char>|
        #[trigger] strip_markers((a + painted) + t) == (p + span) + strip_markers(t) by {
        assert((a + painted) + t =~= a + (painted + t));
        assert(strip_markers(a + (painted + t)) == p + strip_markers(painted + t));
        lemma_strip_painted(span, painted, t);
        assert(p + (span + strip_markers(t)) =~= (p + span) + strip_markers(t));
    }
}

/// Stripping an escape-free sequence changes nothing.
pub proof fn lemma_strip_escfree_id(u: Seq<char>)
    requires
        !has_esc(u),
    ensures
        strip_markers(u) == u,
{
    lemma_strip_escfree(u, Seq::<char>::empty());
    assert(u + Seq::<char>::empty() =~= u);
    assert(strip_markers(Seq::<char>::empty()) == Seq::<char>::empty());
}

/// Relies on `colored::Colorize::red` and the display of the colored
/// string: when coloring is enabled the text is wrapped in the red and
/// reset markers, and otherwise returned unchanged. An inner escape
/// character would be re-styled, so nothing is claimed for such input.
#[verifier::external_body]
fn paint_red(s: &str) -> (r: String)
    ensures
        !has_esc(s@) ==> (r@ == s@ || r@ == red_marker() + s@ + reset_marker()),
{
    s.red().to_string()
}

/// The span beginning a highlighted stretch: the query itself, or, case
/// insensitively, any span whose lowercase form is the query's.
pub open spec fn span_match_spec(span: Seq<char>, query: Seq<char>, case_insensitive: bool) -> bool {
    if case_insensitive {
        lower_of(span) == lower_of(query)
    } else {
        span == query
    }
}

/// Decides whether the span of `line` at `at` is highlighted.
fn span_matches(
    line: &str,
    at: usize,
    query: &str,
    lowered_query: &String,
    case_insensitive: bool,
) -> (r: bool)
    requires
        at + query@.len() <= line@.len(),
        at + query@.len() <= usize::MAX,
        lowered_query@ == lower_of(query@),
    ensures
        r == span_match_spec(
            line@.subrange(at as int, at + query@.len()),
            query@,
            case_insensitive,
        ),
{
    if case_insensitive {
        let qlen = query.unicode_len();
        let span = line.substring_char(at, at + qlen);
        let lowered_span = lowercase(span);
        lowered_span == *lowered_query
    } else {
        matches_at(line, at, query)
    }
}

/// A span as painted: wrapped in the markers when the terminal colored
/// it, untouched when it did not.
pub open spec fn paint_of(span: Seq<char>, colored: bool) -> Seq<char> {
    if colored {
        red_marker() + span + reset_marker()
    } else {
        span
    }
}

/// The highlighted form of `s`: scanning from the left, each matched span
/// is painted — colored or not as the corresponding entry of `k` says —
/// and the scan resumes behind it; every other character is kept.
pub open spec fn hl_spec(s: Seq<char>, q: Seq<char>, ci: bool, k: Seq<bool>) -> Seq<char>
    decreases s.len(),
{
    if q.len() == 0 || s.len() < q.len() {
        s
    } else if span_match_spec(s.take(q.len() as int), q, ci) {
        paint_of(s.take(q.len() as int), k.len() > 0 && k[0]) + hl_spec(
            s.skip(q.len() as int),
            q,
            ci,
            if k.len() > 0 {
                k.skip(1)
            } else {
                k
            },
        )
    } else {
        seq![s[0]] + hl_spec(s.skip(1), q, ci, k)
    }
}

/// `out` is how the highlight of `line` opens when the scan has consumed
/// the first `i` characters and has painted spans as `kacc` says,
/// whatever the later paint choices turn out to be.
spec fn hl_builds(
    line: Seq<char>,
    q: Seq<char>,
    ci: bool,
    kacc: Seq<bool>,
    out: Seq<char>,
    i: int,
) -> bool {
    forall|kf: Seq<bool>|
        #[trigger] hl_spec(line, q, ci, kacc + kf) == out + hl_spec(line.skip(i), q, ci, kf)
}

proof fn lemma_hl_builds_init(line: Seq<char>, q: Seq<char>, ci: bool)
    ensures
        hl_builds(line, q, ci, Seq::<bool>::empty(), Seq::<char>::empty(), 0),
{
    assert forall|kf: Seq<bool>|
        #[trigger] hl_spec(line, q, ci, Seq::<bool>::empty() + kf) == Seq::<char>::empty()
            + hl_spec(line.skip(0), q, ci, kf) by {
        assert(Seq::<bool>::empty() + kf =~= kf);
        assert(line.skip(0) =~= line);
        assert(Seq::<char>::empty() + hl_spec(line, q, ci, kf) =~= hl_spec(line, q, ci, kf));
    }
}

/// Consuming one character that opens no matched span.
proof fn lemma_hl_builds_char(
    line: Seq<char>,
    q: Seq<char>,
    ci: bool,
    kacc: Seq<bool>,
    out: Seq<char>,
    i: int,
)
    requires
        hl_builds(line, q, ci, kacc, out, i),
        0 <= i < line.len(),
        q.len() > 0,
        !(i + q.len() <= line.len() && span_match_spec(line.subrange(i, i + q.len() as int), q, ci)),
    ensures
        hl_builds(line, q, ci, kacc, out + seq![line[i]], i + 1),
{
    let s = line.skip(i);
    assert forall|kf: Seq<bool>|
        #[trigger] hl_spec(line, q, ci, kacc + kf) == (out + seq![line[i]]) + hl_spec(
            line.skip(i + 1),
            q,
            ci,
            kf,
        ) by {
        assert(hl_spec(line, q, ci, kacc + kf) == out + hl_spec(s, q, ci, kf));
        assert(s[0] == line[i]);
        assert(s.skip(1) =~= line.skip(i + 1));
        if s.len() < q.len() {
            assert(hl_spec(s, q, ci, kf) == s);
            assert(hl_spec(line.skip(i + 1), q, ci, kf) == line.skip(i + 1));
            assert(out + s =~= (out + seq![line[i]]) + line.skip(i + 1));
        } else {
            assert(s.take(q.len() as int) =~= line.subrange(i, i + q.len() as int));
            assert(hl_spec(s, q, ci, kf) == seq![s[0]] + hl_spec(s.skip(1), q, ci, kf));
            assert(out + (seq![line[i]] + hl_spec(line.skip(i + 1), q, ci, kf)) =~= (out + seq![
                line[i],
            ]) + hl_spec(line.skip(i + 1), q, ci, kf));
        }
    }
}

/// Consuming a matched span, painted as `b` says.
proof fn lemma_hl_builds_span(
    line: Seq<char>,
    q: Seq<char>,
    ci: bool,
    kacc: Seq<bool>,
    out: Seq<char>,
    i: int,
    b: bool,
)
    requires
        hl_builds(line, q, ci, kacc, out, i),
        q.len() > 0,
        0 <= i,
        i + q.len() <= line.len(),
        span_match_spec(line.subrange(i, i + q.len() as int), q, ci),
    ensures
        hl_builds(
            line,
            q,
            ci,
            kacc.push(b),
            out + paint_of(line.subrange(i, i + q.len() as int), b),
            i + q.len(),
        ),
{
    let s = line.skip(i);
    let span = line.subrange(i, i + q.len() as int);
    assert forall|kf: Seq<bool>|
        #[trigger] hl_spec(line, q, ci, kacc.push(b) + kf) == (out + paint_of(span, b)) + hl_spec(
            line.skip(i + q.len()),
            q,
            ci,
            kf,
        ) by {
        assert(kacc.push(b) + kf =~= kacc + (seq![b] + kf));
        assert(hl_spec(line, q, ci, kacc + (seq![b] + kf)) == out + hl_spec(
            s,
            q,
            ci,
            seq![b] + kf,
        ));
        let k = seq![b] + kf;
        assert(s.take(q.len() as int) =~= span);
        assert(k.len() > 0 && k[0] == b);
        assert(k.skip(1) =~= kf);
        assert(s.skip(q.len() as int) =~= line.skip(i + q.len()));
        assert(hl_spec(s, q, ci, k) == paint_of(span, b) + hl_spec(
            line.skip(i + q.len()),
            q,
            ci,
            kf,
        ));
        assert(out + (paint_of(span, b) + hl_spec(line.skip(i + q.len()), q, ci, kf)) =~= (out
            + paint_of(span, b)) + hl_spec(line.skip(i + q.len()), q, ci, kf));
    }
}

/// `t` is a highlight of `line`: for some sequence of per-span terminal
/// choices, the scan produces exactly `t`.
pub open spec fn is_highlight_of(t: Seq<char>, line: Seq<char>, q: Seq<char>, ci: bool) -> bool {
    exists|k: Seq<bool>| t == hl_spec(line, q, ci, k)
}

/// When the scan has consumed the whole line, `out` is its highlight.
proof fn lemma_hl_builds_done(
    line: Seq<char>,
    q: Seq<char>,
    ci: bool,
    kacc: Seq<bool>,
    out: Seq<char>,
)
    requires
        hl_builds(line, q, ci, kacc, out, line.len() as int),
        q.len() > 0,
    ensures
        hl_spec(line, q, ci, kacc) == out,
{
    assert(hl_spec(line, q, ci, kacc + Seq::<bool>::empty()) == out + hl_spec(
        line.skip(line.len() as int),
        q,
        ci,
        Seq::<bool>::empty(),
    ));
    assert(kacc + Seq::<bool>::empty() =~= kacc);
    assert(line.skip(line.len() as int) =~= Seq::<char>::empty());
    assert(hl_spec(Seq::<char>::empty(), q, ci, Seq::<bool>::empty()) == Seq::<char>::empty());
    assert(out + Seq::<char>::empty() =~= out);
}

/// Highlights every matched span of `line`, scanning from the left and
/// never overlapping spans. For an escape-free line the result is exactly
/// the scan's interleaving of kept characters and painted spans, for some
/// sequence of per-span terminal choices, and stripping the markers
/// recovers the raw line; a line without any matched span, or an empty
/// query, is returned unchanged.
pub fn highlight(line: &str, query: &str, case_insensitive: bool) -> (r: String)
    ensures
        !has_esc(line@) ==> strip_markers(r@) == line@,
        !has_esc(line@) ==> is_highlight_of(r@, line@, query@, case_insensitive),
        query@.len() == 0 ==> r@ == line@,
        !case_insensitive && !contains_seq(line@, query@) ==> r@ == line@,
{
    let qlen = query.unicode_len();
    if qlen == 0 {
        proof {
            if !has_esc(line@) {
                lemma_strip_escfree_id(line@);
                assert(hl_spec(line@, query@, case_insensitive, Seq::<bool>::empty()) == line@);
            }
        }
        return line.to_owned();
    }
    let llen = line.unicode_len();
    let lowered_query = lowercase(query);
    let mut out = String::new();
    let ghost mut kacc = Seq::<bool>::empty();
    proof {
        lemma_strips_to_empty();
        lemma_hl_builds_init(line@, query@, case_insensitive);
    }
    let mut i: usize = 0;
    while i < llen
        invariant
            llen == line@.len(),
            qlen == query@.len(),
            qlen > 0,
            lowered_query@ == lower_of(query@),
            0 <= i <= llen,
            !has_esc(line@) ==> strips_to(out@, line@.take(i as int)),
            !has_esc(line@) ==> hl_builds(line@, query@, case_insensitive, kacc, out@, i as int),
            (!case_insensitive && !contains_seq(line@, query@)) ==> out@ == line@.take(i as int),
        decreases llen - i,
    {
        let span_matched = if qlen <= llen - i {
            span_matches(line, i, query, &lowered_query, case_insensitive)
        } else {
            false
        };
        if span_matched {
            let span = line.substring_char(i, i + qlen);
            let painted = paint_red(span);
            let colored = painted.unicode_len() != qlen;
            proof {
                if !has_esc(line@) {
                    assert(!has_esc(span@)) by {
                        assert(forall|j: int|
                            0 <= j < span@.len() ==> span@[j] == line@[i + j] && line@[i + j]
                                != esc_char());
                    }
                    lemma_strips_to_span(out@, line@.take(i as int), span@, painted@);
                    assert(line@.take(i as int) + span@ =~= line@.take(i + qlen));
                    assert(painted@ == paint_of(span@, colored));
                    lemma_hl_builds_span(
                        line@,
                        query@,
                        case_insensitive,
                        kacc,
                        out@,
                        i as int,
                        colored,
                    );
                    kacc = kacc.push(colored);
                }
                if !case_insensitive {
                    assert(span@ == query@);
                    assert(contains_seq(line@, query@)) by {
                        assert(line@.subrange(i as int, i + query@.len()) == query@);
                    }
                }
            }
            out.append(painted.as_str());
            i = i + qlen;
        } else {
            let c = line.substring_char(i, i + 1);
            proof {
                assert(c@ =~= seq![line@[i as int]]);
                if !has_esc(line@) {
                    assert(line@[i as int] != esc_char());
                    lemma_strips_to_char(out@, line@.take(i as int), line@[i as int]);
                    assert(out@ + c@ =~= out@.push(line@[i as int]));
                    assert(line@.take(i as int).push(line@[i as int]) =~= line@.take(i + 1));
                    lemma_hl_builds_char(line@, query@, case_insensitive, kacc, out@, i as int);
                }
                assert(line@.take(i as int) + c@ =~= line@.take(i + 1));
            }
            out.append(c);
            i = i + 1;
        }
    }
    proof {
        assert(line@.take(llen as int) =~= line@);
        if !has_esc(line@) {
            assert(strip_markers(out@ + Seq::<char>::empty()) == line@ + strip_markers(
                Seq::<char>::empty(),
            ));
            assert(out@ + Seq::<char>::empty() =~= out@);
            assert(strip_markers(Seq::<char>::empty()) == Seq::<char>::empty());
            assert(line@ + Seq::<char>::empty() =~= line@);
            lemma_hl_builds_done(line@, query@, case_insensitive, kacc, out@);
        }
    }
    out
}

/// The character of one decimal digit.
pub open spec fn dec_digit(d: int) -> char {
    if d == 0 {
        '0'
    } else if d == 1 {
        '1'
    } else if d == 2 {
        '2'
    } else if d == 3 {
        '3'
    } else if d == 4 {
        '4'
    } else if d == 5 {
        '5'
    } else if d == 6 {
        '6'
    } else if d == 7 {
        '7'
    } else if d == 8 {
        '8'
    } else {
        '9'
    }
}

/// The decimal rendering of a non-negative number, most significant digit
/// first, without leading zeroes (a single zero for zero itself).
pub open spec fn dec_of(n: int) -> Seq<char>
    recommends
        n >= 0,
    decreases n,
{
    if n < 10 {
        seq![dec_digit(n)]
    } else {
        dec_of(n / 10).push(dec_digit(n % 10))
    }
}

/// The one-character string of a decimal digit.
fn digit_str(d: usize) -> (r: &'static str)
    requires
        d < 10,
    ensures
        r@ == seq![dec_digit(d as int)],
{
    if d == 0 {
        proof {
            reveal_strlit("0");
        }
        assert("0"@ =~= seq![dec_digit(0)]);
        "0"
    } else if d == 1 {
        proof {
            reveal_strlit("1");
        }
        assert("1"@ =~= seq![dec_digit(1)]);
        "1"
    } else if d == 2 {
        proof {
            reveal_strlit("2");
        }
        assert("2"@ =~= seq![dec_digit(2)]);
        "2"
    } else if d == 3 {
        proof {
            reveal_strlit("3");
        }
        assert("3"@ =~= seq![dec_digit(3)]);
        "3"
    } else if d == 4 {
        proof {
            reveal_strlit("4");
        }
        assert("4"@ =~= seq![dec_digit(4)]);
        "4"
    } else if d == 5 {
        proof {
            reveal_strlit("5");
        }
        assert("5"@ =~= seq![dec_digit(5)]);
        "5"
    } else if d == 6 {
        proof {
            reveal_strlit("6");
        }
        assert("6"@ =~= seq![dec_digit(6)]);
        "6"
    } else if d == 7 {
        proof {
            reveal_strlit("7");
        }
        assert("7"@ =~= seq![dec_digit(7)]);
        "7"
    } else if d == 8 {
        proof {
            reveal_strlit("8");
        }
        assert("8"@ =~= seq![dec_digit(8)]);
        "8"
    } else {
        proof {
            reveal_strlit("9");
        }
        assert("9"@ =~= seq![dec_digit(9)]);
        "9"
    }
}

/// Renders a number in decimal.
pub fn to_decimal(n: usize) -> (r: String)
    ensures
        r@ == dec_of(n as int),
    decreases n,
{
    if n < 10 {
        String::from_str(digit_str(n))
    } else {
        let mut s = to_decimal(n / 10);
        s.append(digit_str(n % 10));
        proof {
            assert(dec_of((n / 10) as int) + seq![dec_digit((n % 10) as int)] =~= dec_of(
                (n / 10) as int,
            ).push(dec_digit((n % 10) as int)));
        }
        s
    }
}

/// The separator written after a filename and after a line number.
pub open spec fn sep() -> Seq<char> {
    seq![':', ' ']
}

/// How an emitted line is rendered: the filename and the one-based line
/// number, each followed by a colon and a space, precede the text when
/// their flags are set.
pub open spec fn format_spec(
    line_index: int,
    text: Seq<char>,
    filename: Seq<char>,
    with_filename: bool,
    with_number: bool,
) -> Seq<char> {
    if with_filename && with_number {
        filename + sep() + dec_of(line_index + 1) + sep() + text
    } else if with_filename {
        filename + sep() + text
    } else if with_number {
        dec_of(line_index + 1) + sep() + text
    } else {
        text
    }
}

/// Renders the prefixes around an already-highlighted text.
pub fn prefix_line(
    line_index: usize,
    text: &str,
    filename: &str,
    with_filename: bool,
    with_number: bool,
) -> (r: String)
    requires
        line_index < usize::MAX,
    ensures
        r@ == format_spec(line_index as int, text@, filename@, with_filename, with_number),
{
    proof {
        reveal_strlit(": ");
        assert(": "@ =~= sep());
    }
    let mut out = String::new();
    if with_filename {
        out.append(filename);
        out.append(": ");
    }
    if with_number {
        let number = to_decimal(line_index + 1);
        out.append(number.as_str());
        out.append(": ");
    }
    out.append(text);
    proof {
        assert(out@ =~= format_spec(line_index as int, text@, filename@, with_filename,
            with_number));
    }
    out
}

/// Renders one emitted line as the raw line content — highlighted
/// when colored output is on — behind the configured prefixes.
pub fn format_match(line_index: usize, line: &str, filename: &str, config: &Config) -> (r: String)
    requires
        line_index < usize::MAX,
    ensures
        !config.colored_output ==> r@ == format_spec(
            line_index as int,
            line@,
            filename@,
            config.print_filenames,
            config.print_line_numbers,
        ),
        config.colored_output ==> exists|t: Seq<char>|
            r@ == #[trigger] format_spec(
                line_index as int,
                t,
                filename@,
                config.print_filenames,
                config.print_line_numbers,
            ) && (!has_esc(line@) ==> strip_markers(t) == line@ && is_highlight_of(
                t,
                line@,
                config.query_str@,
                config.case_insensitive,
            )) && (config.query_str@.len() == 0 ==> t == line@),
{
    let text = if config.colored_output {
        highlight(line, config.query_str.as_str(), config.case_insensitive)
    } else {
        line.to_owned()
    };
    let r = prefix_line(
        line_index,
        text.as_str(),
        filename,
        config.print_filenames,
        config.print_line_numbers,
    );
    proof {
        if config.colored_output {
            let w = text@;
            assert(r@ == format_spec(
                line_index as int,
                w,
                filename@,
                config.print_filenames,
                config.print_line_numbers,
            ));
            assert(!has_esc(line@) ==> strip_markers(w) == line@ && is_highlight_of(
                w,
                line@,
                config.query_str@,
                config.case_insensitive,
            ));
            assert(config.query_str@.len() == 0 ==> w == line@);
            assert(exists|t: Seq<char>|
                r@ == #[trigger] format_spec(
                    line_index as int,
                    t,
                    filename@,
                    config.print_filenames,
                    config.print_line_numbers,
                ) && (!has_esc(line@) ==> strip_markers(t) == line@ && is_highlight_of(
                    t,
                    line@,
                    config.query_str@,
                    config.case_insensitive,
                )) && (config.query_str@.len() == 0 ==> t == line@));
        }
    }
    r
}

/// The red marker begins at position `i` of `s`.
fn is_red_marker_at(s: &str, i: usize) -> (r: bool)
    requires
        i <= s@.len(),
        s@.len() <= usize::MAX,
    ensures
        r <==> (i + 5 <= s@.len() && s@.subrange(i as int, i + 5) == red_marker()),
{
    let n = s.unicode_len();
    if n - i < 5 {
        return false;
    }
    let ok = s.get_char(i) == '\u{1b}' && s.get_char(i + 1) == '[' && s.get_char(i + 2) == '3'
        && s.get_char(i + 3) == '1' && s.get_char(i + 4) == 'm';
    proof {
        if ok {
            assert(s@.subrange(i as int, i + 5) =~= red_marker());
        } else if s@.subrange(i as int, i + 5) == red_marker() {
            assert(forall|k: int|
                0 <= k < 5 ==> #[trigger] s@.subrange(i as int, i + 5)[k] == s@[i + k]);
            assert(false);
        }
    }
    ok
}

/// The reset marker begins at position `i` of `s`.
fn is_reset_marker_at(s: &str, i: usize) -> (r: bool)
    requires
        i <= s@.len(),
        s@.len() <= usize::MAX,
    ensures
        r <==> (i + 4 <= s@.len() && s@.subrange(i as int, i + 4) == reset_marker()),
{
    let n = s.unicode_len();
    if n - i < 4 {
        return false;
    }
    let ok = s.get_char(i) == '\u{1b}' && s.get_char(i + 1) == '[' && s.get_char(i + 2) == '0'
        && s.get_char(i + 3) == 'm';
    proof {
        if ok {
            assert(s@.subrange(i as int, i + 4) =~= reset_marker());
        } else if s@.subrange(i as int, i + 4) == reset_marker() {
            assert(forall|k: int|
                0 <= k < 4 ==> #[trigger] s@.subrange(i as int, i + 4)[k] == s@[i + k]);
            assert(false);
        }
    }
    ok
}

/// Strips every highlight marker from a rendered line.
pub fn strip_markers_exec(s: &str) -> (r: String)
    ensures
        r@ == strip_markers(s@),
{
    let n = s.unicode_len();
    let mut out = String::new();
    let mut i: usize = 0;
    proof {
        assert(s@.skip(0) =~= s@);
        assert(Seq::<char>::empty() + strip_markers(s@) =~= strip_markers(s@));
    }
    while i < n
        invariant
            n == s@.len(),
            0 <= i <= n,
            strip_markers(s@) == out@ + strip_markers(s@.skip(i as int)),
        decreases n - i,
    {
        let ghost rest = s@.skip(i as int);
        if is_red_marker_at(s, i) {
            proof {
                assert(rest.take(5) =~= s@.subrange(i as int, i + 5));
                assert(rest.skip(5) =~= s@.skip(i + 5));
            }
            i = i + 5;
        } else if is_reset_marker_at(s, i) {
            proof {
                assert(rest.take(4) =~= s@.subrange(i as int, i + 4));
                if rest.len() >= 5 && rest.take(5) == red_marker() {
                    assert(rest.take(5)[2] == rest[2]);
                    assert(rest.take(4)[2] == rest[2]);
                    assert(false);
                }
                assert(rest.skip(4) =~= s@.skip(i + 4));
            }
            i = i + 4;
        } else {
            let c = s.substring_char(i, i + 1);
            proof {
                if rest.len() >= 5 && rest.take(5) == red_marker() {
                    assert(rest.take(5) =~= s@.subrange(i as int, i + 5));
                    assert(false);
                }
                if rest.len() >= 4 && rest.take(4) == reset_marker() {
                    assert(rest.take(4) =~= s@.subrange(i as int, i + 4));
                    assert(false);
                }
                assert(strip_markers(rest) == seq![rest[0]] + strip_markers(rest.skip(1)));
                assert(c@ =~= seq![rest[0]]);
                assert(rest.skip(1) =~= s@.skip(i + 1));
                assert(out@ + (c@ + strip_markers(s@.skip(i + 1))) =~= (out@ + c@)
                    + strip_markers(s@.skip(i + 1)));
            }
            out.append(c);
            i = i + 1;
        }
    }
    proof {
        assert(s@.skip(n as int) =~= Seq::<char>::empty());
        assert(out@ + Seq::<char>::empty() =~= out@);
    }
    out
}

} // verus!
