//! Field extraction from a single line of sampler text.
//!
//! A metric line has the shape `<label>: <value> <unit>` or
//! `<label>: <value>%`. The extractors take everything after the first colon
//! (or after a given marker), isolate the value token, and parse it into
//! thousandths, with zero as the default for anything missing or malformed.

use vstd::prelude::*;

use crate::num::fixed3_or_zero;
use crate::num::parse_fixed3;
use crate::text::first_byte_idx;
use crate::text::first_sub_idx;
use crate::text::is_space;
use crate::text::leading_spaces;
use crate::text::lemma_first_byte_idx;
use crate::text::lemma_first_sub_idx;
use crate::text::lemma_leading_spaces;
use crate::text::trim;

verus! {

/// Length of the leading run of non-whitespace bytes.
pub open spec fn token_len(s: Seq<u8>) -> int
    decreases s.len(),
{
    if s.len() == 0 {
        0
    } else if is_space(s[0]) {
        0
    } else {
        1 + token_len(s.skip(1))
    }
}

pub proof fn lemma_token_len(s: Seq<u8>)
    ensures
        0 <= token_len(s) <= s.len(),
        forall|j: int| 0 <= j < token_len(s) ==> !is_space(s[j]),
        token_len(s) < s.len() ==> is_space(s[token_len(s)]),
    decreases s.len(),
{
    if s.len() > 0 && !is_space(s[0]) {
        lemma_token_len(s.skip(1));
        assert forall|j: int| 0 <= j < token_len(s) implies !is_space(s[j]) by {
            if j >= 1 {
                assert(!is_space(s.skip(1)[j - 1]));
                assert(s.skip(1)[j - 1] == s[j]);
            }
        }
        if token_len(s) < s.len() {
            assert(s.skip(1)[token_len(s) - 1] == s[token_len(s)]);
        }
    }
}

/// The first whitespace-delimited token of `s`.
pub open spec fn first_token(s: Seq<u8>) -> Seq<u8> {
    s.subrange(0, token_len(s))
}

/// Everything after the first colon of `l`; empty when `l` has no colon.
pub open spec fn after_colon(l: Seq<u8>) -> Seq<u8> {
    let i = first_byte_idx(l, 58);
    if i < l.len() {
        l.subrange(i + 1, l.len() as int)
    } else {
        Seq::<u8>::empty()
    }
}

/// The value token of a `<label>: <value> <unit>` line: the first
/// whitespace-delimited token after the colon.
pub open spec fn token_after_colon(l: Seq<u8>) -> Seq<u8> {
    let seg = after_colon(l);
    first_token(seg.skip(leading_spaces(seg)))
}

/// The numeric value of a `<label>: <value> <unit>` line, in thousandths;
/// zero when the line has no colon or the token is malformed.
pub open spec fn num_after_colon(l: Seq<u8>) -> int {
    fixed3_or_zero(token_after_colon(l))
}

/// The percentage in `seg`, in thousandths: everything before the first `%`
/// (or all of `seg` when it has none), trimmed and parsed; zero on failure.
pub open spec fn pct_of_segment(seg: Seq<u8>) -> int {
    let c = first_byte_idx(seg, 37);
    let cut = if c < seg.len() {
        seg.subrange(0, c)
    } else {
        seg
    };
    fixed3_or_zero(trim(cut))
}

/// The percentage of a `<label>: <value>%` line, in thousandths.
pub open spec fn pct_after_colon(l: Seq<u8>) -> int {
    pct_of_segment(after_colon(l))
}

/// The percentage following the first occurrence of `pat` in `l`, in
/// thousandths; zero when `pat` does not occur.
pub open spec fn pct_after_marker(l: Seq<u8>, pat: Seq<u8>) -> int {
    let i = first_sub_idx(l, pat);
    if i + pat.len() <= l.len() {
        pct_of_segment(l.subrange(i + pat.len(), l.len() as int))
    } else {
        0
    }
}

/// Parses the value token after the first colon of `line`.
pub fn extract_num_after_colon(line: &[u8]) -> (r: i64)
    ensures
        r as int == num_after_colon(line@),
        -1_000_000_000_000 < r < 1_000_000_000_000,
{
    let n = line.len();
    let c = crate::text::find_byte(line, 58);
    proof {
        lemma_first_byte_idx(line@, 58);
    }
    if c >= n {
        proof {
            let e = Seq::<u8>::empty();
            assert(after_colon(line@) =~= e);
            assert(leading_spaces(e) == 0);
            assert(e.skip(0) =~= e);
            assert(token_len(e) == 0);
            assert(first_token(e) =~= e);
            assert(!crate::num::fixed3_ok(e));
        }
        return 0;
    }
    let seg = vstd::slice::slice_subrange(line, c + 1, n);
    proof {
        assert(seg@ =~= after_colon(line@));
        lemma_leading_spaces(seg@);
    }
    let m = seg.len();
    let mut a: usize = 0;
    while a < m && (seg[a] == 32 || seg[a] == 9 || seg[a] == 13 || seg[a] == 10)
        invariant
            0 <= a <= m,
            m == seg@.len(),
            forall|j: int| 0 <= j < a ==> is_space(seg@[j]),
        decreases m - a,
    {
        a += 1;
    }
    proof {
        assert(leading_spaces(seg@) == a) by {
            if leading_spaces(seg@) < a {
                assert(is_space(seg@[leading_spaces(seg@)]));
            }
            if leading_spaces(seg@) > a {
                assert(is_space(seg@[a as int]));
            }
        }
        lemma_token_len(seg@.skip(a as int));
    }
    let mut b: usize = a;
    while b < m && !(seg[b] == 32 || seg[b] == 9 || seg[b] == 13 || seg[b] == 10)
        invariant
            a <= b <= m,
            m == seg@.len(),
            forall|j: int| a <= j < b ==> !is_space(seg@[j]),
        decreases m - b,
    {
        b += 1;
    }
    let ghost rest = seg@.skip(a as int);
    proof {
        assert forall|j: int| 0 <= j < b - a implies !is_space(rest[j]) by {
            assert(rest[j] == seg@[a + j]);
        }
        assert(token_len(rest) == b - a) by {
            if token_len(rest) < b - a {
                assert(is_space(rest[token_len(rest)]));
                assert(rest[token_len(rest)] == seg@[a + token_len(rest)]);
            }
            if token_len(rest) > b - a {
                assert(b < m);
                assert(!is_space(rest[b - a]));
                assert(rest[b - a] == seg@[b as int]);
            }
        }
    }
    let tok = vstd::slice::slice_subrange(seg, a, b);
    proof {
        assert(tok@ =~= first_token(rest));
        assert(tok@ == token_after_colon(line@));
    }
    parse_fixed3(tok)
}

/// Parses the percentage in `seg`.
pub fn extract_pct_of_segment(seg: &[u8]) -> (r: i64)
    ensures
        r as int == pct_of_segment(seg@),
        -1_000_000_000_000 < r < 1_000_000_000_000,
{
    let n = seg.len();
    let c = crate::text::find_byte(seg, 37);
    proof {
        lemma_first_byte_idx(seg@, 37);
    }
    let cut = if c < n {
        vstd::slice::slice_subrange(seg, 0, c)
    } else {
        seg
    };
    proof {
        if c < n {
            assert(cut@ =~= seg@.subrange(0, c as int));
        }
    }
    let (ta, tb) = crate::text::trim_range(cut);
    let tok = vstd::slice::slice_subrange(cut, ta, tb);
    proof {
        assert(tok@ == trim(cut@));
    }
    parse_fixed3(tok)
}

/// Parses the percentage after the first colon of `line`.
pub fn extract_pct_after_colon(line: &[u8]) -> (r: i64)
    ensures
        r as int == pct_after_colon(line@),
        -1_000_000_000_000 < r < 1_000_000_000_000,
{
    let n = line.len();
    let c = crate::text::find_byte(line, 58);
    proof {
        lemma_first_byte_idx(line@, 58);
    }
    if c >= n {
        proof {
            let e = Seq::<u8>::empty();
            assert(after_colon(line@) =~= e);
            assert(first_byte_idx(e, 37) == 0) by {
                lemma_first_byte_idx(e, 37);
            }
            assert(trim(e) =~= e);
            assert(!crate::num::fixed3_ok(e));
        }
        return 0;
    }
    let seg = vstd::slice::slice_subrange(line, c + 1, n);
    proof {
        assert(seg@ =~= after_colon(line@));
    }
    extract_pct_of_segment(seg)
}

/// Parses the percentage after the first occurrence of `pat` in `line`.
pub fn extract_pct_after_marker(line: &[u8], pat: &[u8]) -> (r: i64)
    requires
        pat@.len() >= 1,
    ensures
        r as int == pct_after_marker(line@, pat@),
        -1_000_000_000_000 < r < 1_000_000_000_000,
{
    let n = line.len();
    let i = crate::text::find_sub(line, pat);
    proof {
        lemma_first_sub_idx(line@, pat@);
    }
    if i >= n || n - i < pat.len() {
        return 0;
    }
    let seg = vstd::slice::slice_subrange(line, i + pat.len(), n);
    proof {
        assert(seg@ =~= line@.subrange(i + pat@.len(), n as int));
    }
    extract_pct_of_segment(seg)
}

/// The value token of the last line of `text` beginning with `pat`, in
/// thousandths; zero when no line matches or the token is malformed.
pub open spec fn last_num_for_prefix_spec(t: Seq<u8>, pat: Seq<u8>) -> int {
    match crate::text::last_line_matching(crate::text::split_lines(t), crate::text::line_pred(pat, true)) {
        Some(l) => num_after_colon(l),
        None => 0,
    }
}

/// The percentage of the last line of `text` beginning with `pat`, in
/// thousandths; zero when no line matches.
pub open spec fn last_pct_for_prefix_spec(t: Seq<u8>, pat: Seq<u8>) -> int {
    match crate::text::last_line_matching(crate::text::split_lines(t), crate::text::line_pred(pat, true)) {
        Some(l) => pct_after_colon(l),
        None => 0,
    }
}

/// Extracts the value token of the last line of `text` beginning with `pat`.
pub fn last_num_for_prefix(text: &[u8], pat: &[u8]) -> (r: i64)
    requires
        pat@.len() >= 1,
    ensures
        r as int == last_num_for_prefix_spec(text@, pat@),
        -1_000_000_000_000 < r < 1_000_000_000_000,
{
    match crate::text::find_last_line(text, pat, true) {
        Some((a, b)) => {
            let line = vstd::slice::slice_subrange(text, a, b);
            extract_num_after_colon(line)
        },
        None => 0,
    }
}

/// Extracts the percentage of the last line of `text` beginning with `pat`.
pub fn last_pct_for_prefix(text: &[u8], pat: &[u8]) -> (r: i64)
    requires
        pat@.len() >= 1,
    ensures
        r as int == last_pct_for_prefix_spec(text@, pat@),
        -1_000_000_000_000 < r < 1_000_000_000_000,
{
    match crate::text::find_last_line(text, pat, true) {
        Some((a, b)) => {
            let line = vstd::slice::slice_subrange(text, a, b);
            extract_pct_after_colon(line)
        },
        None => 0,
    }
}

/// Milliwatt thousandths to watt thousandths: the sampler reports power in
/// milliwatts and the snapshot keeps watts. Negative readings are treated as
/// malformed and yield zero.
pub open spec fn milli_to_unit(v: int) -> int {
    if v >= 0 {
        v / 1000
    } else {
        0
    }
}

/// Converts a parsed milliwatt value to watt thousandths.
pub fn to_watts(mw: i64) -> (r: i64)
    requires
        -1_000_000_000_000 < mw < 1_000_000_000_000,
    ensures
        r as int == milli_to_unit(mw as int),
        0 <= r < 1_000_000_000_000,
{
    if mw < 0 {
        0
    } else {
        ((mw as u64) / 1000) as i64
    }
}

} // verus!
