//! Byte-level text scanning: substring matching, line splitting, trimming,
//! and selection of the last line that matches a pattern.
//!
//! The sampler emits line-oriented ASCII text with no schema guarantee, so
//! everything here is defined over plain byte sequences.

use vstd::prelude::*;

verus! {

// ---------------------------------------------------------------------------
// Byte classes
// ---------------------------------------------------------------------------

/// ASCII whitespace as the parsers understand it: space, tab, CR, LF.
pub open spec fn is_space(b: u8) -> bool {
    b == 32 || b == 9 || b == 13 || b == 10
}

/// ASCII decimal digit.
pub open spec fn is_digit(b: u8) -> bool {
    48 <= b && b <= 57
}

// ---------------------------------------------------------------------------
// Substring matching
// ---------------------------------------------------------------------------

/// `pat` occurs in `s` starting at index `i`.
pub open spec fn match_at(s: Seq<u8>, pat: Seq<u8>, i: int) -> bool {
    0 <= i && i + pat.len() <= s.len() && s.subrange(i, i + pat.len()) == pat
}

/// `s` begins with `pat`.
pub open spec fn seq_starts_with(s: Seq<u8>, pat: Seq<u8>) -> bool {
    match_at(s, pat, 0)
}

/// `pat` occurs somewhere in `s`.
pub open spec fn contains_seq(s: Seq<u8>, pat: Seq<u8>) -> bool {
    exists|i: int| match_at(s, pat, i)
}

/// Index of the first occurrence of `pat` in `s`; `s.len()` when absent.
pub open spec fn first_sub_idx(s: Seq<u8>, pat: Seq<u8>) -> int
    decreases s.len(),
{
    if seq_starts_with(s, pat) {
        0
    } else if s.len() == 0 {
        0
    } else {
        1 + first_sub_idx(s.skip(1), pat)
    }
}

/// Shifting a match one byte to the right corresponds to matching in the tail.
pub proof fn lemma_match_at_shift(s: Seq<u8>, pat: Seq<u8>, j: int)
    requires
        s.len() >= 1,
        0 <= j,
    ensures
        match_at(s, pat, j + 1) <==> match_at(s.skip(1), pat, j),
{
    if j + 1 + pat.len() <= s.len() {
        assert(s.subrange(j + 1, j + 1 + pat.len()) =~= s.skip(1).subrange(j, j + pat.len()));
    }
}

/// Characterization of `first_sub_idx`: no match strictly before it, a match
/// at it whenever one exists at all, and `s.len()` when none exists.
pub proof fn lemma_first_sub_idx(s: Seq<u8>, pat: Seq<u8>)
    requires
        pat.len() >= 1,
    ensures
        0 <= first_sub_idx(s, pat) <= s.len(),
        forall|j: int| 0 <= j < first_sub_idx(s, pat) ==> !match_at(s, pat, j),
        contains_seq(s, pat) ==> match_at(s, pat, first_sub_idx(s, pat)),
        !contains_seq(s, pat) ==> first_sub_idx(s, pat) == s.len(),
    decreases s.len(),
{
    if !seq_starts_with(s, pat) && s.len() > 0 {
        let t = s.skip(1);
        lemma_first_sub_idx(t, pat);
        assert forall|j: int| 0 <= j implies (match_at(s, pat, j + 1) <==> match_at(t, pat, j)) by {
            lemma_match_at_shift(s, pat, j);
        }
        let i = first_sub_idx(s, pat);
        assert(i == 1 + first_sub_idx(t, pat));
        if contains_seq(s, pat) {
            let w = choose|k: int| match_at(s, pat, k);
            assert(w >= 1);
            assert(match_at(t, pat, w - 1));
            assert(contains_seq(t, pat));
            assert(match_at(t, pat, first_sub_idx(t, pat)));
            assert(match_at(s, pat, first_sub_idx(t, pat) + 1));
            assert(match_at(s, pat, i));
        }
        if !contains_seq(s, pat) {
            if contains_seq(t, pat) {
                let w = choose|k: int| match_at(t, pat, k);
                assert(match_at(s, pat, w + 1));
                assert(false);
            }
            assert(first_sub_idx(t, pat) == t.len());
        }
        assert forall|j: int| 0 <= j < first_sub_idx(s, pat) implies !match_at(s, pat, j) by {
            if j >= 1 {
                assert(!match_at(t, pat, j - 1));
            }
        }
    }
}

/// A single-byte pattern matches at `j` exactly when the byte at `j` is it.
pub proof fn lemma_byte_match(s: Seq<u8>, b: u8)
    ensures
        forall|j: int| #![trigger match_at(s, seq![b], j)]
            0 <= j < s.len() ==> (match_at(s, seq![b], j) <==> s[j] == b),
{
    assert forall|j: int| 0 <= j < s.len() implies (match_at(s, seq![b], j) <==> s[j] == b) by {
        if s[j] == b {
            assert(s.subrange(j, j + 1) =~= seq![b]);
        }
        if match_at(s, seq![b], j) {
            assert(s.subrange(j, j + 1)[0] == b);
        }
    }
}

/// Index of the first occurrence of byte `b` in `s`; `s.len()` when absent.
pub open spec fn first_byte_idx(s: Seq<u8>, b: u8) -> int {
    first_sub_idx(s, seq![b])
}

/// Characterization of `first_byte_idx`.
pub proof fn lemma_first_byte_idx(s: Seq<u8>, b: u8)
    ensures
        0 <= first_byte_idx(s, b) <= s.len(),
        forall|j: int| 0 <= j < first_byte_idx(s, b) ==> s[j] != b,
        first_byte_idx(s, b) < s.len() ==> s[first_byte_idx(s, b)] == b,
{
    lemma_first_sub_idx(s, seq![b]);
    lemma_byte_match(s, b);
    let i = first_byte_idx(s, b);
    assert forall|j: int| 0 <= j < i implies s[j] != b by {
        assert(!match_at(s, seq![b], j));
    }
    if i < s.len() {
        if !contains_seq(s, seq![b]) {
            assert(false);
        }
        assert(match_at(s, seq![b], i));
    }
}

// ---------------------------------------------------------------------------
// Executable matching
// ---------------------------------------------------------------------------

/// Whether `pat` occurs in `s` at index `i`.
pub fn match_at_exec(s: &[u8], pat: &[u8], i: usize) -> (r: bool)
    requires
        i + pat@.len() <= s@.len(),
    ensures
        r == match_at(s@, pat@, i as int),
{
    let n = s.len();
    let mut j: usize = 0;
    while j < pat.len()
        invariant
            n == s@.len(),
            i + pat@.len() <= s@.len(),
            0 <= j <= pat@.len(),
            forall|k: int| 0 <= k < j ==> s@[i + k] == pat@[k],
        decreases pat@.len() - j,
    {
        if s[i + j] != pat[j] {
            proof {
                if match_at(s@, pat@, i as int) {
                    assert(s@.subrange(i as int, i + pat@.len())[j as int] == pat@[j as int]);
                }
            }
            return false;
        }
        j += 1;
    }
    proof {
        assert(s@.subrange(i as int, i + pat@.len()) =~= pat@);
    }
    true
}

/// Whether `s` begins with `pat`.
pub fn starts_with_exec(s: &[u8], pat: &[u8]) -> (r: bool)
    ensures
        r == seq_starts_with(s@, pat@),
{
    if pat.len() > s.len() {
        return false;
    }
    match_at_exec(s, pat, 0)
}

/// First occurrence of `pat` in `s`, as `first_sub_idx` gives it.
pub fn find_sub(s: &[u8], pat: &[u8]) -> (r: usize)
    requires
        pat@.len() >= 1,
    ensures
        r == first_sub_idx(s@, pat@),
{
    proof {
        lemma_first_sub_idx(s@, pat@);
    }
    if pat.len() > s.len() {
        proof {
            if contains_seq(s@, pat@) {
                let w = choose|i: int| match_at(s@, pat@, i);
                assert(false);
            }
        }
        return s.len();
    }
    let n = s.len();
    let bound = n - pat.len();
    let mut i: usize = 0;
    loop
        invariant
            pat@.len() >= 1,
            pat@.len() <= s@.len(),
            n == s@.len(),
            bound == s@.len() - pat@.len(),
            0 <= i <= bound + 1,
            forall|j: int| 0 <= j < i ==> !match_at(s@, pat@, j),
        decreases bound + 1 - i,
    {
        if i > bound {
            proof {
                lemma_first_sub_idx(s@, pat@);
                if contains_seq(s@, pat@) {
                    let w = choose|j: int| match_at(s@, pat@, j);
                    assert(!match_at(s@, pat@, w));
                }
            }
            return n;
        }
        if match_at_exec(s, pat, i) {
            proof {
                lemma_first_sub_idx(s@, pat@);
                assert(contains_seq(s@, pat@));
                assert(match_at(s@, pat@, first_sub_idx(s@, pat@)));
            }
            return i;
        }
        i += 1;
    }
}

/// Whether `pat` occurs anywhere in `s`.
pub fn contains_exec(s: &[u8], pat: &[u8]) -> (r: bool)
    requires
        pat@.len() >= 1,
    ensures
        r == contains_seq(s@, pat@),
{
    let i = find_sub(s, pat);
    proof {
        lemma_first_sub_idx(s@, pat@);
    }
    pat.len() <= s.len() && i <= s.len() - pat.len()
}

/// First occurrence of byte `b` in `s`; `s.len()` when absent.
pub fn find_byte(s: &[u8], b: u8) -> (r: usize)
    ensures
        r == first_byte_idx(s@, b),
{
    let pat: [u8; 1] = [b];
    proof {
        assert(pat@ =~= seq![b]);
    }
    find_sub(s, pat.as_slice())
}

/// Appends every byte of `s` to `v`.
pub fn push_all(v: &mut Vec<u8>, s: &[u8])
    ensures
        final(v)@ == old(v)@ + s@,
{
    let n = s.len();
    let mut i: usize = 0;
    while i < n
        invariant
            0 <= i <= n,
            n == s@.len(),
            v@ == old(v)@ + s@.subrange(0, i as int),
        decreases n - i,
    {
        let b = s[i];
        v.push(b);
        proof {
            assert(s@.subrange(0, i + 1) =~= s@.subrange(0, i as int).push(s@[i as int]));
        }
        i += 1;
    }
    proof {
        assert(s@.subrange(0, n as int) =~= s@);
    }
}

// ---------------------------------------------------------------------------
// Trimming and tokens
// ---------------------------------------------------------------------------

/// Number of leading whitespace bytes.
pub open spec fn leading_spaces(s: Seq<u8>) -> int
    decreases s.len(),
{
    if s.len() == 0 {
        0
    } else if !is_space(s[0]) {
        0
    } else {
        1 + leading_spaces(s.skip(1))
    }
}

/// Number of trailing whitespace bytes.
pub open spec fn trailing_spaces(s: Seq<u8>) -> int
    decreases s.len(),
{
    if s.len() == 0 {
        0
    } else if !is_space(s.last()) {
        0
    } else {
        1 + trailing_spaces(s.drop_last())
    }
}

pub proof fn lemma_leading_spaces(s: Seq<u8>)
    ensures
        0 <= leading_spaces(s) <= s.len(),
        forall|j: int| 0 <= j < leading_spaces(s) ==> is_space(s[j]),
        leading_spaces(s) < s.len() ==> !is_space(s[leading_spaces(s)]),
    decreases s.len(),
{
    if s.len() > 0 && is_space(s[0]) {
        lemma_leading_spaces(s.skip(1));
        assert forall|j: int| 0 <= j < leading_spaces(s) implies is_space(s[j]) by {
            if j >= 1 {
                assert(is_space(s.skip(1)[j - 1]));
                assert(s.skip(1)[j - 1] == s[j]);
            }
        }
        if leading_spaces(s) < s.len() {
            assert(s.skip(1)[leading_spaces(s) - 1] == s[leading_spaces(s)]);
        }
    }
}

pub proof fn lemma_trailing_spaces(s: Seq<u8>)
    ensures
        0 <= trailing_spaces(s) <= s.len(),
        forall|j: int| s.len() - trailing_spaces(s) <= j < s.len() ==> is_space(s[j]),
        trailing_spaces(s) < s.len() ==> !is_space(s[s.len() - trailing_spaces(s) - 1]),
    decreases s.len(),
{
    if s.len() > 0 && is_space(s.last()) {
        lemma_trailing_spaces(s.drop_last());
        let t = s.drop_last();
        assert forall|j: int| s.len() - trailing_spaces(s) <= j < s.len() implies is_space(
            s[j],
        ) by {
            if j < s.len() - 1 {
                assert(is_space(t[j]));
                assert(t[j] == s[j]);
            }
        }
        if trailing_spaces(s) < s.len() {
            assert(trailing_spaces(t) < t.len());
            assert(t[t.len() - trailing_spaces(t) - 1] == s[s.len() - trailing_spaces(s) - 1]);
        }
    }
}

/// `s` with leading and trailing whitespace removed.
pub open spec fn trim(s: Seq<u8>) -> Seq<u8> {
    let a = leading_spaces(s);
    let b = trailing_spaces(s);
    if a + b <= s.len() {
        s.subrange(a, s.len() - b)
    } else {
        Seq::empty()
    }
}

/// Every byte of `s` is whitespace (the sampler text counts as blank).
pub open spec fn all_spaces(s: Seq<u8>) -> bool {
    forall|j: int| 0 <= j < s.len() ==> is_space(s[j])
}

/// Bounds `(a, b)` of `s` with surrounding whitespace removed, so that
/// `s[a..b]` is the trimmed content.
pub fn trim_range(s: &[u8]) -> (r: (usize, usize))
    ensures
        r.0 <= r.1 <= s@.len(),
        s@.subrange(r.0 as int, r.1 as int) == trim(s@),
{
    proof {
        lemma_leading_spaces(s@);
        lemma_trailing_spaces(s@);
    }
    let n = s.len();
    let mut a: usize = 0;
    while a < n && (s[a] == 32 || s[a] == 9 || s[a] == 13 || s[a] == 10)
        invariant
            0 <= a <= n,
            n == s@.len(),
            forall|j: int| 0 <= j < a ==> is_space(s@[j]),
        decreases n - a,
    {
        a += 1;
    }
    proof {
        // a is exactly the number of leading spaces.
        assert(leading_spaces(s@) == a) by {
            if leading_spaces(s@) < a {
                assert(is_space(s@[leading_spaces(s@)]));
            }
            if leading_spaces(s@) > a {
                assert(is_space(s@[a as int]));
            }
        }
    }
    if a == n {
        // All whitespace: the trimmed content is empty.
        proof {
            assert(trim(s@) =~= s@.subrange(a as int, a as int));
        }
        return (n, n);
    }
    let mut b: usize = n;
    while b > a && (s[b - 1] == 32 || s[b - 1] == 9 || s[b - 1] == 13 || s[b - 1] == 10)
        invariant
            a <= b <= n,
            n == s@.len(),
            a < n,
            !is_space(s@[a as int]),
            forall|j: int| b <= j < n ==> is_space(s@[j]),
        decreases b,
    {
        b -= 1;
    }
    proof {
        // b > a since s[a] is not a space; so the loop stopped on a non-space.
        assert(b > a);
        assert(trailing_spaces(s@) == n - b) by {
            if trailing_spaces(s@) < n - b {
                assert(is_space(s@[s@.len() - trailing_spaces(s@) - 1]));
            }
            if trailing_spaces(s@) > n - b {
                assert(is_space(s@[b - 1]));
            }
        }
        assert(s@.subrange(a as int, b as int) =~= trim(s@));
    }
    (a, b)
}

// ---------------------------------------------------------------------------
// Lines
// ---------------------------------------------------------------------------

/// Index of the last newline in `s`, or -1 when `s` has none.
pub open spec fn last_nl(s: Seq<u8>) -> int
    decreases s.len(),
{
    if s.len() == 0 {
        -1
    } else if s.last() == 10 {
        s.len() - 1
    } else {
        last_nl(s.drop_last())
    }
}

pub proof fn lemma_last_nl(s: Seq<u8>)
    ensures
        -1 <= last_nl(s) < s.len(),
        0 <= last_nl(s) ==> s[last_nl(s)] == 10,
        forall|j: int| last_nl(s) < j < s.len() ==> s[j] != 10,
    decreases s.len(),
{
    if s.len() > 0 && s.last() != 10 {
        lemma_last_nl(s.drop_last());
        let t = s.drop_last();
        assert forall|j: int| last_nl(s) < j < s.len() implies s[j] != 10 by {
            if j < s.len() - 1 {
                assert(t[j] != 10);
                assert(t[j] == s[j]);
            }
        }
        if 0 <= last_nl(s) {
            assert(t[last_nl(t)] == s[last_nl(s)]);
        }
    }
}

/// `s` split at every newline byte. The newline bytes themselves are not part
/// of any line; text without newlines is one single line, and empty text is
/// one empty line.
pub open spec fn split_lines(s: Seq<u8>) -> Seq<Seq<u8>>
    decreases s.len(),
{
    let i = last_nl(s);
    if 0 <= i < s.len() {
        split_lines(s.subrange(0, i)).push(s.subrange(i + 1, s.len() as int))
    } else {
        seq![s]
    }
}

/// The last line of `ls` satisfying `p`, scanning from the end.
pub open spec fn last_line_matching(ls: Seq<Seq<u8>>, p: spec_fn(Seq<u8>) -> bool) -> Option<
    Seq<u8>,
>
    decreases ls.len(),
{
    if ls.len() == 0 {
        None
    } else if p(ls.last()) {
        Some(ls.last())
    } else {
        last_line_matching(ls.drop_last(), p)
    }
}

/// When exactly the lines equal to `l` satisfy `p` and at least one line does,
/// the selected line is `l`.
pub proof fn lemma_last_line_unique(ls: Seq<Seq<u8>>, p: spec_fn(Seq<u8>) -> bool, l: Seq<u8>)
    requires
        exists|i: int| 0 <= i < ls.len() && p(#[trigger] ls[i]),
        forall|i: int| 0 <= i < ls.len() && p(#[trigger] ls[i]) ==> ls[i] == l,
    ensures
        last_line_matching(ls, p) == Some(l),
    decreases ls.len(),
{
    let w = choose|i: int| 0 <= i < ls.len() && p(#[trigger] ls[i]);
    if p(ls.last()) {
        assert(ls[ls.len() - 1] == l);
    } else {
        assert(w < ls.len() - 1);
        assert(ls.drop_last()[w] == ls[w]);
        lemma_last_line_unique(ls.drop_last(), p, l);
    }
}

/// When no line satisfies `p`, nothing is selected.
pub proof fn lemma_last_line_none(ls: Seq<Seq<u8>>, p: spec_fn(Seq<u8>) -> bool)
    requires
        forall|i: int| 0 <= i < ls.len() ==> !p(#[trigger] ls[i]),
    ensures
        last_line_matching(ls, p) == None::<Seq<u8>>,
    decreases ls.len(),
{
    if ls.len() > 0 {
        assert(!p(ls[ls.len() - 1]));
        assert forall|i: int| 0 <= i < ls.drop_last().len() implies !p(
            #[trigger] ls.drop_last()[i],
        ) by {
            assert(ls.drop_last()[i] == ls[i]);
        }
        lemma_last_line_none(ls.drop_last(), p);
    }
}

/// The line predicate used throughout: a fixed pattern either anchored at the
/// start of the line or occurring anywhere in it.
pub open spec fn line_pred(pat: Seq<u8>, prefix_only: bool) -> spec_fn(Seq<u8>) -> bool {
    if prefix_only {
        |l: Seq<u8>| seq_starts_with(l, pat)
    } else {
        |l: Seq<u8>| contains_seq(l, pat)
    }
}

/// Bounds of the last line of `text` matching `pat` (anchored when
/// `prefix_only`), or `None` when no line matches.
pub fn find_last_line(text: &[u8], pat: &[u8], prefix_only: bool) -> (r: Option<(usize, usize)>)
    requires
        pat@.len() >= 1,
    ensures
        match r {
            Some(ab) => ab.0 <= ab.1 <= text@.len() && last_line_matching(
                split_lines(text@),
                line_pred(pat@, prefix_only),
            ) == Some(text@.subrange(ab.0 as int, ab.1 as int)),
            None => last_line_matching(split_lines(text@), line_pred(pat@, prefix_only))
                == None::<Seq<u8>>,
        },
{
    let ghost p = line_pred(pat@, prefix_only);
    let mut end: usize = text.len();
    proof {
        assert(text@.subrange(0, end as int) =~= text@);
    }
    loop
        invariant
            end <= text@.len(),
            pat@.len() >= 1,
            p == line_pred(pat@, prefix_only),
            last_line_matching(split_lines(text@.subrange(0, end as int)), p)
                == last_line_matching(split_lines(text@), p),
        decreases end,
    {
        let ghost pre = text@.subrange(0, end as int);
        // Find the start of the last line of text[..end].
        let mut k: usize = end;
        while k > 0 && text[k - 1] != 10
            invariant
                k <= end <= text@.len(),
                forall|j: int| k <= j < end ==> text@[j] != 10,
            decreases k,
        {
            k -= 1;
        }
        proof {
            lemma_last_nl(pre);
            assert forall|j: int| k <= j < end implies pre[j] != 10 by {}
            if k > 0 {
                assert(pre[k - 1] == 10);
                assert(last_nl(pre) == k - 1);
            } else {
                assert(last_nl(pre) == -1);
            }
        }
        let line = vstd::slice::slice_subrange(text, k, end);
        proof {
            assert(line@ =~= pre.subrange(k as int, end as int));
        }
        let matched = if prefix_only {
            starts_with_exec(line, pat)
        } else {
            contains_exec(line, pat)
        };
        proof {
            if prefix_only {
                assert(p(line@) == seq_starts_with(line@, pat@));
            } else {
                assert(p(line@) == contains_seq(line@, pat@));
            }
            assert(p(line@) == matched);
        }
        if matched {
            proof {
                if k > 0 {
                    assert(split_lines(pre) == split_lines(pre.subrange(0, k - 1)).push(
                        pre.subrange(k as int, end as int),
                    ));
                } else {
                    assert(split_lines(pre) =~= seq![pre]);
                    assert(pre.subrange(k as int, end as int) =~= pre);
                }
                assert(last_line_matching(split_lines(pre), p) == Some(line@));
            }
            return Some((k, end));
        }
        if k == 0 {
            proof {
                assert(split_lines(pre) =~= seq![pre]);
                assert(pre.subrange(0, end as int) =~= pre);
                assert(!p(pre));
                assert(seq![pre].drop_last() =~= Seq::<Seq<u8>>::empty());
                assert(last_line_matching(Seq::<Seq<u8>>::empty(), p) == None::<Seq<u8>>);
                assert(last_line_matching(seq![pre], p) == None::<Seq<u8>>);
            }
            return None;
        }
        proof {
            let rest = split_lines(pre.subrange(0, k - 1));
            assert(split_lines(pre) == rest.push(pre.subrange(k as int, end as int)));
            assert(split_lines(pre).last() == pre.subrange(k as int, end as int));
            assert(split_lines(pre).drop_last() =~= rest);
            assert(last_line_matching(split_lines(pre), p) == last_line_matching(rest, p));
            assert(pre.subrange(0, k - 1) =~= text@.subrange(0, k - 1));
        }
        end = k - 1;
    }
}

} // verus!
