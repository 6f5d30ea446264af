//! Memory occupancy from the two platform query commands.
//!
//! One command prints the physical memory size as a single integer; the other
//! prints a line-oriented report of labeled page counts such as
//! `Pages active: 100.`. Used memory is the sum, over every line whose label
//! is in the configured category set, of the page count times the configured
//! page size. Both computations are best-effort: unparsable output degrades
//! to zero and unparsable lines are skipped, never an error.

use vstd::prelude::*;

use crate::extract::after_colon;
use crate::num::digits_val;
use crate::num::parse_u64_digits;
use crate::num::u64_digits_ok;
use crate::text::contains_seq;
use crate::text::lemma_last_nl;
use crate::text::split_lines;
use crate::text::trim;
use crate::text::trim_range;

verus! {

/// Categories of the page report that count as used memory, and the page
/// size in bytes. Both vary across hardware generations, so they are
/// configuration, not constants: each label is matched as a substring of a
/// report line.
pub struct MemoryConfig {
    pub labels: Vec<Vec<u8>>,
    pub page_size: u64,
}

/// The page count of a report line: everything after the colon, trimmed,
/// with one trailing period stripped, read as an unsigned integer.
/// Negative result means the line carries no usable count.
pub open spec fn pages_of_line(l: Seq<u8>) -> int {
    let seg0 = trim(after_colon(l));
    let seg = if seg0.len() > 0 && seg0.last() == 46 {
        seg0.drop_last()
    } else {
        seg0
    };
    if u64_digits_ok(seg) {
        digits_val(seg)
    } else {
        -1
    }
}

/// Whether a line carries one of the configured category labels.
pub open spec fn line_labeled(l: Seq<u8>, labels: Seq<Seq<u8>>) -> bool {
    exists|k: int| 0 <= k < labels.len() && contains_seq(l, #[trigger] labels[k])
}

/// The bytes one report line contributes: page count times page size for a
/// labeled, parsable line whose product fits in 64 bits; zero otherwise.
pub open spec fn line_used_bytes(l: Seq<u8>, labels: Seq<Seq<u8>>, page: u64) -> int {
    if line_labeled(l, labels) {
        let p = pages_of_line(l);
        if p >= 0 && page > 0 && p <= u64::MAX as int / page as int {
            p * page
        } else {
            0
        }
    } else {
        0
    }
}

/// Addition clamped to the 64-bit range.
pub open spec fn sat_add64(a: int, b: int) -> int {
    if a + b > u64::MAX {
        u64::MAX as int
    } else {
        a + b
    }
}

/// Total used bytes over a sequence of report lines, accumulated with
/// saturating addition.
pub open spec fn used_sum(ls: Seq<Seq<u8>>, labels: Seq<Seq<u8>>, page: u64) -> int
    decreases ls.len(),
{
    if ls.len() == 0 {
        0
    } else {
        sat_add64(
            used_sum(ls.drop_last(), labels, page),
            line_used_bytes(ls.last(), labels, page),
        )
    }
}

/// Used bytes of a whole page report.
pub open spec fn spec_used_memory(t: Seq<u8>, labels: Seq<Seq<u8>>, page: u64) -> int {
    used_sum(split_lines(t), labels, page)
}

/// Physical memory size: the query's entire trimmed output read as an
/// unsigned integer, zero when it is not one.
pub open spec fn spec_total_memory(out: Seq<u8>) -> int {
    let t = trim(out);
    if u64_digits_ok(t) {
        digits_val(t)
    } else {
        0
    }
}

/// One line's contribution is within the 64-bit range.
pub proof fn lemma_line_used_bounds(l: Seq<u8>, labels: Seq<Seq<u8>>, page: u64)
    ensures
        0 <= line_used_bytes(l, labels, page) <= u64::MAX,
{
    if line_labeled(l, labels) {
        let p = pages_of_line(l);
        if p >= 0 && page > 0 && p <= u64::MAX as int / page as int {
            let q = u64::MAX as int / page as int;
            vstd::arithmetic::div_mod::lemma_fundamental_div_mod(u64::MAX as int, page as int);
            vstd::arithmetic::div_mod::lemma_mod_bound(u64::MAX as int, page as int);
            assert(p * page >= 0) by (nonlinear_arith)
                requires
                    p >= 0,
                    page as int >= 0,
            ;
            assert(p * page <= q * page) by (nonlinear_arith)
                requires
                    0 <= p <= q,
                    page as int >= 0,
            ;
            assert(q * page == page * q) by (nonlinear_arith);
            assert(page as int * q <= u64::MAX);
        }
    }
}

/// The running total is within the 64-bit range.
pub proof fn lemma_used_sum_bounds(ls: Seq<Seq<u8>>, labels: Seq<Seq<u8>>, page: u64)
    ensures
        0 <= used_sum(ls, labels, page) <= u64::MAX,
    decreases ls.len(),
{
    if ls.len() > 0 {
        lemma_used_sum_bounds(ls.drop_last(), labels, page);
        lemma_line_used_bounds(ls.last(), labels, page);
    }
}

/// Parses the physical-memory query's output.
pub fn total_memory_from_output(out: &[u8]) -> (r: u64)
    ensures
        r as int == spec_total_memory(out@),
{
    let (a, b) = trim_range(out);
    let t = vstd::slice::slice_subrange(out, a, b);
    proof {
        assert(t@ == trim(out@));
    }
    match parse_u64_digits(t) {
        Some(v) => v,
        None => 0,
    }
}

/// The bytes one report line contributes.
fn line_used_exec(line: &[u8], labels: &Vec<Vec<u8>>, page: u64) -> (r: u64)
    ensures
        r as int == line_used_bytes(line@, labels.deep_view(), page),
{
    proof {
        lemma_line_used_bounds(line@, labels.deep_view(), page);
    }
    let ghost lv = labels.deep_view();
    let nl = labels.len();
    let mut matched = false;
    let mut k: usize = 0;
    while k < nl
        invariant
            0 <= k <= nl,
            nl == labels@.len(),
            lv == labels.deep_view(),
            matched == exists|j: int| 0 <= j < k && contains_seq(line@, #[trigger] lv[j]),
        decreases nl - k,
    {
        if !matched {
            let lab = &labels[k];
            proof {
                assert(lv[k as int] == labels@[k as int]@);
            }
            if lab.len() == 0 {
                proof {
                    assert(crate::text::match_at(line@, lv[k as int], 0)) by {
                        assert(line@.subrange(0, 0) =~= lv[k as int]);
                    }
                }
                matched = true;
            } else if crate::text::contains_exec(line, lab.as_slice()) {
                matched = true;
            }
        }
        k += 1;
    }
    if !matched {
        proof {
            assert(!line_labeled(line@, lv));
        }
        return 0;
    }
    // The count after the colon, trimmed, with one trailing period stripped.
    let n = line.len();
    let c = crate::text::find_byte(line, 58);
    proof {
        crate::text::lemma_first_byte_idx(line@, 58);
    }
    let seg: &[u8] = if c < n {
        vstd::slice::slice_subrange(line, c + 1, n)
    } else {
        vstd::slice::slice_subrange(line, n, n)
    };
    proof {
        if c < n {
            assert(seg@ =~= after_colon(line@));
        } else {
            assert(seg@ =~= after_colon(line@));
        }
    }
    let (ta, tb0) = trim_range(seg);
    let tb = if tb0 > ta && seg[tb0 - 1] == 46 {
        tb0 - 1
    } else {
        tb0
    };
    let tok = vstd::slice::slice_subrange(seg, ta, tb);
    let ghost seg0 = trim(after_colon(line@));
    proof {
        if tb0 > ta && seg@[tb0 - 1] == 46 {
            assert(seg0.len() > 0 && seg0.last() == 46);
            assert(tok@ =~= seg0.drop_last());
        } else {
            assert(tok@ =~= seg0);
        }
    }
    let p = match parse_u64_digits(tok) {
        Some(v) => v,
        None => {
            proof {
                assert(pages_of_line(line@) == -1);
            }
            return 0;
        },
    };
    proof {
        assert(pages_of_line(line@) == p as int);
    }
    if page == 0 {
        return 0;
    }
    let q = u64::MAX / page;
    if p <= q {
        proof {
            vstd::arithmetic::div_mod::lemma_fundamental_div_mod(u64::MAX as int, page as int);
            vstd::arithmetic::div_mod::lemma_mod_bound(u64::MAX as int, page as int);
            assert(p as int * page as int <= q as int * page as int) by (nonlinear_arith)
                requires
                    0 <= p as int <= q as int,
                    page as int >= 0,
            ;
        }
        p * page
    } else {
        0
    }
}

/// Sums the used-memory categories of the whole page report: every line
/// whose label is configured contributes its page count times the page size;
/// unparsable lines are skipped, and the total saturates rather than wraps.
pub fn used_memory_from_report(report: &[u8], labels: &Vec<Vec<u8>>, page_size: u64) -> (r: u64)
    ensures
        r as int == spec_used_memory(report@, labels.deep_view(), page_size),
{
    let ghost lv = labels.deep_view();
    let mut acc: u64 = 0;
    let mut end: usize = report.len();
    proof {
        assert(report@.subrange(0, end as int) =~= report@);
        lemma_used_sum_bounds(split_lines(report@), lv, page_size);
    }
    loop
        invariant
            end <= report@.len(),
            lv == labels.deep_view(),
            sat_add64(
                used_sum(split_lines(report@.subrange(0, end as int)), lv, page_size),
                acc as int,
            ) == spec_used_memory(report@, lv, page_size),
        decreases end,
    {
        let ghost pre = report@.subrange(0, end as int);
        let mut k: usize = end;
        while k > 0 && report[k - 1] != 10
            invariant
                k <= end <= report@.len(),
                forall|j: int| k <= j < end ==> report@[j] != 10,
            decreases k,
        {
            k -= 1;
        }
        proof {
            lemma_last_nl(pre);
            assert forall|j: int| k <= j < end implies pre[j] != 10 by {}
            if k > 0 {
                assert(pre[k - 1] == 10);
                assert(crate::text::last_nl(pre) == k - 1);
            } else {
                assert(crate::text::last_nl(pre) == -1);
            }
        }
        let line = vstd::slice::slice_subrange(report, k, end);
        proof {
            assert(line@ =~= pre.subrange(k as int, end as int));
        }
        let c = line_used_exec(line, labels, page_size);
        let newacc = if c > u64::MAX - acc {
            u64::MAX
        } else {
            c + acc
        };
        proof {
            lemma_line_used_bounds(line@, lv, page_size);
        }
        if k == 0 {
            proof {
                assert(split_lines(pre) =~= seq![pre]);
                assert(pre.subrange(0, end as int) =~= pre);
                assert(seq![pre].drop_last() =~= Seq::<Seq<u8>>::empty());
                assert(used_sum(Seq::<Seq<u8>>::empty(), lv, page_size) == 0);
                assert(used_sum(seq![pre], lv, page_size) == sat_add64(
                    0,
                    line_used_bytes(pre, lv, page_size),
                ));
                assert(newacc as int == sat_add64(
                    used_sum(split_lines(pre), lv, page_size),
                    acc as int,
                ));
            }
            return newacc;
        }
        proof {
            let rest = split_lines(pre.subrange(0, k - 1));
            assert(split_lines(pre) == rest.push(pre.subrange(k as int, end as int)));
            assert(split_lines(pre).drop_last() =~= rest);
            assert(split_lines(pre).last() == line@);
            lemma_used_sum_bounds(rest, lv, page_size);
            assert(used_sum(split_lines(pre), lv, page_size) == sat_add64(
                used_sum(rest, lv, page_size),
                line_used_bytes(line@, lv, page_size),
            ));
            assert(pre.subrange(0, k - 1) =~= report@.subrange(0, k - 1));
        }
        acc = newacc;
        end = k - 1;
    }
}

} // verus!
