//! GPU metrics.
//!
//! The sampler reports GPU power in milliwatts on a `GPU Power:` line and the
//! current clock on a `GPU HW active frequency:` line. Utilization comes in
//! two report variants. The detailed form carries a `GPU HW active
//! residency:` line with a per-frequency histogram `(<freq> MHz: <pct>% ...)`;
//! usage is then the clock's share of the highest histogram frequency times
//! the active residency (one hundred minus the reported idle residency),
//! clamped to one hundred percent. The simple form has only a `GPU idle
//! residency:` line, and usage is its complement. Missing lines leave every
//! field at zero.

use vstd::prelude::*;

use crate::extract::last_num_for_prefix;
use crate::extract::last_num_for_prefix_spec;
use crate::extract::extract_pct_after_marker;
use crate::extract::milli_to_unit;
use crate::extract::num_after_colon;
use crate::extract::pct_after_marker;
use crate::extract::to_watts;
use crate::num::fixed3_or_zero;
use crate::num::lemma_fixed3_bound;
use crate::num::parse_fixed3;
use crate::text::contains_seq;
use crate::text::is_digit;
use crate::text::last_line_matching;
use crate::text::lemma_last_line_none;
use crate::text::lemma_last_line_unique;
use crate::text::line_pred;
use crate::text::match_at;
use crate::text::match_at_exec;
use crate::text::seq_starts_with;
use crate::text::split_lines;

verus! {

/// One GPU's sample. `power` is in thousandths of a watt, `frequency` in
/// thousandths of a megahertz, `usage` in thousandths of a percent.
#[derive(Clone, Copy, PartialEq, Eq, Structural, Debug)]
pub struct GpuUnit {
    pub id: u32,
    pub power: i64,
    pub frequency: i64,
    pub usage: i64,
}

/// `"GPU Power:"`.
pub open spec fn lit_gpu_power() -> Seq<u8> {
    seq![71u8, 80u8, 85u8, 32u8, 80u8, 111u8, 119u8, 101u8, 114u8, 58u8]
}

/// `"GPU HW active frequency:"`.
pub open spec fn lit_gpu_hw_freq() -> Seq<u8> {
    seq![
        71u8, 80u8, 85u8, 32u8, 72u8, 87u8, 32u8, 97u8, 99u8, 116u8, 105u8, 118u8, 101u8, 32u8,
        102u8, 114u8, 101u8, 113u8, 117u8, 101u8, 110u8, 99u8, 121u8, 58u8,
    ]
}

/// `"GPU HW active residency:"`.
pub open spec fn lit_gpu_hw_res() -> Seq<u8> {
    seq![
        71u8, 80u8, 85u8, 32u8, 72u8, 87u8, 32u8, 97u8, 99u8, 116u8, 105u8, 118u8, 101u8, 32u8,
        114u8, 101u8, 115u8, 105u8, 100u8, 101u8, 110u8, 99u8, 121u8, 58u8,
    ]
}

/// `"GPU idle residency:"`.
pub open spec fn lit_gpu_idle() -> Seq<u8> {
    seq![
        71u8, 80u8, 85u8, 32u8, 105u8, 100u8, 108u8, 101u8, 32u8, 114u8, 101u8, 115u8, 105u8,
        100u8, 101u8, 110u8, 99u8, 121u8, 58u8,
    ]
}

/// `"MHz:"`, the marker closing each histogram bucket's frequency.
pub open spec fn lit_mhz() -> Seq<u8> {
    seq![77u8, 72u8, 122u8, 58u8]
}

/// A byte that can stand in a numeric token: digit, point or minus.
pub open spec fn is_numchar(b: u8) -> bool {
    is_digit(b) || b == 46 || b == 45
}

/// Start of the run of spaces ending at `j` (scanning left).
pub open spec fn sp_start(l: Seq<u8>, j: int) -> int
    decreases j,
{
    if j <= 0 {
        0
    } else if j <= l.len() && l[j - 1] == 32 {
        sp_start(l, j - 1)
    } else {
        j
    }
}

/// Start of the run of numeric-token bytes ending at `j` (scanning left).
pub open spec fn tok_start(l: Seq<u8>, j: int) -> int
    decreases j,
{
    if j <= 0 {
        0
    } else if j <= l.len() && is_numchar(l[j - 1]) {
        tok_start(l, j - 1)
    } else {
        j
    }
}

/// The frequency bucket value whose `MHz:` marker starts at `i`: the numeric
/// token standing just before the marker, separated by optional spaces.
pub open spec fn bucket_at(l: Seq<u8>, i: int) -> int {
    let j = sp_start(l, i);
    let k = tok_start(l, j);
    if 0 <= k < j {
        fixed3_or_zero(l.subrange(k, j))
    } else {
        0
    }
}

/// The largest frequency bucket among the markers in `l[..n]`, at least zero.
pub open spec fn max_bucket_upto(l: Seq<u8>, n: int) -> int
    decreases n,
{
    if n <= 0 {
        0
    } else {
        let m = max_bucket_upto(l, n - 1);
        if match_at(l, lit_mhz(), n - 1) {
            let c = bucket_at(l, n - 1);
            if c > m {
                c
            } else {
                m
            }
        } else {
            m
        }
    }
}

/// The largest frequency bucket of the histogram line `l`.
pub open spec fn max_bucket(l: Seq<u8>) -> int {
    max_bucket_upto(l, l.len() as int)
}

pub proof fn lemma_max_bucket_bound(l: Seq<u8>, n: int)
    ensures
        0 <= max_bucket_upto(l, n) < 1_000_000_000_000,
    decreases n,
{
    if n > 0 {
        lemma_max_bucket_bound(l, n - 1);
        let j = sp_start(l, n - 1);
        let k = tok_start(l, j);
        if 0 <= k < j {
            lemma_fixed3_bound(l.subrange(k, j));
        }
    }
}

/// Scans a histogram line for its largest frequency bucket.
pub fn max_bucket_exec(line: &[u8]) -> (r: i64)
    ensures
        r as int == max_bucket(line@),
        0 <= r < 1_000_000_000_000,
{
    proof {
        lemma_max_bucket_bound(line@, line@.len() as int);
    }
    let n = line.len();
    let mhz: [u8; 4] = [77, 72, 122, 58];
    proof {
        assert(mhz@ =~= lit_mhz());
    }
    let mut m: i64 = 0;
    let mut i: usize = 0;
    while i < n
        invariant
            0 <= i <= n,
            n == line@.len(),
            mhz@ == lit_mhz(),
            m as int == max_bucket_upto(line@, i as int),
            0 <= m < 1_000_000_000_000,
        decreases n - i,
    {
        let is_mhz = if n - i >= 4 {
            match_at_exec(line, mhz.as_slice(), i)
        } else {
            proof {
                assert(!match_at(line@, lit_mhz(), i as int));
            }
            false
        };
        if is_mhz {
            let mut j: usize = i;
            while j > 0 && line[j - 1] == 32
                invariant
                    0 <= j <= i <= n,
                    n == line@.len(),
                    sp_start(line@, i as int) == sp_start(line@, j as int),
                decreases j,
            {
                j -= 1;
            }
            proof {
                assert(sp_start(line@, j as int) == j);
            }
            let mut k: usize = j;
            while k > 0 && (
                (line[k - 1] >= 48 && line[k - 1] <= 57)
                || line[k - 1] == 46
                || line[k - 1] == 45
            )
                invariant
                    0 <= k <= j <= n,
                    n == line@.len(),
                    tok_start(line@, j as int) == tok_start(line@, k as int),
                decreases k,
            {
                k -= 1;
            }
            proof {
                assert(tok_start(line@, k as int) == k);
            }
            if k < j {
                let tok = vstd::slice::slice_subrange(line, k, j);
                let v = parse_fixed3(tok);
                proof {
                    assert(tok@ == line@.subrange(k as int, j as int));
                    assert(bucket_at(line@, i as int) == v as int);
                }
                if v > m {
                    m = v;
                }
            } else {
                proof {
                    assert(bucket_at(line@, i as int) == 0);
                }
            }
        }
        i += 1;
    }
    m
}

/// Usage from the detailed report: the clock's share of the histogram
/// ceiling, times the active residency, clamped to one hundred percent.
/// A missing or zero ceiling, a non-positive clock, or an idle residency of
/// one hundred percent or more all yield zero.
pub open spec fn detailed_usage(cur: int, mx: int, idle: int) -> int {
    let fu = if mx > 0 && cur > 0 {
        cur * 100000 / mx
    } else {
        0
    };
    let act = 100000 - idle;
    if act <= 0 || fu <= 0 {
        0
    } else {
        let u = fu * act / 100000;
        if u > 100000 {
            100000
        } else {
            u
        }
    }
}

/// Computes `detailed_usage` without overflow.
pub fn compute_detailed_usage(cur: i64, mx: i64, idle: i64) -> (r: i64)
    requires
        -1_000_000_000_000 < cur < 1_000_000_000_000,
        -1_000_000_000_000 < mx < 1_000_000_000_000,
        -1_000_000_000_000 < idle < 1_000_000_000_000,
    ensures
        r as int == detailed_usage(cur as int, mx as int, idle as int),
        0 <= r <= 100000,
{
    let fu: i64 = if mx > 0 && cur > 0 {
        let num: u64 = (cur as u64) * 100000;
        let q: u64 = num / (mx as u64);
        proof {
            assert(num as int / (mx as int) <= num as int) by (nonlinear_arith)
                requires
                    mx as int >= 1,
                    num as int >= 0,
            ;
        }
        q as i64
    } else {
        0
    };
    proof {
        assert(fu < 100_000_000_000_000_001);
    }
    let act: i64 = 100000 - idle;
    if act <= 0 || fu <= 0 {
        return 0;
    }
    proof {
        assert((fu as int) * (act as int) <= 100_000_000_000_000_001 * 1_100_000_000_000)
            by (nonlinear_arith)
            requires
                0 <= fu as int <= 100_000_000_000_000_001,
                0 <= act as int <= 1_100_000_000_000,
        ;
    }
    let prod: u128 = (fu as u128) * (act as u128);
    let u = prod / 100000;
    if u > 100000 {
        100000
    } else {
        u as i64
    }
}

/// GPU power in thousandths of a watt: the last `GPU Power:` line's value,
/// converted from milliwatts; zero when absent.
pub open spec fn spec_gpu_power(t: Seq<u8>) -> int {
    milli_to_unit(last_num_for_prefix_spec(t, lit_gpu_power()))
}

/// GPU clock in thousandths of a megahertz: the last `GPU HW active
/// frequency:` line's value; zero when absent.
pub open spec fn spec_gpu_frequency(t: Seq<u8>) -> int {
    last_num_for_prefix_spec(t, lit_gpu_hw_freq())
}

/// The reported idle residency in thousandths of a percent: the percentage
/// after the marker on the last line containing `GPU idle residency:`; zero
/// when no line carries it.
pub open spec fn spec_gpu_idle(t: Seq<u8>) -> int {
    match last_line_matching(split_lines(t), line_pred(lit_gpu_idle(), false)) {
        Some(l) => pct_after_marker(l, lit_gpu_idle()),
        None => 0,
    }
}

/// Whether any line carries the idle-residency marker.
pub open spec fn gpu_idle_present(t: Seq<u8>) -> bool {
    last_line_matching(split_lines(t), line_pred(lit_gpu_idle(), false)) is Some
}

/// GPU usage in thousandths of a percent. The detailed histogram form is
/// preferred; without it, the idle-residency complement; without either,
/// zero. The simple form is deliberately not clamped: an out-of-range idle
/// reading passes through as its complement.
pub open spec fn spec_gpu_usage(t: Seq<u8>) -> int {
    match last_line_matching(split_lines(t), line_pred(lit_gpu_hw_res(), false)) {
        Some(l) => detailed_usage(spec_gpu_frequency(t), max_bucket(l), spec_gpu_idle(t)),
        None => if gpu_idle_present(t) {
            100000 - spec_gpu_idle(t)
        } else {
            0
        },
    }
}

/// Parses the GPU section of the sampler text. Returns the single reported
/// unit together with the aggregate power and usage (this platform reports
/// exactly one GPU, with id 0).
pub fn parse_gpu_metrics(text: &[u8]) -> (r: (Vec<GpuUnit>, i64, i64))
    ensures
        r.0@.len() == 1,
        r.0@[0].id == 0,
        r.0@[0].power == r.1,
        r.0@[0].usage == r.2,
        r.0@[0].frequency as int == spec_gpu_frequency(text@),
        r.1 as int == spec_gpu_power(text@),
        r.2 as int == spec_gpu_usage(text@),
        0 <= r.1 < 1_000_000_000_000,
        -2_000_000_000_000 < r.2 < 2_000_000_000_000,
{
    let power_pat: [u8; 10] = [71, 80, 85, 32, 80, 111, 119, 101, 114, 58];
    proof {
        assert(power_pat@ =~= lit_gpu_power());
    }
    let mw = last_num_for_prefix(text, power_pat.as_slice());
    let power = to_watts(mw);

    let freq_pat: [u8; 24] = [
        71,
        80,
        85,
        32,
        72,
        87,
        32,
        97,
        99,
        116,
        105,
        118,
        101,
        32,
        102,
        114,
        101,
        113,
        117,
        101,
        110,
        99,
        121,
        58,
    ];
    proof {
        assert(freq_pat@ =~= lit_gpu_hw_freq());
    }
    let frequency = last_num_for_prefix(text, freq_pat.as_slice());

    let idle_pat: [u8; 19] = [
        71,
        80,
        85,
        32,
        105,
        100,
        108,
        101,
        32,
        114,
        101,
        115,
        105,
        100,
        101,
        110,
        99,
        121,
        58,
    ];
    proof {
        assert(idle_pat@ =~= lit_gpu_idle());
    }
    let (idle, idle_present): (i64, bool) = match crate::text::find_last_line(
        text,
        idle_pat.as_slice(),
        false,
    ) {
        Some((a, b)) => {
            let line = vstd::slice::slice_subrange(text, a, b);
            (extract_pct_after_marker(line, idle_pat.as_slice()), true)
        },
        None => (0, false),
    };

    let res_pat: [u8; 24] = [
        71,
        80,
        85,
        32,
        72,
        87,
        32,
        97,
        99,
        116,
        105,
        118,
        101,
        32,
        114,
        101,
        115,
        105,
        100,
        101,
        110,
        99,
        121,
        58,
    ];
    proof {
        assert(res_pat@ =~= lit_gpu_hw_res());
    }
    let usage: i64 = match crate::text::find_last_line(text, res_pat.as_slice(), false) {
        Some((a, b)) => {
            let line = vstd::slice::slice_subrange(text, a, b);
            let mx = max_bucket_exec(line);
            compute_detailed_usage(frequency, mx, idle)
        },
        None => {
            if idle_present {
                100000 - idle
            } else {
                0
            }
        },
    };

    let unit = GpuUnit { id: 0, power, frequency, usage };
    let mut gpus: Vec<GpuUnit> = Vec::new();
    gpus.push(unit);
    (gpus, power, usage)
}

/// When exactly one line of the text begins with `GPU Power:`, the parsed
/// GPU power is that line's value converted from milliwatts to watts: a line
/// `GPU Power: 2500 mW` yields two and a half watts.
pub proof fn lemma_gpu_power_of_line(t: Seq<u8>, l: Seq<u8>)
    requires
        exists|i: int| 0 <= i < split_lines(t).len() && #[trigger] split_lines(t)[i] == l,
        seq_starts_with(l, lit_gpu_power()),
        forall|i: int|
            0 <= i < split_lines(t).len() && seq_starts_with(
                #[trigger] split_lines(t)[i],
                lit_gpu_power(),
            ) ==> split_lines(t)[i] == l,
    ensures
        spec_gpu_power(t) == milli_to_unit(num_after_colon(l)),
{
    let ls = split_lines(t);
    let p = line_pred(lit_gpu_power(), true);
    assert forall|i: int| 0 <= i < ls.len() implies (p(#[trigger] ls[i]) == seq_starts_with(
        ls[i],
        lit_gpu_power(),
    )) by {}
    let w = choose|i: int| 0 <= i < ls.len() && #[trigger] ls[i] == l;
    assert(p(ls[w]));
    lemma_last_line_unique(ls, p, l);
}

/// In the simple report form — no histogram line anywhere, and exactly one
/// line carrying the idle-residency marker — usage is the complement of the
/// reported idle percentage: `GPU idle residency: 30.0%` yields seventy
/// percent.
pub proof fn lemma_gpu_usage_simple(t: Seq<u8>, l: Seq<u8>)
    requires
        forall|i: int|
            0 <= i < split_lines(t).len() ==> !contains_seq(
                #[trigger] split_lines(t)[i],
                lit_gpu_hw_res(),
            ),
        exists|i: int| 0 <= i < split_lines(t).len() && #[trigger] split_lines(t)[i] == l,
        contains_seq(l, lit_gpu_idle()),
        forall|i: int|
            0 <= i < split_lines(t).len() && contains_seq(
                #[trigger] split_lines(t)[i],
                lit_gpu_idle(),
            ) ==> split_lines(t)[i] == l,
    ensures
        spec_gpu_usage(t) == 100000 - pct_after_marker(l, lit_gpu_idle()),
{
    let ls = split_lines(t);
    let pres = line_pred(lit_gpu_hw_res(), false);
    let pidle = line_pred(lit_gpu_idle(), false);
    assert forall|i: int| 0 <= i < ls.len() implies !pres(#[trigger] ls[i]) by {
        assert(!contains_seq(ls[i], lit_gpu_hw_res()));
    }
    lemma_last_line_none(ls, pres);
    assert forall|i: int| 0 <= i < ls.len() implies (pidle(#[trigger] ls[i]) == contains_seq(
        ls[i],
        lit_gpu_idle(),
    )) by {}
    let w = choose|i: int| 0 <= i < ls.len() && #[trigger] ls[i] == l;
    assert(pidle(ls[w]));
    lemma_last_line_unique(ls, pidle, l);
}

} // verus!
