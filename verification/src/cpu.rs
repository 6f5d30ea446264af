//! Per-core CPU metrics.
//!
//! The sampler reports each core on two lines, `CPU <id> frequency: <MHz> MHz`
//! and `CPU <id> active residency: <pct>%`. The parser scans every line of
//! the captured text for those two prefixes; a core whose lines are absent
//! still yields a record, with both values at their zero defaults.

use vstd::prelude::*;

use crate::extract::last_num_for_prefix;
use crate::extract::last_num_for_prefix_spec;
use crate::extract::last_pct_for_prefix;
use crate::extract::last_pct_for_prefix_spec;
use crate::extract::milli_to_unit;
use crate::extract::num_after_colon;
use crate::extract::pct_after_colon;
use crate::extract::to_watts;
use crate::text::lemma_last_line_none;
use crate::text::lemma_last_line_unique;
use crate::text::line_pred;
use crate::text::last_line_matching;
use crate::text::push_all;
use crate::text::seq_starts_with;
use crate::text::split_lines;

verus! {

/// One CPU core's sample. `frequency` is in thousandths of a megahertz and
/// `usage` in thousandths of a percent; `temperature` is always zero, since
/// the sampler does not expose per-core temperature.
#[derive(Clone, Copy, PartialEq, Eq, Structural, Debug)]
pub struct CpuCore {
    pub id: u32,
    pub frequency: i64,
    pub usage: i64,
    pub temperature: i64,
}

/// The decimal digits of `n`.
pub open spec fn dec_digits(n: nat) -> Seq<u8>
    decreases n,
{
    if n < 10 {
        seq![(48 + n) as u8]
    } else {
        dec_digits(n / 10).push((48 + (n % 10)) as u8)
    }
}

/// Renders `n` as its decimal digits.
pub fn u32_dec(n: u32) -> (r: Vec<u8>)
    ensures
        r@ == dec_digits(n as nat),
    decreases n,
{
    if n < 10 {
        let mut v: Vec<u8> = Vec::new();
        v.push(48 + (n as u8));
        proof {
            assert(v@ =~= dec_digits(n as nat));
        }
        v
    } else {
        let mut v = u32_dec(n / 10);
        v.push(48 + ((n % 10) as u8));
        v
    }
}

/// `"CPU "`.
pub open spec fn lit_cpu_space() -> Seq<u8> {
    seq![67u8, 80u8, 85u8, 32u8]
}

/// `" frequency:"`.
pub open spec fn lit_frequency_colon() -> Seq<u8> {
    seq![32u8, 102u8, 114u8, 101u8, 113u8, 117u8, 101u8, 110u8, 99u8, 121u8, 58u8]
}

/// `" active residency:"`.
pub open spec fn lit_residency_colon() -> Seq<u8> {
    seq![
        32u8, 97u8, 99u8, 116u8, 105u8, 118u8, 101u8, 32u8, 114u8, 101u8, 115u8, 105u8, 100u8,
        101u8, 110u8, 99u8, 121u8, 58u8,
    ]
}

/// `"CPU Power:"`.
pub open spec fn lit_cpu_power() -> Seq<u8> {
    seq![67u8, 80u8, 85u8, 32u8, 80u8, 111u8, 119u8, 101u8, 114u8, 58u8]
}

/// The line prefix announcing core `id`'s frequency.
pub open spec fn cpu_freq_prefix(id: nat) -> Seq<u8> {
    lit_cpu_space() + dec_digits(id) + lit_frequency_colon()
}

/// The line prefix announcing core `id`'s active residency.
pub open spec fn cpu_usage_prefix(id: nat) -> Seq<u8> {
    lit_cpu_space() + dec_digits(id) + lit_residency_colon()
}

/// Builds one of the two per-core line prefixes.
fn build_prefix(id: u32, freq: bool) -> (r: Vec<u8>)
    ensures
        r@ == if freq {
            cpu_freq_prefix(id as nat)
        } else {
            cpu_usage_prefix(id as nat)
        },
        r@.len() >= 1,
{
    let mut v: Vec<u8> = Vec::new();
    let head: [u8; 4] = [67, 80, 85, 32];
    push_all(&mut v, head.as_slice());
    let mut d = u32_dec(id);
    v.append(&mut d);
    if freq {
        let tail: [u8; 11] = [32, 102, 114, 101, 113, 117, 101, 110, 99, 121, 58];
        push_all(&mut v, tail.as_slice());
        proof {
            assert(head@ =~= lit_cpu_space());
            assert(tail@ =~= lit_frequency_colon());
            assert(v@ =~= cpu_freq_prefix(id as nat));
        }
    } else {
        let tail: [u8; 18] = [
            32,
            97,
            99,
            116,
            105,
            118,
            101,
            32,
            114,
            101,
            115,
            105,
            100,
            101,
            110,
            99,
            121,
            58,
        ];
        push_all(&mut v, tail.as_slice());
        proof {
            assert(head@ =~= lit_cpu_space());
            assert(tail@ =~= lit_residency_colon());
            assert(v@ =~= cpu_usage_prefix(id as nat));
        }
    }
    v
}

/// Core `id`'s frequency in thousandths of a megahertz: the value token of
/// the last line beginning with its frequency prefix, zero when absent.
pub open spec fn spec_cpu_frequency(t: Seq<u8>, id: u32) -> int {
    last_num_for_prefix_spec(t, cpu_freq_prefix(id as nat))
}

/// Core `id`'s active residency in thousandths of a percent: the percentage
/// of the last line beginning with its residency prefix, zero when absent.
pub open spec fn spec_cpu_usage(t: Seq<u8>, id: u32) -> int {
    last_pct_for_prefix_spec(t, cpu_usage_prefix(id as nat))
}

/// Scans the whole sampler text for core `core_id`'s two lines. Always
/// returns a record; missing or malformed lines leave their field at zero.
pub fn parse_cpu_core(text: &[u8], core_id: u32) -> (r: CpuCore)
    ensures
        r.id == core_id,
        r.frequency as int == spec_cpu_frequency(text@, core_id),
        r.usage as int == spec_cpu_usage(text@, core_id),
        r.temperature == 0,
        -1_000_000_000_000 < r.frequency < 1_000_000_000_000,
        -1_000_000_000_000 < r.usage < 1_000_000_000_000,
{
    let fp = build_prefix(core_id, true);
    let frequency = last_num_for_prefix(text, fp.as_slice());
    let up = build_prefix(core_id, false);
    let usage = last_pct_for_prefix(text, up.as_slice());
    CpuCore { id: core_id, frequency, usage, temperature: 0 }
}

/// Whole-package CPU power in thousandths of a watt: the value of the last
/// `CPU Power:` line, converted from milliwatts; zero when absent.
pub open spec fn spec_total_cpu_power(t: Seq<u8>) -> int {
    milli_to_unit(last_num_for_prefix_spec(t, lit_cpu_power()))
}

/// Extracts the whole-package CPU power from the sampler text.
pub fn total_cpu_power_from_text(text: &[u8]) -> (r: i64)
    ensures
        r as int == spec_total_cpu_power(text@),
        0 <= r < 1_000_000_000_000,
{
    let pat: [u8; 10] = [67, 80, 85, 32, 80, 111, 119, 101, 114, 58];
    proof {
        assert(pat@ =~= lit_cpu_power());
    }
    let mw = last_num_for_prefix(text, pat.as_slice());
    to_watts(mw)
}

/// When exactly one line of the text carries core `id`'s frequency prefix,
/// the parsed frequency is that line's value token: a single line such as
/// `CPU 3 frequency: 2400 MHz` determines the core's frequency.
pub proof fn lemma_cpu_frequency_of_line(t: Seq<u8>, id: u32, l: Seq<u8>)
    requires
        exists|i: int| 0 <= i < split_lines(t).len() && #[trigger] split_lines(t)[i] == l,
        seq_starts_with(l, cpu_freq_prefix(id as nat)),
        forall|i: int|
            0 <= i < split_lines(t).len() && seq_starts_with(
                #[trigger] split_lines(t)[i],
                cpu_freq_prefix(id as nat),
            ) ==> split_lines(t)[i] == l,
    ensures
        spec_cpu_frequency(t, id) == num_after_colon(l),
{
    let ls = split_lines(t);
    let p = line_pred(cpu_freq_prefix(id as nat), true);
    assert forall|i: int| 0 <= i < ls.len() implies (p(#[trigger] ls[i]) == seq_starts_with(
        ls[i],
        cpu_freq_prefix(id as nat),
    )) by {}
    let w = choose|i: int| 0 <= i < ls.len() && #[trigger] ls[i] == l;
    assert(p(ls[w]));
    lemma_last_line_unique(ls, p, l);
}

/// The same for core `id`'s active-residency line: a single line such as
/// `CPU 3 active residency: 45.50%` determines the core's usage percentage.
pub proof fn lemma_cpu_usage_of_line(t: Seq<u8>, id: u32, l: Seq<u8>)
    requires
        exists|i: int| 0 <= i < split_lines(t).len() && #[trigger] split_lines(t)[i] == l,
        seq_starts_with(l, cpu_usage_prefix(id as nat)),
        forall|i: int|
            0 <= i < split_lines(t).len() && seq_starts_with(
                #[trigger] split_lines(t)[i],
                cpu_usage_prefix(id as nat),
            ) ==> split_lines(t)[i] == l,
    ensures
        spec_cpu_usage(t, id) == pct_after_colon(l),
{
    let ls = split_lines(t);
    let p = line_pred(cpu_usage_prefix(id as nat), true);
    assert forall|i: int| 0 <= i < ls.len() implies (p(#[trigger] ls[i]) == seq_starts_with(
        ls[i],
        cpu_usage_prefix(id as nat),
    )) by {}
    let w = choose|i: int| 0 <= i < ls.len() && #[trigger] ls[i] == l;
    assert(p(ls[w]));
    lemma_last_line_unique(ls, p, l);
}

/// A core whose lines are entirely absent from the text parses to the zero
/// defaults — never to a missing record and never to an error.
pub proof fn lemma_cpu_core_missing(t: Seq<u8>, id: u32)
    requires
        forall|i: int|
            0 <= i < split_lines(t).len() ==> !seq_starts_with(
                #[trigger] split_lines(t)[i],
                cpu_freq_prefix(id as nat),
            ),
        forall|i: int|
            0 <= i < split_lines(t).len() ==> !seq_starts_with(
                #[trigger] split_lines(t)[i],
                cpu_usage_prefix(id as nat),
            ),
    ensures
        spec_cpu_frequency(t, id) == 0,
        spec_cpu_usage(t, id) == 0,
{
    let ls = split_lines(t);
    let pf = line_pred(cpu_freq_prefix(id as nat), true);
    let pu = line_pred(cpu_usage_prefix(id as nat), true);
    assert forall|i: int| 0 <= i < ls.len() implies !pf(#[trigger] ls[i]) by {
        assert(!seq_starts_with(ls[i], cpu_freq_prefix(id as nat)));
    }
    assert forall|i: int| 0 <= i < ls.len() implies !pu(#[trigger] ls[i]) by {
        assert(!seq_starts_with(ls[i], cpu_usage_prefix(id as nat)));
    }
    lemma_last_line_none(ls, pf);
    lemma_last_line_none(ls, pu);
}

} // verus!
