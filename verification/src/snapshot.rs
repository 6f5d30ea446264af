//! Assembling one measurement from the captured command outputs.
//!
//! The host runs the privileged sampler and the two memory queries, reads the
//! clock, and hands everything captured to `measure_from_outputs`. The whole
//! call either yields one complete snapshot or one classified failure: a
//! launch failure, a permission denial recognized in stderr, any other
//! non-zero exit (echoing the captured output), blank sampler output, or a
//! clock failure. Within a successful run, individual missing or malformed
//! lines never fail the call — their fields default to zero.

use vstd::prelude::*;

use crate::cpu::parse_cpu_core;
use crate::cpu::spec_cpu_frequency;
use crate::cpu::spec_cpu_usage;
use crate::cpu::spec_total_cpu_power;
use crate::cpu::total_cpu_power_from_text;
use crate::cpu::CpuCore;
use crate::gpu::parse_gpu_metrics;
use crate::gpu::spec_gpu_frequency;
use crate::gpu::spec_gpu_power;
use crate::gpu::spec_gpu_usage;
use crate::gpu::GpuUnit;
use crate::memory::spec_total_memory;
use crate::memory::spec_used_memory;
use crate::memory::total_memory_from_output;
use crate::memory::used_memory_from_report;
use crate::memory::MemoryConfig;
use crate::text::all_spaces;
use crate::text::contains_seq;
use crate::text::is_space;
use crate::text::push_all;

verus! {

/// The carbon intensity placeholder, in thousandths: a fixed value pending a
/// real data source.
pub const CARBON_INTENSITY: i64 = 100000;

/// One complete measurement. Power is in thousandths of a watt, frequency in
/// thousandths of a megahertz, usage in thousandths of a percent, memory in
/// bytes, the timestamp in Unix epoch seconds.
#[derive(Clone, Debug)]
pub struct SystemSnapshot {
    pub timestamp: u64,
    pub cpu_cores: Vec<CpuCore>,
    pub total_cpu_power: i64,
    pub total_gpu_power: i64,
    pub total_gpu_usage: i64,
    pub gpus: Vec<GpuUnit>,
    pub memory_total: u64,
    pub memory_used: u64,
    pub carbon_intensity: i64,
}

/// Why a measurement failed. Every variant renders to a human-readable
/// message through [`MeasureError::message`].
#[derive(Clone, PartialEq, Eq, Debug)]
pub enum MeasureError {
    /// The sampler process could not be started; the payload is the
    /// launcher's error text.
    Launch(Vec<u8>),
    /// The sampler exited non-zero and its stderr carries the superuser
    /// signature: the operator must grant permission once.
    Permission,
    /// The sampler exited non-zero; the payload echoes its stderr.
    SamplerStderr(Vec<u8>),
    /// The sampler exited non-zero with empty stderr; the payload echoes its
    /// stdout.
    SamplerStdout(Vec<u8>),
    /// The sampler exited non-zero and produced no output at all.
    SamplerNoOutput,
    /// The sampler exited successfully but its output was blank.
    EmptyOutput,
    /// The wall clock could not be read.
    Clock,
}

/// What became of the sampler invocation, as the host captured it.
pub enum SamplerOutcome {
    /// The process could not be started; the payload is the OS error text.
    LaunchFailed(Vec<u8>),
    /// The process ran to completion.
    Ran(SamplerRun),
}

/// A completed sampler run: exit status and both captured streams.
pub struct SamplerRun {
    pub exited_ok: bool,
    pub stdout: Vec<u8>,
    pub stderr: Vec<u8>,
}

/// `"must be invoked as the superuser"`, the permission-denial signature.
pub open spec fn lit_superuser() -> Seq<u8> {
    seq![
        109u8, 117u8, 115u8, 116u8, 32u8, 98u8, 101u8, 32u8, 105u8, 110u8, 118u8, 111u8, 107u8,
        101u8, 100u8, 32u8, 97u8, 115u8, 32u8, 116u8, 104u8, 101u8, 32u8, 115u8, 117u8, 112u8,
        101u8, 114u8, 117u8, 115u8, 101u8, 114u8,
    ]
}

/// `"Failed to execute powermetrics: "`.
pub open spec fn lit_msg_launch() -> Seq<u8> {
    seq![
        70u8, 97u8, 105u8, 108u8, 101u8, 100u8, 32u8, 116u8, 111u8, 32u8, 101u8, 120u8, 101u8,
        99u8, 117u8, 116u8, 101u8, 32u8, 112u8, 111u8, 119u8, 101u8, 114u8, 109u8, 101u8, 116u8,
        114u8, 105u8, 99u8, 115u8, 58u8, 32u8,
    ]
}

/// `"Please run 'sudo powermetrics' in terminal first to grant permissions"`.
pub open spec fn lit_msg_permission() -> Seq<u8> {
    seq![
        80u8, 108u8, 101u8, 97u8, 115u8, 101u8, 32u8, 114u8, 117u8, 110u8, 32u8, 39u8, 115u8,
        117u8, 100u8, 111u8, 32u8, 112u8, 111u8, 119u8, 101u8, 114u8, 109u8, 101u8, 116u8, 114u8,
        105u8, 99u8, 115u8, 39u8, 32u8, 105u8, 110u8, 32u8, 116u8, 101u8, 114u8, 109u8, 105u8,
        110u8, 97u8, 108u8, 32u8, 102u8, 105u8, 114u8, 115u8, 116u8, 32u8, 116u8, 111u8, 32u8,
        103u8, 114u8, 97u8, 110u8, 116u8, 32u8, 112u8, 101u8, 114u8, 109u8, 105u8, 115u8, 115u8,
        105u8, 111u8, 110u8, 115u8,
    ]
}

/// `"powermetrics failed: "`.
pub open spec fn lit_msg_failed() -> Seq<u8> {
    seq![
        112u8, 111u8, 119u8, 101u8, 114u8, 109u8, 101u8, 116u8, 114u8, 105u8, 99u8, 115u8, 32u8,
        102u8, 97u8, 105u8, 108u8, 101u8, 100u8, 58u8, 32u8,
    ]
}

/// `"powermetrics failed with no output"`.
pub open spec fn lit_msg_failed_no_output() -> Seq<u8> {
    seq![
        112u8, 111u8, 119u8, 101u8, 114u8, 109u8, 101u8, 116u8, 114u8, 105u8, 99u8, 115u8, 32u8,
        102u8, 97u8, 105u8, 108u8, 101u8, 100u8, 32u8, 119u8, 105u8, 116u8, 104u8, 32u8, 110u8,
        111u8, 32u8, 111u8, 117u8, 116u8, 112u8, 117u8, 116u8,
    ]
}

/// `"powermetrics produced no output"`.
pub open spec fn lit_msg_no_output() -> Seq<u8> {
    seq![
        112u8, 111u8, 119u8, 101u8, 114u8, 109u8, 101u8, 116u8, 114u8, 105u8, 99u8, 115u8, 32u8,
        112u8, 114u8, 111u8, 100u8, 117u8, 99u8, 101u8, 100u8, 32u8, 110u8, 111u8, 32u8, 111u8,
        117u8, 116u8, 112u8, 117u8, 116u8,
    ]
}

/// `"Failed to get timestamp"`.
pub open spec fn lit_msg_clock() -> Seq<u8> {
    seq![
        70u8, 97u8, 105u8, 108u8, 101u8, 100u8, 32u8, 116u8, 111u8, 32u8, 103u8, 101u8, 116u8,
        32u8, 116u8, 105u8, 109u8, 101u8, 115u8, 116u8, 97u8, 109u8, 112u8,
    ]
}

impl MeasureError {
    /// The human-readable message of this failure.
    pub open spec fn spec_message(&self) -> Seq<u8> {
        match self {
            MeasureError::Launch(e) => lit_msg_launch() + e@,
            MeasureError::Permission => lit_msg_permission(),
            MeasureError::SamplerStderr(e) => lit_msg_failed() + e@,
            MeasureError::SamplerStdout(o) => lit_msg_failed() + o@,
            MeasureError::SamplerNoOutput => lit_msg_failed_no_output(),
            MeasureError::EmptyOutput => lit_msg_no_output(),
            MeasureError::Clock => lit_msg_clock(),
        }
    }

    /// Renders the failure for the operator.
    pub fn message(&self) -> (r: Vec<u8>)
        ensures
            r@ == self.spec_message(),
    {
        let mut m: Vec<u8> = Vec::new();
        match self {
            MeasureError::Launch(e) => {
                let head: [u8; 32] = [
                    70, 97, 105, 108, 101, 100, 32, 116, 111, 32, 101, 120, 101, 99, 117, 116,
                    101, 32, 112, 111, 119, 101, 114, 109, 101, 116, 114, 105, 99, 115, 58, 32,
                ];
                proof {
                    assert(head@ =~= lit_msg_launch());
                }
                push_all(&mut m, head.as_slice());
                push_all(&mut m, e.as_slice());
            },
            MeasureError::Permission => {
                let head: [u8; 69] = [
                    80, 108, 101, 97, 115, 101, 32, 114, 117, 110, 32, 39, 115, 117, 100, 111,
                    32, 112, 111, 119, 101, 114, 109, 101, 116, 114, 105, 99, 115, 39, 32, 105,
                    110, 32, 116, 101, 114, 109, 105, 110, 97, 108, 32, 102, 105, 114, 115, 116,
                    32, 116, 111, 32, 103, 114, 97, 110, 116, 32, 112, 101, 114, 109, 105, 115,
                    115, 105, 111, 110, 115,
                ];
                proof {
                    assert(head@ =~= lit_msg_permission());
                }
                push_all(&mut m, head.as_slice());
            },
            MeasureError::SamplerStderr(e) => {
                let head: [u8; 21] = [
                    112, 111, 119, 101, 114, 109, 101, 116, 114, 105, 99, 115, 32, 102, 97, 105,
                    108, 101, 100, 58, 32,
                ];
                proof {
                    assert(head@ =~= lit_msg_failed());
                }
                push_all(&mut m, head.as_slice());
                push_all(&mut m, e.as_slice());
            },
            MeasureError::SamplerStdout(o) => {
                let head: [u8; 21] = [
                    112, 111, 119, 101, 114, 109, 101, 116, 114, 105, 99, 115, 32, 102, 97, 105,
                    108, 101, 100, 58, 32,
                ];
                proof {
                    assert(head@ =~= lit_msg_failed());
                }
                push_all(&mut m, head.as_slice());
                push_all(&mut m, o.as_slice());
            },
            MeasureError::SamplerNoOutput => {
                let head: [u8; 34] = [
                    112, 111, 119, 101, 114, 109, 101, 116, 114, 105, 99, 115, 32, 102, 97, 105,
                    108, 101, 100, 32, 119, 105, 116, 104, 32, 110, 111, 32, 111, 117, 116, 112,
                    117, 116,
                ];
                proof {
                    assert(head@ =~= lit_msg_failed_no_output());
                }
                push_all(&mut m, head.as_slice());
            },
            MeasureError::EmptyOutput => {
                let head: [u8; 31] = [
                    112, 111, 119, 101, 114, 109, 101, 116, 114, 105, 99, 115, 32, 112, 114, 111,
                    100, 117, 99, 101, 100, 32, 110, 111, 32, 111, 117, 116, 112, 117, 116,
                ];
                proof {
                    assert(head@ =~= lit_msg_no_output());
                }
                push_all(&mut m, head.as_slice());
            },
            MeasureError::Clock => {
                let head: [u8; 23] = [
                    70, 97, 105, 108, 101, 100, 32, 116, 111, 32, 103, 101, 116, 32, 116, 105,
                    109, 101, 115, 116, 97, 109, 112,
                ];
                proof {
                    assert(head@ =~= lit_msg_clock());
                }
                push_all(&mut m, head.as_slice());
            },
        }
        m
    }
}

/// The view of an optional captured output.
pub open spec fn opt_view(o: Option<Vec<u8>>) -> Option<Seq<u8>> {
    match o {
        Some(v) => Some(v@),
        None => None,
    }
}

/// Total memory from the size query's output; zero when the query could not
/// be run.
pub open spec fn spec_mem_total(o: Option<Seq<u8>>) -> int {
    match o {
        Some(s) => spec_total_memory(s),
        None => 0,
    }
}

/// Used memory from the page report; zero when the query could not be run.
pub open spec fn spec_mem_used(o: Option<Seq<u8>>, labels: Seq<Seq<u8>>, page: u64) -> int {
    match o {
        Some(s) => spec_used_memory(s, labels, page),
        None => 0,
    }
}

/// What a successful snapshot holds, field by field, for sampler text `text`.
pub open spec fn snapshot_ok(
    s: SystemSnapshot,
    text: Seq<u8>,
    ts: u64,
    mt: int,
    mu: int,
    max_cores: u32,
) -> bool {
    &&& s.timestamp == ts
    &&& s.memory_total as int == mt
    &&& s.memory_used as int == mu
    &&& s.carbon_intensity == CARBON_INTENSITY
    &&& s.total_cpu_power as int == spec_total_cpu_power(text)
    &&& s.total_gpu_power as int == spec_gpu_power(text)
    &&& s.total_gpu_usage as int == spec_gpu_usage(text)
    &&& s.gpus@.len() == 1
    &&& s.gpus@[0].id == 0
    &&& s.gpus@[0].power == s.total_gpu_power
    &&& s.gpus@[0].usage == s.total_gpu_usage
    &&& s.gpus@[0].frequency as int == spec_gpu_frequency(text)
    &&& s.cpu_cores@.len() == max_cores as int
    &&& forall|i: int|
        0 <= i < max_cores as int ==> (#[trigger] s.cpu_cores@[i]).id == i as u32
    &&& forall|i: int|
        0 <= i < max_cores as int ==> (#[trigger] s.cpu_cores@[i]).frequency as int
            == spec_cpu_frequency(text, i as u32)
    &&& forall|i: int|
        0 <= i < max_cores as int ==> (#[trigger] s.cpu_cores@[i]).usage as int
            == spec_cpu_usage(text, i as u32)
    &&& forall|i: int|
        0 <= i < max_cores as int ==> (#[trigger] s.cpu_cores@[i]).temperature == 0
}

/// The whole contract of one measurement: which failure comes back on which
/// captured outcome, and what the snapshot holds on success.
pub open spec fn measure_result_ok(
    r: Result<SystemSnapshot, MeasureError>,
    outcome: SamplerOutcome,
    memsize: Option<Seq<u8>>,
    report: Option<Seq<u8>>,
    timestamp: Option<u64>,
    max_cores: u32,
    labels: Seq<Seq<u8>>,
    page: u64,
) -> bool {
    match outcome {
        SamplerOutcome::LaunchFailed(e) => r matches Err(MeasureError::Launch(m)) && m@ == e@,
        SamplerOutcome::Ran(run) => {
            if !run.exited_ok {
                if contains_seq(run.stderr@, lit_superuser()) {
                    r matches Err(MeasureError::Permission)
                } else if run.stderr@.len() > 0 {
                    r matches Err(MeasureError::SamplerStderr(m)) && m@ == run.stderr@
                } else if run.stdout@.len() > 0 {
                    r matches Err(MeasureError::SamplerStdout(m)) && m@ == run.stdout@
                } else {
                    r matches Err(MeasureError::SamplerNoOutput)
                }
            } else if all_spaces(run.stdout@) {
                r matches Err(MeasureError::EmptyOutput)
            } else {
                match timestamp {
                    None => r matches Err(MeasureError::Clock),
                    Some(ts) => r matches Ok(s) && snapshot_ok(
                        s,
                        run.stdout@,
                        ts,
                        spec_mem_total(memsize),
                        spec_mem_used(report, labels, page),
                        max_cores,
                    ),
                }
            }
        },
    }
}

/// Whether every byte of `s` is whitespace.
fn is_blank(s: &[u8]) -> (r: bool)
    ensures
        r == all_spaces(s@),
{
    let n = s.len();
    let mut i: usize = 0;
    while i < n
        invariant
            0 <= i <= n,
            n == s@.len(),
            forall|j: int| 0 <= j < i ==> is_space(s@[j]),
        decreases n - i,
    {
        let b = s[i];
        if !(b == 32 || b == 9 || b == 13 || b == 10) {
            return false;
        }
        i += 1;
    }
    true
}

/// Assembles one measurement from the captured outputs.
///
/// `outcome` is the sampler invocation as the host captured it;
/// `memsize_output` and `page_report` are the two memory queries' outputs
/// (`None` when a query could not be run — memory then degrades to zero
/// rather than failing the call); `timestamp` is the wall clock reading;
/// `max_cores` bounds the probed core ids; `mem` configures the page size
/// and the used-memory categories.
pub fn measure_from_outputs(
    outcome: &SamplerOutcome,
    memsize_output: &Option<Vec<u8>>,
    page_report: &Option<Vec<u8>>,
    timestamp: Option<u64>,
    max_cores: u32,
    mem: &MemoryConfig,
) -> (r: Result<SystemSnapshot, MeasureError>)
    ensures
        measure_result_ok(
            r,
            *outcome,
            opt_view(*memsize_output),
            opt_view(*page_report),
            timestamp,
            max_cores,
            mem.labels.deep_view(),
            mem.page_size,
        ),
{
    match outcome {
        SamplerOutcome::LaunchFailed(e) => {
            let mut m: Vec<u8> = Vec::new();
            push_all(&mut m, e.as_slice());
            Err(MeasureError::Launch(m))
        },
        SamplerOutcome::Ran(run) => {
            if !run.exited_ok {
                let su: [u8; 32] = [
                    109, 117, 115, 116, 32, 98, 101, 32, 105, 110, 118, 111, 107, 101, 100, 32,
                    97, 115, 32, 116, 104, 101, 32, 115, 117, 112, 101, 114, 117, 115, 101, 114,
                ];
                proof {
                    assert(su@ =~= lit_superuser());
                }
                if crate::text::contains_exec(run.stderr.as_slice(), su.as_slice()) {
                    return Err(MeasureError::Permission);
                }
                if run.stderr.len() > 0 {
                    let mut m: Vec<u8> = Vec::new();
                    push_all(&mut m, run.stderr.as_slice());
                    return Err(MeasureError::SamplerStderr(m));
                }
                if run.stdout.len() > 0 {
                    let mut m: Vec<u8> = Vec::new();
                    push_all(&mut m, run.stdout.as_slice());
                    return Err(MeasureError::SamplerStdout(m));
                }
                return Err(MeasureError::SamplerNoOutput);
            }
            let text = run.stdout.as_slice();
            if is_blank(text) {
                return Err(MeasureError::EmptyOutput);
            }
            let ts: u64 = match timestamp {
                Some(ts) => ts,
                None => {
                    return Err(MeasureError::Clock);
                },
            };
            let memory_total: u64 = match memsize_output {
                Some(o) => total_memory_from_output(o.as_slice()),
                None => 0,
            };
            let memory_used: u64 = match page_report {
                Some(o) => used_memory_from_report(o.as_slice(), &mem.labels, mem.page_size),
                None => 0,
            };
            let mut cores: Vec<CpuCore> = Vec::new();
            let mut id: u32 = 0;
            while id < max_cores
                invariant
                    0 <= id <= max_cores,
                    cores@.len() == id as int,
                    text@ == run.stdout@,
                    forall|i: int|
                        0 <= i < id as int ==> (#[trigger] cores@[i]).id == i as u32,
                    forall|i: int|
                        0 <= i < id as int ==> (#[trigger] cores@[i]).frequency as int
                            == spec_cpu_frequency(text@, i as u32),
                    forall|i: int|
                        0 <= i < id as int ==> (#[trigger] cores@[i]).usage as int
                            == spec_cpu_usage(text@, i as u32),
                    forall|i: int|
                        0 <= i < id as int ==> (#[trigger] cores@[i]).temperature == 0,
                decreases max_cores - id,
            {
                let core = parse_cpu_core(text, id);
                cores.push(core);
                id += 1;
            }
            let total_cpu_power = total_cpu_power_from_text(text);
            let (gpus, total_gpu_power, total_gpu_usage) = parse_gpu_metrics(text);
            Ok(
                SystemSnapshot {
                    timestamp: ts,
                    cpu_cores: cores,
                    total_cpu_power,
                    total_gpu_power,
                    total_gpu_usage,
                    gpus,
                    memory_total,
                    memory_used,
                    carbon_intensity: CARBON_INTENSITY,
                },
            )
        },
    }
}

/// Parsing is pure: equal sampler texts yield identical values for every
/// parsed field, so re-parsing the same captured text twice gives
/// bit-identical core and GPU records.
pub proof fn lemma_parsing_deterministic(t1: Seq<u8>, t2: Seq<u8>, id: u32)
    requires
        t1 == t2,
    ensures
        spec_cpu_frequency(t1, id) == spec_cpu_frequency(t2, id),
        spec_cpu_usage(t1, id) == spec_cpu_usage(t2, id),
        spec_total_cpu_power(t1) == spec_total_cpu_power(t2),
        spec_gpu_power(t1) == spec_gpu_power(t2),
        spec_gpu_frequency(t1) == spec_gpu_frequency(t2),
        spec_gpu_usage(t1) == spec_gpu_usage(t2),
{
}

} // verus!
