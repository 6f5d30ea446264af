//! Verified parsing core of a hardware telemetry monitor.
//!
//! The library interprets the line-oriented text of a privileged system
//! sampler — per-core CPU frequency and residency, GPU power, frequency and
//! utilization — together with the outputs of two memory query commands, and
//! assembles one immutable snapshot per measurement. Rates are kept as
//! fixed-point thousandths so that every computation is exact; the host
//! converts to floating point only at its serialization boundary.
//!
//! The host is expected to run the external commands and hand their captured
//! outputs to [`snapshot::measure_from_outputs`]; nothing in the library
//! itself touches a process, a clock, or a file.

pub mod cpu;
pub mod extract;
pub mod gpu;
pub mod memory;
pub mod num;
pub mod snapshot;
pub mod text;

pub use cpu::CpuCore;
pub use gpu::GpuUnit;
pub use memory::MemoryConfig;
pub use snapshot::measure_from_outputs;
pub use snapshot::MeasureError;
pub use snapshot::SamplerOutcome;
pub use snapshot::SamplerRun;
pub use snapshot::SystemSnapshot;
