//! The assembler's failure classification and the end-to-end scenario, with
//! the sampler invocation replaced by canned captured outputs.

use power_monitor::memory::MemoryConfig;
use power_monitor::snapshot::{measure_from_outputs, MeasureError, SamplerOutcome, SamplerRun};

fn config() -> MemoryConfig {
    MemoryConfig {
        labels: vec![b"Pages active:".to_vec(), b"Pages wired down:".to_vec()],
        page_size: 4096,
    }
}

fn ran(exited_ok: bool, stdout: &str, stderr: &str) -> SamplerOutcome {
    SamplerOutcome::Ran(SamplerRun {
        exited_ok,
        stdout: stdout.as_bytes().to_vec(),
        stderr: stderr.as_bytes().to_vec(),
    })
}

#[test]
fn permission_denial_gets_the_hint_not_a_generic_message() {
    let outcome = ran(false, "", "powermetrics must be invoked as the superuser\n");
    let r = measure_from_outputs(&outcome, &None, &None, Some(1), 4, &config());
    let err = r.err().unwrap();
    assert_eq!(err, MeasureError::Permission);
    assert_eq!(
        String::from_utf8(err.message()).unwrap(),
        "Please run 'sudo powermetrics' in terminal first to grant permissions"
    );
}

#[test]
fn other_stderr_is_echoed_verbatim() {
    let outcome = ran(false, "", "boom\n");
    let r = measure_from_outputs(&outcome, &None, &None, Some(1), 4, &config());
    let err = r.err().unwrap();
    assert_eq!(err, MeasureError::SamplerStderr(b"boom\n".to_vec()));
    assert_eq!(String::from_utf8(err.message()).unwrap(), "powermetrics failed: boom\n");
}

#[test]
fn stdout_of_failed_run_is_echoed_when_stderr_empty() {
    let outcome = ran(false, "partial output", "");
    let r = measure_from_outputs(&outcome, &None, &None, Some(1), 4, &config());
    let err = r.err().unwrap();
    assert_eq!(err, MeasureError::SamplerStdout(b"partial output".to_vec()));
    assert_eq!(
        String::from_utf8(err.message()).unwrap(),
        "powermetrics failed: partial output"
    );
}

#[test]
fn failed_run_without_output_gets_generic_message() {
    let outcome = ran(false, "", "");
    let r = measure_from_outputs(&outcome, &None, &None, Some(1), 4, &config());
    let err = r.err().unwrap();
    assert_eq!(err, MeasureError::SamplerNoOutput);
    assert_eq!(
        String::from_utf8(err.message()).unwrap(),
        "powermetrics failed with no output"
    );
}

#[test]
fn blank_stdout_of_successful_run_fails_with_no_output_message() {
    let outcome = ran(true, "  \n\t \n", "");
    let r = measure_from_outputs(&outcome, &None, &None, Some(1), 4, &config());
    let err = r.err().unwrap();
    assert_eq!(err, MeasureError::EmptyOutput);
    assert_eq!(
        String::from_utf8(err.message()).unwrap(),
        "powermetrics produced no output"
    );
}

#[test]
fn launch_failure_carries_the_launcher_error() {
    let outcome = SamplerOutcome::LaunchFailed(b"No such file or directory".to_vec());
    let r = measure_from_outputs(&outcome, &None, &None, Some(1), 4, &config());
    let err = r.err().unwrap();
    assert_eq!(err, MeasureError::Launch(b"No such file or directory".to_vec()));
    assert_eq!(
        String::from_utf8(err.message()).unwrap(),
        "Failed to execute powermetrics: No such file or directory"
    );
}

#[test]
fn clock_failure_is_distinct() {
    let outcome = ran(true, "CPU 0 frequency: 100 MHz\n", "");
    let r = measure_from_outputs(&outcome, &None, &None, None, 4, &config());
    let err = r.err().unwrap();
    assert_eq!(err, MeasureError::Clock);
    assert_eq!(String::from_utf8(err.message()).unwrap(), "Failed to get timestamp");
}

#[test]
fn end_to_end_canned_transcript() {
    let transcript = "Machine model: Mac\n\
CPU 0 frequency: 1000 MHz\n\
CPU 0 active residency: 10%\n\
CPU 1 frequency: 1100 MHz\n\
CPU 1 active residency: 11%\n\
CPU 2 frequency: 1200 MHz\n\
CPU 2 active residency: 12%\n\
CPU 3 frequency: 1300 MHz\n\
CPU 3 active residency: 13%\n\
CPU Power: 4000 mW\n\
GPU Power: 2500 mW\n\
GPU HW active frequency: 900 MHz\n\
GPU idle residency: 25.0%\n";
    let outcome = ran(true, transcript, "");
    let r = measure_from_outputs(&outcome, &None, &None, Some(1700000000), 4, &config());
    let snap = r.ok().unwrap();
    assert!(snap.timestamp > 0);
    assert_eq!(snap.timestamp, 1700000000);
    assert_eq!(snap.cpu_cores.len(), 4);
    for (i, core) in snap.cpu_cores.iter().enumerate() {
        assert_eq!(core.id as usize, i);
    }
    assert_eq!(snap.cpu_cores[0].frequency, 1_000_000);
    assert_eq!(snap.cpu_cores[3].frequency, 1_300_000);
    assert_eq!(snap.cpu_cores[3].usage, 13_000);
    assert_eq!(snap.total_cpu_power, 4_000);
    // 2500 mW correctly converted to 2.5 W.
    assert_eq!(snap.total_gpu_power, 2_500);
    assert_eq!(snap.gpus.len(), 1);
    assert_eq!(snap.gpus[0].power, 2_500);
    assert_eq!(snap.total_gpu_usage, 75_000);
    assert_eq!(snap.memory_total, 0);
    assert_eq!(snap.memory_used, 0);
    assert_eq!(snap.carbon_intensity, 100_000);
}

#[test]
fn memory_outputs_flow_into_the_snapshot() {
    let outcome = ran(true, "CPU 0 frequency: 100 MHz\n", "");
    let memsize = Some(b"8589934592\n".to_vec());
    let report = Some(b"Pages active: 100.\nPages wired down: 50.\n".to_vec());
    let r = measure_from_outputs(&outcome, &memsize, &report, Some(5), 1, &config());
    let snap = r.ok().unwrap();
    assert_eq!(snap.memory_total, 8589934592);
    assert_eq!(snap.memory_used, (100 + 50) * 4096);
    assert_eq!(snap.cpu_cores.len(), 1);
}

#[test]
fn probing_beyond_real_cores_yields_zero_records() {
    let outcome = ran(true, "CPU 0 frequency: 100 MHz\nCPU 0 active residency: 5%\n", "");
    let r = measure_from_outputs(&outcome, &None, &None, Some(5), 3, &config());
    let snap = r.ok().unwrap();
    assert_eq!(snap.cpu_cores.len(), 3);
    assert_eq!(snap.cpu_cores[0].frequency, 100_000);
    assert_eq!(snap.cpu_cores[1].frequency, 0);
    assert_eq!(snap.cpu_cores[2].usage, 0);
}
