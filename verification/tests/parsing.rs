//! CPU and GPU parsing on concrete sampler transcripts. All rate fields are
//! fixed-point thousandths: 2400 MHz is 2_400_000, 45.5% is 45_500.

use power_monitor::cpu::{parse_cpu_core, total_cpu_power_from_text};
use power_monitor::gpu::parse_gpu_metrics;

const TEXT: &str = "Machine model: Mac\n\
CPU 0 frequency: 1200 MHz\n\
CPU 0 active residency: 12.34%\n\
CPU 3 frequency: 2400 MHz\n\
CPU 3 active residency: 45.50%\n\
CPU Power: 5000 mW\n\
GPU Power: 2500 mW\n\
GPU HW active frequency: 800 MHz\n\
GPU idle residency: 30.0%\n";

#[test]
fn cpu_frequency_line_yields_frequency() {
    let core = parse_cpu_core(TEXT.as_bytes(), 3);
    assert_eq!(core.id, 3);
    assert_eq!(core.frequency, 2_400_000);
}

#[test]
fn cpu_residency_line_yields_usage() {
    let core = parse_cpu_core(TEXT.as_bytes(), 3);
    assert_eq!(core.usage, 45_500);
}

#[test]
fn other_core_gets_its_own_lines() {
    let core = parse_cpu_core(TEXT.as_bytes(), 0);
    assert_eq!(core.frequency, 1_200_000);
    assert_eq!(core.usage, 12_340);
    assert_eq!(core.temperature, 0);
}

#[test]
fn missing_core_yields_zeroed_record() {
    let core = parse_cpu_core(TEXT.as_bytes(), 7);
    assert_eq!(core.id, 7);
    assert_eq!(core.frequency, 0);
    assert_eq!(core.usage, 0);
    assert_eq!(core.temperature, 0);
}

#[test]
fn reparsing_is_bit_identical() {
    let a = parse_cpu_core(TEXT.as_bytes(), 3);
    let b = parse_cpu_core(TEXT.as_bytes(), 3);
    assert_eq!(a, b);
    let (gpus_a, pa, ua) = parse_gpu_metrics(TEXT.as_bytes());
    let (gpus_b, pb, ub) = parse_gpu_metrics(TEXT.as_bytes());
    assert_eq!(gpus_a, gpus_b);
    assert_eq!(pa, pb);
    assert_eq!(ua, ub);
}

#[test]
fn gpu_power_milliwatts_to_watts() {
    let (gpus, power, _) = parse_gpu_metrics(TEXT.as_bytes());
    // 2500 mW is 2.5 W, i.e. 2500 thousandths of a watt.
    assert_eq!(power, 2_500);
    assert_eq!(gpus.len(), 1);
    assert_eq!(gpus[0].id, 0);
    assert_eq!(gpus[0].power, 2_500);
}

#[test]
fn gpu_simple_form_usage_is_idle_complement() {
    let (_, _, usage) = parse_gpu_metrics(TEXT.as_bytes());
    // idle 30.0% yields usage 70.0%.
    assert_eq!(usage, 70_000);
}

#[test]
fn gpu_frequency_taken_verbatim() {
    let (gpus, _, _) = parse_gpu_metrics(TEXT.as_bytes());
    assert_eq!(gpus[0].frequency, 800_000);
}

#[test]
fn gpu_detailed_form_combines_clock_share_and_residency() {
    let text = "GPU Power: 1000 mW\n\
GPU HW active frequency: 800 MHz\n\
GPU HW active residency:  50.00% (400 MHz: 10% 800 MHz: 20% 1600 MHz: 5%)\n\
GPU idle residency: 50.0%\n";
    let (_, _, usage) = parse_gpu_metrics(text.as_bytes());
    // clock share 800/1600 = 50%, active residency 100 - 50 = 50%,
    // usage = 50% * 50% = 25%.
    assert_eq!(usage, 25_000);
}

#[test]
fn gpu_detailed_form_clamps_to_one_hundred() {
    let text = "GPU HW active frequency: 3200 MHz\n\
GPU HW active residency: 90% (400 MHz: 10% 800 MHz: 20%)\n\
GPU idle residency: 0.0%\n";
    let (_, _, usage) = parse_gpu_metrics(text.as_bytes());
    // clock share 3200/800 = 400%, residency 100%: clamped to 100%.
    assert_eq!(usage, 100_000);
}

#[test]
fn gpu_missing_lines_default_to_zero() {
    let (gpus, power, usage) = parse_gpu_metrics(b"nothing relevant here\n");
    assert_eq!(power, 0);
    assert_eq!(usage, 0);
    assert_eq!(gpus[0].frequency, 0);
}

#[test]
fn total_cpu_power_milliwatts_to_watts() {
    assert_eq!(total_cpu_power_from_text(TEXT.as_bytes()), 5_000);
}

#[test]
fn malformed_value_defaults_to_zero() {
    let text = "CPU 2 frequency: abc MHz\nCPU 2 active residency: nope%\n";
    let core = parse_cpu_core(text.as_bytes(), 2);
    assert_eq!(core.frequency, 0);
    assert_eq!(core.usage, 0);
}

#[test]
fn last_matching_line_wins() {
    let text = "GPU Power: 1000 mW\nGPU Power: 3000 mW\n";
    let (_, power, _) = parse_gpu_metrics(text.as_bytes());
    assert_eq!(power, 3_000);
}

#[test]
fn prefix_must_match_exact_core_id() {
    // Core 1's lines must not be confused with core 11's.
    let text = "CPU 11 frequency: 3000 MHz\nCPU 11 active residency: 90%\n";
    let core = parse_cpu_core(text.as_bytes(), 1);
    assert_eq!(core.frequency, 0);
    assert_eq!(core.usage, 0);
}

#[test]
fn fractional_and_negative_tokens() {
    let text = "CPU 0 frequency: 1234.5 MHz\nCPU 0 active residency: -3%\n";
    let core = parse_cpu_core(text.as_bytes(), 0);
    assert_eq!(core.frequency, 1_234_500);
    assert_eq!(core.usage, -3_000);
}

#[test]
fn two_digit_core_id_prefix() {
    let text = "CPU 12 frequency: 900 MHz\nCPU 12 active residency: 8.25%\n";
    let core = parse_cpu_core(text.as_bytes(), 12);
    assert_eq!(core.frequency, 900_000);
    assert_eq!(core.usage, 8_250);
}

#[test]
fn fraction_truncates_after_three_digits() {
    let text = "CPU 0 active residency: 45.5059%\n";
    let core = parse_cpu_core(text.as_bytes(), 0);
    assert_eq!(core.usage, 45_505);
}
