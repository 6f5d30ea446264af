//! Memory inspector computations on concrete query outputs.

use power_monitor::memory::{total_memory_from_output, used_memory_from_report};

fn labels() -> Vec<Vec<u8>> {
    vec![
        b"Pages active:".to_vec(),
        b"Pages anonymous:".to_vec(),
        b"Pages occupied by compressor:".to_vec(),
        b"Pages wired down:".to_vec(),
    ]
}

#[test]
fn used_memory_sums_configured_categories() {
    let report = "Mach Virtual Memory Statistics: (page size of 4096 bytes)\n\
Pages free: 999.\n\
Pages active: 100.\n\
Pages wired down: 50.\n";
    let used = used_memory_from_report(report.as_bytes(), &labels(), 4096);
    assert_eq!(used, (100 + 50) * 4096);
}

#[test]
fn used_memory_respects_configured_page_size() {
    let report = "Pages active: 3.\nPages wired down: 2.\n";
    assert_eq!(used_memory_from_report(report.as_bytes(), &labels(), 16384), 5 * 16384);
}

#[test]
fn unlabeled_and_malformed_lines_are_skipped() {
    let report = "Pages free: 100.\n\
Pages active: not-a-number.\n\
Pages wired down: 7.\n\
Pages anonymous: 99999999999999999999.\n";
    // Only the wired line parses: the free category is not configured, the
    // active line is malformed, the anonymous count has too many digits.
    assert_eq!(used_memory_from_report(report.as_bytes(), &labels(), 4096), 7 * 4096);
}

#[test]
fn used_memory_empty_report_is_zero() {
    assert_eq!(used_memory_from_report(b"", &labels(), 4096), 0);
}

#[test]
fn total_memory_parses_trimmed_output() {
    assert_eq!(total_memory_from_output(b"  17179869184\n"), 17179869184);
}

#[test]
fn total_memory_garbage_is_zero() {
    assert_eq!(total_memory_from_output(b"hw.memsize: oops\n"), 0);
    assert_eq!(total_memory_from_output(b""), 0);
}
