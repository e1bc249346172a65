use lamboot_core::bootlog::{format_header, format_line, format_timestamp, BootLog, Timestamp, MAX_LOG_SIZE};
use lamboot_core::diag::{Diag, DIAG_BUF_CAP};

#[test]
fn timestamps_are_zero_padded() {
    let t = Timestamp { year: 2025, month: 3, day: 9, hour: 7, minute: 5, second: 0 };
    assert_eq!(format_timestamp(Some(t)), "2025-03-09T07:05:00");
    let t = Timestamp { year: 99, month: 12, day: 31, hour: 23, minute: 59, second: 59 };
    assert_eq!(format_timestamp(Some(t)), "0099-12-31T23:59:59");
    assert_eq!(format_timestamp(None), "??:??:??");
}

#[test]
fn line_and_header_shapes() {
    assert_eq!(format_line("T", "INFO", "hello"), "[T] INFO: hello\n");
    assert_eq!(
        format_header("0.16.1", "x86_64", "T"),
        "=== LamBoot 0.16.1 (x86_64) boot log ===\n=== T ===\n\n"
    );
}

#[test]
fn write_through_hands_out_lines_until_buffered() {
    let mut log = BootLog::new();
    let header = log.start("1.0", "x86_64", "T0");
    log.record_started(&header);
    let line = log.info("T1", "Crash counter: 0").unwrap();
    assert_eq!(line, "[T1] INFO: Crash counter: 0\n");
    log.record_appended(&line);
    log.set_buffered();
    assert!(log.warn("T2", "No bootable entries found").is_none());
    let all = log.flush_contents().unwrap();
    assert!(all.starts_with("=== LamBoot 1.0 (x86_64) boot log ==="));
    assert!(all.ends_with("[T2] WARN: No bootable entries found\n"));
}

#[test]
fn esp_copy_is_capped() {
    let mut log = BootLog::new();
    let big = "x".repeat(MAX_LOG_SIZE - 20);
    let line = log.log("T", "INFO", &big).unwrap();
    log.record_appended(&line);
    assert!(log.log("T", "INFO", "this one does not fit").is_none());
    assert!(log.flush_contents().unwrap().ends_with("this one does not fit\n"));
}

#[test]
fn empty_log_flushes_nothing() {
    assert!(BootLog::new().flush_contents().is_none());
}

#[test]
fn diag_gating_and_coalescing() {
    let mut d = Diag::new();
    assert!(!d.append("off\n"));
    d.set_enabled(true);
    assert!(d.append("direct\n"));
    assert!(d.flush().is_none());
    d.set_coalesce(true);
    assert!(!d.append("A\n"));
    assert!(!d.append("B\n"));
    assert_eq!(d.flush(), Some("A\nB\n".to_string()));
    assert!(d.flush().is_none());
}

#[test]
fn diag_buffer_is_bounded() {
    let mut d = Diag::new();
    d.set_enabled(true);
    d.set_coalesce(true);
    let big = "y".repeat(DIAG_BUF_CAP - 1);
    d.append(&big);
    d.append("zz");
    d.append("z");
    let out = d.flush().unwrap();
    assert_eq!(out.len(), DIAG_BUF_CAP);
    assert!(out.ends_with("yz"));
}
