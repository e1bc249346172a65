use lamboot_core::bootlog::Timestamp;
use lamboot_core::health::{
    assess_boot_health, counter_from_var, encode_timestamp, firmware_setup_indications,
    genid_from_var, is_crash_loop, last_entry_bytes, loader_string_bytes, mark_boot_success,
    state_from_var, BootState, HealthVars,
};

fn vars(state: BootState, counter: u8) -> HealthVars {
    HealthVars { state, crash_counter: counter, vmgenid: None }
}

#[test]
fn state_bytes_round_trip() {
    for s in [BootState::Fresh, BootState::Booting, BootState::BootedOK, BootState::CrashLoop] {
        assert_eq!(BootState::from_u8(s.to_u8()), s);
    }
    assert_eq!(BootState::from_u8(9), BootState::Fresh);
}

#[test]
fn variables_decode_with_defaults() {
    assert_eq!(state_from_var(None), BootState::Fresh);
    assert_eq!(state_from_var(Some(&[])), BootState::Fresh);
    assert_eq!(state_from_var(Some(&[1, 7])), BootState::Booting);
    assert_eq!(counter_from_var(None), 0);
    assert_eq!(counter_from_var(Some(&[4])), 4);
    assert_eq!(genid_from_var(Some(&[7u8; 16])), Some([7u8; 16]));
    assert_eq!(genid_from_var(Some(&[7u8; 15])), None);
    assert_eq!(genid_from_var(None), None);
}

#[test]
fn unfinished_boot_counts_a_crash() {
    let r = assess_boot_health(vars(BootState::Booting, 2), None);
    assert_eq!(r.crash_counter, 3);
    assert_eq!(r.state, BootState::Booting);
    let r = assess_boot_health(vars(BootState::Booting, 255), None);
    assert_eq!(r.crash_counter, 255);
}

#[test]
fn completed_boot_clears_counter() {
    let r = assess_boot_health(vars(BootState::BootedOK, 5), None);
    assert_eq!(r.crash_counter, 0);
    let r = assess_boot_health(vars(BootState::Fresh, 5), None);
    assert_eq!(r.crash_counter, 0);
    let r = assess_boot_health(vars(BootState::CrashLoop, 5), None);
    assert_eq!(r.crash_counter, 5);
}

#[test]
fn success_then_next_boot_starts_from_zero() {
    let ok = mark_boot_success(vars(BootState::Booting, 9));
    assert_eq!(ok.state, BootState::BootedOK);
    assert_eq!(ok.crash_counter, 0);
    assert_eq!(assess_boot_health(ok, None).crash_counter, 0);
}

#[test]
fn crash_loop_reached_after_threshold_plus_one_unfinished_boots() {
    let threshold = 3;
    let mut v = vars(BootState::BootedOK, 0);
    let mut loops = Vec::new();
    for _ in 0..5 {
        v = assess_boot_health(v, None);
        loops.push(is_crash_loop(v.crash_counter, threshold));
    }
    assert_eq!(loops, vec![false, false, false, true, true]);
    assert_eq!(v.crash_counter, 4);
}

#[test]
fn new_vm_generation_resets_history() {
    let stored = HealthVars { state: BootState::Booting, crash_counter: 7, vmgenid: Some([1u8; 16]) };
    let r = assess_boot_health(stored, Some([2u8; 16]));
    assert_eq!(r.crash_counter, 0);
    assert_eq!(r.state, BootState::Fresh);
    assert_eq!(r.vmgenid, Some([2u8; 16]));
    let same = assess_boot_health(stored, Some([1u8; 16]));
    assert_eq!(same.crash_counter, 8);
    let first = assess_boot_health(vars(BootState::Booting, 3), Some([5u8; 16]));
    assert_eq!(first.crash_counter, 0);
    assert_eq!(first.vmgenid, Some([5u8; 16]));
}

#[test]
fn loader_strings_widen_bytes_and_terminate() {
    assert_eq!(loader_string_bytes("ab", 256), vec![b'a', 0, b'b', 0, 0, 0]);
    assert_eq!(loader_string_bytes("abc", 1), vec![b'a', 0, 0, 0]);
    assert_eq!(loader_string_bytes("", 8), vec![0, 0]);
}

#[test]
fn last_entry_is_capped_at_128_bytes() {
    let long = "x".repeat(200);
    assert_eq!(last_entry_bytes(&long).len(), 128);
    assert_eq!(last_entry_bytes("bls-fedora"), b"bls-fedora".to_vec());
}

#[test]
fn timestamp_variable_layout() {
    let t = Timestamp { year: 2025, month: 3, day: 9, hour: 14, minute: 5, second: 59 };
    assert_eq!(encode_timestamp(Some(t)), [0xE9, 0x07, 3, 9, 14, 5, 59, 0]);
    assert_eq!(encode_timestamp(None), [0u8; 8]);
}

#[test]
fn firmware_setup_needs_support_bit() {
    let supported = 1u64.to_le_bytes();
    let current = 0x40u64.to_le_bytes();
    assert_eq!(firmware_setup_indications(Some(&supported), Some(&current)), Some(0x41));
    assert_eq!(firmware_setup_indications(Some(&[1]), None), Some(1));
    assert_eq!(firmware_setup_indications(Some(&[2, 0, 0]), Some(&current)), None);
    assert_eq!(firmware_setup_indications(None, None), None);
}
