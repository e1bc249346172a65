use lamboot_core::boot_route::{
    choose_load_path, decide_load_route, effective_posture, kernel_verdict, status_text, LoadRoute, NativePeMode,
    SbPosture, VerifiedVia, VerifyStatus,
};
use lamboot_core::boot_types::{BootEntry, CheckResult, EntryKind, Icon, PreflightResult, Severity};
use lamboot_core::fallback::{
    boot_count_action, count_bootable, entry_volume, plan_selection, recovery_menu_config,
    select_crash_recovery_entry, select_fallback, BootCountAction, SelectionPlan,
    CRASH_RECOVERY_TIMEOUT_MS,
};
use lamboot_core::iso_boot::{resolve_candidate, resolve_recipe};
use lamboot_core::kernel_load::{combine_initrds, locate_on_volumes};

fn entry(id: &str, icon: Icon) -> BootEntry {
    BootEntry {
        id: id.to_string(),
        name: format!("Entry {id}"),
        kind: EntryKind::Chainload { path: format!("\\EFI\\{id}.efi") },
        icon,
        bls_filename: None,
        preflight: None,
        source_volume_index: 0,
        source_backend_tag: "",
    }
}

fn failing(mut e: BootEntry) -> BootEntry {
    e.preflight = Some(PreflightResult::from_checks(vec![CheckResult {
        severity: Severity::Error,
        message: "kernel missing".to_string(),
    }]));
    e
}

#[test]
fn load_route_truth_table() {
    let (auto, always, never) = (NativePeMode::Auto, NativePeMode::Always, NativePeMode::Never);
    let (off, shim, direct) = (SbPosture::Disabled, SbPosture::ActiveWithShim, SbPosture::ActiveDirect);
    let (native, firmware) = (LoadRoute::Native, LoadRoute::Firmware);
    let rows = [
        (auto, off, native),
        (auto, shim, native),
        (auto, direct, firmware),
        (always, off, native),
        (always, shim, native),
        (always, direct, native),
        (never, off, firmware),
        (never, shim, firmware),
        (never, direct, firmware),
    ];
    for (mode, posture, want) in rows {
        assert_eq!(decide_load_route(mode, posture), want, "{mode:?} {posture:?}");
        // The kernel path never loads natively under ActiveDirect.
        let path = if posture == direct { firmware } else { want };
        assert_eq!(choose_load_path(mode, posture), path, "{mode:?} {posture:?}");
    }
    assert_eq!(choose_load_path(always, direct), firmware);
}

#[test]
fn vanished_shim_degrades_posture() {
    assert_eq!(effective_posture(SbPosture::ActiveWithShim, false), SbPosture::ActiveDirect);
    assert_eq!(effective_posture(SbPosture::ActiveWithShim, true), SbPosture::ActiveWithShim);
    assert_eq!(effective_posture(SbPosture::Disabled, false), SbPosture::Disabled);
    assert_eq!(effective_posture(SbPosture::ActiveDirect, true), SbPosture::ActiveDirect);
}

#[test]
fn verdicts_and_status_words() {
    let v = kernel_verdict(SbPosture::ActiveWithShim, true);
    assert_eq!((v.via, v.status, v.accepted), (VerifiedVia::ShimMok, VerifyStatus::Pass, true));
    assert_eq!(status_text(v.status), "SUCCESS");
    let v = kernel_verdict(SbPosture::ActiveWithShim, false);
    assert_eq!(
        (v.via, v.status, v.accepted),
        (VerifiedVia::ShimRejected, VerifyStatus::Rejected, false)
    );
    assert_eq!(status_text(v.status), "REJECTED");
    let v = kernel_verdict(SbPosture::Disabled, false);
    assert_eq!((v.via, v.status, v.accepted), (VerifiedVia::DegradedSbOff, VerifyStatus::Skipped, true));
    assert_eq!(status_text(v.status), "SKIPPED");
    let v = kernel_verdict(SbPosture::ActiveDirect, false);
    assert_eq!(
        (v.via, v.status, v.accepted),
        (VerifiedVia::DegradedSbDirect, VerifyStatus::Deferred, true)
    );
    assert_eq!(status_text(v.status), "DEFERRED");
}

#[test]
fn auto_policy_never_runs_unverified_bytes_natively() {
    for posture in [SbPosture::Disabled, SbPosture::ActiveWithShim, SbPosture::ActiveDirect] {
        for shim in [false, true] {
            let v = kernel_verdict(posture, shim);
            if v.accepted && decide_load_route(NativePeMode::Auto, posture) == LoadRoute::Native {
                assert!(v.status == VerifyStatus::Pass || posture == SbPosture::Disabled);
            }
        }
    }
}

#[test]
fn kernel_is_read_from_first_volume_holding_it() {
    let found = vec![None, Some("/boot/vmlinuz".to_string()), Some("/vmlinuz".to_string())];
    assert_eq!(locate_on_volumes(&found), Some((1, "/boot/vmlinuz".to_string())));
    assert_eq!(locate_on_volumes(&[None, None]), None);
    assert_eq!(locate_on_volumes(&[Some("x".to_string())]), Some((0, "x".to_string())));
}

#[test]
fn initrd_components_concatenate_in_order_skipping_missing() {
    let parts = vec![Some(vec![1u8, 2]), None, Some(vec![3u8]), Some(vec![])];
    assert_eq!(combine_initrds(&parts), vec![1, 2, 3]);
    assert!(combine_initrds(&[None, None]).is_empty());
}

#[test]
fn exact_candidate_resolves_when_present() {
    assert_eq!(
        resolve_candidate("/casper/vmlinuz", true, None),
        Some("/casper/vmlinuz".to_string())
    );
    assert_eq!(resolve_candidate("/casper/vmlinuz", false, None), None);
}

#[test]
fn glob_candidate_picks_newest_listed_name() {
    let names = ["vmlinuz-6.1", "initrd.img", "vmlinuz-6.8", "README"];
    assert_eq!(
        resolve_candidate("/live/vmlinuz*", false, Some(&names)),
        Some("/live/vmlinuz-6.8".to_string())
    );
    assert_eq!(resolve_candidate("/live/initrd*", false, Some(&names[..2])), Some("/live/initrd.img".to_string()));
    assert_eq!(resolve_candidate("/live/bzImage*", true, Some(&names)), None);
    assert_eq!(resolve_candidate("/live/vmlinuz*", true, None), None);
}

#[test]
fn recipe_takes_first_kernel_and_all_initrds() {
    let kernels = vec![None, Some("/k2".to_string()), Some("/k3".to_string())];
    let initrds = vec![Some("/ucode".to_string()), None, Some("/initrd".to_string())];
    let (k, i) = resolve_recipe(&kernels, &initrds).unwrap();
    assert_eq!(k, "/k2");
    assert_eq!(i, vec!["/ucode".to_string(), "/initrd".to_string()]);
    assert!(resolve_recipe(&[None], &initrds).is_none());
}

#[test]
fn fallback_follows_configured_order() {
    let entries = vec![entry("a", Icon::Linux), entry("b", Icon::Linux), entry("c", Icon::Windows)];
    let order = vec!["zz".to_string(), "c".to_string(), "a".to_string()];
    assert_eq!(select_fallback(&entries, &order), Some(2));
    assert_eq!(select_fallback(&entries, &["nope".to_string()]), None);
}

#[test]
fn crash_recovery_prefers_clean_non_tool_entries() {
    let entries = vec![
        entry("tool", Icon::Tools),
        failing(entry("bad", Icon::Linux)),
        entry("good", Icon::Linux),
    ];
    assert_eq!(select_crash_recovery_entry(&entries), Some(2));
    let entries = vec![entry("tool", Icon::Tools), failing(entry("bad", Icon::Linux))];
    assert_eq!(select_crash_recovery_entry(&entries), Some(1));
    assert_eq!(select_crash_recovery_entry(&[entry("tool", Icon::Tools)]), None);
}

#[test]
fn selection_plan_in_and_out_of_crash_loop() {
    let entries = vec![entry("tool", Icon::Tools), entry("a", Icon::Linux), entry("b", Icon::Linux)];
    let order = vec!["b".to_string()];
    assert_eq!(plan_selection(false, &entries, &order), SelectionPlan::Menu);
    assert_eq!(plan_selection(true, &entries, &order), SelectionPlan::Direct(2));
    assert_eq!(plan_selection(true, &entries, &[]), SelectionPlan::RecoveryMenu(1));
    assert_eq!(plan_selection(true, &[entry("t", Icon::Tools)], &[]), SelectionPlan::Menu);
}

#[test]
fn recovery_menu_uses_short_timeout_and_pick_as_default() {
    let entries = vec![entry("tool", Icon::Tools), entry("a", Icon::Linux)];
    let cfg = recovery_menu_config(&entries, 1);
    assert_eq!(cfg.timeout_ms, CRASH_RECOVERY_TIMEOUT_MS);
    assert_eq!(cfg.timeout_ms, 8000);
    assert_eq!(cfg.default_index, Some(1));
    assert_eq!(cfg.entries, 2);
}

#[test]
fn bootable_count_skips_tools() {
    let entries = vec![entry("t", Icon::Tools), entry("a", Icon::Linux), entry("w", Icon::Windows)];
    assert_eq!(count_bootable(&entries), 2);
    assert_eq!(count_bootable(&[]), 0);
}

#[test]
fn boot_counter_only_decremented_on_fat() {
    assert_eq!(boot_count_action(None, "fat"), BootCountAction::Untracked);
    assert_eq!(boot_count_action(Some(3), "fat"), BootCountAction::Decrement);
    assert_eq!(boot_count_action(Some(3), "ext4-view"), BootCountAction::SkippedReadOnly);
}

#[test]
fn entry_volume_falls_back_to_esp() {
    assert_eq!(entry_volume(0, 2), 0);
    assert_eq!(entry_volume(2, 2), 2);
    assert_eq!(entry_volume(3, 2), 0);
}
