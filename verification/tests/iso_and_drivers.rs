use lamboot_core::distro_iso::{fingerprint, render_cmdline};
use lamboot_core::drivers::{
    driver_events, tally_drivers, DriverDecision, DriverEvent, DriverTally,
};
use lamboot_core::iso_boot::{plan_iso_boot, IsoPlan};
use lamboot_core::loopback_cfg::LoopbackEntry;

#[test]
fn iso_prefers_loopback_cfg_entry() {
    let e = LoopbackEntry {
        kernel: "/casper/vmlinuz".to_string(),
        initrd: "/casper/initrd".to_string(),
        options: "boot=casper iso-scan/filename=/u.iso".to_string(),
    };
    let recipe = fingerprint(&["/casper", "/.disk/info"]);
    let plan = plan_iso_boot(
        Some(e),
        recipe.as_ref(),
        Some(("/other".to_string(), vec![])),
        "/u.iso",
        "UBU",
    );
    assert_eq!(
        plan,
        IsoPlan::Boot {
            kernel: "/casper/vmlinuz".to_string(),
            initrds: vec!["/casper/initrd".to_string()],
            options: "boot=casper iso-scan/filename=/u.iso".to_string(),
        }
    );
}

#[test]
fn iso_falls_back_to_recipe_then_unsupported() {
    let recipe = fingerprint(&["/arch/boot", "/arch/version"]).unwrap();
    let resolved = Some(("/arch/boot/x86_64/vmlinuz-linux".to_string(), vec!["/arch/boot/x86_64/initramfs-linux.img".to_string()]));
    let plan = plan_iso_boot(None, Some(&recipe), resolved, "/a.iso", "ARCH");
    assert_eq!(
        plan,
        IsoPlan::Boot {
            kernel: "/arch/boot/x86_64/vmlinuz-linux".to_string(),
            initrds: vec!["/arch/boot/x86_64/initramfs-linux.img".to_string()],
            options: render_cmdline(recipe.file_cmdline, "/a.iso", "ARCH"),
        }
    );
    assert_eq!(plan_iso_boot(None, Some(&recipe), None, "/a.iso", "ARCH"), IsoPlan::Unsupported);
    assert_eq!(plan_iso_boot(None, None, None, "/a.iso", "ARCH"), IsoPlan::Unsupported);
}

#[test]
fn driver_loop_events_and_counts() {
    assert_eq!(driver_events(DriverDecision::SkipPolicy, false), vec![DriverEvent::SkippedPolicy]);
    assert_eq!(
        driver_events(DriverDecision::SkipCovered, false),
        vec![DriverEvent::NativeBackendPreferred, DriverEvent::SkippedCovered]
    );
    assert_eq!(
        driver_events(DriverDecision::LoadRedundant, true),
        vec![DriverEvent::Redundant, DriverEvent::Loaded]
    );
    assert_eq!(driver_events(DriverDecision::Load, false), vec![DriverEvent::Rejected]);
    let ds = [DriverDecision::Load, DriverDecision::SkipCovered, DriverDecision::Load, DriverDecision::LoadRedundant];
    let (t, reconnect) = tally_drivers(&ds, &[true, false, false, true]);
    assert_eq!(t, DriverTally { loaded: 2, skipped_covered: 1, skipped_policy: 0 });
    assert!(reconnect);
    let (t, reconnect) = tally_drivers(&[DriverDecision::SkipPolicy], &[false]);
    assert_eq!(t, DriverTally { loaded: 0, skipped_covered: 0, skipped_policy: 1 });
    assert!(!reconnect);
}
