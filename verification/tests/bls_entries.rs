use lamboot_core::autodiscovery::{extract_directory, extract_kernel_version, find_initrd, initrd_candidates};
use lamboot_core::bls::{
    adopt_discovered_initrd, boot_count_path, decremented_filename, is_entry_filename,
    scan_volume_for_bls, to_boot_entry,
};
use lamboot_core::bls_parse::{
    count_digits_in_filename, has_extension_ignore_case, is_native_architecture, version_compare,
    BlsEntry, BootCountState, TargetArch,
};
use lamboot_core::bls_sort::sort_entries;
use lamboot_core::boot_types::EntryKind;
use lamboot_core::discovery::{
    ascii_eq_ignore_case, dedup_bls_entries, extract_filename, extract_filename_lower,
    load_module_manifest,
};
use lamboot_core::drivers::{
    driver_decision, driver_files, filesystem_natively_covered, DriverDecision, DriversLegacyMode,
};
use std::cmp::Ordering;

#[test]
fn parses_entry_with_boot_counter() {
    let e = BlsEntry::parse(
        "fedora-6.12+3-1.conf",
        "# comment\ntitle Fedora Linux\nversion 6.12.0\nlinux /vmlinuz-6.12.0\ninitrd /initramfs-6.12.0.img\noptions root=UUID=abc ro\noptions quiet\n",
    )
    .unwrap();
    assert_eq!(e.id, "fedora-6.12");
    assert_eq!(e.title.as_deref(), Some("Fedora Linux"));
    assert_eq!(e.tries_left, Some(3));
    assert_eq!(e.tries_done, Some(1));
    assert_eq!(e.boot_count_state(), BootCountState::Indeterminate);
    assert_eq!(e.combined_options(), "root=UUID=abc ro quiet");
    assert_eq!(e.cleaned_initrd(), vec!["\\initramfs-6.12.0.img".to_string()]);
    assert!(BlsEntry::parse("x.conf", "title nothing\n").is_none());
}

#[test]
fn boot_counter_rename() {
    let e = BlsEntry::parse("arch+3.conf", "linux /vmlinuz\n").unwrap();
    assert_eq!(decremented_filename(&e), Some("arch+2-1.conf".to_string()));
    let e = BlsEntry::parse("fedora+3.conf", "linux /vmlinuz\n").unwrap();
    assert_eq!(decremented_filename(&e), Some("fedora+2-1.conf".to_string()));
    let e = BlsEntry::parse("fedora+2-1.conf", "linux /vmlinuz\n").unwrap();
    assert_eq!(decremented_filename(&e), Some("fedora+1-2.conf".to_string()));
    let e = BlsEntry::parse("arch+03-1.conf", "linux /vmlinuz\n").unwrap();
    assert_eq!(decremented_filename(&e), Some("arch+02-2.conf".to_string()));
    let e = BlsEntry::parse("arch+0-3.conf", "linux /vmlinuz\n").unwrap();
    assert_eq!(e.boot_count_state(), BootCountState::Bad);
    assert_eq!(decremented_filename(&e), None);
    let e = BlsEntry::parse("arch.conf", "linux /vmlinuz\n").unwrap();
    assert_eq!(decremented_filename(&e), None);
    assert_eq!(boot_count_path("arch+2-1.conf"), "\\loader\\entries\\arch+2-1.conf");
    assert_eq!(count_digits_in_filename("a+03-1.conf", '+'), 2);
}

#[test]
fn uapi_version_order() {
    assert_eq!(version_compare("6.12.0", "6.9.1"), Ordering::Greater);
    assert_eq!(version_compare("1.0~rc1", "1.0"), Ordering::Less);
    assert_eq!(version_compare("1.0", "1.0"), Ordering::Equal);
    assert_eq!(version_compare("1.0a", "1.0"), Ordering::Greater);
    for (a, b) in [("6.12.0", "6.9.1"), ("1.0~rc1", "1.0"), ("2.0-3", "2.0-3")] {
        assert_eq!(version_compare(a, b), version_compare(b, a).reverse());
        assert_eq!(version_compare(a, a), Ordering::Equal);
    }
}

#[test]
fn entries_sort_newest_version_first() {
    let a = BlsEntry::parse("a.conf", "version 6.1\nlinux /a\n").unwrap();
    let b = BlsEntry::parse("b.conf", "version 6.10\nlinux /b\n").unwrap();
    let sorted = sort_entries(vec![a, b]);
    assert_eq!(sorted[0].id, "b");
    assert_eq!(sorted[1].id, "a");
}

#[test]
fn entry_files_and_architecture() {
    assert!(is_entry_filename("fedora.CONF"));
    assert!(!is_entry_filename(".hidden.conf"));
    assert!(!is_entry_filename("auto-windows.conf"));
    assert!(!is_entry_filename("readme.txt"));
    assert!(has_extension_ignore_case("A.Efi", "efi"));
    assert!(is_native_architecture("X64", TargetArch::X86_64));
    assert!(is_native_architecture("arm64", TargetArch::Aarch64));
    assert!(!is_native_architecture("aa64", TargetArch::X86_64));
}

#[test]
fn menu_entry_from_bls() {
    let e = BlsEntry::parse("deb.conf", "version 6.1\nlinux /vmlinuz-6.1\noptions ro\n").unwrap();
    let b = to_boot_entry(&e);
    assert_eq!(b.id, "bls-deb");
    assert_eq!(b.name, "Linux 6.1");
    assert_eq!(b.bls_filename.as_deref(), Some("deb.conf"));
    match b.kind {
        EntryKind::LinuxLegacy { kernel_path, options, .. } => {
            assert_eq!(kernel_path, "\\vmlinuz-6.1");
            assert_eq!(options, "ro");
        }
        _ => panic!("expected a kernel entry"),
    }
    let efi = BlsEntry::parse("w.conf", "title Win\nefi /EFI/w.efi\n").unwrap();
    match to_boot_entry(&efi).kind {
        EntryKind::Chainload { path } => assert_eq!(path, "\\EFI\\w.efi"),
        _ => panic!("expected a chainload entry"),
    }
}

#[test]
fn volume_scan_tags_and_filters() {
    let files = vec![
        ("a.conf".to_string(), "linux /a\narchitecture x64\n".to_string()),
        ("b.conf".to_string(), "linux /b\narchitecture aa64\n".to_string()),
        ("c.conf".to_string(), "title broken\n".to_string()),
        ("notes.txt".to_string(), "linux /x\n".to_string()),
    ];
    let (entries, invalid) = scan_volume_for_bls(2, "ext4-view", TargetArch::X86_64, &files);
    assert_eq!(entries.len(), 1);
    assert_eq!(entries[0].id, "a");
    assert_eq!(entries[0].source_volume_index, 2);
    assert_eq!(entries[0].source_backend_tag, "ext4-view");
    assert_eq!(invalid, vec!["c.conf".to_string()]);
}

#[test]
fn discovered_initrd_only_fills_missing_initrd() {
    let mut e = BlsEntry::parse("a.conf", "linux /boot/vmlinuz-6.1\n").unwrap();
    adopt_discovered_initrd(&mut e, vec!["/boot/initrd.img-6.1".to_string()]);
    assert_eq!(e.initrd, vec!["/boot/initrd.img-6.1".to_string()]);
    adopt_discovered_initrd(&mut e, vec!["/other".to_string()]);
    assert_eq!(e.initrd, vec!["/boot/initrd.img-6.1".to_string()]);
}

#[test]
fn initrd_autodiscovery() {
    assert_eq!(extract_kernel_version("\\boot\\vmlinuz-6.12.0-200.fc43.x86_64"), "6.12.0-200.fc43.x86_64");
    assert_eq!(extract_kernel_version("\\vmlinuz-linux"), "linux");
    assert_eq!(extract_directory("\\boot\\vmlinuz-6.12.0"), "\\boot");
    assert_eq!(extract_directory("\\vmlinuz-6.12.0"), "");
    let c = initrd_candidates("\\boot\\vmlinuz-6.1");
    assert_eq!(c[0], "\\boot\\intel-ucode.img");
    assert!(c.contains(&"\\boot\\initramfs-6.1.img".to_string()));
    let existing = vec![
        "\\boot\\amd-ucode.img".to_string(),
        "\\boot\\initrd.img-6.1".to_string(),
        "\\boot\\initramfs-6.1-fallback.img".to_string(),
    ];
    assert_eq!(
        find_initrd("\\boot\\vmlinuz-6.1", &existing),
        vec!["\\boot\\amd-ucode.img".to_string(), "\\boot\\initrd.img-6.1".to_string()]
    );
    let arch = vec!["\\boot\\initramfs-linux.img".to_string()];
    assert_eq!(find_initrd("\\boot\\vmlinuz-linux", &arch), arch);
    assert!(find_initrd("\\boot\\vmlinuz-6.1", &[]).is_empty());
}

#[test]
fn bls_duplicates_across_volumes() {
    let a = BlsEntry::parse("x.conf", "linux /a\n").unwrap();
    let same = BlsEntry::parse("x.conf", "linux /a\n").unwrap();
    let other = BlsEntry::parse("X.conf", "linux /b\n").unwrap();
    let (kept, events) = dedup_bls_entries(vec![a, same, other]);
    assert_eq!(kept.len(), 2);
    assert_eq!(events, vec![(0, 1)]);
}

#[test]
fn file_name_helpers() {
    assert_eq!(extract_filename("\\EFI\\Linux\\arch.efi"), Some("arch".to_string()));
    assert_eq!(extract_filename_lower("\\EFI\\BOOT\\BOOTX64.EFI"), "bootx64.efi");
    assert!(ascii_eq_ignore_case("Fedora.conf", "fEDORA.CONF"));
    assert!(!ascii_eq_ignore_case("a", "ab"));
}

#[test]
fn module_manifest_names() {
    let m = load_module_manifest(
        "# tools\n[modules.memtest]\nname = \"Memory Test\"\n\n[modules.shell]\nname=\"UEFI Shell\"\nother = 1\n",
    );
    assert_eq!(
        m,
        vec![
            ("memtest".to_string(), "Memory Test".to_string()),
            ("shell".to_string(), "UEFI Shell".to_string())
        ]
    );
}

#[test]
fn legacy_driver_policy() {
    assert!(filesystem_natively_covered("Ext4_x64.efi"));
    assert!(!filesystem_natively_covered("btrfs_x64.efi"));
    assert_eq!(driver_decision("ext4_x64.efi", DriversLegacyMode::Auto), DriverDecision::SkipCovered);
    assert_eq!(driver_decision("btrfs_x64.efi", DriversLegacyMode::Auto), DriverDecision::Load);
    assert_eq!(driver_decision("ext4_x64.efi", DriversLegacyMode::Always), DriverDecision::LoadRedundant);
    assert_eq!(driver_decision("btrfs_x64.efi", DriversLegacyMode::Never), DriverDecision::SkipPolicy);
    let files = driver_files(&["a.EFI".to_string(), "b.txt".to_string(), "c.efi".to_string()]);
    assert_eq!(files, vec!["a.EFI".to_string(), "c.efi".to_string()]);
}

#[test]
fn uapi_version_order_is_transitive() {
    // 1.0~rc1 < 1.0 < 1.0a < 01.1, and "0x" ties with "x".
    let chain = ["1.0~rc1", "1.0", "1.0a", "01.1"];
    for i in 0..chain.len() {
        for j in i + 1..chain.len() {
            assert_eq!(version_compare(chain[i], chain[j]), Ordering::Less, "{} {}", chain[i], chain[j]);
        }
    }
    assert_eq!(version_compare("0x", "x"), Ordering::Equal);
    assert_eq!(version_compare("x", "00x"), Ordering::Equal);
    assert_eq!(version_compare("0x", "00x"), Ordering::Equal);
    assert_eq!(version_compare(".", "0."), Ordering::Less);
    assert_eq!(version_compare("0.", "x"), Ordering::Less);
    assert_eq!(version_compare(".", "x"), Ordering::Less);
}

#[test]
fn dedup_drops_copies_of_any_kept_entry() {
    let a = BlsEntry::parse("X.conf", "title A\nlinux /a\n").unwrap();
    let b1 = BlsEntry::parse("x.conf", "title B\nlinux /b\n").unwrap();
    let b2 = BlsEntry::parse("x.conf", "title B\nlinux /b\n").unwrap();
    let (kept, events) = dedup_bls_entries(vec![a, b1, b2]);
    // A and the first B are kept (different content, reported once); the
    // second B copies a kept entry and is dropped.
    assert_eq!(kept.len(), 2);
    assert_eq!(kept[1].title.as_deref(), Some("B"));
    assert_eq!(events, vec![(0, 1)]);
}

#[test]
fn volume_scan_returns_menu_order() {
    let files = vec![
        ("z.conf".to_string(), "sort-key z\nlinux /z\n".to_string()),
        ("a.conf".to_string(), "sort-key a\nlinux /a\n".to_string()),
        ("m.conf".to_string(), "linux /m\n".to_string()),
    ];
    let (entries, invalid) = scan_volume_for_bls(0, "fat", TargetArch::X86_64, &files);
    let ids: Vec<&str> = entries.iter().map(|e| e.id.as_str()).collect();
    // Keyed entries first, by sort-key; then the unkeyed one.
    assert_eq!(ids, vec!["a", "z", "m"]);
    assert!(invalid.is_empty());
}
