use lamboot_core::bls_parse::BlsEntry;
use lamboot_core::boot_types::{BootEntry, EntryKind, Icon};
use lamboot_core::discovery::discover_all_entries;
use lamboot_core::esp_scan::{
    discover_linux_uki, discover_other_loaders, discover_systemd_boot_dir_style, discover_tools,
    discover_windows, sdboot_paths, FoundUki, SdBootDir, UkiMetadata,
};

fn chainload_path(e: &BootEntry) -> &str {
    match &e.kind {
        EntryKind::Chainload { path } => path.as_str(),
        _ => panic!("not a chainload entry"),
    }
}

#[test]
fn windows_entry_when_found() {
    let r = discover_windows(true);
    assert_eq!(r.len(), 1);
    assert_eq!(r[0].id, "windows");
    assert_eq!(r[0].name, "Windows Boot Manager");
    assert_eq!(chainload_path(&r[0]), "\\EFI\\Microsoft\\Boot\\bootmgfw.efi");
    assert_eq!(r[0].icon, Icon::Windows);
    assert!(discover_windows(false).is_empty());
}

#[test]
fn other_loaders_in_table_order() {
    let r = discover_other_loaders(true, true, true, false);
    let ids: Vec<&str> = r.iter().map(|e| e.id.as_str()).collect();
    assert_eq!(ids, vec!["grub", "refind", "fallback"]);
    assert_eq!(r[1].name, "rEFInd Boot Manager");
    assert_eq!(chainload_path(&r[2]), "\\EFI\\BOOT\\BOOTX64.EFI");
}

#[test]
fn fallback_loader_that_is_lamboot_is_skipped() {
    let r = discover_other_loaders(false, false, true, true);
    assert!(r.is_empty());
    let r = discover_other_loaders(true, false, true, true);
    assert_eq!(r.len(), 1);
    assert_eq!(r[0].name, "GRUB Bootloader");
}

#[test]
fn tools_named_from_manifest() {
    let paths = vec![
        "\\EFI\\LamBoot\\modules\\memtest.efi".to_string(),
        "\\EFI\\LamBoot\\modules\\shell.efi".to_string(),
    ];
    let manifest = vec![("memtest".to_string(), "Memory Test".to_string())];
    let r = discover_tools(true, &paths, &manifest);
    assert_eq!(r.len(), 2);
    assert_eq!(r[0].id, "tool-memtest");
    assert_eq!(r[0].name, "Memory Test");
    assert_eq!(r[1].name, "Tool: shell");
    assert_eq!(r[1].icon, Icon::Tools);
    assert!(discover_tools(false, &paths, &manifest).is_empty());
}

fn pop_dir(cmdline: Option<&str>, previous: bool) -> SdBootDir {
    SdBootDir {
        name: "Pop_OS-fc9ac3db-cac4-48bd-b437-cd47301f1c7f".to_string(),
        is_dir: true,
        kernel_present: true,
        kernel_allowed: true,
        cmdline: cmdline.map(|s| s.to_string()),
        initrd_present: true,
        previous_present: previous,
        previous_allowed: true,
        previous_initrd_present: false,
    }
}

#[test]
fn sdboot_paths_under_efi() {
    let p = sdboot_paths("Pop_OS-1234");
    assert_eq!(p.kernel, "/EFI/Pop_OS-1234/vmlinuz.efi");
    assert_eq!(p.cmdline, "/EFI/Pop_OS-1234/cmdline");
    assert_eq!(p.initrd, "/EFI/Pop_OS-1234/initrd.img");
    assert_eq!(p.previous_kernel, "/EFI/Pop_OS-1234/vmlinuz-previous.efi");
    assert_eq!(p.previous_initrd, "/EFI/Pop_OS-1234/initrd.img-previous");
}

#[test]
fn sdboot_directory_gives_kernel_and_previous_entries() {
    let r = discover_systemd_boot_dir_style(&[pop_dir(Some("  root=UUID=x ro quiet \n"), true)]);
    assert_eq!(r.len(), 2);
    assert_eq!(r[0].id, "sdboot-Pop_OS-fc9ac3db-cac4-48bd-b437-cd47301f1c7f");
    assert_eq!(r[0].name, "Pop!_OS");
    match &r[0].kind {
        EntryKind::LinuxLegacy { kernel_path, initrd_paths, options } => {
            assert_eq!(kernel_path, "\\EFI\\Pop_OS-fc9ac3db-cac4-48bd-b437-cd47301f1c7f\\vmlinuz.efi");
            assert_eq!(
                initrd_paths,
                &vec!["\\EFI\\Pop_OS-fc9ac3db-cac4-48bd-b437-cd47301f1c7f\\initrd.img".to_string()]
            );
            assert_eq!(options, "root=UUID=x ro quiet");
        }
        _ => panic!("expected a kernel entry"),
    }
    assert_eq!(r[1].name, "Pop!_OS (previous kernel)");
    assert_eq!(r[1].id, "sdboot-Pop_OS-fc9ac3db-cac4-48bd-b437-cd47301f1c7f-previous");
    match &r[1].kind {
        EntryKind::LinuxLegacy { initrd_paths, options, .. } => {
            assert!(initrd_paths.is_empty());
            assert_eq!(options, "root=UUID=x ro quiet");
        }
        _ => panic!("expected a kernel entry"),
    }
}

#[test]
fn sdboot_skips_vendor_dirs_and_missing_kernels() {
    let mut grub = pop_dir(None, false);
    grub.name = "grub".to_string();
    let mut file = pop_dir(None, false);
    file.is_dir = false;
    let mut no_kernel = pop_dir(None, false);
    no_kernel.kernel_present = false;
    assert!(discover_systemd_boot_dir_style(&[grub, file, no_kernel]).is_empty());
    let r = discover_systemd_boot_dir_style(&[pop_dir(None, false)]);
    assert_eq!(r.len(), 1);
    match &r[0].kind {
        EntryKind::LinuxLegacy { options, .. } => assert_eq!(options, ""),
        _ => panic!("expected a kernel entry"),
    }
}

fn uki(path: &str, os: Option<&str>, kv: Option<&str>, cmd: Option<&str>) -> FoundUki {
    FoundUki {
        path: path.to_string(),
        metadata: Some(UkiMetadata {
            os_name: os.map(|s| s.to_string()),
            kernel_version: kv.map(|s| s.to_string()),
            cmdline: cmd.map(|s| s.to_string()),
        }),
    }
}

#[test]
fn ukis_named_from_metadata_and_sorted_newest_first() {
    let found = vec![
        uki("\\EFI\\Linux\\a.efi", Some("Fedora Linux 43"), Some("6.12.0-200"), Some("quiet")),
        uki("\\EFI\\Linux\\b.efi", Some("Fedora Linux 43"), Some("6.14.1-100"), None),
        FoundUki { path: "\\EFI\\Linux\\plain.efi".to_string(), metadata: None },
    ];
    let r = discover_linux_uki(&found);
    assert_eq!(r.len(), 3);
    assert_eq!(r[0].name, "Fedora Linux 43 (6.14.1-100)");
    assert_eq!(r[0].id, "uki-1");
    assert_eq!(r[1].name, "Fedora Linux 43 (6.12.0-200)");
    match &r[1].kind {
        EntryKind::Uki { path, options } => {
            assert_eq!(path, "\\EFI\\Linux\\a.efi");
            assert_eq!(options, "quiet");
        }
        _ => panic!("expected a UKI entry"),
    }
    assert_eq!(r[2].name, "Linux (plain)");
    assert_eq!(r[2].id, "uki-2");
}

#[test]
fn uki_without_os_name_uses_file_name() {
    let r = discover_linux_uki(&[uki("\\EFI\\Linux\\arch.efi", None, Some("6.9"), Some("rw"))]);
    assert_eq!(r[0].name, "Linux (arch)");
    let r = discover_linux_uki(&[uki("\\EFI\\Linux\\x.efi", Some("Arch Linux"), None, None)]);
    assert_eq!(r[0].name, "Arch Linux");
}

#[test]
fn menu_puts_bls_first_and_drops_duplicate_files() {
    let bls = vec![BlsEntry::parse(
        "fedora-6.12.conf",
        "title Fedora\nlinux /vmlinuz-6.12\ninitrd /initramfs-6.12.img\n",
    )
    .unwrap()];
    let mut esp_entries = discover_windows(true);
    esp_entries.extend(discover_other_loaders(true, false, false, false));
    let mut dup = discover_windows(true);
    dup[0].id = "windows-again".to_string();
    esp_entries.extend(dup);
    let (menu, conflicts) = discover_all_entries(bls, Some(("fat", esp_entries)));
    assert!(conflicts.is_empty());
    let ids: Vec<&str> = menu.iter().map(|e| e.id.as_str()).collect();
    assert_eq!(ids, vec!["bls-fedora-6.12", "windows", "grub"]);
    assert_eq!(menu[1].source_backend_tag, "fat");
    assert_eq!(menu[1].source_volume_index, 0);
}

#[test]
fn menu_without_esp_has_only_bls() {
    let bls = vec![BlsEntry::parse("a.conf", "linux /vmlinuz-a\n").unwrap()];
    let (menu, _) = discover_all_entries(bls, None);
    assert_eq!(menu.len(), 1);
    assert_eq!(menu[0].id, "bls-a");
}
