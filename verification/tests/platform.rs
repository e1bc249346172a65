use lamboot_core::acpi::{
    find_acpi_rsdp, iommu_table_kind, parse_drhd, parse_rmrr, parse_rsdp, parse_rsdt, parse_xsdt,
    IommuTable, RsdpKind, SdtRoot,
};
use lamboot_core::boot_types::Icon;
use lamboot_core::discovery_pure::{forward_to_backslash, looks_like_distro_uuid_dir, pretty_name_from_distro_uuid_dir};
use lamboot_core::fw_cfg::{
    dir_count_ok, find_file, list_files, signature_is_qemu, u16_from_be, u32_from_be, vmgenid_from,
};
use lamboot_core::partition_classify_pure::mbr_os_type_is_mountable;
use lamboot_core::platform::{
    components, dataset_label, hex_nibble, hypervisor_from_cpuid, icon_label,
    parse_btrfs_uuid_string, truncate_to_fit, FirmwareQuirks, Font,
};
use lamboot_core::fs_types::{Path, Uuid};

fn le32(x: u32) -> [u8; 4] {
    x.to_le_bytes()
}

#[test]
fn drhd_with_one_scope() {
    let mut d = vec![0u8, 0, 24, 0, 1, 0, 2, 0];
    d.extend_from_slice(&0xFED9_0000u64.to_le_bytes());
    d.extend_from_slice(&[1, 8, 0, 0, 0, 3, 0x1f, 2]);
    let u = parse_drhd(&d).unwrap();
    assert_eq!(u.segment, 2);
    assert_eq!(u.register_base, 0xFED9_0000);
    assert!(u.include_pci_all);
    assert_eq!(u.device_scopes.len(), 1);
    assert_eq!(u.device_scopes[0].start_bus, 3);
    assert_eq!(u.device_scopes[0].path, vec![(0x1f, 2)]);
    assert_eq!(u.device_scopes[0].bdf_string(), "03:1F.2");
    assert!(parse_drhd(&d[..15]).is_none());
}

#[test]
fn rmrr_region() {
    let mut d = vec![1u8, 0, 24, 0, 0, 0, 0, 0];
    d.extend_from_slice(&0x1000u64.to_le_bytes());
    d.extend_from_slice(&0x1fffu64.to_le_bytes());
    let r = parse_rmrr(&d).unwrap();
    assert_eq!((r.base_address, r.limit_address, r.segment), (0x1000, 0x1fff, 0));
    assert!(r.device_scopes.is_empty());
}

#[test]
fn rsdp_prefers_xsdt_for_acpi2() {
    let mut r = b"RSD PTR ".to_vec();
    r.extend_from_slice(&[0; 7]);
    r.push(2);
    r.extend_from_slice(&le32(0x1111));
    r.extend_from_slice(&le32(36));
    r.extend_from_slice(&0x2222u64.to_le_bytes());
    r.extend_from_slice(&[0; 4]);
    assert_eq!(parse_rsdp(&r), Some(SdtRoot::Xsdt(0x2222)));
    r[15] = 0;
    assert_eq!(parse_rsdp(&r), Some(SdtRoot::Rsdt(0x1111)));
    r[0] = b'X';
    assert_eq!(parse_rsdp(&r), None);
}

#[test]
fn root_tables_list_entries() {
    let mut t = b"RSDT".to_vec();
    t.extend_from_slice(&le32(44));
    t.extend_from_slice(&[0; 28]);
    t.extend_from_slice(&le32(0xAA));
    t.extend_from_slice(&le32(0xBB));
    assert_eq!(parse_rsdt(&t), Some(vec![0xAA, 0xBB]));
    let mut x = b"XSDT".to_vec();
    x.extend_from_slice(&le32(44));
    x.extend_from_slice(&[0; 28]);
    x.extend_from_slice(&0xCCu64.to_le_bytes());
    assert_eq!(parse_xsdt(&x), Some(vec![0xCC]));
    assert_eq!(parse_xsdt(&t), None);
}

#[test]
fn iommu_tables_and_rsdp_choice() {
    assert_eq!(iommu_table_kind(*b"DMAR"), IommuTable::Dmar);
    assert_eq!(iommu_table_kind(*b"IVRS"), IommuTable::Ivrs);
    assert_eq!(iommu_table_kind(*b"APIC"), IommuTable::Other);
    let entries = [(RsdpKind::Acpi1, 10), (RsdpKind::Other, 5), (RsdpKind::Acpi2, 20)];
    assert_eq!(find_acpi_rsdp(&entries), Some(20));
    assert_eq!(find_acpi_rsdp(&entries[..2]), Some(10));
    assert_eq!(find_acpi_rsdp(&[]), None);
}

fn dir_entry(size: u32, select: u16, name: &str) -> Vec<u8> {
    let mut e = size.to_be_bytes().to_vec();
    e.extend_from_slice(&select.to_be_bytes());
    e.extend_from_slice(&[0, 0]);
    let mut n = name.as_bytes().to_vec();
    n.resize(56, 0);
    e.extend_from_slice(&n);
    e
}

#[test]
fn fw_cfg_directory() {
    assert!(signature_is_qemu(*b"QEMU"));
    assert!(!signature_is_qemu(*b"QEMV"));
    assert_eq!(u16_from_be(0x12, 0x34), 0x1234);
    assert_eq!(u32_from_be(1, 2, 3, 4), 0x0102_0304);
    assert!(dir_count_ok(10));
    assert!(!dir_count_ok(0));
    let mut dir = dir_entry(128, 0x20, "opt/lamboot/config");
    dir.extend(dir_entry(16, 0x21, "etc/vmgenid_guid"));
    assert_eq!(
        list_files(&dir, 2),
        vec![("opt/lamboot/config".to_string(), 128), ("etc/vmgenid_guid".to_string(), 16)]
    );
    assert_eq!(find_file(&dir, 2, "etc/vmgenid_guid"), Some((0x21, 16)));
    assert_eq!(find_file(&dir, 2, "missing"), None);
    assert_eq!(vmgenid_from(&[9u8; 20]), Some([9u8; 16]));
    assert_eq!(vmgenid_from(&[9u8; 15]), None);
}

#[test]
fn hypervisor_names() {
    let sig = b"KVMKVMKVM\0\0\0";
    let w = |i: usize| u32::from_le_bytes([sig[i], sig[i + 1], sig[i + 2], sig[i + 3]]);
    let h = hypervisor_from_cpuid(0x8000_0000, w(0), w(4), w(8));
    assert!(h.present);
    assert_eq!(h.name.as_deref(), Some("KVM"));
    let h = hypervisor_from_cpuid(0, w(0), w(4), w(8));
    assert!(!h.present);
    assert!(h.name.is_none());
}

#[test]
fn firmware_quirks() {
    let q = FirmwareQuirks::detect(&Some("ASUSTeK COMPUTER INC.".to_string()), &Some("G10AJ-US".to_string()));
    assert!(q.conout_fat_coupling);
    assert_eq!(q.summary(), "conout_fat_coupling=true");
    let q = FirmwareQuirks::detect(&Some("QEMU".to_string()), &Some("Standard PC".to_string()));
    assert!(!q.conout_fat_coupling);
    assert_eq!(FirmwareQuirks::none().summary(), "none");
}

#[test]
fn btrfs_uuid_text() {
    let u = parse_btrfs_uuid_string("0123abcd-ef01-2345-6789-abcdef012345").unwrap();
    assert_eq!(u.0[0], 0x01);
    assert_eq!(u.0[15], 0x45);
    assert!(parse_btrfs_uuid_string("0123abcd").is_none());
    // Only the canonical 8-4-4-4-12 form parses.
    assert!(parse_btrfs_uuid_string("00112233445566778899aabbccddeeff").is_none());
    assert!(parse_btrfs_uuid_string("0123abcdef01-2345-6789-abcd-ef012345").is_none());
    assert!(parse_btrfs_uuid_string("0123abcd-ef01-2345-6789-abcdef01234g").is_none());
    assert_eq!(
        parse_btrfs_uuid_string("0123ABCD-EF01-2345-6789-ABCDEF012345").unwrap().0,
        u.0
    );
    assert_eq!(hex_nibble(b'F'), Some(15));
    assert_eq!(hex_nibble(b'g'), None);
}

#[test]
fn zfs_paths_and_labels() {
    assert_eq!(components(&Path("/a//b/c/")), vec!["a".to_string(), "b".to_string(), "c".to_string()]);
    assert!(components(&Path("/")).is_empty());
    assert_eq!(dataset_label("rpool", &["ROOT".to_string(), "pve-1".to_string()]), "ROOT/pve-1");
    assert_eq!(dataset_label("rpool", &[]), "rpool");
}

#[test]
fn menu_text_fitting() {
    assert_eq!(Font::Small.width(), 8);
    assert_eq!(Font::Large.width(), 16);
    assert_eq!(icon_label(Icon::Windows), "Win");
    assert_eq!(icon_label(Icon::Tools), "Tool");
    assert_eq!(truncate_to_fit("Fedora Linux 43", 80, Font::Small), "Fedora ...");
    assert_eq!(truncate_to_fit("short", 80, Font::Small), "short");
}

#[test]
fn distro_directories() {
    assert!(looks_like_distro_uuid_dir("Pop_OS-fc9ac3db-cac4-48bd-b437-cd47301f1c7f"));
    assert!(looks_like_distro_uuid_dir("Recovery-79EB-58C6"));
    assert!(!looks_like_distro_uuid_dir("Linux"));
    assert!(!looks_like_distro_uuid_dir("name-zzz"));
    assert_eq!(pretty_name_from_distro_uuid_dir("Recovery-79EB-58C6"), "Recovery");
    assert_eq!(
        pretty_name_from_distro_uuid_dir("Pop_OS-fc9ac3db-cac4-48bd-b437-cd47301f1c7f"),
        "Pop!_OS"
    );
    assert_eq!(pretty_name_from_distro_uuid_dir("Garuda-aabbccdd-1234"), "Garuda");
    assert_eq!(pretty_name_from_distro_uuid_dir("name-only-no-dash"), "name-only-no-dash");
    assert_eq!(forward_to_backslash("/EFI/x/y.efi"), "\\EFI\\x\\y.efi");
    assert!(mbr_os_type_is_mountable(0x83));
    assert!(!mbr_os_type_is_mountable(0x00));
}

#[test]
fn uuid_text_round_trip() {
    let bytes = [0xde, 0xad, 0xbe, 0xef, 0x00, 0x01, 0x7f, 0x80, 0xff, 0x10, 0x23, 0x45, 0x67, 0x89, 0xab, 0xcd];
    let text = Uuid(bytes).to_text();
    assert_eq!(text, "deadbeef-0001-7f80-ff10-23456789abcd");
    assert_eq!(parse_btrfs_uuid_string(&text).unwrap().0, bytes);
}
