use lamboot_core::block_source::{
    compute_aligned_read, media_len, read_len, seek_position, SeekError, SeekFrom,
};
use lamboot_core::boot_entry::{
    front_loaded_boot_order, is_removable_fallback_path, plan_self_install, running_image_path,
    BootSlot, InstallPlan,
};
use lamboot_core::boot_entry_pure::{
    boot_order_with_front, boot_var_name, decode_boot_order, encode_boot_order, encode_load_option,
    first_free_boot_number, parse_load_option_description, LOAD_OPTION_ACTIVE,
};
use lamboot_core::fs::{
    glob_parts, glob_select, matches_glob, normalize_path_string, CacheKey, VolumeCache,
    CACHE_BYTES_LIMIT,
};
use lamboot_core::fs_probe::{classify_superblock, is_udf_anchor_tag, probe_verdict, ProbedFs, PROBE_BYTES};
use lamboot_core::fs_types::{Path, PathBuf, PathError, Uuid};

fn utf16(s: &str) -> Vec<u16> {
    s.encode_utf16().collect()
}

#[test]
fn load_option_layout_and_description_round_trip() {
    let opt = encode_load_option(LOAD_OPTION_ACTIVE, "LamBoot", &[0x7f, 0xff, 4, 0], &[9]);
    assert_eq!(&opt[0..4], &[1, 0, 0, 0]);
    assert_eq!(&opt[4..6], &[4, 0]);
    assert_eq!(&opt[6..8], &[b'L', 0]);
    assert_eq!(&opt[opt.len() - 5..], &[0x7f, 0xff, 4, 0, 9]);
    assert_eq!(parse_load_option_description(&opt), Some("LamBoot".to_string()));
    let opt = encode_load_option(0, "Ünïcode ✓", &[], &[]);
    assert_eq!(parse_load_option_description(&opt), Some("Ünïcode ✓".to_string()));
    assert_eq!(parse_load_option_description(&[1, 2, 3]), None);
}

#[test]
fn boot_order_encoding_and_front_loading() {
    let bytes = encode_boot_order(&[3, 0x1234]);
    assert_eq!(bytes, vec![3, 0, 0x34, 0x12]);
    assert_eq!(decode_boot_order(&bytes), vec![3, 0x1234]);
    assert_eq!(decode_boot_order(&[1, 0, 7]), vec![1]);
    assert_eq!(boot_order_with_front(&[1, 2, 3], 2), vec![1, 2, 3]);
    assert_eq!(boot_order_with_front(&[1, 3], 7), vec![7, 1, 3]);
    assert_eq!(front_loaded_boot_order(&[1, 0, 2, 0], 2), vec![1, 0, 2, 0]);
    assert_eq!(front_loaded_boot_order(&[1, 0], 2), vec![2, 0, 1, 0]);
    assert_eq!(first_free_boot_number(&[0, 1, 3], 0xFF), Some(2));
    assert_eq!(first_free_boot_number(&[0, 1], 1), None);
    assert_eq!(boot_var_name(0x2A), "Boot002A");
}

#[test]
fn self_install_plans() {
    let existing = encode_load_option(LOAD_OPTION_ACTIVE, "LamBoot", &[1], &[]);
    let other = encode_load_option(LOAD_OPTION_ACTIVE, "Windows", &[1], &[]);
    let slots = vec![BootSlot { num: 0, data: other.clone() }, BootSlot { num: 4, data: existing }];
    assert_eq!(plan_self_install(&slots, "LamBoot", &[2]), InstallPlan::AlreadyPresent(4));
    let slots = vec![BootSlot { num: 0, data: other }];
    match plan_self_install(&slots, "LamBoot", &[2]) {
        InstallPlan::Create { num, option } => {
            assert_eq!(num, 1);
            assert_eq!(parse_load_option_description(&option), Some("LamBoot".to_string()));
        }
        p => panic!("unexpected plan {p:?}"),
    }
}

#[test]
fn self_install_is_idempotent() {
    let slots = vec![BootSlot { num: 0, data: encode_load_option(LOAD_OPTION_ACTIVE, "Windows", &[1], &[]) }];
    let (num, option) = match plan_self_install(&slots, "LamBoot", &[5, 6]) {
        InstallPlan::Create { num, option } => (num, option),
        p => panic!("unexpected plan {p:?}"),
    };
    let mut after = slots;
    after.push(BootSlot { num, data: option });
    assert_eq!(plan_self_install(&after, "LamBoot", &[5, 6]), InstallPlan::AlreadyPresent(num));
}

#[test]
fn running_image_and_fallback_path() {
    let nodes = vec![utf16("\\EFI\\LamBoot"), utf16("\\lambootx64.efi\0")];
    assert_eq!(running_image_path(&nodes), Some("\\EFI\\LamBoot\\lambootx64.efi".to_string()));
    assert_eq!(running_image_path(&[vec![0u16]]), None);
    assert!(is_removable_fallback_path("\\EFI\\BOOT\\BOOTX64.EFI"));
    assert!(is_removable_fallback_path("/efi/boot/bootx64.efi"));
    assert!(!is_removable_fallback_path("\\EFI\\LamBoot\\lambootx64.efi"));
}

#[test]
fn canonical_paths() {
    assert_eq!(PathBuf::from_str("/a//b/./c/../d").unwrap().as_str(), "/a/b/d");
    assert_eq!(PathBuf::from_str("/").unwrap().as_str(), "/");
    assert_eq!(PathBuf::from_str(""), Err(PathError::Empty));
    assert_eq!(PathBuf::from_str("a/b"), Err(PathError::NotAbsolute));
    assert_eq!(PathBuf::from_str("/.."), Err(PathError::AboveRoot));
    let p = PathBuf::from_str("/EFI/LamBoot/policy.toml").unwrap();
    assert_eq!(p.as_path().file_name(), "policy.toml");
    assert_eq!(p.as_path().parent().as_str(), "/EFI/LamBoot");
    assert_eq!(Path("/EFI").join("x/../y").unwrap().as_str(), "/EFI/y");
    let again = PathBuf::from_str(p.as_str()).unwrap();
    assert_eq!(again, p);
}

#[test]
fn uuids() {
    let u = Uuid::from_fat_serial(0x1234_5678);
    assert_eq!(&u.0[0..4], &[0x78, 0x56, 0x34, 0x12]);
    assert_eq!(Uuid::from_bytes([3u8; 16]).0, [3u8; 16]);
    let mut b = [0u8; 16];
    for (i, x) in b.iter_mut().enumerate() {
        *x = (i as u8) * 17;
    }
    assert_eq!(Uuid(b).to_text(), "00112233-4455-6677-8899-aabbccddeeff");
    assert_eq!(PathError::AboveRoot.message(), "path traverses above root");
}

#[test]
fn cache_returns_what_was_inserted() {
    let mut c = VolumeCache::new();
    let k = CacheKey::full_read(&Path("/a"));
    assert!(c.get(&k).is_none());
    c.insert(CacheKey::full_read(&Path("/a")), vec![1, 2, 3]);
    assert_eq!(c.get(&k), Some(vec![1, 2, 3]));
    assert_eq!(c.used_bytes(), 3);
    let r = CacheKey::range(&Path("/a"), 4, 2);
    assert!(!r.matches(&k));
    c.insert(CacheKey::range(&Path("/a"), 4, 2), vec![7, 7]);
    c.invalidate_path(&Path("/a"));
    assert!(c.get(&k).is_none());
    assert_eq!(c.used_bytes(), 0);
}

#[test]
fn cache_stays_under_limit() {
    let mut c = VolumeCache::new();
    c.insert(CacheKey::full_read(&Path("/big1")), vec![0; CACHE_BYTES_LIMIT / 2 + 1]);
    c.insert(CacheKey::full_read(&Path("/big2")), vec![0; CACHE_BYTES_LIMIT / 2 + 1]);
    assert!(c.used_bytes() <= CACHE_BYTES_LIMIT);
    assert!(c.get(&CacheKey::full_read(&Path("/big2"))).is_some());
}

#[test]
fn globs() {
    assert!(matches_glob("vmlinuz-6.1", "vmlinuz*"));
    assert!(matches_glob("a.efi", "*.efi"));
    assert!(matches_glob("xinitrdx", "*initrd*"));
    assert!(!matches_glob("a.efi", "b.efi"));
    assert_eq!(normalize_path_string("\\EFI\\Linux\\"), "/EFI/Linux/");
    assert_eq!(normalize_path_string(""), "/");
    assert_eq!(glob_parts("/EFI/Linux/*.efi"), ("/EFI/Linux".to_string(), "*.efi".to_string()));
    let names = vec!["a.efi".to_string(), "b.txt".to_string()];
    assert_eq!(glob_select("/EFI/Linux", &names, "*.efi"), vec!["/EFI/Linux/a.efi".to_string()]);
}

#[test]
fn superblock_probe() {
    let mut p = vec![0u8; PROBE_BYTES];
    assert_eq!(classify_superblock(&p), None);
    p[1024 + 56] = 0x53;
    p[1024 + 57] = 0xEF;
    assert_eq!(classify_superblock(&p), Some(ProbedFs::Ext4));
    let mut x = vec![0u8; PROBE_BYTES];
    x[..4].copy_from_slice(b"XFSB");
    assert_eq!(classify_superblock(&x), Some(ProbedFs::Xfs));
    assert!(is_udf_anchor_tag([2, 0]));
    assert!(!is_udf_anchor_tag([1, 0]));
    assert_eq!(probe_verdict(None, Some([2, 0])), ProbedFs::Udf);
    assert_eq!(probe_verdict(None, None), ProbedFs::Unknown);
    assert_eq!(probe_verdict(Some(ProbedFs::Xfs), Some([2, 0])), ProbedFs::Xfs);
}

#[test]
fn block_reads() {
    assert_eq!(compute_aligned_read(1000, 100, 512), Some((1, 1024, 488)));
    assert_eq!(compute_aligned_read(1024, 512, 512), Some((2, 512, 0)));
    assert_eq!(compute_aligned_read(1000, 100, 0), None);
    assert_eq!(compute_aligned_read(0, 0, 512), None);
    assert_eq!(seek_position(SeekFrom::End(-10), 100, 0), Ok(90));
    assert_eq!(seek_position(SeekFrom::Current(-10), 100, 5), Err(SeekError::Negative));
    assert_eq!(read_len(90, 100, 50), 10);
    assert_eq!(read_len(100, 100, 50), 0);
    assert_eq!(media_len(7, 512), 4096);
    assert_eq!(media_len(u64::MAX, 512), u64::MAX);
}
