use lamboot_core::fs_error::{FsError, ERROR_BIT, STATUS_NOT_FOUND};
use lamboot_core::fs_types::{to_firmware_path, FileKind, Metadata, Path, PathError};

#[test]
fn log_tokens_are_stable() {
    assert_eq!(FsError::NotFound.as_log_token(), "not_found");
    assert_eq!(FsError::Corrupt("bad superblock").as_log_token(), "fs_corrupt");
    assert_eq!(
        FsError::UnsupportedFeature { feature: "compression", backend: "btrfs" }.as_log_token(),
        "unsupported_feature"
    );
    assert_eq!(FsError::Io { status: 7, detail: String::new() }.as_log_token(), "io_error");
    assert_eq!(FsError::BackendOther("x".to_string()).as_log_token(), "backend_other");
}

#[test]
fn only_not_found_means_absent() {
    assert!(FsError::NotFound.is_not_found());
    assert!(!FsError::PermissionDenied.is_not_found());
    assert!(!FsError::Io { status: STATUS_NOT_FOUND, detail: String::new() }.is_not_found());
}

#[test]
fn firmware_statuses() {
    assert_eq!(ERROR_BIT, 1usize << (usize::BITS - 1));
    assert_eq!(FsError::NotFound.to_uefi_status(), ERROR_BIT | 14);
    assert_eq!(FsError::PermissionDenied.to_uefi_status(), ERROR_BIT | 15);
    assert_eq!(FsError::IsDirectory.to_uefi_status(), ERROR_BIT | 2);
    assert_eq!(FsError::InvalidPath("empty").to_uefi_status(), ERROR_BIT | 2);
    assert_eq!(FsError::Unsupported("open_stream").to_uefi_status(), ERROR_BIT | 3);
    assert_eq!(FsError::Corrupt("x").to_uefi_status(), ERROR_BIT | 10);
    assert_eq!(FsError::BackendOther("x".to_string()).to_uefi_status(), ERROR_BIT | 7);
    // An I/O error keeps the firmware's own status.
    assert_eq!(FsError::Io { status: ERROR_BIT | 12, detail: String::new() }.to_uefi_status(), ERROR_BIT | 12);
}

#[test]
fn messages() {
    assert_eq!(FsError::NotFound.message(), "not found");
    assert_eq!(FsError::InvalidPath("above root").message(), "invalid path: above root");
    assert_eq!(
        FsError::UnsupportedFeature { feature: "raid5", backend: "lvm" }.message(),
        "unsupported feature raid5 on backend lvm"
    );
    assert_eq!(
        FsError::Io { status: 0, detail: "DEVICE_ERROR".to_string() }.message(),
        "I/O error: DEVICE_ERROR"
    );
}

#[test]
fn path_errors_become_invalid_path() {
    assert_eq!(FsError::from(PathError::Empty).message(), "invalid path: empty");
    assert_eq!(FsError::from(PathError::NotAbsolute).message(), "invalid path: not absolute");
    assert_eq!(FsError::from(PathError::AboveRoot).message(), "invalid path: above root");
}

#[test]
fn fat_metadata_modes() {
    let d = Metadata::fat(FileKind::Directory, 0, false, "fat");
    assert_eq!((d.mode, d.read_only, d.source_backend), (0o755, false, "fat"));
    assert_eq!(Metadata::fat(FileKind::Regular, 10, true, "fat").mode, 0o444);
    let f = Metadata::fat(FileKind::Regular, 10, false, "fat");
    assert_eq!((f.mode, f.size), (0o644, 10));
    assert_eq!(Metadata::fat(FileKind::Other, 0, false, "fat").mode, 0);
}

#[test]
fn read_only_media_metadata() {
    let d = Metadata::read_only_media(FileKind::Directory, 0, "exfat");
    assert_eq!((d.mode, d.read_only), (0o555, true));
    let f = Metadata::read_only_media(FileKind::Regular, 7, "zfs");
    assert_eq!((f.mode, f.read_only, f.size), (0o444, true, 7));
}

#[test]
fn firmware_path_form() {
    assert_eq!(to_firmware_path(&Path("/")), "\\");
    assert_eq!(to_firmware_path(&Path("/EFI/BOOT/BOOTX64.EFI")), "\\EFI\\BOOT\\BOOTX64.EFI");
}
