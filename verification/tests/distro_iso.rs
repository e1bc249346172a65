use lamboot_core::distro_iso::{fingerprint, glob_pick, render_cmdline, split_glob};

#[test]
fn fingerprints_arch_by_arch_boot() {
    let r = fingerprint(&["/arch/boot", "/arch/version"]).unwrap();
    assert_eq!(r.family, "arch");
    assert_eq!(r.kernel[0], "/arch/boot/x86_64/vmlinuz-linux");
    assert_eq!(r.initrd[0], "/arch/boot/intel-ucode.img");
    assert_eq!(
        *r.initrd.last().unwrap(),
        "/arch/boot/x86_64/initramfs-linux.img"
    );
}

#[test]
fn fingerprints_ubuntu_casper() {
    let r = fingerprint(&["/casper", "/.disk/info"]).unwrap();
    assert_eq!(r.family, "ubuntu-casper");
    assert_eq!(r.media_cmdline, "boot=casper");
}

#[test]
fn fingerprints_debian_live_not_ubuntu() {
    let r = fingerprint(&["/live", "/.disk/info"]).unwrap();
    assert_eq!(r.family, "debian-live");
}

#[test]
fn fingerprints_fedora_by_liveos_squashfs() {
    assert!(fingerprint(&["/LiveOS"]).is_none());
    let r = fingerprint(&["/LiveOS/squashfs.img"]).unwrap();
    assert_eq!(r.family, "fedora");
    assert!(r.kernel.contains(&"/boot/x86_64/loader/linux"));
}

#[test]
fn fedora44_layout_beats_opensuse() {
    let r = fingerprint(&["/LiveOS/squashfs.img", "/boot/x86_64/loader"]).unwrap();
    assert_eq!(r.family, "fedora");
}

#[test]
fn fingerprints_opensuse_and_alpine() {
    assert_eq!(
        fingerprint(&["/boot/x86_64/loader"]).unwrap().family,
        "opensuse"
    );
    assert_eq!(fingerprint(&["/apks"]).unwrap().family, "alpine");
}

#[test]
fn unknown_layout_returns_none() {
    assert!(fingerprint(&["/EFI/BOOT", "/some/random/dir"]).is_none());
    assert!(fingerprint(&[]).is_none());
}

#[test]
fn split_glob_recognizes_trailing_star() {
    assert_eq!(split_glob("/live/vmlinuz*"), Some(("/live", "vmlinuz")));
    assert_eq!(
        split_glob("/live/initrd.img*"),
        Some(("/live", "initrd.img"))
    );
    assert_eq!(split_glob("/casper/vmlinuz"), None);
    assert_eq!(split_glob("noslash*"), None);
}

#[test]
fn glob_pick_takes_newest() {
    let names = vec!["vmlinuz-6.1.0-9-amd64", "vmlinuz-6.1.0-10-amd64", "other"];
    assert_eq!(glob_pick(&names, "vmlinuz"), Some("vmlinuz-6.1.0-9-amd64"));
    assert_eq!(glob_pick(&names, "initrd"), None);
}

#[test]
fn glob_pick_single_match() {
    let names = vec![
        "vmlinuz-6.1.0-10-amd64",
        "config",
        "initrd.img-6.1.0-10-amd64",
    ];
    assert_eq!(glob_pick(&names, "vmlinuz"), Some("vmlinuz-6.1.0-10-amd64"));
    assert_eq!(
        glob_pick(&names, "initrd.img"),
        Some("initrd.img-6.1.0-10-amd64")
    );
}

#[test]
fn render_media_cmdline_substitutes_label() {
    let r = fingerprint(&["/arch/boot"]).unwrap();
    let cmd = render_cmdline(r.media_cmdline, "/isos/arch.iso", "ARCH_202606");
    assert_eq!(cmd, "archisobasedir=arch archisolabel=ARCH_202606");
    assert!(!cmd.contains("/isos/arch.iso"));
}

#[test]
fn render_file_cmdline_substitutes_iso() {
    let r = fingerprint(&["/casper"]).unwrap();
    let cmd = render_cmdline(
        r.file_cmdline,
        "/boot/isos/ubuntu.iso",
        "Ubuntu 24.04 amd64",
    );
    assert_eq!(cmd, "boot=casper iso-scan/filename=/boot/isos/ubuntu.iso");
}

#[test]
fn render_escapes_label_spaces_for_cdlabel() {
    let r = fingerprint(&["/boot/x86_64/loader"]).unwrap();
    let cmd = render_cmdline(r.media_cmdline, "", "openSUSE Tumbleweed");
    assert_eq!(cmd, "root=live:CDLABEL=openSUSE\\x20Tumbleweed");
}
