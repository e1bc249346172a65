use lamboot_core::loopback_cfg::parse_first_menuentry;

#[test]
fn ubuntu_casper_first_entry() {
    let cfg = r#"
        menuentry "Try or Install Ubuntu" {
            set gfxpayload=keep
            linux /casper/vmlinuz boot=casper iso-scan/filename=${iso_path} quiet splash ---
            initrd /casper/initrd
        }
        menuentry "OEM install (for manufacturers)" {
            linux /casper/vmlinuz boot=casper oem-config/enable=true iso-scan/filename=${iso_path} ---
            initrd /casper/initrd
        }
        "#;
    let e = parse_first_menuentry(cfg, "/isos/ubuntu.iso").unwrap();
    assert_eq!(e.kernel, "/casper/vmlinuz");
    assert_eq!(e.initrd, "/casper/initrd");
    assert_eq!(
        e.options,
        "boot=casper iso-scan/filename=/isos/ubuntu.iso quiet splash ---"
    );
    assert!(!e.options.contains("oem-config"));
}

#[test]
fn debian_live_findiso() {
    let cfg = r#"
        menuentry "Debian GNU/Linux Live" {
            linux  /live/vmlinuz-6.1.0 boot=live components findiso=${iso_path}
            initrd /live/initrd.img-6.1.0
        }
        "#;
    let e = parse_first_menuentry(cfg, "/boot/isos/debian.iso").unwrap();
    assert_eq!(e.kernel, "/live/vmlinuz-6.1.0");
    assert_eq!(e.initrd, "/live/initrd.img-6.1.0");
    assert_eq!(
        e.options,
        "boot=live components findiso=/boot/isos/debian.iso"
    );
}

#[test]
fn skips_leading_non_menuentry_and_comments() {
    let cfg = "# generated\nset timeout=30\nif loadfont unicode ; then\n  set gfxmode=auto\nfi\nmenuentry 'Live' {\n linux16 /isolinux/vmlinuz root=live:CDLABEL=X iso-scan/filename=${iso_path}\n initrd16 /isolinux/initrd.img\n}\n";
    let e = parse_first_menuentry(cfg, "/x.iso").unwrap();
    assert_eq!(e.kernel, "/isolinux/vmlinuz");
    assert_eq!(e.initrd, "/isolinux/initrd.img");
    assert_eq!(e.options, "root=live:CDLABEL=X iso-scan/filename=/x.iso");
}

#[test]
fn no_initrd_returns_none() {
    let cfg = "menuentry 'x' {\n linux /vmlinuz ro\n}\n";
    assert!(parse_first_menuentry(cfg, "/x.iso").is_none());
}

#[test]
fn empty_or_garbage_returns_none() {
    assert!(parse_first_menuentry("", "/x.iso").is_none());
    assert!(parse_first_menuentry("just some text\nno entries", "/x.iso").is_none());
}

#[test]
fn keyword_must_be_followed_by_whitespace() {
    let cfg = "menuentry 'x' {\n linuxhdr /nope\n linux /vmlinuz $iso_path\n initrd /initrd.img\n}\n";
    let e = parse_first_menuentry(cfg, "/a.iso").unwrap();
    assert_eq!(e.kernel, "/vmlinuz");
    assert_eq!(e.options, "/a.iso");
}

#[test]
fn closed_block_without_kernel_stops_scan() {
    let cfg = "menuentry 'a' {\n initrd /i1\n}\nmenuentry 'b' {\n linux /k\n initrd /i2\n}\n";
    assert!(parse_first_menuentry(cfg, "/a.iso").is_none());
}
