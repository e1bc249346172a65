use lamboot_core::boot_types::{BootEntry, CheckResult, EntryKind, Icon, PreflightResult, Severity};
use lamboot_core::framebuffer::{Color, Framebuffer, Pixel};
use lamboot_core::gui_menu::{gui_initial_state, GuiState, HEADER_H};
use lamboot_core::gui_screen::{
    draw_boot_progress, draw_boot_tile, draw_cursor, draw_footer, draw_help, draw_left_column,
    draw_menu, draw_system_action, draw_tool_tile, entry_type_label, Fonts, MenuScene,
    SystemInfoDisplay, FOOTER_HINTS,
};

/// Fonts whose every glyph is a solid block, so a text of `n` characters
/// covers exactly `n` glyph cells.
fn solid_fonts() -> Fonts {
    Fonts { small: vec![0xFF; 256 * 16], large: vec![0xFF; 256 * 64] }
}

fn at(fb: &Framebuffer, x: usize, y: usize) -> Pixel {
    fb.pixels()[y * fb.width() + x]
}

fn entry(name: &str, icon: Icon, kind: EntryKind) -> BootEntry {
    BootEntry {
        id: name.to_lowercase(),
        name: name.to_string(),
        kind,
        icon,
        bls_filename: None,
        preflight: None,
        source_volume_index: 0,
        source_backend_tag: "",
    }
}

fn chainload() -> EntryKind {
    EntryKind::Chainload { path: "\\EFI\\x.efi".to_string() }
}

#[test]
fn entry_type_labels() {
    let linux = EntryKind::LinuxLegacy {
        kernel_path: "\\vmlinuz".to_string(),
        initrd_paths: vec![],
        options: String::new(),
    };
    let uki = EntryKind::Uki { path: "\\EFI\\Linux\\a.efi".to_string(), options: String::new() };
    assert_eq!(entry_type_label(&linux, Icon::Linux), "Linux kernel + initrd");
    assert_eq!(entry_type_label(&uki, Icon::Linux), "Unified Kernel Image");
    assert_eq!(entry_type_label(&chainload(), Icon::Windows), "Windows Boot Manager");
    assert_eq!(entry_type_label(&chainload(), Icon::Tools), "Diagnostic module");
    assert_eq!(entry_type_label(&chainload(), Icon::Efi), "EFI bootloader");
}

#[test]
fn cursor_is_a_cross() {
    let mut fb = Framebuffer::new(40, 40);
    draw_cursor(&mut fb, 15, 15);
    let text = Color::Text.pixel();
    for y in 0..40 {
        for x in 0..40 {
            let bar = (5..25).contains(&x) && (14..16).contains(&y);
            let post = (14..16).contains(&x) && (5..25).contains(&y);
            let want = if bar || post { text } else { Color::Background.pixel() };
            assert_eq!(at(&fb, x, y), want, "({x},{y})");
        }
    }
}

#[test]
fn cursor_near_corner_draws_nothing() {
    let mut fb = Framebuffer::new(20, 20);
    draw_cursor(&mut fb, 5, 5);
    assert!(fb.pixels().iter().all(|p| *p == Color::Background.pixel()));
}

#[test]
fn tool_tile_strips_prefix_and_outlines_selection() {
    let fonts = solid_fonts();
    let mut fb = Framebuffer::new(300, 60);
    draw_tool_tile(&mut fb, &fonts, 0, 0, 300, "Tool: memtest", "Diagnostic module", true);
    // Outline at the tile's corner, fill inside it.
    assert_eq!(at(&fb, 0, 0), Color::Accent.pixel());
    assert_eq!(at(&fb, 5, 2), Color::Selected.pixel());
    // "memtest" is 7 glyphs wide from x = 10 on rows 4..20.
    assert_eq!(at(&fb, 10, 4), Color::Text.pixel());
    assert_eq!(at(&fb, 10 + 7 * 8 - 1, 10), Color::Text.pixel());
    assert_eq!(at(&fb, 10 + 7 * 8, 10), Color::Selected.pixel());
    // The subtitle from y = 22.
    assert_eq!(at(&fb, 10, 22), Color::Subtitle.pixel());
    // Below the 40-pixel tile the frame is untouched.
    assert_eq!(at(&fb, 5, 45), Color::Background.pixel());
}

#[test]
fn boot_tile_shows_preflight_error_marker() {
    let fonts = solid_fonts();
    let mut e = entry("Arch", Icon::Linux, chainload());
    e.preflight = Some(PreflightResult::from_checks(vec![CheckResult {
        severity: Severity::Error,
        message: "missing".to_string(),
    }]));
    let mut fb = Framebuffer::new(400, 80);
    draw_boot_tile(&mut fb, &fonts, 0, 0, 400, &e, false);
    assert_eq!(at(&fb, 0, 0), Color::Tile.pixel());
    // Icon label "Linux" from x = 10, y = 8.
    assert_eq!(at(&fb, 10, 8), Color::Accent.pixel());
    // The marker one glyph wide at x = 380, y = 10.
    assert_eq!(at(&fb, 380, 10), Color::Error.pixel());
    assert_eq!(at(&fb, 387, 10), Color::Error.pixel());
    assert_eq!(at(&fb, 388, 10), Color::Tile.pixel());
}

#[test]
fn left_column_without_entries_warns() {
    let fonts = solid_fonts();
    let mut fb = Framebuffer::new(200, 300);
    let st = gui_initial_state(0, 0);
    draw_left_column(&mut fb, &fonts, &st, &[], &[]);
    // "No bootable entries found." from (28, 150).
    assert_eq!(at(&fb, 28, 150), Color::Warning.pixel());
    // The heading "Boot Entries" from (20, 122).
    assert_eq!(at(&fb, 20, 122), Color::Subtitle.pixel());
}

#[test]
fn footer_shows_countdown_seconds() {
    let fonts = solid_fonts();
    let mut fb = Framebuffer::new(800, 600);
    let st = GuiState { elapsed_frames: 100, ..gui_initial_state(0, 0) };
    // 5000 ms - 1600 ms elapsed: "Auto-boot in 3s..." is 18 glyphs.
    draw_footer(&mut fb, &fonts, &st, 5000, &[], &[], &[]);
    let fy = 550 + 4;
    assert_eq!(at(&fb, 100, fy), Color::Divider.pixel());
    assert_eq!(at(&fb, 28, fy + 10), Color::Accent.pixel());
    assert_eq!(at(&fb, 28 + 18 * 8 - 1, fy + 10), Color::Accent.pixel());
    assert_eq!(at(&fb, 28 + 18 * 8, fy + 10), Color::Background.pixel());
    // The key help ends at the right margin.
    assert_eq!(FOOTER_HINTS.len(), 45);
    assert_eq!(at(&fb, 800 - 20 - 45 * 8, fy + 10), Color::Subtitle.pixel());
    assert_eq!(at(&fb, 800 - 20 - 1, fy + 10), Color::Subtitle.pixel());
    assert_eq!(at(&fb, 800 - 20, fy + 10), Color::Background.pixel());
}

#[test]
fn boot_progress_is_centred() {
    let fonts = solid_fonts();
    let mut fb = Framebuffer::new(640, 480);
    fb.fill_rect(0, 0, 640, 480, Color::Tile.pixel());
    draw_boot_progress(&mut fb, &fonts, "Arch");
    // "Booting: Arch..." is 16 glyphs of 16 pixels: x = (640 - 256) / 2.
    let x = (640 - 256) / 2;
    let y = (480 - 32) / 2;
    assert_eq!(at(&fb, x, y), Color::Text.pixel());
    assert_eq!(at(&fb, x - 1, y), Color::Background.pixel());
    assert_eq!(at(&fb, x + 255, y + 31), Color::Text.pixel());
    assert_eq!(at(&fb, x + 256, y), Color::Background.pixel());
}

#[test]
fn system_action_screens() {
    let fonts = solid_fonts();
    let mut fb = Framebuffer::new(200, 100);
    fb.fill_rect(0, 0, 200, 100, Color::Tile.pixel());
    assert!(!draw_system_action(&mut fb, &fonts, 7));
    assert!(fb.pixels().iter().all(|p| *p == Color::Tile.pixel()));
    assert!(draw_system_action(&mut fb, &fonts, 1));
    assert_eq!(at(&fb, 50, 50), Color::Accent.pixel());
    assert_eq!(at(&fb, 0, 0), Color::Background.pixel());
}

#[test]
fn help_screen_lists_keys() {
    let fonts = solid_fonts();
    let mut fb = Framebuffer::new(640, 480);
    draw_help(&mut fb, &fonts, "0.9", "x86_64");
    assert_eq!(at(&fb, 50, 50), Color::Accent.pixel());
    // The first key line from (50, 120), the last from (50, 330).
    assert_eq!(at(&fb, 50, 120), Color::Text.pixel());
    assert_eq!(at(&fb, 50, 330), Color::Text.pixel());
    assert_eq!(at(&fb, 50, 400), Color::Subtitle.pixel());
    assert_eq!(at(&fb, 50, 440), Color::Accent.pixel());
}

#[test]
fn menu_frame_has_header_divider_and_tiles() {
    let fonts = solid_fonts();
    let entries = vec![
        entry("Arch", Icon::Linux, chainload()),
        entry("Tool: memtest", Icon::Tools, chainload()),
    ];
    let info = SystemInfoDisplay { vmid: Some("101".to_string()), ..SystemInfoDisplay::default() };
    let sc = MenuScene {
        fonts: &fonts,
        logo: &[],
        version: "0.9",
        target: "x86_64",
        info: &info,
        entries: &entries,
        boots: &[0],
        tools: &[1],
        timeout_ms: 0,
    };
    let mut fb = Framebuffer::new(800, 600);
    draw_menu(&mut fb, &sc, &gui_initial_state(400, 300));
    assert_eq!(at(&fb, 400, HEADER_H - 2), Color::Divider.pixel());
    // The selected first boot tile: outline at its corner (20, 140).
    assert_eq!(at(&fb, 20, HEADER_H), Color::Accent.pixel());
    // "VM 101" in the large font ends at the right margin, on row 18.
    assert_eq!(at(&fb, 800 - 20 - 6 * 16, 18), Color::Accent.pixel());
    assert_eq!(at(&fb, 800 - 20, 18), Color::Background.pixel());
    // The cursor's centre.
    assert_eq!(at(&fb, 400, 300), Color::Text.pixel());
}
