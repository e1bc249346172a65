use lamboot_core::boot_types::{BootEntry, CheckResult, EntryKind, Icon, PreflightResult, Severity};
use lamboot_core::console::{
    initial_menu_state, menu_config, menu_event, menu_lines, menu_tick, MenuAction, MenuEvent,
    MenuKey,
};
use lamboot_core::gui_menu::{
    gui_event, gui_tick, hit_test, max_visible_boot, selected_status, split_columns, Column,
    GuiAction, GuiConfig, GuiEvent, GuiKey, GuiState, Layout, Tile, STATUS_HINT,
};
use lamboot_core::pointer::{Pointer, PointerEvent};

fn entry(id: &str, icon: Icon) -> BootEntry {
    BootEntry {
        id: id.to_string(),
        name: format!("Entry {id}"),
        kind: EntryKind::Chainload { path: format!("\\EFI\\{id}.efi") },
        icon,
        bls_filename: None,
        preflight: None,
        source_volume_index: 0,
        source_backend_tag: "",
    }
}

#[test]
fn text_menu_counts_down_then_boots_default() {
    let entries = vec![entry("a", Icon::Linux), entry("b", Icon::Linux)];
    let cfg = menu_config(&entries, &Some("b".to_string()), 300);
    assert_eq!(cfg.default_index, Some(1));
    let mut st = initial_menu_state();
    let (s, a) = menu_tick(st, cfg);
    assert_eq!(a, MenuAction::Countdown(0));
    st = s;
    for _ in 0..3 {
        let (s, a) = menu_event(st, cfg, MenuEvent::Idle);
        assert_eq!(a, MenuAction::Stall);
        st = s;
    }
    let (s, a) = menu_tick(st, cfg);
    assert_eq!(a, MenuAction::Boot(1));
    assert_eq!(s.selected, 1);
}

#[test]
fn text_menu_key_stops_countdown_and_moves() {
    let entries = vec![entry("a", Icon::Linux), entry("b", Icon::Linux)];
    let cfg = menu_config(&entries, &None, 5000);
    let st = initial_menu_state();
    let (st, a) = menu_event(st, cfg, MenuEvent::Key(MenuKey::Down));
    assert_eq!(a, MenuAction::Redraw);
    assert_eq!(st.selected, 1);
    assert_eq!(menu_tick(st, cfg).1, MenuAction::Continue);
    let (st, _) = menu_event(st, cfg, MenuEvent::Key(MenuKey::Down));
    let (st, _) = menu_event(st, cfg, MenuEvent::Key(MenuKey::Down));
    let (st, _) = menu_event(st, cfg, MenuEvent::Key(MenuKey::Down));
    assert_eq!(st.selected, 3);
    assert_eq!(menu_event(st, cfg, MenuEvent::Key(MenuKey::Enter)).1, MenuAction::Reboot);
    assert_eq!(
        menu_event(st, cfg, MenuEvent::Key(MenuKey::Char('1'))).1,
        MenuAction::Boot(1)
    );
    assert_eq!(menu_event(st, cfg, MenuEvent::Key(MenuKey::F2)).1, MenuAction::RebootToFirmware);
}

#[test]
fn text_menu_lines() {
    let mut warn = entry("b", Icon::Linux);
    warn.preflight = Some(PreflightResult::from_checks(vec![CheckResult {
        severity: Severity::Warning,
        message: "initrd missing".to_string(),
    }]));
    let entries = vec![entry("a", Icon::Linux), warn];
    let lines = menu_lines("0.16.1", "x86_64", &entries, 1, Some(4));
    assert_eq!(
        lines,
        vec![
            "=== LamBoot v0.16.1 (x86_64) ===",
            "",
            "   0) Entry a",
            " > 1) Entry b [!]",
            "",
            "--- System Actions ---",
            "   F2) Reboot to Firmware Setup",
            "   F12) Reboot",
            "",
            "Auto-boot in 4s... Press any key to stop.",
        ]
    );
    let lines = menu_lines("1", "aa64", &[], 0, None);
    assert_eq!(lines[2], "  No bootable entries found.");
    assert_eq!(lines[7], " > F2) Reboot to Firmware Setup");
    assert_eq!(
        lines.last().unwrap(),
        "Up/Down: Navigate  Enter: Select  F2: Firmware  F12: Reboot"
    );
}

fn gui_state() -> GuiState {
    GuiState {
        column: Column::Left,
        selected: 0,
        scroll_left: 0,
        scroll_right: 0,
        mouse_x: 0,
        mouse_y: 0,
        interacted: false,
        elapsed_frames: 0,
    }
}

fn gui_cfg() -> GuiConfig {
    GuiConfig { boots: 3, tools: 1, timeout_ms: 32, default_boot: 2, max_visible: 2 }
}

#[test]
fn gui_layout_and_hit_test() {
    let l = Layout { width: 1024, height: 768 };
    assert_eq!(max_visible_boot(l), 8);
    let t = |x, y| hit_test(l, x, y, 3, 1, 0);
    assert_eq!(t(30, 150), Some(Tile { column: Column::Left, row: 0 }));
    assert_eq!(t(30, 140 + 66 + 10), Some(Tile { column: Column::Left, row: 1 }));
    assert_eq!(t(30, 140 + 62), None);
    assert_eq!(t(30, 140 + 3 * 66 + 5), None);
    assert_eq!(t(600, 150), Some(Tile { column: Column::Right, row: 0 }));
    assert_eq!(t(600, 140 + 46 + 12 + 5), Some(Tile { column: Column::Right, row: 1 }));
    assert_eq!(t(600, 140 + 46 + 12 + 46 + 5), Some(Tile { column: Column::Right, row: 2 }));
    assert_eq!(t(600, 140 + 46 + 12 + 92 + 5), None);
    assert_eq!(t(5, 150), None);
    assert_eq!(hit_test(l, 30, 150, 3, 1, 4), Some(Tile { column: Column::Left, row: 4 }));
}

#[test]
fn gui_auto_boot_after_timeout_without_interaction() {
    let cfg = gui_cfg();
    let mut st = gui_state();
    assert_eq!(gui_tick(st, cfg), None);
    let (s, a) = gui_event(st, cfg, GuiEvent::Idle);
    assert_eq!(a, GuiAction::Stall);
    st = s;
    let (s, _) = gui_event(st, cfg, GuiEvent::Move { x: 3, y: 4, hit: None });
    st = s;
    assert_eq!((st.mouse_x, st.mouse_y), (3, 4));
    let (s, _) = gui_event(st, cfg, GuiEvent::Idle);
    assert_eq!(gui_tick(s, cfg), Some(GuiAction::Boot(2)));
    let (k, _) = gui_event(s, cfg, GuiEvent::Key(GuiKey::Up));
    assert_eq!(gui_tick(k, cfg), None);
}

#[test]
fn gui_keys_move_between_columns() {
    let cfg = gui_cfg();
    let st = gui_state();
    let (st, _) = gui_event(st, cfg, GuiEvent::Key(GuiKey::Down));
    let (st, _) = gui_event(st, cfg, GuiEvent::Key(GuiKey::Down));
    assert_eq!(st.selected, 2);
    assert_eq!(st.scroll_left, 1);
    let (st2, _) = gui_event(st, cfg, GuiEvent::Key(GuiKey::Down));
    assert_eq!(st2.selected, 2);
    let (st, _) = gui_event(st, cfg, GuiEvent::Key(GuiKey::Right));
    assert_eq!((st.column, st.selected), (Column::Right, 2));
    assert_eq!(gui_event(st, cfg, GuiEvent::Key(GuiKey::Enter)).1, GuiAction::System(1));
    let (st, _) = gui_event(st, cfg, GuiEvent::Key(GuiKey::Up));
    let (st, _) = gui_event(st, cfg, GuiEvent::Key(GuiKey::Up));
    assert_eq!(gui_event(st, cfg, GuiEvent::Key(GuiKey::Char('\r'))).1, GuiAction::Tool(0));
    let (st, _) = gui_event(st, cfg, GuiEvent::Key(GuiKey::Left));
    assert_eq!((st.column, st.selected), (Column::Left, 0));
    assert_eq!(gui_event(st, cfg, GuiEvent::Key(GuiKey::Enter)).1, GuiAction::Boot(0));
    assert_eq!(gui_event(st, cfg, GuiEvent::Key(GuiKey::F1)).1, GuiAction::Help);
    assert_eq!(gui_event(st, cfg, GuiEvent::Key(GuiKey::F2)).1, GuiAction::System(0));
}

#[test]
fn gui_click_activates_tile() {
    let cfg = gui_cfg();
    let st = gui_state();
    let tile = Some(Tile { column: Column::Left, row: 1 });
    let (s, a) = gui_event(st, cfg, GuiEvent::Click { x: 1, y: 1, hit: tile });
    assert_eq!(a, GuiAction::Boot(1));
    assert!(s.interacted);
    let tile = Some(Tile { column: Column::Right, row: 1 });
    assert_eq!(gui_event(st, cfg, GuiEvent::Click { x: 1, y: 1, hit: tile }).1, GuiAction::System(0));
    assert_eq!(gui_event(st, cfg, GuiEvent::Click { x: 1, y: 1, hit: None }).1, GuiAction::Continue);
}

#[test]
fn gui_columns_and_status_line() {
    let mut bad = entry("b", Icon::Linux);
    bad.preflight = Some(PreflightResult::from_checks(vec![
        CheckResult { severity: Severity::Pass, message: "ok".to_string() },
        CheckResult { severity: Severity::Error, message: "kernel not found".to_string() },
    ]));
    let entries = vec![entry("t", Icon::Tools), entry("a", Icon::Linux), bad];
    let (boots, tools) = split_columns(&entries);
    assert_eq!(boots, vec![1, 2]);
    assert_eq!(tools, vec![0]);
    assert_eq!(selected_status(&entries, &boots, &tools, Column::Left, 1), "kernel not found");
    assert_eq!(selected_status(&entries, &boots, &tools, Column::Left, 0), STATUS_HINT);
    assert_eq!(selected_status(&entries, &boots, &tools, Column::Right, 1), STATUS_HINT);
}

#[test]
fn pointer_tablet_scaling_and_click_edge() {
    let mut p = Pointer::new(800, 600);
    assert_eq!(p.position(), (400, 300));
    assert_eq!(p.tablet_report(&[0, 0, 0]), None);
    let e = p.tablet_report(&[1, 0xFF, 0x7F, 0, 0, 0]);
    assert_eq!(e, Some(PointerEvent::Click { x: 799, y: 0 }));
    let e = p.tablet_report(&[1, 0xFF, 0x3F, 0xFF, 0x3F, 0]);
    assert_eq!(e, Some(PointerEvent::Move { x: 399, y: 299 }));
    let e = p.tablet_report(&[0, 0, 0, 0, 0, 0]);
    assert_eq!(e, Some(PointerEvent::Move { x: 0, y: 0 }));
}

#[test]
fn pointer_relative_motion_is_clamped() {
    let mut p = Pointer::new(100, 50);
    assert_eq!(p.relative_motion(0, 0, false), None);
    assert_eq!(p.relative_motion(-500, 10, false), Some(PointerEvent::Move { x: 0, y: 35 }));
    assert_eq!(p.relative_motion(0, 0, true), Some(PointerEvent::Click { x: 0, y: 35 }));
    assert_eq!(p.relative_motion(0, 0, true), None);
    assert_eq!(p.relative_motion(1000, 1000, true), Some(PointerEvent::Move { x: 99, y: 49 }));
}

#[test]
fn pointer_absolute_motion_scales_device_range() {
    let mut p = Pointer::new(1000, 500);
    let e = p.absolute_motion(50, 100, 0, 100, 0, 200, 0);
    assert_eq!(e, PointerEvent::Move { x: 500, y: 250 });
    let e = p.absolute_motion(10, 10, 20, 20, 0, 0, 1);
    assert_eq!(e, PointerEvent::Click { x: 0, y: 499 });
}
