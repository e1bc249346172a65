//! The text-mode boot menu as a state machine: the caller draws, polls the
//! keyboard and stalls; each step here decides what happens next.
use vstd::prelude::*;

use crate::bls::{dec, decimal_chars};
use crate::boot_types::{BootEntry, Icon, PreflightStatus};
use crate::text::{concat_str, str_eq, string_of};

verus! {

/// A key the text menu reacts to.
#[derive(Debug, Clone, Copy, PartialEq, Eq, Structural)]
pub enum MenuKey {
    Up,
    Down,
    Enter,
    F2,
    F12,
    Char(char),
    Other,
}

/// What polling the keyboard gave.
#[derive(Debug, Clone, Copy, PartialEq, Eq, Structural)]
pub enum MenuEvent {
    Key(MenuKey),
    /// No input: the caller stalls 100 ms.
    Idle,
    /// Any other input event.
    Other,
}

/// What the caller does after a step.
#[derive(Debug, Clone, Copy, PartialEq, Eq, Structural)]
pub enum MenuAction {
    /// Boot entry `index`.
    Boot(usize),
    /// Redraw the menu without a countdown.
    Redraw,
    /// Redraw the menu with the auto-boot countdown (seconds left).
    Countdown(u32),
    /// Reboot into firmware setup.
    RebootToFirmware,
    /// Reboot.
    Reboot,
    /// Stall 100 ms and poll again.
    Stall,
    /// Nothing to do; poll again.
    Continue,
}

/// The menu's fixed parameters.
#[derive(Debug, Clone, Copy, PartialEq, Eq, Structural)]
pub struct MenuConfig {
    /// Number of boot entries (two system actions follow them).
    pub entries: usize,
    /// Whether any entry is bootable (not a tool).
    pub has_bootable: bool,
    /// Auto-boot timeout; 0 disables it.
    pub timeout_ms: u32,
    /// Index of the policy's default entry, when it is in the list.
    pub default_index: Option<usize>,
}

/// The menu's state.
#[derive(Debug, Clone, Copy, PartialEq, Eq, Structural)]
pub struct MenuState {
    pub selected: usize,
    pub interacted: bool,
    pub elapsed_frames: u32,
}

/// The state the menu starts in.
pub fn initial_menu_state() -> (r: MenuState)
    ensures
        r == (MenuState { selected: 0, interacted: false, elapsed_frames: 0 }),
{
    MenuState { selected: 0, interacted: false, elapsed_frames: 0 }
}

/// Whether an entry is bootable (anything but a tool).
pub open spec fn bootable(icons: Seq<Icon>) -> bool {
    exists|i: int| 0 <= i < icons.len() && icons[i] != Icon::Tools
}

pub open spec fn entry_icons(es: Seq<BootEntry>) -> Seq<Icon> {
    es.map_values(|e: BootEntry| e.icon)
}

/// Index of the first entry with id `id`, or `-1`.
pub open spec fn id_index(es: Seq<BootEntry>, id: Seq<char>, i: int) -> int
    decreases es.len() - i,
{
    if i < 0 || i >= es.len() {
        -1
    } else if es[i].id@ == id {
        i
    } else {
        id_index(es, id, i + 1)
    }
}

/// An id held by entry `k` is found at or before `k`.
pub proof fn lemma_id_index_found(es: Seq<BootEntry>, id: Seq<char>, i: int, k: int)
    requires
        0 <= i <= k < es.len(),
        es[k].id@ == id,
    ensures
        i <= id_index(es, id, i) <= k,
    decreases k - i,
{
    if es[i].id@ != id {
        lemma_id_index_found(es, id, i + 1, k);
    }
}

/// The menu's parameters for `entries` under the policy's default entry and
/// timeout: the timeout applies only when some entry is bootable.
pub fn menu_config(entries: &[BootEntry], default_entry: &Option<String>, default_timeout_ms: u32) -> (r:
    MenuConfig)
    ensures
        r.entries == entries@.len(),
        r.has_bootable == bootable(entry_icons(entries@)),
        r.timeout_ms == if r.has_bootable {
            default_timeout_ms
        } else {
            0
        },
        match default_entry {
            Some(id) => match r.default_index {
                Some(k) => id_index(entries@, id@, 0) == k,
                None => id_index(entries@, id@, 0) == -1,
            },
            None => r.default_index is None,
        },
{
    let mut has_bootable = false;
    let mut i: usize = 0;
    while i < entries.len()
        invariant
            i <= entries@.len(),
            has_bootable == exists|j: int| 0 <= j < i && entry_icons(entries@)[j] != Icon::Tools,
        decreases entries@.len() - i,
    {
        assert(entry_icons(entries@)[i as int] == entries@[i as int].icon);
        if entries[i].icon != Icon::Tools {
            has_bootable = true;
        }
        i += 1;
    }
    let default_index = match default_entry {
        None => None,
        Some(id) => {
            let mut k: usize = 0;
            let mut found: Option<usize> = None;
            while k < entries.len()
                invariant_except_break
                    k <= entries@.len(),
                    found is None,
                    id_index(entries@, id@, 0) == id_index(entries@, id@, k as int),
                ensures
                    match found {
                        Some(j) => id_index(entries@, id@, 0) == j,
                        None => id_index(entries@, id@, 0) == -1,
                    },
                decreases entries@.len() - k,
            {
                if str_eq(entries[k].id.as_str(), id.as_str()) {
                    found = Some(k);
                    break;
                }
                k += 1;
            }
            found
        },
    };
    MenuConfig {
        entries: entries.len(),
        has_bootable,
        timeout_ms: if has_bootable { default_timeout_ms } else { 0 },
        default_index,
    }
}

/// The auto-boot check made before each poll: once the timeout has passed
/// without interaction, the default entry (when known) is selected and the
/// selected entry is booted; otherwise every tenth frame the countdown is
/// redrawn.
pub open spec fn tick_spec(st: MenuState, cfg: MenuConfig) -> (MenuState, MenuAction) {
    if !st.interacted && cfg.timeout_ms > 0 {
        let elapsed_ms = st.elapsed_frames * 100;
        let sel = match cfg.default_index {
            Some(k) => k,
            None => st.selected,
        };
        if elapsed_ms >= cfg.timeout_ms && cfg.has_bootable && sel < cfg.entries {
            (MenuState { selected: sel, ..st }, MenuAction::Boot(sel))
        } else {
            let st2 = if elapsed_ms >= cfg.timeout_ms && cfg.has_bootable {
                MenuState { selected: sel, ..st }
            } else {
                st
            };
            let remaining = (cfg.timeout_ms - if elapsed_ms < cfg.timeout_ms {
                elapsed_ms
            } else {
                cfg.timeout_ms as int
            }) / 1000;
            if st.elapsed_frames % 10 == 0 {
                (st2, MenuAction::Countdown(remaining as u32))
            } else {
                (st2, MenuAction::Continue)
            }
        }
    } else {
        (st, MenuAction::Continue)
    }
}

/// The auto-boot check made before each poll.
pub fn menu_tick(st: MenuState, cfg: MenuConfig) -> (r: (MenuState, MenuAction))
    requires
        cfg.default_index matches Some(k) ==> k < cfg.entries,
    ensures
        r == tick_spec(st, cfg),
{
    if !st.interacted && cfg.timeout_ms > 0 {
        let elapsed_ms: u64 = (st.elapsed_frames as u64) * 100;
        let sel = match cfg.default_index {
            Some(k) => k,
            None => st.selected,
        };
        let expired = elapsed_ms >= cfg.timeout_ms as u64 && cfg.has_bootable;
        if expired && sel < cfg.entries {
            return (MenuState { selected: sel, ..st }, MenuAction::Boot(sel));
        }
        let st2 = if expired {
            MenuState { selected: sel, ..st }
        } else {
            st
        };
        let used: u64 = if elapsed_ms < cfg.timeout_ms as u64 {
            elapsed_ms
        } else {
            cfg.timeout_ms as u64
        };
        let remaining = ((cfg.timeout_ms as u64 - used) / 1000) as u32;
        if st.elapsed_frames % 10 == 0 {
            (st2, MenuAction::Countdown(remaining))
        } else {
            (st2, MenuAction::Continue)
        }
    } else {
        (st, MenuAction::Continue)
    }
}

/// One polled event: keys move the selection, boot an entry or reboot;
/// any key stops the auto-boot countdown; no input stalls one frame.
pub open spec fn event_spec(st: MenuState, cfg: MenuConfig, ev: MenuEvent) -> (MenuState, MenuAction) {
    match ev {
        MenuEvent::Idle => (
            MenuState { elapsed_frames: (st.elapsed_frames + 1) as u32, ..st },
            MenuAction::Stall,
        ),
        MenuEvent::Other => (st, MenuAction::Continue),
        MenuEvent::Key(k) => {
            let st1 = MenuState { interacted: true, ..st };
            match k {
                MenuKey::Up => (
                    MenuState {
                        selected: if st.selected > 0 {
                            (st.selected - 1) as usize
                        } else {
                            st.selected
                        },
                        ..st1
                    },
                    MenuAction::Redraw,
                ),
                MenuKey::Down => (
                    MenuState {
                        selected: if st.selected < cfg.entries + 1 {
                            (st.selected + 1) as usize
                        } else {
                            st.selected
                        },
                        ..st1
                    },
                    MenuAction::Redraw,
                ),
                MenuKey::Enter => enter_spec(st1, cfg),
                MenuKey::Char(c) => if c == '\r' {
                    enter_spec(st1, cfg)
                } else if '0' <= c <= '9' && (c as u32 - 48) < cfg.entries {
                    (
                        MenuState { selected: (c as u32 - 48) as usize, ..st1 },
                        MenuAction::Boot((c as u32 - 48) as usize),
                    )
                } else {
                    (st1, MenuAction::Continue)
                },
                MenuKey::F2 => (st1, MenuAction::RebootToFirmware),
                MenuKey::F12 => (st1, MenuAction::Reboot),
                MenuKey::Other => (st1, MenuAction::Continue),
            }
        },
    }
}

/// Enter on the selection: boot an entry, or run the selected system
/// action (firmware setup first, then reboot).
pub open spec fn enter_spec(st: MenuState, cfg: MenuConfig) -> (MenuState, MenuAction) {
    if st.selected < cfg.entries {
        (st, MenuAction::Boot(st.selected))
    } else if st.selected == cfg.entries {
        (st, MenuAction::RebootToFirmware)
    } else {
        (st, MenuAction::Reboot)
    }
}

fn menu_enter(st: MenuState, cfg: MenuConfig) -> (r: (MenuState, MenuAction))
    ensures
        r == enter_spec(st, cfg),
{
    if st.selected < cfg.entries {
        (st, MenuAction::Boot(st.selected))
    } else if st.selected - cfg.entries == 0 {
        (st, MenuAction::RebootToFirmware)
    } else {
        (st, MenuAction::Reboot)
    }
}

/// Apply one polled event to the menu.
pub fn menu_event(st: MenuState, cfg: MenuConfig, ev: MenuEvent) -> (r: (MenuState, MenuAction))
    requires
        ev == MenuEvent::Idle ==> st.elapsed_frames < u32::MAX,
        st.selected <= cfg.entries + 1,
        cfg.entries + 1 <= usize::MAX,
    ensures
        r == event_spec(st, cfg, ev),
        r.0.selected <= cfg.entries + 1,
{
    match ev {
        MenuEvent::Idle => (
            MenuState { elapsed_frames: st.elapsed_frames + 1, ..st },
            MenuAction::Stall,
        ),
        MenuEvent::Other => (st, MenuAction::Continue),
        MenuEvent::Key(k) => {
            let st1 = MenuState { interacted: true, ..st };
            match k {
                MenuKey::Up => {
                    let sel = if st.selected > 0 {
                        st.selected - 1
                    } else {
                        st.selected
                    };
                    (MenuState { selected: sel, ..st1 }, MenuAction::Redraw)
                },
                MenuKey::Down => {
                    let sel = if st.selected < cfg.entries + 1 {
                        st.selected + 1
                    } else {
                        st.selected
                    };
                    (MenuState { selected: sel, ..st1 }, MenuAction::Redraw)
                },
                MenuKey::Enter => menu_enter(st1, cfg),
                MenuKey::Char(c) => {
                    if c == '\r' {
                        menu_enter(st1, cfg)
                    } else if '0' <= c && c <= '9' && ((c as u32 - 48) as usize) < cfg.entries {
                        let idx = (c as u32 - 48) as usize;
                        (MenuState { selected: idx, ..st1 }, MenuAction::Boot(idx))
                    } else {
                        (st1, MenuAction::Continue)
                    }
                },
                MenuKey::F2 => (st1, MenuAction::RebootToFirmware),
                MenuKey::F12 => (st1, MenuAction::Reboot),
                MenuKey::Other => (st1, MenuAction::Continue),
            }
        },
    }
}

/// A selection stays on the menu's rows: no step moves it past the last
/// system action.
pub proof fn menu_selection_in_range(st: MenuState, cfg: MenuConfig, ev: MenuEvent)
    requires
        st.selected <= cfg.entries + 1,
        cfg.default_index matches Some(k) ==> k < cfg.entries,
    ensures
        event_spec(st, cfg, ev).0.selected <= cfg.entries + 1,
        tick_spec(st, cfg).0.selected <= cfg.entries + 1,
{
}

/// The arrow keys walk the rows: Up moves the highlight one row towards
/// the top (the first row stays put), Down one row towards the bottom (the
/// last row stays put), each asks for a redraw, and one undoes the other
/// wherever the first one moved.
pub proof fn menu_arrows_walk_rows(st: MenuState, cfg: MenuConfig)
    requires
        st.selected <= cfg.entries + 1,
        cfg.entries + 1 <= usize::MAX,
    ensures
        ({
            let up = event_spec(st, cfg, MenuEvent::Key(MenuKey::Up));
            let down = event_spec(st, cfg, MenuEvent::Key(MenuKey::Down));
            &&& st.selected > 0 ==> up.0.selected + 1 == st.selected
            &&& st.selected == 0 ==> up.0.selected == 0
            &&& st.selected < cfg.entries + 1 ==> down.0.selected == st.selected + 1
            &&& st.selected == cfg.entries + 1 ==> down.0.selected == st.selected
            &&& up.1 == MenuAction::Redraw && down.1 == MenuAction::Redraw
            &&& up.0.interacted && down.0.interacted
            &&& st.selected > 0 ==> event_spec(up.0, cfg, MenuEvent::Key(MenuKey::Down)).0.selected
                == st.selected
            &&& st.selected < cfg.entries + 1 ==> event_spec(
                down.0,
                cfg,
                MenuEvent::Key(MenuKey::Up),
            ).0.selected == st.selected
        }),
{
}

/// Once a key has been pressed, the auto-boot check neither boots nor
/// redraws: the countdown is over for good.
pub proof fn menu_no_auto_boot_after_key(st: MenuState, cfg: MenuConfig)
    requires
        st.interacted,
    ensures
        tick_spec(st, cfg) == (st, MenuAction::Continue),
{
}


// ---------------------------------------------------------------------------
// The menu's text
// ---------------------------------------------------------------------------

/// The flag shown after an entry's name for its preflight status.
pub open spec fn status_flag(e: BootEntry) -> Seq<char> {
    match e.preflight {
        Some(p) => match p.status {
            PreflightStatus::Warning => " [!]"@,
            PreflightStatus::Error => " [X]"@,
            PreflightStatus::Pass => ""@,
        },
        None => ""@,
    }
}

/// The selection marker of a row.
pub open spec fn marker(selected: bool) -> Seq<char> {
    if selected {
        ">"@
    } else {
        " "@
    }
}

/// The line of entry `i`: ` > 3) Fedora Linux [!]`.
pub open spec fn entry_line(e: BootEntry, i: nat, selected: bool) -> Seq<char> {
    " "@ + marker(selected) + " "@ + dec(i) + ") "@ + e.name@ + status_flag(e)
}

/// The entry lines, or the notice shown when there are no entries.
pub open spec fn entry_lines(es: Seq<BootEntry>, selected: int) -> Seq<Seq<char>> {
    if es.len() == 0 {
        seq![
            "  No bootable entries found."@,
            "  LamBoot searched: BLS entries, UKIs, Windows, GRUB, rEFInd"@,
            ""@,
        ]
    } else {
        Seq::new(es.len(), |i: int| entry_line(es[i], i as nat, i == selected))
    }
}

/// The text menu, line by line: a title, the entries, the two system
/// actions, and the countdown (seconds left) or the key help.
pub open spec fn menu_text(
    version: Seq<char>,
    target: Seq<char>,
    es: Seq<BootEntry>,
    selected: int,
    countdown: Option<u32>,
) -> Seq<Seq<char>> {
    seq!["=== LamBoot v"@ + version + " ("@ + target + ") ==="@, ""@] + entry_lines(es, selected)
        + seq![
        ""@,
        "--- System Actions ---"@,
        " "@ + marker(selected == es.len()) + " F2) Reboot to Firmware Setup"@,
        " "@ + marker(selected == es.len() + 1) + " F12) Reboot"@,
        ""@,
        match countdown {
            Some(secs) => "Auto-boot in "@ + dec(secs as nat) + "s... Press any key to stop."@,
            None => "Up/Down: Navigate  Enter: Select  F2: Firmware  F12: Reboot"@,
        },
    ]
}

fn marker_str(selected: bool) -> (r: &'static str)
    ensures
        r@ == marker(selected),
{
    if selected {
        ">"
    } else {
        " "
    }
}

fn cat3(a: &str, b: &str, c: &str) -> (r: String)
    ensures
        r@ == a@ + b@ + c@,
{
    let ab = concat_str(a, b);
    concat_str(ab.as_str(), c)
}

fn number(n: u64) -> (r: String)
    ensures
        r@ == dec(n as nat),
{
    let d = decimal_chars(n);
    string_of(&d)
}

fn entry_line_exec(e: &BootEntry, i: usize, selected: bool) -> (r: String)
    ensures
        r@ == entry_line(*e, i as nat, selected),
{
    let flag = match &e.preflight {
        Some(p) => match p.status {
            PreflightStatus::Warning => " [!]",
            PreflightStatus::Error => " [X]",
            PreflightStatus::Pass => "",
        },
        None => "",
    };
    let a = cat3(" ", marker_str(selected), " ");
    let b = cat3(a.as_str(), number(i as u64).as_str(), ") ");
    cat3(b.as_str(), e.name.as_str(), flag)
}

/// The text menu's lines, for printing.
pub fn menu_lines(
    version: &str,
    target: &str,
    entries: &[BootEntry],
    selected: usize,
    countdown: Option<u32>,
) -> (r: Vec<String>)
    requires
        entries@.len() + 1 <= usize::MAX,
    ensures
        r@.map_values(|s: String| s@) == menu_text(version@, target@, entries@, selected as int, countdown),
{
    proof {
        reveal_strlit("");
    }
    let mut out: Vec<String> = Vec::new();
    let a = cat3("=== LamBoot v", version, " (");
    out.push(cat3(a.as_str(), target, ") ==="));
    out.push(String::new());
    let ghost head = out@.map_values(|s: String| s@);
    assert(head.len() == 2);
    assert(head[1] == Seq::<char>::empty());
    assert(""@ == Seq::<char>::empty());
    assert(head[0] == "=== LamBoot v"@ + version@ + " ("@ + target@ + ") ==="@);
    assert(head =~= seq!["=== LamBoot v"@ + version@ + " ("@ + target@ + ") ==="@, ""@]);
    if entries.len() == 0 {
        out.push(String::from_str("  No bootable entries found."));
        out.push(String::from_str("  LamBoot searched: BLS entries, UKIs, Windows, GRUB, rEFInd"));
        out.push(String::new());
        assert(out@.map_values(|s: String| s@) =~= head + entry_lines(entries@, selected as int));
    } else {
        let mut i: usize = 0;
        while i < entries.len()
            invariant
                i <= entries@.len(),
                entries@.len() > 0,
                out@.map_values(|s: String| s@) == head + entry_lines(entries@, selected as int).subrange(
                    0,
                    i as int,
                ),
            decreases entries@.len() - i,
        {
            let line = entry_line_exec(&entries[i], i, i == selected);
            let ghost before = out@;
            out.push(line);
            assert(out@.map_values(|s: String| s@) =~= before.map_values(|s: String| s@).push(line@));
            assert(entry_lines(entries@, selected as int).subrange(0, i + 1) =~= entry_lines(
                entries@,
                selected as int,
            ).subrange(0, i as int).push(line@));
            i += 1;
        }
        assert(entry_lines(entries@, selected as int).subrange(0, entries@.len() as int)
            =~= entry_lines(entries@, selected as int));
    }
    let ghost mid = out@.map_values(|s: String| s@);
    out.push(String::new());
    out.push(String::from_str("--- System Actions ---"));
    out.push(cat3(" ", marker_str(selected == entries.len()), " F2) Reboot to Firmware Setup"));
    out.push(cat3(" ", marker_str(selected == entries.len() + 1), " F12) Reboot"));
    out.push(String::new());
    match countdown {
        Some(secs) => {
            out.push(cat3("Auto-boot in ", number(secs as u64).as_str(), "s... Press any key to stop."));
        },
        None => {
            out.push(String::from_str("Up/Down: Navigate  Enter: Select  F2: Firmware  F12: Reboot"));
        },
    }
    assert(out@.map_values(|s: String| s@) =~= menu_text(
        version@,
        target@,
        entries@,
        selected as int,
        countdown,
    ));
    out
}

} // verus!
