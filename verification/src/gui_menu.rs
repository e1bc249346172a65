//! The graphical boot menu as a state machine.
//!
//! Boot entries fill the left column and diagnostic tools the right one,
//! followed there by two system actions (firmware setup, reboot).  The
//! caller draws the frame, polls the input devices and stalls one frame
//! (16 ms) when nothing happened; each step here decides what happens
//! next.  Mouse positions are mapped to tiles by `hit_test`.
use vstd::prelude::*;

use crate::boot_types::{first_issue_index, severities, BootEntry, Icon};

verus! {

/// Height of a boot tile.
pub const BOOT_TILE_H: usize = 60;
/// Height of a tool tile.
pub const TOOL_TILE_H: usize = 40;
/// Vertical gap between tiles.
pub const TILE_GAP: usize = 6;
/// Height of the header (logo and padding).
pub const HEADER_H: usize = 140;
/// Height of the footer.
pub const FOOTER_H: usize = 50;
/// Left and right screen margin.
pub const MARGIN: usize = 20;
/// Gap between the two columns.
pub const COL_GAP: usize = 20;
/// Length of one menu frame, in milliseconds.
pub const FRAME_MS: u32 = 16;

/// The screen's geometry.
#[derive(Debug, Clone, Copy, PartialEq, Eq, Structural)]
pub struct Layout {
    pub width: usize,
    pub height: usize,
}

/// A screen the layout fits on: wide enough for the margins and gap, and
/// addressable with 32-bit signed coordinates.
pub open spec fn layout_ok(l: Layout) -> bool {
    &&& 60 <= l.width <= i32::MAX
    &&& l.height <= i32::MAX
}

/// `a - b`, or 0 when `b` is larger.
pub open spec fn sat(a: int, b: int) -> int {
    if a > b {
        a - b
    } else {
        0
    }
}

/// Bottom of the content area (above the footer).
pub open spec fn content_bottom(l: Layout) -> int {
    sat(l.height as int, FOOTER_H as int)
}

/// Height of the content area (between header and footer).
pub open spec fn content_height(l: Layout) -> int {
    sat(content_bottom(l), HEADER_H as int)
}

/// Width of the left column: 55% of what the margins and gap leave.
pub open spec fn left_col_w(l: Layout) -> int {
    (l.width - 2 * MARGIN - COL_GAP) * 55 / 100
}

/// Left edge of the right column.
pub open spec fn right_col_x(l: Layout) -> int {
    MARGIN + left_col_w(l) + COL_GAP
}

/// Width of the right column.
pub open spec fn right_col_w(l: Layout) -> int {
    l.width - right_col_x(l) - MARGIN
}

/// How many boot tiles fit in the content area (at least one).
pub open spec fn max_visible(l: Layout) -> int {
    let n = content_height(l) / ((BOOT_TILE_H + TILE_GAP) as int);
    if n < 1 {
        1
    } else {
        n
    }
}

/// How many boot tiles fit on the screen.
pub fn max_visible_boot(l: Layout) -> (r: usize)
    requires
        layout_ok(l),
    ensures
        r as int == max_visible(l),
        r >= 1,
{
    let bottom = if l.height > FOOTER_H {
        l.height - FOOTER_H
    } else {
        0
    };
    let content = if bottom > HEADER_H {
        bottom - HEADER_H
    } else {
        0
    };
    let n = content / (BOOT_TILE_H + TILE_GAP);
    if n < 1 {
        1
    } else {
        n
    }
}

/// The two columns of the menu.
#[derive(Debug, Clone, Copy, PartialEq, Eq, Structural)]
pub enum Column {
    Left,
    Right,
}

/// A tile of the menu: a row of a column.
#[derive(Debug, Clone, Copy, PartialEq, Eq, Structural)]
pub struct Tile {
    pub column: Column,
    pub row: usize,
}

/// The tile under `(mx, my)`: a boot tile of the left column (counting
/// from the first visible one, offset by `scroll_left`), a tool tile of the
/// right column, or one of the two system-action tiles below the tools.
pub open spec fn hit(l: Layout, mx: int, my: int, boots: int, tools: int, scroll_left: int) -> Option<
    (Column, int),
> {
    let top = HEADER_H as int;
    let lx = MARGIN as int;
    let vis = if max_visible(l) < boots {
        max_visible(l)
    } else {
        boots
    };
    let vi = (my - top) / ((BOOT_TILE_H + TILE_GAP) as int);
    let rx = right_col_x(l);
    let ti = (my - top) / ((TOOL_TILE_H + TILE_GAP) as int);
    let sys_top = top + tools * ((TOOL_TILE_H + TILE_GAP) as int) + 12;
    let si = (my - sys_top) / ((TOOL_TILE_H + TILE_GAP) as int);
    if lx <= mx < lx + left_col_w(l) && my >= top && vi < vis && (my - top) % ((BOOT_TILE_H
        + TILE_GAP) as int) < BOOT_TILE_H as int {
        Some((Column::Left, scroll_left + vi))
    } else if rx <= mx < rx + right_col_w(l) && my >= top && ti < tools && (my - top) % ((
    TOOL_TILE_H + TILE_GAP) as int) < TOOL_TILE_H as int {
        Some((Column::Right, ti))
    } else if rx <= mx < rx + right_col_w(l) && my >= sys_top && si < 2 && (my - sys_top) % ((
    TOOL_TILE_H + TILE_GAP) as int) < TOOL_TILE_H as int {
        Some((Column::Right, tools + si))
    } else {
        None
    }
}

/// Maps a mouse position to the tile under it.
pub fn hit_test(l: Layout, mx: i32, my: i32, boots: usize, tools: usize, scroll_left: usize) -> (r:
    Option<Tile>)
    requires
        layout_ok(l),
        tools <= 0x1000_0000,
        scroll_left + l.height <= usize::MAX,
    ensures
        match r {
            Some(t) => hit(l, mx as int, my as int, boots as int, tools as int, scroll_left as int)
                == Some((t.column, t.row as int)),
            None => hit(l, mx as int, my as int, boots as int, tools as int, scroll_left as int) is None,
        },
{
    let top: i64 = HEADER_H as i64;
    let lx: i64 = MARGIN as i64;
    let lw: i64 = ((l.width as u64 - 60) * 55 / 100) as i64;
    let rx: i64 = lx + lw + COL_GAP as i64;
    let rw: i64 = l.width as i64 - rx - MARGIN as i64;
    let x = mx as i64;
    let y = my as i64;
    let mv = max_visible_boot(l);
    let vis = if mv < boots {
        mv
    } else {
        boots
    };
    let bstep: i64 = (BOOT_TILE_H + TILE_GAP) as i64;
    let tstep: i64 = (TOOL_TILE_H + TILE_GAP) as i64;
    if lx <= x && x < lx + lw && y >= top {
        let vi = (y - top) / bstep;
        if vi < vis as i64 && (y - top) % bstep < BOOT_TILE_H as i64 {
            assert(vi <= l.height);
            return Some(Tile { column: Column::Left, row: scroll_left + vi as usize });
        }
    }
    if rx <= x && x < rx + rw {
        if y >= top {
            let ti = (y - top) / tstep;
            if ti < tools as i64 && (y - top) % tstep < TOOL_TILE_H as i64 {
                return Some(Tile { column: Column::Right, row: ti as usize });
            }
        }
        let sys_top: i64 = top + tools as i64 * tstep + 12;
        if y >= sys_top {
            let si = (y - sys_top) / tstep;
            if si < 2 && (y - sys_top) % tstep < TOOL_TILE_H as i64 {
                return Some(Tile { column: Column::Right, row: tools + si as usize });
            }
        }
    }
    None
}

/// The new scroll offset of a column after its selection moved: the
/// selection is scrolled into view, moving the offset as little as
/// possible.
pub open spec fn scrolled(sel: int, scroll: int, max_vis: int) -> int {
    if sel < scroll {
        sel
    } else if sel >= scroll + max_vis {
        sel + 1 - max_vis
    } else {
        scroll
    }
}

/// After scrolling, the selection is one of the visible tiles.
pub proof fn scrolled_shows_selection(sel: int, scroll: int, max_vis: int)
    requires
        max_vis >= 1,
        sel >= 0,
    ensures
        scrolled(sel, scroll, max_vis) <= sel < scrolled(sel, scroll, max_vis) + max_vis,
{
}

/// The menu's fixed parameters.
#[derive(Debug, Clone, Copy, PartialEq, Eq, Structural)]
pub struct GuiConfig {
    /// Number of boot entries (left column).
    pub boots: usize,
    /// Number of tools (right column, before the two system actions).
    pub tools: usize,
    /// Auto-boot timeout; 0 disables it.
    pub timeout_ms: u32,
    /// Position in the boot column of the policy's default entry (0 when
    /// there is none or it is not listed).
    pub default_boot: usize,
    /// How many boot tiles fit on the screen.
    pub max_visible: usize,
}

/// The menu's state.
#[derive(Debug, Clone, Copy, PartialEq, Eq, Structural)]
pub struct GuiState {
    pub column: Column,
    pub selected: usize,
    pub scroll_left: usize,
    pub scroll_right: usize,
    pub mouse_x: i32,
    pub mouse_y: i32,
    pub interacted: bool,
    pub elapsed_frames: u32,
}

/// A key the menu reacts to.
#[derive(Debug, Clone, Copy, PartialEq, Eq, Structural)]
pub enum GuiKey {
    Up,
    Down,
    Left,
    Right,
    Enter,
    F1,
    F2,
    F12,
    Char(char),
    Other,
}

/// What polling the input devices gave (with the tile under the cursor,
/// from `hit_test`, for mouse events).
#[derive(Debug, Clone, Copy, PartialEq, Eq, Structural)]
pub enum GuiEvent {
    Key(GuiKey),
    Move { x: i32, y: i32, hit: Option<Tile> },
    Click { x: i32, y: i32, hit: Option<Tile> },
    Idle,
}

/// What the caller does after a step.
#[derive(Debug, Clone, Copy, PartialEq, Eq, Structural)]
pub enum GuiAction {
    /// Boot the `i`-th entry of the boot column.
    Boot(usize),
    /// Start the `i`-th tool.
    Tool(usize),
    /// Run system action `a` (0: firmware setup, 1: reboot).
    System(usize),
    /// Show the help screen.
    Help,
    /// Stall one frame, then draw and poll again.
    Stall,
    /// Draw and poll again.
    Continue,
}

/// The state the menu starts in, with the cursor at `(x, y)`.
pub open spec fn gui_initial(x: i32, y: i32) -> GuiState {
    GuiState {
        column: Column::Left,
        selected: 0,
        scroll_left: 0,
        scroll_right: 0,
        mouse_x: x,
        mouse_y: y,
        interacted: false,
        elapsed_frames: 0,
    }
}

/// The state the menu starts in: the first boot entry selected, nothing
/// scrolled, the cursor at `(x, y)`.
pub fn gui_initial_state(x: i32, y: i32) -> (r: GuiState)
    ensures
        r == gui_initial(x, y),
{
    GuiState {
        column: Column::Left,
        selected: 0,
        scroll_left: 0,
        scroll_right: 0,
        mouse_x: x,
        mouse_y: y,
        interacted: false,
        elapsed_frames: 0,
    }
}

/// The auto-boot check made each frame: once the timeout has passed with
/// no interaction, the default boot entry boots.
pub open spec fn gui_tick_spec(st: GuiState, cfg: GuiConfig) -> Option<GuiAction> {
    if !st.interacted && cfg.timeout_ms > 0 && st.elapsed_frames * FRAME_MS >= cfg.timeout_ms
        && cfg.boots > 0 {
        Some(GuiAction::Boot(cfg.default_boot))
    } else {
        None
    }
}

/// The auto-boot check made each frame.
pub fn gui_tick(st: GuiState, cfg: GuiConfig) -> (r: Option<GuiAction>)
    ensures
        r == gui_tick_spec(st, cfg),
{
    let elapsed_ms: u64 = st.elapsed_frames as u64 * FRAME_MS as u64;
    if !st.interacted && cfg.timeout_ms > 0 && elapsed_ms >= cfg.timeout_ms as u64 && cfg.boots > 0 {
        Some(GuiAction::Boot(cfg.default_boot))
    } else {
        None
    }
}

/// The number of rows of a column.
pub open spec fn rows(cfg: GuiConfig, c: Column) -> int {
    match c {
        Column::Left => cfg.boots as int,
        Column::Right => cfg.tools + 2,
    }
}

/// The state after the selection of the current column moved to `sel`,
/// with that column scrolled to show it.
pub open spec fn select_row(st: GuiState, cfg: GuiConfig, sel: int) -> GuiState {
    match st.column {
        Column::Left => GuiState {
            selected: sel as usize,
            scroll_left: scrolled(sel, st.scroll_left as int, cfg.max_visible as int) as usize,
            ..st
        },
        Column::Right => GuiState {
            selected: sel as usize,
            scroll_right: scrolled(sel, st.scroll_right as int, cfg.max_visible as int) as usize,
            ..st
        },
    }
}

/// Activating row `i` of column `c`: a boot entry, a tool, or a system
/// action; nothing for a position past the boot entries.
pub open spec fn activate(cfg: GuiConfig, c: Column, i: int) -> GuiAction {
    match c {
        Column::Left => if i < cfg.boots {
            GuiAction::Boot(i as usize)
        } else {
            GuiAction::Continue
        },
        Column::Right => if i < cfg.tools {
            GuiAction::Tool(i as usize)
        } else {
            GuiAction::System((i - cfg.tools) as usize)
        },
    }
}

/// One polled event.  Keys move the selection (up and down within a
/// column, left and right between columns), Enter activates the selection,
/// F2 and F12 run the system actions and F1 shows help; a mouse move puts
/// the selection on the tile under the cursor and a click activates that
/// tile.  A key or a click stops the auto-boot countdown; moving the mouse
/// does not.
pub open spec fn gui_event_spec(st: GuiState, cfg: GuiConfig, ev: GuiEvent) -> (GuiState, GuiAction) {
    match ev {
        GuiEvent::Idle => (
            GuiState { elapsed_frames: (st.elapsed_frames + 1) as u32, ..st },
            GuiAction::Stall,
        ),
        GuiEvent::Move { x, y, hit } => {
            let st1 = GuiState { mouse_x: x, mouse_y: y, ..st };
            match hit {
                Some(t) => (GuiState { column: t.column, selected: t.row, ..st1 }, GuiAction::Continue),
                None => (st1, GuiAction::Continue),
            }
        },
        GuiEvent::Click { x, y, hit } => {
            let st1 = GuiState { interacted: true, ..st };
            match hit {
                Some(t) => (
                    GuiState { column: t.column, selected: t.row, ..st1 },
                    activate(cfg, t.column, t.row as int),
                ),
                None => (st1, GuiAction::Continue),
            }
        },
        GuiEvent::Key(k) => {
            let st1 = GuiState { interacted: true, ..st };
            match k {
                GuiKey::Up => if st.selected > 0 {
                    (select_row(st1, cfg, st.selected - 1), GuiAction::Continue)
                } else {
                    (st1, GuiAction::Continue)
                },
                GuiKey::Down => if st.selected + 1 < rows(cfg, st.column) {
                    (select_row(st1, cfg, st.selected + 1), GuiAction::Continue)
                } else {
                    (st1, GuiAction::Continue)
                },
                GuiKey::Left => if st.column == Column::Right {
                    let last = sat(cfg.boots as int, 1);
                    (
                        GuiState {
                            column: Column::Left,
                            selected: (if st.selected < last {
                                st.selected as int
                            } else {
                                last
                            }) as usize,
                            ..st1
                        },
                        GuiAction::Continue,
                    )
                } else {
                    (st1, GuiAction::Continue)
                },
                GuiKey::Right => if st.column == Column::Left {
                    let last = cfg.tools + 1;
                    (
                        GuiState {
                            column: Column::Right,
                            selected: (if st.selected < last {
                                st.selected as int
                            } else {
                                last
                            }) as usize,
                            ..st1
                        },
                        GuiAction::Continue,
                    )
                } else {
                    (st1, GuiAction::Continue)
                },
                GuiKey::Enter => (st1, activate(cfg, st.column, st.selected as int)),
                GuiKey::Char(c) => if c == '\r' {
                    (st1, activate(cfg, st.column, st.selected as int))
                } else {
                    (st1, GuiAction::Continue)
                },
                GuiKey::F1 => (st1, GuiAction::Help),
                GuiKey::F2 => (st1, GuiAction::System(0)),
                GuiKey::F12 => (st1, GuiAction::System(1)),
                GuiKey::Other => (st1, GuiAction::Continue),
            }
        },
    }
}

fn scroll_exec(sel: usize, scroll: usize, max_vis: usize) -> (r: usize)
    requires
        max_vis >= 1,
    ensures
        r as int == scrolled(sel as int, scroll as int, max_vis as int),
{
    if sel < scroll {
        sel
    } else if sel - scroll >= max_vis {
        sel - (max_vis - 1)
    } else {
        scroll
    }
}

fn select_row_exec(st: GuiState, cfg: GuiConfig, sel: usize) -> (r: GuiState)
    requires
        cfg.max_visible >= 1,
    ensures
        r == select_row(st, cfg, sel as int),
{
    match st.column {
        Column::Left => GuiState {
            selected: sel,
            scroll_left: scroll_exec(sel, st.scroll_left, cfg.max_visible),
            ..st
        },
        Column::Right => GuiState {
            selected: sel,
            scroll_right: scroll_exec(sel, st.scroll_right, cfg.max_visible),
            ..st
        },
    }
}

fn activate_exec(cfg: GuiConfig, c: Column, i: usize) -> (r: GuiAction)
    ensures
        r == activate(cfg, c, i as int),
{
    match c {
        Column::Left => if i < cfg.boots {
            GuiAction::Boot(i)
        } else {
            GuiAction::Continue
        },
        Column::Right => if i < cfg.tools {
            GuiAction::Tool(i)
        } else {
            GuiAction::System(i - cfg.tools)
        },
    }
}

/// Applies one polled event to the menu.
pub fn gui_event(st: GuiState, cfg: GuiConfig, ev: GuiEvent) -> (r: (GuiState, GuiAction))
    requires
        cfg.max_visible >= 1,
        cfg.tools + 2 <= usize::MAX,
        st.selected + 1 <= usize::MAX,
        ev == GuiEvent::Idle ==> st.elapsed_frames < u32::MAX,
    ensures
        r == gui_event_spec(st, cfg, ev),
{
    match ev {
        GuiEvent::Idle => (
            GuiState { elapsed_frames: st.elapsed_frames + 1, ..st },
            GuiAction::Stall,
        ),
        GuiEvent::Move { x, y, hit } => {
            let st1 = GuiState { mouse_x: x, mouse_y: y, ..st };
            match hit {
                Some(t) => (GuiState { column: t.column, selected: t.row, ..st1 }, GuiAction::Continue),
                None => (st1, GuiAction::Continue),
            }
        },
        GuiEvent::Click { x, y, hit } => {
            let st1 = GuiState { interacted: true, ..st };
            match hit {
                Some(t) => (
                    GuiState { column: t.column, selected: t.row, ..st1 },
                    activate_exec(cfg, t.column, t.row),
                ),
                None => (st1, GuiAction::Continue),
            }
        },
        GuiEvent::Key(k) => {
            let st1 = GuiState { interacted: true, ..st };
            match k {
                GuiKey::Up => if st.selected > 0 {
                    (select_row_exec(st1, cfg, st.selected - 1), GuiAction::Continue)
                } else {
                    (st1, GuiAction::Continue)
                },
                GuiKey::Down => {
                    let n = match st.column {
                        Column::Left => cfg.boots,
                        Column::Right => cfg.tools + 2,
                    };
                    if st.selected + 1 < n {
                        (select_row_exec(st1, cfg, st.selected + 1), GuiAction::Continue)
                    } else {
                        (st1, GuiAction::Continue)
                    }
                },
                GuiKey::Left => if st.column == Column::Right {
                    let last = if cfg.boots > 0 {
                        cfg.boots - 1
                    } else {
                        0
                    };
                    let sel = if st.selected < last {
                        st.selected
                    } else {
                        last
                    };
                    (GuiState { column: Column::Left, selected: sel, ..st1 }, GuiAction::Continue)
                } else {
                    (st1, GuiAction::Continue)
                },
                GuiKey::Right => if st.column == Column::Left {
                    let last = cfg.tools + 1;
                    let sel = if st.selected < last {
                        st.selected
                    } else {
                        last
                    };
                    (GuiState { column: Column::Right, selected: sel, ..st1 }, GuiAction::Continue)
                } else {
                    (st1, GuiAction::Continue)
                },
                GuiKey::Enter => (st1, activate_exec(cfg, st.column, st.selected)),
                GuiKey::Char(c) => if c == '\r' {
                    (st1, activate_exec(cfg, st.column, st.selected))
                } else {
                    (st1, GuiAction::Continue)
                },
                GuiKey::F1 => (st1, GuiAction::Help),
                GuiKey::F2 => (st1, GuiAction::System(0)),
                GuiKey::F12 => (st1, GuiAction::System(1)),
                GuiKey::Other => (st1, GuiAction::Continue),
            }
        },
    }
}

/// Keys keep the selection on a row of its column: starting on one (or on
/// the first row of an empty boot column), a key press leaves it on one.
pub proof fn gui_keys_keep_selection(st: GuiState, cfg: GuiConfig, k: GuiKey)
    requires
        st.selected < rows(cfg, st.column) || st.selected == 0,
    ensures
        ({
            let n = gui_event_spec(st, cfg, GuiEvent::Key(k)).0;
            n.selected < rows(cfg, n.column) || n.selected == 0
        }),
{
}

/// Only a key press or a click cancels the auto-boot: a mouse move keeps
/// the countdown running, and a cancelled countdown never boots.
pub proof fn gui_move_keeps_countdown(st: GuiState, cfg: GuiConfig, x: i32, y: i32, h: Option<Tile>)
    ensures
        gui_event_spec(st, cfg, GuiEvent::Move { x, y, hit: h }).0.interacted == st.interacted,
        st.interacted ==> gui_tick_spec(st, cfg) is None,
{
}


// ---------------------------------------------------------------------------
// Columns and the status line
// ---------------------------------------------------------------------------

/// The indices of the entries that are (`tools`) or are not (`!tools`)
/// diagnostic tools, in order.
pub open spec fn column_rows(es: Seq<BootEntry>, tools: bool) -> Seq<usize>
    decreases es.len(),
{
    if es.len() == 0 {
        seq![]
    } else {
        let rest = column_rows(es.drop_last(), tools);
        if (es.last().icon == Icon::Tools) == tools {
            rest.push((es.len() - 1) as usize)
        } else {
            rest
        }
    }
}

/// Splits the entries into the boot column (every entry but the tools) and
/// the tool column, each as entry indices in order.
pub fn split_columns(entries: &[BootEntry]) -> (r: (Vec<usize>, Vec<usize>))
    ensures
        r.0@ == column_rows(entries@, false),
        r.1@ == column_rows(entries@, true),
        forall|k: int| 0 <= k < r.0@.len() ==> r.0@[k] < entries@.len(),
        forall|k: int| 0 <= k < r.1@.len() ==> r.1@[k] < entries@.len(),
{
    let mut boots: Vec<usize> = Vec::new();
    let mut tools: Vec<usize> = Vec::new();
    let mut i: usize = 0;
    while i < entries.len()
        invariant
            i <= entries@.len(),
            boots@ == column_rows(entries@.subrange(0, i as int), false),
            tools@ == column_rows(entries@.subrange(0, i as int), true),
            forall|k: int| 0 <= k < boots@.len() ==> boots@[k] < i,
            forall|k: int| 0 <= k < tools@.len() ==> tools@[k] < i,
        decreases entries@.len() - i,
    {
        assert(entries@.subrange(0, i + 1).drop_last() =~= entries@.subrange(0, i as int));
        assert(entries@.subrange(0, i + 1).last() == entries@[i as int]);
        if entries[i].icon == Icon::Tools {
            tools.push(i);
        } else {
            boots.push(i);
        }
        i += 1;
    }
    assert(entries@.subrange(0, entries@.len() as int) =~= entries@);
    (boots, tools)
}

/// The footer's hint when the selection has no preflight issue to show.
pub const STATUS_HINT: &'static str = "Use arrow keys to navigate. Press Enter to boot.";

/// The entry under the selection, if the selection is on an entry.
pub open spec fn selected_entry(boots: Seq<usize>, tools: Seq<usize>, column: Column, sel: int) -> Option<usize> {
    match column {
        Column::Left => if 0 <= sel < boots.len() {
            Some(boots[sel])
        } else {
            None
        },
        Column::Right => if 0 <= sel < tools.len() {
            Some(tools[sel])
        } else {
            None
        },
    }
}

/// The footer's status line: the message of the first preflight issue of
/// the selected entry, else the navigation hint.
pub open spec fn status_line(
    es: Seq<BootEntry>,
    boots: Seq<usize>,
    tools: Seq<usize>,
    column: Column,
    sel: int,
) -> Seq<char> {
    match selected_entry(boots, tools, column, sel) {
        Some(i) => match es[i as int].preflight {
            Some(pf) => {
                let k = first_issue_index(severities(pf.checks@), 0);
                if k >= 0 {
                    pf.checks@[k].message@
                } else {
                    STATUS_HINT@
                }
            },
            None => STATUS_HINT@,
        },
        None => STATUS_HINT@,
    }
}

/// The footer's status line for the selection.
pub fn selected_status(
    entries: &[BootEntry],
    boots: &[usize],
    tools: &[usize],
    column: Column,
    selected: usize,
) -> (r: String)
    requires
        forall|k: int| 0 <= k < boots@.len() ==> boots@[k] < entries@.len(),
        forall|k: int| 0 <= k < tools@.len() ==> tools@[k] < entries@.len(),
    ensures
        r@ == status_line(entries@, boots@, tools@, column, selected as int),
{
    let idx = match column {
        Column::Left => if selected < boots.len() {
            Some(boots[selected])
        } else {
            None
        },
        Column::Right => if selected < tools.len() {
            Some(tools[selected])
        } else {
            None
        },
    };
    if let Some(i) = idx {
        if let Some(pf) = &entries[i].preflight {
            if let Some(issue) = pf.first_issue() {
                return String::from_str(issue.message.as_str());
            }
        }
    }
    String::from_str(STATUS_HINT)
}

} // verus!
