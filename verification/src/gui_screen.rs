//! Drawing the graphical menu into the off-screen frame: the header with
//! the logo and system information, the two columns of tiles, the footer
//! with the countdown or status, the mouse cursor, and the full-screen
//! messages (boot progress, help, reboot).  Each function's contract gives
//! the frame it leaves as the frame it found with the painted layers
//! applied in order.
use vstd::prelude::*;

use crate::boot_types::{BootEntry, EntryKind, Icon, PreflightStatus};
use crate::framebuffer::{
    whole_cover, border_cover, color_pixel, glyph_table_len, logo_frame, logo_header_ok, logo_palette_ok, paint,
    rect_cover, text_cover, Color, FrameView, Framebuffer,
};
use crate::gui_menu::{
    content_bottom, layout_ok, left_col_w, max_visible, max_visible_boot, right_col_w, right_col_x,
    sat, Column, GuiState, Layout, BOOT_TILE_H, COL_GAP, HEADER_H, MARGIN, TILE_GAP, TOOL_TILE_H,
};
use crate::platform::{glyph_width, icon_label, icon_name, truncate_to_fit, Font};
use crate::text::{chars_of, range_starts_with, string_of, string_of_range};
use crate::bls::{dec, decimal_chars};
use crate::gui_menu::{selected_status, status_line};

verus! {

/// The two glyph tables of the menu.
pub struct Fonts {
    /// The 8 x 16 font, one byte per glyph row.
    pub small: Vec<u8>,
    /// The 16 x 32 font, two bytes per glyph row.
    pub large: Vec<u8>,
}

/// Both tables hold all 256 glyphs.
pub open spec fn fonts_ok(fonts: Fonts) -> bool {
    &&& fonts.small@.len() >= glyph_table_len(Font::Small)
    &&& fonts.large@.len() >= glyph_table_len(Font::Large)
}

/// The table of `font`.
pub open spec fn table(fonts: Fonts, font: Font) -> Seq<u8> {
    match font {
        Font::Small => fonts.small@,
        Font::Large => fonts.large@,
    }
}

/// `f` with `text` drawn from `(x, y)` in `font` and color `c`.
pub open spec fn text_on(
    f: FrameView,
    fonts: Fonts,
    font: Font,
    text: Seq<char>,
    x: int,
    y: int,
    c: Color,
) -> FrameView {
    paint(f, text_cover(table(fonts, font), font, text, x, y), color_pixel(c))
}

/// `f` with the `w` x `h` rectangle at `(x, y)` filled with `c`.
pub open spec fn box_on(f: FrameView, x: int, y: int, w: int, h: int, c: Color) -> FrameView {
    paint(f, rect_cover(x, y, w, h), color_pixel(c))
}

/// `f` with the 2-pixel accent outline of the `w` x `h` rectangle at
/// `(x, y)`.
pub open spec fn outline_on(f: FrameView, x: int, y: int, w: int, h: int) -> FrameView {
    paint(f, border_cover(x, y, w, h, 2), color_pixel(Color::Accent))
}

fn text(fb: &mut Framebuffer, fonts: &Fonts, s: &str, x: i64, y: i64, c: Color, font: Font)
    requires
        old(fb)@.wf(),
        fonts_ok(*fonts),
    ensures
        final(fb)@.wf(),
        final(fb)@.same_size(old(fb)@),
        final(fb)@ == text_on(old(fb)@, *fonts, font, s@, x as int, y as int, c),
{
    let glyphs = match font {
        Font::Small => fonts.small.as_slice(),
        Font::Large => fonts.large.as_slice(),
    };
    fb.draw_text(s, x, y, c.pixel(), font, glyphs);
}

fn fill(fb: &mut Framebuffer, x: usize, y: usize, w: usize, h: usize, c: Color)
    requires
        old(fb)@.wf(),
        x + w <= usize::MAX,
        y + h <= usize::MAX,
    ensures
        final(fb)@.wf(),
        final(fb)@.same_size(old(fb)@),
        final(fb)@ == box_on(old(fb)@, x as int, y as int, w as int, h as int, c),
{
    fb.fill_rect(x, y, w, h, c.pixel());
}

/// The subtitle of a boot tile.
pub open spec fn type_label(kind: EntryKind, icon: Icon) -> Seq<char> {
    match kind {
        EntryKind::LinuxLegacy { .. } => "Linux kernel + initrd"@,
        EntryKind::Uki { .. } => "Unified Kernel Image"@,
        EntryKind::Iso { .. } => "ISO image"@,
        EntryKind::Chainload { .. } => match icon {
            Icon::Windows => "Windows Boot Manager"@,
            Icon::Tools => "Diagnostic module"@,
            _ => "EFI bootloader"@,
        },
    }
}

/// The subtitle of a boot tile: what kind of loader the entry starts.
pub fn entry_type_label(kind: &EntryKind, icon: Icon) -> (r: &'static str)
    ensures
        r@ == type_label(*kind, icon),
{
    match kind {
        EntryKind::LinuxLegacy { .. } => "Linux kernel + initrd",
        EntryKind::Uki { .. } => "Unified Kernel Image",
        EntryKind::Iso { .. } => "ISO image",
        EntryKind::Chainload { .. } => match icon {
            Icon::Windows => "Windows Boot Manager",
            Icon::Tools => "Diagnostic module",
            _ => "EFI bootloader",
        },
    }
}

/// The mouse cursor at `(x, y)`: a 20 x 2 bar centred on the point when
/// `x >= 10` and a 2 x 20 bar when `y >= 10`, in the text color.
pub open spec fn cursor_frame(f: FrameView, x: int, y: int) -> FrameView {
    let f1 = if x >= 10 {
        box_on(f, x - 10, sat(y, 1), 20, 2, Color::Text)
    } else {
        f
    };
    if y >= 10 {
        box_on(f1, sat(x, 1), y - 10, 2, 20, Color::Text)
    } else {
        f1
    }
}

/// Draws the mouse cursor at `(x, y)`.
pub fn draw_cursor(fb: &mut Framebuffer, x: i32, y: i32)
    requires
        old(fb)@.wf(),
        x >= 0,
        y >= 0,
    ensures
        final(fb)@.wf(),
        final(fb)@.same_size(old(fb)@),
        final(fb)@ == cursor_frame(old(fb)@, x as int, y as int),
{
    let ux = x as usize;
    let uy = y as usize;
    if ux >= 10 {
        fill(fb, ux - 10, uy.saturating_sub(1), 20, 2, Color::Text);
    }
    if uy >= 10 {
        fill(fb, ux.saturating_sub(1), uy - 10, 2, 20, Color::Text);
    }
}

/// The name a tool tile shows: without a leading `Tool: `.
pub open spec fn tool_display_name(name: Seq<char>) -> Seq<char> {
    if name.len() >= 6 && name.subrange(0, 6) == "Tool: "@ {
        name.subrange(6, name.len() as int)
    } else {
        name
    }
}

/// A tool tile: the fill (selected or not), the accent outline when
/// selected, the fitted name and the subtitle.
pub open spec fn tool_tile_frame(
    f: FrameView,
    fonts: Fonts,
    x: int,
    y: int,
    w: int,
    name: Seq<char>,
    subtitle: Seq<char>,
    selected: bool,
) -> FrameView {
    let f1 = box_on(f, x, y, w, TOOL_TILE_H as int, if selected { Color::Selected } else { Color::Tile });
    let f2 = if selected {
        outline_on(f1, x, y, w, TOOL_TILE_H as int)
    } else {
        f1
    };
    let f3 = text_on(
        f2,
        fonts,
        Font::Small,
        fitted_name(tool_display_name(name), sat(w, 20)),
        x + 10,
        y + 4,
        Color::Text,
    );
    text_on(f3, fonts, Font::Small, subtitle, x + 10, y + 22, Color::Subtitle)
}

/// `s` fitted to `max_pixels` of the small font (see `fitted`).
pub open spec fn fitted_name(s: Seq<char>, max_pixels: int) -> Seq<char> {
    let max_chars = max_pixels / 8;
    if crate::text::utf8_len(s) <= max_chars {
        s
    } else {
        let keep = if max_chars >= 3 {
            (max_chars - 3) as int
        } else {
            0
        };
        s.take(if keep < s.len() { keep } else { s.len() as int }) + seq!['.', '.', '.']
    }
}

fn tool_display(name: &str) -> (r: String)
    ensures
        r@ == tool_display_name(name@),
{
    let v = chars_of(name);
    if range_starts_with(&v, 0, v.len(), "Tool: ") {
        proof {
            reveal_strlit("Tool: ");
        }
        string_of_range(&v, 6, v.len())
    } else {
        proof {
            reveal_strlit("Tool: ");
        }
        assert(v@.subrange(0, v@.len() as int) =~= v@);
        string_of_range(&v, 0, v.len())
    }
}

/// Draws a tool tile of width `w` at `(x, y)`.
pub fn draw_tool_tile(
    fb: &mut Framebuffer,
    fonts: &Fonts,
    x: usize,
    y: usize,
    w: usize,
    name: &str,
    subtitle: &str,
    selected: bool,
)
    requires
        old(fb)@.wf(),
        fonts_ok(*fonts),
        x <= i32::MAX,
        y <= i32::MAX,
        w <= i32::MAX,
    ensures
        final(fb)@.wf(),
        final(fb)@.same_size(old(fb)@),
        final(fb)@ == tool_tile_frame(
            old(fb)@,
            *fonts,
            x as int,
            y as int,
            w as int,
            name@,
            subtitle@,
            selected,
        ),
{
    let color = if selected {
        Color::Selected
    } else {
        Color::Tile
    };
    fill(fb, x, y, w, TOOL_TILE_H, color);
    if selected {
        fb.draw_rect_border(x, y, w, TOOL_TILE_H, 2, Color::Accent.pixel());
    }
    let display = tool_display(name);
    let truncated = truncate_to_fit(display.as_str(), w.saturating_sub(20), Font::Small);
    text(fb, fonts, truncated.as_str(), x as i64 + 10, y as i64 + 4, Color::Text, Font::Small);
    text(fb, fonts, subtitle, x as i64 + 10, y as i64 + 22, Color::Subtitle, Font::Small);
}

/// The marker at the right end of a boot tile: `!` in the warning color
/// for a preflight warning, `X` in the error color for a failure, none
/// otherwise.
pub open spec fn preflight_mark(e: BootEntry) -> Option<(Seq<char>, Color)> {
    match e.preflight {
        Some(pf) => match pf.status {
            PreflightStatus::Pass => None,
            PreflightStatus::Warning => Some(("!"@, Color::Warning)),
            PreflightStatus::Error => Some(("X"@, Color::Error)),
        },
        None => None,
    }
}

/// A boot tile: the fill (selected or not), the accent outline when
/// selected, the icon label, the fitted name, the loader kind and the
/// preflight marker.
pub open spec fn boot_tile_frame(
    f: FrameView,
    fonts: Fonts,
    x: int,
    y: int,
    w: int,
    e: BootEntry,
    selected: bool,
) -> FrameView {
    let f1 = box_on(f, x, y, w, BOOT_TILE_H as int, if selected { Color::Selected } else { Color::Tile });
    let f2 = if selected {
        outline_on(f1, x, y, w, BOOT_TILE_H as int)
    } else {
        f1
    };
    let f3 = text_on(f2, fonts, Font::Small, icon_name(e.icon), x + 10, y + 8, Color::Accent);
    let f4 = text_on(
        f3,
        fonts,
        Font::Small,
        fitted_name(e.name@, sat(w, 90)),
        x + 60,
        y + 10,
        Color::Text,
    );
    let f5 = text_on(f4, fonts, Font::Small, type_label(e.kind, e.icon), x + 60, y + 30, Color::Subtitle);
    match preflight_mark(e) {
        Some((mark, c)) => text_on(f5, fonts, Font::Small, mark, x + w - 20, y + 10, c),
        None => f5,
    }
}

/// Draws the boot tile of `entry`, of width `w`, at `(x, y)`.
pub fn draw_boot_tile(
    fb: &mut Framebuffer,
    fonts: &Fonts,
    x: usize,
    y: usize,
    w: usize,
    entry: &BootEntry,
    selected: bool,
)
    requires
        old(fb)@.wf(),
        fonts_ok(*fonts),
        x <= i32::MAX,
        y <= i32::MAX,
        w <= i32::MAX,
    ensures
        final(fb)@.wf(),
        final(fb)@.same_size(old(fb)@),
        final(fb)@ == boot_tile_frame(old(fb)@, *fonts, x as int, y as int, w as int, *entry, selected),
{
    let color = if selected {
        Color::Selected
    } else {
        Color::Tile
    };
    fill(fb, x, y, w, BOOT_TILE_H, color);
    if selected {
        fb.draw_rect_border(x, y, w, BOOT_TILE_H, 2, Color::Accent.pixel());
    }
    text(fb, fonts, icon_label(entry.icon), x as i64 + 10, y as i64 + 8, Color::Accent, Font::Small);
    let name_x = x as i64 + 60;
    let max_px = w.saturating_sub(90);
    let name = truncate_to_fit(entry.name.as_str(), max_px, Font::Small);
    text(fb, fonts, name.as_str(), name_x, y as i64 + 10, Color::Text, Font::Small);
    let subtitle = entry_type_label(&entry.kind, entry.icon);
    text(fb, fonts, subtitle, name_x, y as i64 + 30, Color::Subtitle, Font::Small);
    if let Some(pf) = &entry.preflight {
        let mark: Option<(&str, Color)> = match pf.status {
            PreflightStatus::Pass => None,
            PreflightStatus::Warning => Some(("!", Color::Warning)),
            PreflightStatus::Error => Some(("X", Color::Error)),
        };
        if let Some((m, c)) = mark {
            let ix = (x + w) as i64 - 20;
            text(fb, fonts, m, ix, y as i64 + 10, c, Font::Small);
        }
    }
}

/// The layout of a frame of this size.
pub open spec fn layout_of(f: FrameView) -> Layout {
    Layout { width: f.width as usize, height: f.height as usize }
}

/// A frame the menu's columns fit on.
pub open spec fn menu_fits(f: FrameView) -> bool {
    &&& f.wf()
    &&& f.width >= 60
}

fn layout(fb: &Framebuffer) -> (r: Layout)
    requires
        menu_fits(fb@),
    ensures
        r == layout_of(fb@),
        layout_ok(r),
{
    Layout { width: fb.width(), height: fb.height() }
}

fn left_width(l: Layout) -> (r: usize)
    requires
        layout_ok(l),
    ensures
        r == left_col_w(l),
        r <= l.width - 60,
{
    ((l.width as u64 - 60) * 55 / 100) as usize
}

proof fn lemma_visible_tiles(l: Layout)
    requires
        layout_ok(l),
    ensures
        1 <= max_visible(l),
        max_visible(l) == 1 || max_visible(l) * 66 <= crate::gui_menu::content_height(l),
        crate::gui_menu::content_height(l) <= l.height,
{
    let n = crate::gui_menu::content_height(l) / 66;
    assert(n * 66 <= crate::gui_menu::content_height(l)) by (nonlinear_arith)
        requires
            n == crate::gui_menu::content_height(l) / 66,
            crate::gui_menu::content_height(l) >= 0,
    ;
}

/// The boot tiles of the rows `scroll_left .. scroll_left + k` of the
/// left column, one below the other from the top of the content area.
pub open spec fn boot_tiles(
    f: FrameView,
    fonts: Fonts,
    st: GuiState,
    es: Seq<BootEntry>,
    boots: Seq<usize>,
    w: int,
    k: int,
) -> FrameView
    decreases k,
{
    if k <= 0 {
        f
    } else {
        let vi = k - 1;
        let bi = st.scroll_left + vi;
        boot_tile_frame(
            boot_tiles(f, fonts, st, es, boots, w, k - 1),
            fonts,
            MARGIN as int,
            HEADER_H + vi * ((BOOT_TILE_H + TILE_GAP) as int),
            w,
            es[boots[bi] as int],
            st.column == Column::Left && bi == st.selected,
        )
    }
}

/// The left column: its heading, then either the no-entries warning or
/// the visible boot tiles with the scroll indicators above (more rows
/// above) and below (more rows below).
pub open spec fn left_column_frame(
    f: FrameView,
    fonts: Fonts,
    st: GuiState,
    es: Seq<BootEntry>,
    boots: Seq<usize>,
) -> FrameView {
    let l = layout_of(f);
    let x = MARGIN as int;
    let w = left_col_w(l);
    let top = HEADER_H as int;
    let max_vis = max_visible(l);
    let vis_end = if st.scroll_left + max_vis < boots.len() {
        st.scroll_left + max_vis
    } else {
        boots.len() as int
    };
    let f1 = text_on(f, fonts, Font::Small, "Boot Entries"@, x, top - 18, Color::Subtitle);
    if boots.len() == 0 {
        text_on(f1, fonts, Font::Small, "No bootable entries found."@, x + 8, top + 10, Color::Warning)
    } else {
        let f2 = boot_tiles(f1, fonts, st, es, boots, w, vis_end - st.scroll_left);
        let f3 = if st.scroll_left > 0 {
            text_on(f2, fonts, Font::Small, "^ more"@, x + w / 2 - 24, top - 18, Color::Accent)
        } else {
            f2
        };
        if vis_end < boots.len() {
            text_on(
                f3,
                fonts,
                Font::Small,
                "v more"@,
                x + w / 2 - 24,
                top + max_vis * ((BOOT_TILE_H + TILE_GAP) as int),
                Color::Accent,
            )
        } else {
            f3
        }
    }
}

/// Draws the left column: the boot entries `entries[boots[i]]`.
pub fn draw_left_column(
    fb: &mut Framebuffer,
    fonts: &Fonts,
    st: &GuiState,
    entries: &[BootEntry],
    boots: &[usize],
)
    requires
        menu_fits(old(fb)@),
        fonts_ok(*fonts),
        forall|k: int| 0 <= k < boots@.len() ==> boots@[k] < entries@.len(),
    ensures
        final(fb)@.wf(),
        final(fb)@.same_size(old(fb)@),
        final(fb)@ == left_column_frame(old(fb)@, *fonts, *st, entries@, boots@),
{
    let ghost f0 = fb@;
    let l = layout(fb);
    let x = MARGIN;
    let w = left_width(l);
    let top = HEADER_H;
    let max_vis = max_visible_boot(l);
    proof {
        lemma_visible_tiles(l);
    }
    let vis_end = if st.scroll_left < boots.len() && max_vis < boots.len() - st.scroll_left {
        st.scroll_left + max_vis
    } else {
        boots.len()
    };
    text(fb, fonts, "Boot Entries", x as i64, top as i64 - 16 - 2, Color::Subtitle, Font::Small);
    if boots.len() == 0 {
        text(
            fb,
            fonts,
            "No bootable entries found.",
            x as i64 + 8,
            top as i64 + 10,
            Color::Warning,
            Font::Small,
        );
        return;
    }
    let ghost f1 = fb@;
    let mut bi = st.scroll_left;
    while bi < vis_end
        invariant
            fb@.wf(),
            fb@.same_size(f0),
            fonts_ok(*fonts),
            x == MARGIN,
            top == HEADER_H,
            layout_ok(l),
            l == layout_of(f0),
            w == left_col_w(l),
            max_vis == max_visible(l),
            max_vis == 1 || max_vis * 66 <= crate::gui_menu::content_height(l),
            crate::gui_menu::content_height(l) + 190 <= l.height || max_vis == 1,
            vis_end <= boots@.len(),
            vis_end <= st.scroll_left + max_vis,
            st.scroll_left <= bi,
            bi <= vis_end || vis_end < st.scroll_left,
            vis_end < st.scroll_left ==> bi == st.scroll_left,
            forall|k: int| 0 <= k < boots@.len() ==> boots@[k] < entries@.len(),
            fb@ == boot_tiles(f1, *fonts, *st, entries@, boots@, w as int, bi - st.scroll_left),
        decreases vis_end - bi,
    {
        let vi = bi - st.scroll_left;
        assert(vi * 66 + 66 <= max_vis * 66) by (nonlinear_arith)
            requires
                vi < max_vis,
        ;
        let y = top + vi * (BOOT_TILE_H + TILE_GAP);
        let selected = st.column == Column::Left && bi == st.selected;
        draw_boot_tile(fb, fonts, x, y, w, &entries[boots[bi]], selected);
        bi += 1;
    }
    let ghost f2 = fb@;
    assert(f2 == boot_tiles(f1, *fonts, *st, entries@, boots@, w as int, vis_end - st.scroll_left));
    if st.scroll_left > 0 {
        text(fb, fonts, "^ more", (x + w / 2) as i64 - 24, top as i64 - 18, Color::Accent, Font::Small);
    }
    if vis_end < boots.len() {
        let y = top + max_vis * (BOOT_TILE_H + TILE_GAP);
        text(fb, fonts, "v more", (x + w / 2) as i64 - 24, y as i64, Color::Accent, Font::Small);
    }
}

fn right_geometry(l: Layout) -> (r: (usize, usize))
    requires
        layout_ok(l),
    ensures
        r.0 == right_col_x(l),
        r.1 == right_col_w(l),
        r.0 + r.1 <= l.width,
{
    let lw = left_width(l);
    let x = MARGIN + lw + COL_GAP;
    (x, l.width - x - MARGIN)
}

/// The tool tiles of the first `k` tools, one below the other from the top
/// of the content area.
pub open spec fn tool_tiles(
    f: FrameView,
    fonts: Fonts,
    st: GuiState,
    es: Seq<BootEntry>,
    tools: Seq<usize>,
    x: int,
    w: int,
    k: int,
) -> FrameView
    decreases k,
{
    if k <= 0 {
        f
    } else {
        tool_tile_frame(
            tool_tiles(f, fonts, st, es, tools, x, w, k - 1),
            fonts,
            x,
            HEADER_H + (k - 1) * ((TOOL_TILE_H + TILE_GAP) as int),
            w,
            es[tools[k - 1] as int].name@,
            "Diagnostic module"@,
            st.column == Column::Right && k - 1 == st.selected,
        )
    }
}

/// A system-action tile of the right column at row `tools + i`: the fill,
/// the outline when selected, the label, and the key hint right-aligned
/// `key_w` pixels wide.
pub open spec fn action_tile(
    f: FrameView,
    fonts: Fonts,
    st: GuiState,
    tools: int,
    i: int,
    x: int,
    y: int,
    w: int,
    label: Seq<char>,
    key: Seq<char>,
    key_w: int,
) -> FrameView {
    let selected = st.column == Column::Right && tools + i == st.selected;
    let f1 = box_on(f, x, y, w, TOOL_TILE_H as int, if selected { Color::Selected } else { Color::Tile });
    let f2 = if selected {
        outline_on(f1, x, y, w, TOOL_TILE_H as int)
    } else {
        f1
    };
    let f3 = text_on(f2, fonts, Font::Small, label, x + 10, y + 12, Color::Text);
    text_on(f3, fonts, Font::Small, key, x + w - key_w - 10, y + 12, Color::Accent)
}

/// The right column: its heading, the tool tiles, a divider, and the two
/// system actions (firmware setup on F2, reboot on F12).
pub open spec fn right_column_frame(
    f: FrameView,
    fonts: Fonts,
    st: GuiState,
    es: Seq<BootEntry>,
    tools: Seq<usize>,
) -> FrameView {
    let l = layout_of(f);
    let x = right_col_x(l);
    let w = right_col_w(l);
    let top = HEADER_H as int;
    let n = tools.len() as int;
    let f1 = text_on(f, fonts, Font::Small, "Tools & Actions"@, x, top - 18, Color::Subtitle);
    let f2 = tool_tiles(f1, fonts, st, es, tools, x, w, n);
    let yd = top + n * ((TOOL_TILE_H + TILE_GAP) as int) + 4;
    let f3 = box_on(f2, x, yd, w, 1, Color::Divider);
    let ya = yd + 8;
    let f4 = action_tile(f3, fonts, st, n, 0, x, ya, w, "Firmware Setup"@, "[F2]"@, 32);
    action_tile(
        f4,
        fonts,
        st,
        n,
        1,
        x,
        ya + (TOOL_TILE_H + TILE_GAP) as int,
        w,
        "Reboot"@,
        "[F12]"@,
        40,
    )
}

fn draw_action_tile(
    fb: &mut Framebuffer,
    fonts: &Fonts,
    st: &GuiState,
    tools: usize,
    i: usize,
    x: usize,
    y: usize,
    w: usize,
    label: &str,
    key: &str,
)
    requires
        old(fb)@.wf(),
        fonts_ok(*fonts),
        x <= i32::MAX,
        y <= i32::MAX,
        w <= i32::MAX,
        tools + i <= usize::MAX,
        key.is_ascii(),
        key@.len() <= 8,
    ensures
        final(fb)@.wf(),
        final(fb)@.same_size(old(fb)@),
        final(fb)@ == action_tile(
            old(fb)@,
            *fonts,
            *st,
            tools as int,
            i as int,
            x as int,
            y as int,
            w as int,
            label@,
            key@,
            key@.len() as int * 8,
        ),
{
    let selected = st.column == Column::Right && tools + i == st.selected;
    let color = if selected {
        Color::Selected
    } else {
        Color::Tile
    };
    fill(fb, x, y, w, TOOL_TILE_H, color);
    if selected {
        fb.draw_rect_border(x, y, w, TOOL_TILE_H, 2, Color::Accent.pixel());
    }
    text(fb, fonts, label, x as i64 + 10, y as i64 + 12, Color::Text, Font::Small);
    let key_len = key.len();
    proof {
        vstd::string::is_ascii_spec_bytes(key);
        assert(crate::text::utf8_len(key@) == key@.len());
    }
    assert(key_len == key@.len());
    let kx = (x + w) as i64 - (key_len as i64 * 8) - 10;
    text(fb, fonts, key, kx, y as i64 + 12, Color::Accent, Font::Small);
}

/// Draws the right column: the tools `entries[tools[i]]` and the system
/// actions.
pub fn draw_right_column(
    fb: &mut Framebuffer,
    fonts: &Fonts,
    st: &GuiState,
    entries: &[BootEntry],
    tools: &[usize],
)
    requires
        menu_fits(old(fb)@),
        fonts_ok(*fonts),
        tools@.len() <= 0x100_0000,
        forall|k: int| 0 <= k < tools@.len() ==> tools@[k] < entries@.len(),
    ensures
        final(fb)@.wf(),
        final(fb)@.same_size(old(fb)@),
        final(fb)@ == right_column_frame(old(fb)@, *fonts, *st, entries@, tools@),
{
    let ghost f0 = fb@;
    let l = layout(fb);
    let (x, w) = right_geometry(l);
    let top = HEADER_H;
    text(fb, fonts, "Tools & Actions", x as i64, top as i64 - 16 - 2, Color::Subtitle, Font::Small);
    let ghost f1 = fb@;
    let mut y = top;
    let mut i: usize = 0;
    while i < tools.len()
        invariant
            fb@.wf(),
            fb@.same_size(f0),
            fonts_ok(*fonts),
            top == HEADER_H,
            x == right_col_x(l),
            w == right_col_w(l),
            x + w <= l.width,
            layout_ok(l),
            tools@.len() <= 0x100_0000,
            i <= tools@.len(),
            y == top + i * 46,
            forall|k: int| 0 <= k < tools@.len() ==> tools@[k] < entries@.len(),
            fb@ == tool_tiles(f1, *fonts, *st, entries@, tools@, x as int, w as int, i as int),
        decreases tools@.len() - i,
    {
        let selected = st.column == Column::Right && i == st.selected;
        draw_tool_tile(
            fb,
            fonts,
            x,
            y,
            w,
            entries[tools[i]].name.as_str(),
            "Diagnostic module",
            selected,
        );
        y += TOOL_TILE_H + TILE_GAP;
        i += 1;
    }
    y += 4;
    fill(fb, x, y, w, 1, Color::Divider);
    y += 8;
    proof {
        reveal_strlit("[F2]");
        reveal_strlit("[F12]");
    }
    draw_action_tile(fb, fonts, st, tools.len(), 0, x, y, w, "Firmware Setup", "[F2]");
    y += TOOL_TILE_H + TILE_GAP;
    draw_action_tile(fb, fonts, st, tools.len(), 1, x, y, w, "Reboot", "[F12]");
}

/// The key help at the right of the footer.
pub const FOOTER_HINTS: &'static str = "Enter: Boot  F1: Help  F2: Setup  F12: Reboot";

/// The footer's message: while the auto-boot countdown runs (no
/// interaction, a timeout set) the whole seconds left, or `Booting...`
/// once it is over; otherwise the selection's status line.
pub open spec fn footer_status(
    st: GuiState,
    timeout_ms: u32,
    es: Seq<BootEntry>,
    boots: Seq<usize>,
    tools: Seq<usize>,
) -> Seq<char> {
    if !st.interacted && timeout_ms > 0 {
        let elapsed = st.elapsed_frames * 16;
        if elapsed < timeout_ms {
            "Auto-boot in "@ + dec(((timeout_ms - elapsed) / 1000) as nat) + "s..."@
        } else {
            "Booting..."@
        }
    } else {
        status_line(es, boots, tools, st.column, st.selected as int)
    }
}

/// The footer: a divider, the status message at the left and the key
/// help right-aligned.
pub open spec fn footer_frame(
    f: FrameView,
    fonts: Fonts,
    st: GuiState,
    timeout_ms: u32,
    es: Seq<BootEntry>,
    boots: Seq<usize>,
    tools: Seq<usize>,
) -> FrameView {
    let l = layout_of(f);
    let fy = content_bottom(l) + 4;
    let f1 = box_on(f, MARGIN as int, fy, l.width - 2 * MARGIN, 1, Color::Divider);
    let f2 = text_on(
        f1,
        fonts,
        Font::Small,
        footer_status(st, timeout_ms, es, boots, tools),
        MARGIN + 8,
        fy + 10,
        Color::Accent,
    );
    text_on(f2, fonts, Font::Small, FOOTER_HINTS@, l.width - MARGIN - 360, fy + 10, Color::Subtitle)
}

fn footer_message(
    st: &GuiState,
    timeout_ms: u32,
    entries: &[BootEntry],
    boots: &[usize],
    tools: &[usize],
) -> (r: String)
    requires
        forall|k: int| 0 <= k < boots@.len() ==> boots@[k] < entries@.len(),
        forall|k: int| 0 <= k < tools@.len() ==> tools@[k] < entries@.len(),
    ensures
        r@ == footer_status(*st, timeout_ms, entries@, boots@, tools@),
{
    if !st.interacted && timeout_ms > 0 {
        let elapsed_ms: u64 = st.elapsed_frames as u64 * 16;
        if elapsed_ms < timeout_ms as u64 {
            let remaining = (timeout_ms as u64 - elapsed_ms) / 1000;
            let mut msg = String::from_str("Auto-boot in ");
            let digits = string_of(decimal_chars(remaining).as_slice());
            msg.append(digits.as_str());
            msg.append("s...");
            msg
        } else {
            String::from_str("Booting...")
        }
    } else {
        selected_status(entries, boots, tools, st.column, st.selected)
    }
}

/// Draws the footer.
pub fn draw_footer(
    fb: &mut Framebuffer,
    fonts: &Fonts,
    st: &GuiState,
    timeout_ms: u32,
    entries: &[BootEntry],
    boots: &[usize],
    tools: &[usize],
)
    requires
        menu_fits(old(fb)@),
        fonts_ok(*fonts),
        forall|k: int| 0 <= k < boots@.len() ==> boots@[k] < entries@.len(),
        forall|k: int| 0 <= k < tools@.len() ==> tools@[k] < entries@.len(),
    ensures
        final(fb)@.wf(),
        final(fb)@.same_size(old(fb)@),
        final(fb)@ == footer_frame(old(fb)@, *fonts, *st, timeout_ms, entries@, boots@, tools@),
{
    let l = layout(fb);
    let bottom = if l.height > crate::gui_menu::FOOTER_H {
        l.height - crate::gui_menu::FOOTER_H
    } else {
        0
    };
    let footer_y = bottom + 4;
    fill(fb, MARGIN, footer_y, l.width - 2 * MARGIN, 1, Color::Divider);
    let status = footer_message(st, timeout_ms, entries, boots, tools);
    text(fb, fonts, status.as_str(), MARGIN as i64 + 8, footer_y as i64 + 10, Color::Accent, Font::Small);
    let hints = FOOTER_HINTS;
    proof {
        reveal_strlit("Enter: Boot  F1: Help  F2: Setup  F12: Reboot");
        vstd::string::is_ascii_spec_bytes(hints);
        assert(crate::text::utf8_len(hints@) == 45);
    }
    let hx = (l.width - MARGIN) as i64 - (hints.len() as i64 * 8);
    text(fb, fonts, hints, hx, footer_y as i64 + 10, Color::Subtitle, Font::Small);
}

/// What the header shows about the machine.
pub struct SystemInfoDisplay {
    pub vmid: Option<String>,
    pub hypervisor: Option<String>,
    pub system_product: Option<String>,
    pub secure_boot: bool,
    pub driver_count: usize,
}

impl Default for SystemInfoDisplay {
    fn default() -> (r: Self)
        ensures
            r.vmid is None,
            r.hypervisor is None,
            r.system_product is None,
            !r.secure_boot,
            r.driver_count == 0,
    {
        SystemInfoDisplay {
            vmid: None,
            hypervisor: None,
            system_product: None,
            secure_boot: false,
            driver_count: 0,
        }
    }
}

/// The header's texts are short enough that their right-aligned
/// positions fit 64-bit coordinates.
pub open spec fn info_fits(info: SystemInfoDisplay) -> bool {
    &&& (info.vmid matches Some(v) ==> crate::text::utf8_len(v@) <= 0x1000_0000)
    &&& (info.hypervisor matches Some(v) ==> crate::text::utf8_len(v@) <= 0x1000_0000)
    &&& (info.system_product matches Some(v) ==> crate::text::utf8_len(v@) <= 0x1000_0000)
}

/// The header's second line: the hypervisor and the product name, joined
/// by ` | `, when either is known.
pub open spec fn platform_line(info: SystemInfoDisplay) -> Option<Seq<char>> {
    match (info.hypervisor, info.system_product) {
        (Some(h), Some(p)) => Some(h@ + " | "@ + p@),
        (Some(h), None) => Some(h@),
        (None, Some(p)) => Some(p@),
        (None, None) => None,
    }
}

/// The header's last line: the Secure Boot state and the driver count.
pub open spec fn build_line(info: SystemInfoDisplay) -> Seq<char> {
    (if info.secure_boot {
        "SB: on"@
    } else {
        "SB: off"@
    }) + " | "@ + dec(info.driver_count as nat) + " driver(s)"@
}

/// `f` with `text` ending at `right`, `char_w` pixels per byte of its
/// UTF-8 form.
pub open spec fn right_text_on(
    f: FrameView,
    fonts: Fonts,
    font: Font,
    text: Seq<char>,
    right: int,
    y: int,
    c: Color,
) -> FrameView {
    text_on(f, fonts, font, text, right - crate::text::utf8_len(text) * glyph_width(font), y, c)
}

/// The header: the logo, the title and version beside it, the machine
/// lines right-aligned (VM id in the large font, then the platform line,
/// then the build line), and a divider at its bottom.
pub open spec fn header_frame(
    f: FrameView,
    fonts: Fonts,
    logo: Seq<u8>,
    version: Seq<char>,
    target: Seq<char>,
    info: SystemInfoDisplay,
) -> FrameView {
    let l = layout_of(f);
    let f1 = logo_frame(f, logo, MARGIN as int, 8);
    let tx = 164int;
    let f2 = text_on(f1, fonts, Font::Large, "LamBoot"@, tx, 28, Color::Accent);
    let f3 = text_on(
        f2,
        fonts,
        Font::Small,
        "v"@ + version + " ("@ + target + ")"@,
        tx,
        64,
        Color::Subtitle,
    );
    let right = l.width - MARGIN;
    let (f4, y1) = match info.vmid {
        Some(v) => (right_text_on(f3, fonts, Font::Large, "VM "@ + v@, right, 18, Color::Accent), 58int),
        None => (f3, 18int),
    };
    let (f5, y2) = match platform_line(info) {
        Some(line) => (right_text_on(f4, fonts, Font::Small, line, right, y1, Color::Subtitle), y1 + 18),
        None => (f4, y1),
    };
    let f6 = right_text_on(f5, fonts, Font::Small, build_line(info), right, y2, Color::Subtitle);
    box_on(f6, MARGIN as int, HEADER_H - 2, l.width - 2 * MARGIN, 1, Color::Divider)
}

fn right_text(
    fb: &mut Framebuffer,
    fonts: &Fonts,
    s: &str,
    right: usize,
    y: i64,
    c: Color,
    font: Font,
)
    requires
        old(fb)@.wf(),
        fonts_ok(*fonts),
        right <= i32::MAX,
        crate::text::utf8_len(s@) <= 0x4000_0000,
    ensures
        final(fb)@.wf(),
        final(fb)@.same_size(old(fb)@),
        final(fb)@ == right_text_on(old(fb)@, *fonts, font, s@, right as int, y as int, c),
{
    let n = s.len();
    assert(n == crate::text::utf8_len(s@));
    let cw = font.width();
    assert(n * cw <= 0x4000_0000 * 16) by (nonlinear_arith)
        requires
            n <= 0x4000_0000,
            cw <= 16,
    ;
    let x = right as i64 - n as i64 * cw as i64;
    text(fb, fonts, s, x, y, c, font);
}

/// Draws the header; `logo` is the run-length coded logo, `version` and
/// `target` the build's version and target triple.
pub fn draw_header(
    fb: &mut Framebuffer,
    fonts: &Fonts,
    logo: &[u8],
    version: &str,
    target: &str,
    info: &SystemInfoDisplay,
)
    requires
        menu_fits(old(fb)@),
        fonts_ok(*fonts),
        logo_header_ok(logo@) ==> logo_palette_ok(logo@),
        info_fits(*info),
    ensures
        final(fb)@.wf(),
        final(fb)@.same_size(old(fb)@),
        final(fb)@ == header_frame(old(fb)@, *fonts, logo@, version@, target@, *info),
{
    let l = layout(fb);
    fb.draw_logo(logo, MARGIN, 8);
    let text_x: i64 = 164;
    text(fb, fonts, "LamBoot", text_x, 28, Color::Accent, Font::Large);
    let mut ver = String::from_str("v");
    ver.append(version);
    ver.append(" (");
    ver.append(target);
    ver.append(")");
    text(fb, fonts, ver.as_str(), text_x, 64, Color::Subtitle, Font::Small);
    let right_edge = l.width - MARGIN;
    let mut info_y: i64 = 18;
    if let Some(vmid) = &info.vmid {
        let mut label = String::from_str("VM ");
        label.append(vmid.as_str());
        proof {
            reveal_strlit("VM ");
            vstd::string::is_ascii_spec_bytes("VM ");
            crate::text::lemma_encode_utf8_concat("VM "@, vmid@);
        }
        right_text(fb, fonts, label.as_str(), right_edge, info_y, Color::Accent, Font::Large);
        info_y += 40;
    }
    let line: Option<String> = match (&info.hypervisor, &info.system_product) {
        (Some(h), Some(p)) => {
            let mut j = String::from_str(h.as_str());
            j.append(" | ");
            j.append(p.as_str());
            proof {
                reveal_strlit(" | ");
                vstd::string::is_ascii_spec_bytes(" | ");
                crate::text::lemma_encode_utf8_concat(h@, " | "@);
                crate::text::lemma_encode_utf8_concat(h@ + " | "@, p@);
            }
            Some(j)
        },
        (Some(h), None) => Some(String::from_str(h.as_str())),
        (None, Some(p)) => Some(String::from_str(p.as_str())),
        (None, None) => None,
    };
    if let Some(line) = &line {
        right_text(fb, fonts, line.as_str(), right_edge, info_y, Color::Subtitle, Font::Small);
        info_y += 18;
    }
    let mut build = if info.secure_boot {
        String::from_str("SB: on")
    } else {
        String::from_str("SB: off")
    };
    build.append(" | ");
    let digits = decimal_chars(info.driver_count as u64);
    let ds = string_of(digits.as_slice());
    build.append(ds.as_str());
    build.append(" driver(s)");
    proof {
        let sb = if info.secure_boot {
            "SB: on"@
        } else {
            "SB: off"@
        };
        reveal_strlit("SB: on");
        reveal_strlit("SB: off");
        reveal_strlit(" | ");
        reveal_strlit(" driver(s)");
        lemma_short_utf8(sb + " | "@ + ds@ + " driver(s)"@);
    }
    right_text(fb, fonts, build.as_str(), right_edge, info_y, Color::Subtitle, Font::Small);
    fill(fb, MARGIN, HEADER_H - 2, l.width - 2 * MARGIN, 1, Color::Divider);
}

/// A string of at most 64 characters is at most 256 bytes long.
proof fn lemma_short_utf8(s: Seq<char>)
    requires
        s.len() <= 64,
    ensures
        crate::text::utf8_len(s) <= 256,
{
    lemma_utf8_len_bound(s);
}

proof fn lemma_utf8_len_bound(s: Seq<char>)
    ensures
        crate::text::utf8_len(s) <= 4 * s.len(),
    decreases s.len(),
{
    if s.len() > 0 {
        lemma_utf8_len_bound(s.drop_first());
    }
}

/// `f` cleared to the background color.
pub open spec fn cleared(f: FrameView) -> FrameView {
    paint(f, whole_cover(), color_pixel(Color::Background))
}

/// `v / 2` rounded toward zero, as integer division does.
pub open spec fn half_toward_zero(v: int) -> int {
    if v >= 0 {
        v / 2
    } else {
        -((-v) / 2)
    }
}

/// The boot-progress screen: `Booting: <name>...` in the large font,
/// centred on a cleared frame.
pub open spec fn boot_progress_frame(f: FrameView, fonts: Fonts, name: Seq<char>) -> FrameView {
    let msg = "Booting: "@ + name + "..."@;
    let x = half_toward_zero(f.width - crate::text::utf8_len(msg) * 16);
    let y = half_toward_zero(f.height - 32);
    text_on(cleared(f), fonts, Font::Large, msg, x, y, Color::Text)
}

fn half(v: i64) -> (r: i64)
    ensures
        r == half_toward_zero(v as int),
{
    if v >= 0 {
        v / 2
    } else {
        -((-(v as i128)) / 2) as i64
    }
}

/// Draws the boot-progress screen for the entry called `name`.
pub fn draw_boot_progress(fb: &mut Framebuffer, fonts: &Fonts, name: &str)
    requires
        old(fb)@.wf(),
        fonts_ok(*fonts),
        crate::text::utf8_len(name@) <= 0x1000_0000,
    ensures
        final(fb)@.wf(),
        final(fb)@.same_size(old(fb)@),
        final(fb)@ == boot_progress_frame(old(fb)@, *fonts, name@),
{
    fb.clear();
    let mut msg = String::from_str("Booting: ");
    msg.append(name);
    msg.append("...");
    proof {
        reveal_strlit("Booting: ");
        reveal_strlit("...");
        vstd::string::is_ascii_spec_bytes("Booting: ");
        vstd::string::is_ascii_spec_bytes("...");
        crate::text::lemma_encode_utf8_concat("Booting: "@, name@);
        crate::text::lemma_encode_utf8_concat("Booting: "@ + name@, "..."@);
    }
    let n = msg.as_str().len();
    assert(n == crate::text::utf8_len(msg@));
    let x = half(fb.width() as i64 - n as i64 * 16);
    let y = half(fb.height() as i64 - 32);
    text(fb, fonts, msg.as_str(), x, y, Color::Text, Font::Large);
}

/// The screen shown before system action `action` runs: a cleared frame
/// with `Rebooting to firmware setup...` (action 0) or `Rebooting...`
/// (action 1) in the large font at half height; any other action draws
/// nothing.
pub open spec fn system_action_frame(f: FrameView, fonts: Fonts, action: int) -> FrameView {
    if action == 0 {
        text_on(
            cleared(f),
            fonts,
            Font::Large,
            "Rebooting to firmware setup..."@,
            50,
            f.height / 2,
            Color::Accent,
        )
    } else if action == 1 {
        text_on(cleared(f), fonts, Font::Large, "Rebooting..."@, 50, f.height / 2, Color::Accent)
    } else {
        f
    }
}

/// Draws the screen of system action `action`; returns whether there is
/// one (actions 0 and 1), in which case the caller shows the frame and
/// runs the action.
pub fn draw_system_action(fb: &mut Framebuffer, fonts: &Fonts, action: usize) -> (r: bool)
    requires
        old(fb)@.wf(),
        fonts_ok(*fonts),
    ensures
        final(fb)@.wf(),
        final(fb)@.same_size(old(fb)@),
        final(fb)@ == system_action_frame(old(fb)@, *fonts, action as int),
        r == (action < 2),
{
    if action == 0 {
        fb.clear();
        let y = (fb.height() / 2) as i64;
        text(fb, fonts, "Rebooting to firmware setup...", 50, y, Color::Accent, Font::Large);
        true
    } else if action == 1 {
        fb.clear();
        let y = (fb.height() / 2) as i64;
        text(fb, fonts, "Rebooting...", 50, y, Color::Accent, Font::Large);
        true
    } else {
        false
    }
}

/// Line `i` of the help screen's key list.
pub open spec fn help_line(i: int) -> Seq<char> {
    if i == 0 {
        "Arrow Keys: Navigate entries"@
    } else if i == 1 {
        "Left/Right: Switch columns"@
    } else if i == 2 {
        "Enter: Boot selected entry"@
    } else if i == 3 {
        "Mouse: Click to select and boot"@
    } else if i == 4 {
        "F1: This help screen"@
    } else if i == 5 {
        "F2: Reboot to firmware setup"@
    } else if i == 6 {
        "F12: Reboot system"@
    } else {
        "Esc: Cancel auto-boot timeout"@
    }
}

fn help_text(i: usize) -> (r: &'static str)
    ensures
        r@ == help_line(i as int),
{
    if i == 0 {
        "Arrow Keys: Navigate entries"
    } else if i == 1 {
        "Left/Right: Switch columns"
    } else if i == 2 {
        "Enter: Boot selected entry"
    } else if i == 3 {
        "Mouse: Click to select and boot"
    } else if i == 4 {
        "F1: This help screen"
    } else if i == 5 {
        "F2: Reboot to firmware setup"
    } else if i == 6 {
        "F12: Reboot system"
    } else {
        "Esc: Cancel auto-boot timeout"
    }
}

/// The first `k` lines of the key list, 30 pixels apart from y = 120.
pub open spec fn help_lines(f: FrameView, fonts: Fonts, k: int) -> FrameView
    decreases k,
{
    if k <= 0 {
        f
    } else {
        text_on(
            help_lines(f, fonts, k - 1),
            fonts,
            Font::Small,
            help_line(k - 1),
            50,
            120 + (k - 1) * 30,
            Color::Text,
        )
    }
}

/// The help screen: a title, the eight key-list lines, the build line and
/// the prompt to continue, on a cleared frame.
pub open spec fn help_frame(f: FrameView, fonts: Fonts, version: Seq<char>, target: Seq<char>) -> FrameView {
    let f1 = text_on(cleared(f), fonts, Font::Large, "LamBoot Help"@, 50, 50, Color::Accent);
    let f2 = help_lines(f1, fonts, 8);
    let f3 = text_on(
        f2,
        fonts,
        Font::Small,
        "LamBoot v"@ + version + " ("@ + target + ")"@,
        50,
        400,
        Color::Subtitle,
    );
    text_on(f3, fonts, Font::Small, "Press any key to continue..."@, 50, 440, Color::Accent)
}

/// Draws the help screen; the caller shows it and waits for a key.
pub fn draw_help(fb: &mut Framebuffer, fonts: &Fonts, version: &str, target: &str)
    requires
        old(fb)@.wf(),
        fonts_ok(*fonts),
    ensures
        final(fb)@.wf(),
        final(fb)@.same_size(old(fb)@),
        final(fb)@ == help_frame(old(fb)@, *fonts, version@, target@),
{
    let ghost f0 = fb@;
    fb.clear();
    text(fb, fonts, "LamBoot Help", 50, 50, Color::Accent, Font::Large);
    let ghost f1 = fb@;
    let mut i: usize = 0;
    while i < 8
        invariant
            fb@.wf(),
            fb@.same_size(f0),
            fonts_ok(*fonts),
            i <= 8,
            fb@ == help_lines(f1, *fonts, i as int),
        decreases 8 - i,
    {
        text(fb, fonts, help_text(i), 50, 120 + i as i64 * 30, Color::Text, Font::Small);
        i += 1;
    }
    let mut info = String::from_str("LamBoot v");
    info.append(version);
    info.append(" (");
    info.append(target);
    info.append(")");
    text(fb, fonts, info.as_str(), 50, 400, Color::Subtitle, Font::Small);
    text(fb, fonts, "Press any key to continue...", 50, 440, Color::Accent, Font::Small);
}

/// Everything `draw_menu` needs besides the frame and the menu's state.
pub struct MenuScene<'a> {
    pub fonts: &'a Fonts,
    /// The run-length coded logo.
    pub logo: &'a [u8],
    /// The build's version and target triple.
    pub version: &'a str,
    pub target: &'a str,
    pub info: &'a SystemInfoDisplay,
    pub entries: &'a [BootEntry],
    /// Positions in `entries` of the boot entries (left column) and the
    /// tools (right column).
    pub boots: &'a [usize],
    pub tools: &'a [usize],
    /// Auto-boot timeout; 0 disables it.
    pub timeout_ms: u32,
}

/// The scene can be drawn: full glyph tables, a logo whose runs name
/// palette entries inside it, short header texts, positions inside
/// `entries`, and a tool count whose tiles fit 32-bit coordinates.
pub open spec fn scene_ok(sc: MenuScene) -> bool {
    &&& fonts_ok(*sc.fonts)
    &&& (logo_header_ok(sc.logo@) ==> logo_palette_ok(sc.logo@))
    &&& info_fits(*sc.info)
    &&& sc.tools@.len() <= 0x100_0000
    &&& forall|k: int| 0 <= k < sc.boots@.len() ==> sc.boots@[k] < sc.entries@.len()
    &&& forall|k: int| 0 <= k < sc.tools@.len() ==> sc.tools@[k] < sc.entries@.len()
}

/// One frame of the menu: cleared, then the header, the two columns, the
/// footer and the mouse cursor, in that order.
pub open spec fn menu_frame(f: FrameView, sc: MenuScene, st: GuiState) -> FrameView {
    let fonts = *sc.fonts;
    let f1 = header_frame(cleared(f), fonts, sc.logo@, sc.version@, sc.target@, *sc.info);
    let f2 = left_column_frame(f1, fonts, st, sc.entries@, sc.boots@);
    let f3 = right_column_frame(f2, fonts, st, sc.entries@, sc.tools@);
    let f4 = footer_frame(f3, fonts, st, sc.timeout_ms, sc.entries@, sc.boots@, sc.tools@);
    cursor_frame(f4, st.mouse_x as int, st.mouse_y as int)
}

/// Draws one frame of the menu in state `st`; the caller shows it.
pub fn draw_menu(fb: &mut Framebuffer, sc: &MenuScene, st: &GuiState)
    requires
        menu_fits(old(fb)@),
        scene_ok(*sc),
        st.mouse_x >= 0,
        st.mouse_y >= 0,
    ensures
        final(fb)@.wf(),
        final(fb)@.same_size(old(fb)@),
        final(fb)@ == menu_frame(old(fb)@, *sc, *st),
{
    fb.clear();
    draw_header(fb, sc.fonts, sc.logo, sc.version, sc.target, sc.info);
    draw_left_column(fb, sc.fonts, st, sc.entries, sc.boots);
    draw_right_column(fb, sc.fonts, st, sc.entries, sc.tools);
    draw_footer(fb, sc.fonts, st, sc.timeout_ms, sc.entries, sc.boots, sc.tools);
    draw_cursor(fb, st.mouse_x, st.mouse_y);
}

} // verus!
