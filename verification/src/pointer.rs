//! The menu's mouse cursor.
//!
//! Three kinds of pointing device feed the cursor: a USB HID tablet (QEMU's,
//! absolute coordinates in `0..=0x7FFF`), UEFI simple pointers (relative
//! movement), and UEFI absolute pointers (absolute coordinates in the
//! device's own range).  Every reading moves the cursor, kept on screen,
//! and a press of the left button is reported once, when it goes down.
//! Reading the devices belongs to the caller.
use vstd::prelude::*;

verus! {

/// Full scale of the QEMU tablet's coordinates.
pub const TABLET_MAX_COORD: i32 = 0x7FFF;

/// Size of a QEMU tablet HID report: buttons, X and Y (little-endian
/// 16-bit), wheel.
pub const TABLET_REPORT_SIZE: usize = 6;

/// What a pointer reading gives the menu.
#[derive(Debug, Clone, Copy, PartialEq, Eq, Structural)]
pub enum PointerEvent {
    /// The cursor is at `(x, y)`.
    Move { x: i32, y: i32 },
    /// The left button went down with the cursor at `(x, y)`.
    Click { x: i32, y: i32 },
}

/// Cursor position, screen size, and whether the left button is held.
pub struct Pointer {
    x: i32,
    y: i32,
    width: i32,
    height: i32,
    button_down: bool,
}

pub struct PointerView {
    pub x: int,
    pub y: int,
    pub width: int,
    pub height: int,
    pub button_down: bool,
}

impl View for Pointer {
    type V = PointerView;

    closed spec fn view(&self) -> PointerView {
        PointerView {
            x: self.x as int,
            y: self.y as int,
            width: self.width as int,
            height: self.height as int,
            button_down: self.button_down,
        }
    }
}

impl PointerView {
    /// The cursor is on a non-empty screen.
    pub open spec fn wf(self) -> bool {
        &&& 1 <= self.width <= i32::MAX
        &&& 1 <= self.height <= i32::MAX
        &&& 0 <= self.x < self.width
        &&& 0 <= self.y < self.height
    }
}

/// `v` kept within `0..n` (for `n >= 1`).
pub open spec fn clamp(v: int, n: int) -> int {
    if v < 0 {
        0
    } else if v > n - 1 {
        n - 1
    } else {
        v
    }
}

/// The position after a reading that puts the cursor at `(x, y)` (before
/// clamping) with the left button `pressed`: the cursor is clamped to the
/// screen, the button state follows the reading, and the event is a click
/// exactly when the button went down.
pub open spec fn moved_to(p: PointerView, x: int, y: int, pressed: bool) -> PointerView {
    PointerView {
        x: clamp(x, p.width),
        y: clamp(y, p.height),
        button_down: pressed,
        ..p
    }
}

/// The event of a reading: a click when the button went down, else a move.
pub open spec fn event_of(before: PointerView, after: PointerView, pressed: bool) -> PointerEvent {
    if pressed && !before.button_down {
        PointerEvent::Click { x: after.x as i32, y: after.y as i32 }
    } else {
        PointerEvent::Move { x: after.x as i32, y: after.y as i32 }
    }
}

fn clamp_exec(v: i64, n: i32) -> (r: i32)
    requires
        n >= 1,
    ensures
        r as int == clamp(v as int, n as int),
{
    if v < 0 {
        0
    } else if v > (n - 1) as i64 {
        n - 1
    } else {
        v as i32
    }
}

impl Pointer {
    /// A cursor in the middle of a `width` x `height` screen.
    pub fn new(width: usize, height: usize) -> (r: Pointer)
        requires
            1 <= width <= i32::MAX,
            1 <= height <= i32::MAX,
        ensures
            r@ == (PointerView {
                x: width as int / 2,
                y: height as int / 2,
                width: width as int,
                height: height as int,
                button_down: false,
            }),
            r@.wf(),
    {
        Pointer {
            x: (width / 2) as i32,
            y: (height / 2) as i32,
            width: width as i32,
            height: height as i32,
            button_down: false,
        }
    }

    /// The cursor position.
    pub fn position(&self) -> (r: (i32, i32))
        ensures
            r.0 as int == self@.x,
            r.1 as int == self@.y,
    {
        (self.x, self.y)
    }

    fn settle(&mut self, x: i64, y: i64, pressed: bool) -> (e: PointerEvent)
        requires
            old(self)@.wf(),
        ensures
            final(self)@ == moved_to(old(self)@, x as int, y as int, pressed),
            final(self)@.wf(),
            e == event_of(old(self)@, final(self)@, pressed),
    {
        let was_down = self.button_down;
        self.x = clamp_exec(x, self.width);
        self.y = clamp_exec(y, self.height);
        self.button_down = pressed;
        if pressed && !was_down {
            PointerEvent::Click { x: self.x, y: self.y }
        } else {
            PointerEvent::Move { x: self.x, y: self.y }
        }
    }

    /// A QEMU tablet report: the cursor goes to the reported position
    /// scaled to the screen.  A short report carries no reading.
    pub fn tablet_report(&mut self, report: &[u8]) -> (e: Option<PointerEvent>)
        requires
            old(self)@.wf(),
            old(self)@.width <= 32768,
            old(self)@.height <= 32768,
        ensures
            final(self)@.wf(),
            report@.len() < TABLET_REPORT_SIZE ==> e is None && final(self)@ == old(self)@,
            report@.len() >= TABLET_REPORT_SIZE ==> {
                let rx = report@[1] + 256 * report@[2];
                let ry = report@[3] + 256 * report@[4];
                let pressed = report@[0] % 2 == 1;
                let p = moved_to(
                    old(self)@,
                    rx * old(self)@.width / (TABLET_MAX_COORD as int),
                    ry * old(self)@.height / (TABLET_MAX_COORD as int),
                    pressed,
                );
                &&& final(self)@ == p
                &&& e == Some(event_of(old(self)@, p, pressed))
            },
    {
        if report.len() < TABLET_REPORT_SIZE {
            return None;
        }
        let rx = report[1] as i64 + 256 * report[2] as i64;
        let ry = report[3] as i64 + 256 * report[4] as i64;
        let w = self.width as i64;
        let h = self.height as i64;
        assert(rx * w <= 65535 * 32768) by (nonlinear_arith)
            requires
                0 <= rx <= 65535,
                0 <= w <= 32768,
        ;
        assert(ry * h <= 65535 * 32768) by (nonlinear_arith)
            requires
                0 <= ry <= 65535,
                0 <= h <= 32768,
        ;
        assert(0 <= rx * w) by (nonlinear_arith)
            requires
                0 <= rx,
                0 <= w,
        ;
        assert(0 <= ry * h) by (nonlinear_arith)
            requires
                0 <= ry,
                0 <= h,
        ;
        let x = rx * w / 0x7FFF;
        let y = ry * h / 0x7FFF;
        let pressed = report[0] % 2 == 1;
        Some(self.settle(x, y, pressed))
    }

    /// A simple-pointer reading: the cursor moves by `(dx, dy)`.  Reported
    /// as a click when the button went down, as a move when the cursor was
    /// asked to move, and not at all otherwise.
    pub fn relative_motion(&mut self, dx: i32, dy: i32, pressed: bool) -> (e: Option<PointerEvent>)
        requires
            old(self)@.wf(),
            i32::MIN <= old(self)@.x + dx <= i32::MAX,
            i32::MIN <= old(self)@.y + dy <= i32::MAX,
        ensures
            ({
                let p = moved_to(old(self)@, old(self)@.x + dx, old(self)@.y + dy, pressed);
                &&& final(self)@ == p
                &&& final(self)@.wf()
                &&& e == (if pressed && !old(self)@.button_down {
                    Some(event_of(old(self)@, p, pressed))
                } else if dx != 0 || dy != 0 {
                    Some(PointerEvent::Move { x: p.x as i32, y: p.y as i32 })
                } else {
                    None
                })
            }),
    {
        let x = self.x as i64 + dx as i64;
        let y = self.y as i64 + dy as i64;
        let ev = self.settle(x, y, pressed);
        match ev {
            PointerEvent::Click { .. } => Some(ev),
            PointerEvent::Move { .. } => {
                if dx != 0 || dy != 0 {
                    Some(ev)
                } else {
                    None
                }
            },
        }
    }

    /// An absolute-pointer reading at `(cx, cy)` on a device spanning
    /// `min_x..=max_x` by `min_y..=max_y`: the cursor goes to the position
    /// scaled to the screen (a degenerate span counts as 1).  Bit 0 of
    /// `buttons` is the left button.
    pub fn absolute_motion(
        &mut self,
        cx: u64,
        cy: u64,
        min_x: u64,
        max_x: u64,
        min_y: u64,
        max_y: u64,
        buttons: u32,
    ) -> (e: PointerEvent)
        requires
            old(self)@.wf(),
        ensures
            ({
                let sx = span(min_x, max_x);
                let sy = span(min_y, max_y);
                let px = scaled(sat_sub(cx, min_x), old(self)@.width, sx);
                let py = scaled(sat_sub(cy, min_y), old(self)@.height, sy);
                let pressed = buttons % 2 == 1;
                let p = moved_to(old(self)@, px, py, pressed);
                &&& final(self)@ == p
                &&& final(self)@.wf()
                &&& e == event_of(old(self)@, p, pressed)
            }),
    {
        let sx = if max_x > min_x {
            max_x - min_x
        } else {
            1
        };
        let sy = if max_y > min_y {
            max_y - min_y
        } else {
            1
        };
        let rx = if cx > min_x {
            cx - min_x
        } else {
            0
        };
        let ry = if cy > min_y {
            cy - min_y
        } else {
            0
        };
        let qx = scale_exec(rx, self.width, sx);
        let qy = scale_exec(ry, self.height, sy);
        let pressed = buttons % 2 == 1;
        self.settle(qx as i64, qy as i64, pressed)
    }
}

/// `a - b`, or 0 when `b` is larger.
pub open spec fn sat_sub(a: u64, b: u64) -> u64 {
    if a > b {
        (a - b) as u64
    } else {
        0
    }
}

/// The width of a device span, at least 1.
pub open spec fn span(lo: u64, hi: u64) -> u64 {
    if hi > lo {
        (hi - lo) as u64
    } else {
        1
    }
}

/// `rel` out of `range` scaled to `n` pixels, cut to 32 bits as a signed
/// value (an out-of-range device reading can land anywhere before
/// clamping).
pub open spec fn scaled(rel: u64, n: int, range: u64) -> int {
    ((rel as int * n / range as int) as u128 as i32) as int
}

fn scale_exec(rel: u64, n: i32, range: u64) -> (r: i32)
    requires
        n >= 1,
        range >= 1,
    ensures
        r as int == scaled(rel, n as int, range),
{
    let a = rel as u128;
    let b = n as u128;
    assert(a * b <= 0xFFFF_FFFF_FFFF_FFFF * 0x7FFF_FFFF) by (nonlinear_arith)
        requires
            0 <= a <= 0xFFFF_FFFF_FFFF_FFFF,
            0 <= b <= 0x7FFF_FFFF,
    ;
    assert(0 <= a * b) by (nonlinear_arith)
        requires
            0 <= a,
            0 <= b,
    ;
    let q = a * b / (range as u128);
    q as i32
}

/// A reading never takes the cursor off the screen, and a click is
/// reported only as the button goes down: holding the button yields moves.
pub proof fn held_button_does_not_click(p: PointerView, x: int, y: int)
    requires
        p.wf(),
        p.button_down,
    ensures
        moved_to(p, x, y, true).wf(),
        event_of(p, moved_to(p, x, y, true), true) is Move,
{
}

} // verus!
