//! The graphical menu's off-screen frame: a row-major pixel buffer with
//! clipped rectangle fills and bitmap-font text.  The caller copies the
//! finished frame to the screen.
use vstd::prelude::*;
use vstd::arithmetic::div_mod::{lemma_fundamental_div_mod, lemma_fundamental_div_mod_converse};
use vstd::arithmetic::mul::lemma_mul_inequality;
use crate::platform::{glyph_width, Font};
use crate::text::chars_of;

verus! {

/// One pixel, in the firmware's blue-green-red order.
#[derive(Debug, Clone, Copy, PartialEq, Eq, Structural)]
pub struct Pixel {
    pub blue: u8,
    pub green: u8,
    pub red: u8,
}

/// The menu's palette.
#[derive(Debug, Clone, Copy, PartialEq, Eq, Structural)]
pub enum Color {
    /// The menu's background.
    Background,
    /// Entry titles and other plain text.
    Text,
    /// Highlights: the selected tile's border, the countdown.
    Accent,
    /// The selected tile's fill.
    Selected,
    /// An unselected tile's fill.
    Tile,
    /// Secondary text under a title.
    Subtitle,
    /// Warnings such as the crash-loop banner.
    Warning,
    /// Lines between the header, the columns and the footer.
    Divider,
    /// The marker of an entry whose preflight failed.
    Error,
}

/// The pixel value of each palette color.
pub open spec fn color_pixel(c: Color) -> Pixel {
    match c {
        Color::Background => Pixel { red: 0x1e, green: 0x1e, blue: 0x2e },
        Color::Text => Pixel { red: 0xff, green: 0xff, blue: 0xff },
        Color::Accent => Pixel { red: 0x89, green: 0xb4, blue: 0xfa },
        Color::Selected => Pixel { red: 0x45, green: 0x47, blue: 0x5a },
        Color::Tile => Pixel { red: 0x31, green: 0x32, blue: 0x44 },
        Color::Subtitle => Pixel { red: 0x80, green: 0x80, blue: 0x90 },
        Color::Warning => Pixel { red: 0xfa, green: 0xb3, blue: 0x87 },
        Color::Divider => Pixel { red: 0x40, green: 0x40, blue: 0x55 },
        Color::Error => Pixel { red: 0xf3, green: 0x8b, blue: 0xa8 },
    }
}

impl Color {
    /// This color's pixel value.
    pub fn pixel(self) -> (r: Pixel)
        ensures
            r == color_pixel(self),
    {
        match self {
            Color::Background => Pixel { red: 0x1e, green: 0x1e, blue: 0x2e },
            Color::Text => Pixel { red: 0xff, green: 0xff, blue: 0xff },
            Color::Accent => Pixel { red: 0x89, green: 0xb4, blue: 0xfa },
            Color::Selected => Pixel { red: 0x45, green: 0x47, blue: 0x5a },
            Color::Tile => Pixel { red: 0x31, green: 0x32, blue: 0x44 },
            Color::Subtitle => Pixel { red: 0x80, green: 0x80, blue: 0x90 },
            Color::Warning => Pixel { red: 0xfa, green: 0xb3, blue: 0x87 },
            Color::Divider => Pixel { red: 0x40, green: 0x40, blue: 0x55 },
            Color::Error => Pixel { red: 0xf3, green: 0x8b, blue: 0xa8 },
        }
    }
}

/// A `width` x `height` frame.
pub struct Framebuffer {
    pixels: Vec<Pixel>,
    width: usize,
    height: usize,
}

pub struct FrameView {
    pub pixels: Seq<Pixel>,
    pub width: int,
    pub height: int,
}

impl View for Framebuffer {
    type V = FrameView;

    closed spec fn view(&self) -> FrameView {
        FrameView { pixels: self.pixels@, width: self.width as int, height: self.height as int }
    }
}

impl FrameView {
    /// The buffer holds exactly one pixel per position, and positions fit
    /// 32-bit signed coordinates.
    pub open spec fn wf(self) -> bool {
        &&& 0 <= self.width <= i32::MAX
        &&& 0 <= self.height <= i32::MAX
        &&& self.pixels.len() == self.width * self.height
    }

    /// Whether `(x, y)` is on the frame.
    pub open spec fn on(self, x: int, y: int) -> bool {
        0 <= x < self.width && 0 <= y < self.height
    }

    /// The pixel at `(x, y)`.
    pub open spec fn at(self, x: int, y: int) -> Pixel {
        self.pixels[y * self.width + x]
    }

    /// Same size as `other`.
    pub open spec fn same_size(self, other: FrameView) -> bool {
        self.width == other.width && self.height == other.height
    }
}

/// Whether `(px, py)` lies in the `w` x `h` rectangle at `(x, y)`.
pub open spec fn in_rect(px: int, py: int, x: int, y: int, w: int, h: int) -> bool {
    x <= px < x + w && y <= py < y + h
}

proof fn lemma_index(w: int, h: int, x: int, y: int)
    requires
        0 <= x < w,
        0 <= y < h,
    ensures
        0 <= y * w + x < w * h,
        (y + 1) * w <= w * h,
{
    assert(0 <= y * w + x < w * h && (y + 1) * w <= w * h) by (nonlinear_arith)
        requires
            0 <= x < w,
            0 <= y < h,
    ;
}

proof fn lemma_index_unique(w: int, x1: int, y1: int, x2: int, y2: int)
    requires
        0 <= x1 < w,
        0 <= x2 < w,
        0 <= y1,
        0 <= y2,
        y1 * w + x1 == y2 * w + x2,
    ensures
        x1 == x2,
        y1 == y2,
{
    assert(y1 == y2) by (nonlinear_arith)
        requires
            0 <= x1 < w,
            0 <= x2 < w,
            0 <= y1,
            0 <= y2,
            y1 * w + x1 == y2 * w + x2,
    ;
}

/// Whether `(px, py)` lies on the outline, `t` pixels thick, of the `w` x
/// `h` rectangle at `(x, y)`: its top band, its bottom band when `h > t`,
/// its left band, and its right band when `w > t`.
pub open spec fn on_border(px: int, py: int, x: int, y: int, w: int, h: int, t: int) -> bool {
    ||| in_rect(px, py, x, y, w, t)
    ||| (h > t && in_rect(px, py, x, y + h - t, w, t))
    ||| in_rect(px, py, x, y, t, h)
    ||| (w > t && in_rect(px, py, x + w - t, y, t, h))
}

/// Glyph height in pixels: 16 for the small font, 32 for the large one.
pub open spec fn glyph_height(f: Font) -> int {
    match f {
        Font::Small => 16,
        Font::Large => 32,
    }
}

/// Bytes per glyph row, one bit per pixel, most significant bit leftmost.
pub open spec fn glyph_row_bytes(f: Font) -> int {
    match f {
        Font::Small => 1,
        Font::Large => 2,
    }
}

/// Length of a font table: 256 glyphs, row after row.
pub open spec fn glyph_table_len(f: Font) -> int {
    256 * glyph_row_bytes(f) * glyph_height(f)
}

/// The table slot drawn for `ch`: its code below 256, else the
/// placeholder glyph 0xFE.
pub open spec fn glyph_slot(ch: char) -> int {
    if (ch as u32) < 256 {
        ch as int
    } else {
        0xFE
    }
}

/// Whether pixel `(col, row)` of `ch`'s glyph is set in `glyphs`.
pub open spec fn glyph_bit(glyphs: Seq<u8>, f: Font, ch: char, row: int, col: int) -> bool {
    let b = glyphs[glyph_slot(ch) * glyph_row_bytes(f) * glyph_height(f) + row * glyph_row_bytes(f)
        + col / 8];
    (b >> ((7 - col % 8) as u8)) & 1u8 == 1u8
}

/// Whether `ch` drawn with its top-left corner at `(x, y)` sets `(px, py)`.
pub open spec fn glyph_covers(
    glyphs: Seq<u8>,
    f: Font,
    ch: char,
    x: int,
    y: int,
    px: int,
    py: int,
) -> bool {
    &&& 0 <= px - x < glyph_width(f)
    &&& 0 <= py - y < glyph_height(f)
    &&& glyph_bit(glyphs, f, ch, py - y, px - x)
}

/// Whether `text` drawn from `(x, y)`, one glyph width per character,
/// sets `(px, py)`.
pub open spec fn text_covers(
    glyphs: Seq<u8>,
    f: Font,
    text: Seq<char>,
    x: int,
    y: int,
    px: int,
    py: int,
) -> bool {
    let w = glyph_width(f) as int;
    let k = (px - x) / w;
    &&& x <= px
    &&& k < text.len()
    &&& glyph_covers(glyphs, f, text[k], x + k * w, y, px, py)
}

proof fn lemma_glyph_offset(f: Font, slot: int, row: int, col: int)
    requires
        0 <= slot < 256,
        0 <= row < glyph_height(f),
        0 <= col < glyph_width(f),
    ensures
        0 <= slot * glyph_row_bytes(f) * glyph_height(f) + row * glyph_row_bytes(f) + col / 8
            < glyph_table_len(f),
        0 <= slot * glyph_row_bytes(f) * glyph_height(f) <= 255 * 64,
{
    match f {
        Font::Small => {},
        Font::Large => {},
    }
}

/// Width of the logo image in pixels; its runs fill it row by row.
pub const LOGO_WIDTH: usize = 128;

/// Number of palette entries: little-endian `u16` at byte 8.
pub open spec fn logo_palette_count(d: Seq<u8>) -> int {
    d[8] + d[9] * 256
}

/// Number of runs: little-endian `u32` at byte 10.
pub open spec fn logo_run_count(d: Seq<u8>) -> int {
    d[10] + d[11] * 256 + d[12] * 65536 + d[13] * 16777216
}

/// The runs follow the 14-byte header and the palette of 3-byte entries.
pub open spec fn logo_runs_start(d: Seq<u8>) -> int {
    14 + 3 * logo_palette_count(d)
}

/// A drawable logo: at least the header, the magic `LBCL`, and every run
/// inside the data.
pub open spec fn logo_header_ok(d: Seq<u8>) -> bool {
    &&& d.len() >= 14
    &&& d[0] == 0x4C && d[1] == 0x42 && d[2] == 0x43 && d[3] == 0x4C
    &&& logo_runs_start(d) + 4 * logo_run_count(d) <= d.len()
}

/// Pixel count of run `i`: little-endian `u16` at the run's start.
pub open spec fn logo_run_len(d: Seq<u8>, i: int) -> int {
    let o = logo_runs_start(d) + 4 * i;
    d[o] + d[o + 1] * 256
}

/// Palette index of run `i`.
pub open spec fn logo_run_palette(d: Seq<u8>, i: int) -> int {
    d[logo_runs_start(d) + 4 * i + 2] as int
}

/// Opacity of run `i`: 0 leaves its pixels alone, 255 paints them.
pub open spec fn logo_run_alpha(d: Seq<u8>, i: int) -> u8 {
    d[logo_runs_start(d) + 4 * i + 3]
}

/// Every run that paints names a palette entry inside the data.
pub open spec fn logo_palette_ok(d: Seq<u8>) -> bool {
    forall|i: int|
        0 <= i < logo_run_count(d) && logo_run_alpha(d, i) != 0 ==> 14 + 3 * logo_run_palette(
            d,
            i,
        ) + 3 <= d.len()
}

/// Offset in the image of the first pixel of run `i`.
pub open spec fn logo_run_start(d: Seq<u8>, i: int) -> int
    decreases i,
{
    if i <= 0 {
        0
    } else {
        logo_run_start(d, i - 1) + logo_run_len(d, i - 1)
    }
}

/// One channel of `fg` laid over `bg` with opacity `alpha` of 255.
pub open spec fn blend_channel(fg: u8, alpha: u8, bg: u8) -> u8 {
    ((fg * alpha + bg * (255 - alpha)) / 255) as u8
}

/// What run `i` leaves on a pixel that showed `under`.  A palette entry
/// holds three bytes; the third goes to red and the first to blue.
pub open spec fn logo_pixel(d: Seq<u8>, i: int, under: Pixel) -> Pixel {
    let p = 14 + 3 * logo_run_palette(d, i);
    let a = logo_run_alpha(d, i);
    Pixel {
        red: blend_channel(d[p + 2], a, under.red),
        green: blend_channel(d[p + 1], a, under.green),
        blue: blend_channel(d[p], a, under.blue),
    }
}

/// Offset in the image of frame pixel `(px, py)` for a logo placed at
/// `(dx, dy)`.
pub open spec fn logo_offset(dx: int, dy: int, px: int, py: int) -> int {
    (py - dy) * 128 + (px - dx)
}

/// Whether run `i` of the logo placed at `(dx, dy)` paints `(px, py)`.
pub open spec fn logo_run_paints(d: Seq<u8>, i: int, dx: int, dy: int, px: int, py: int) -> bool {
    &&& 0 <= i < logo_run_count(d)
    &&& logo_run_alpha(d, i) != 0
    &&& dx <= px < dx + 128
    &&& dy <= py
    &&& logo_run_start(d, i) <= logo_offset(dx, dy, px, py) < logo_run_start(d, i) + logo_run_len(
        d,
        i,
    )
}

/// What the logo placed at `(dx, dy)` leaves on position `(x, y)` that
/// showed `p`: the blend of the run that paints it, if one does.
pub open spec fn logo_change(d: Seq<u8>, dx: int, dy: int) -> spec_fn(int, int, Pixel) -> Pixel {
    |x: int, y: int, p: Pixel|
        if exists|i: int| logo_run_paints(d, i, dx, dy, x, y) {
            logo_pixel(d, choose|i: int| logo_run_paints(d, i, dx, dy, x, y), p)
        } else {
            p
        }
}

/// `f` after drawing the logo `d` at `(dx, dy)`; unchanged when `d` is
/// not a valid logo.
pub open spec fn logo_frame(f: FrameView, d: Seq<u8>, dx: int, dy: int) -> FrameView {
    if logo_header_ok(d) {
        remap(f, logo_change(d, dx, dy))
    } else {
        f
    }
}

proof fn lemma_run_start_mono(d: Seq<u8>, j: int, i: int)
    requires
        0 <= j < i,
    ensures
        logo_run_start(d, j) + logo_run_len(d, j) <= logo_run_start(d, i),
    decreases i,
{
    if j < i - 1 {
        lemma_run_start_mono(d, j, i - 1);
    }
}

proof fn lemma_run_start_bound(d: Seq<u8>, i: int)
    requires
        0 <= i,
    ensures
        0 <= logo_run_start(d, i) <= 65535 * i,
    decreases i,
{
    if i > 0 {
        lemma_run_start_bound(d, i - 1);
    }
}

proof fn lemma_logo_place(dx: int, dy: int, px: int, py: int, o: int)
    requires
        0 <= o,
        dx <= px < dx + 128,
        dy <= py,
        logo_offset(dx, dy, px, py) == o,
    ensures
        px == dx + o % 128,
        py == dy + o / 128,
{
    lemma_fundamental_div_mod_converse(o, 128, py - dy, px - dx);
}

fn blend(fg: u8, alpha: u8, bg: u8) -> (r: u8)
    ensures
        r == blend_channel(fg, alpha, bg),
{
    let inv = 255 - alpha;
    let f = fg as u16;
    let a = alpha as u16;
    let b = bg as u16;
    let i = inv as u16;
    assert(f * a + b * i <= 65025) by (nonlinear_arith)
        requires
            f <= 255,
            b <= 255,
            a + i == 255,
    ;
    assert((f * a + b * i) / 255 <= 255) by (nonlinear_arith)
        requires
            f * a + b * i <= 65025,
    ;
    ((f * a + b * i) / 255) as u8
}

/// `f` with the pixel at each position `(x, y)` replaced by
/// `change(x, y, old pixel)`.
pub open spec fn remap(f: FrameView, change: spec_fn(int, int, Pixel) -> Pixel) -> FrameView {
    FrameView {
        pixels: Seq::new(
            f.pixels.len(),
            |i: int| change(i % f.width, i / f.width, f.pixels[i]),
        ),
        width: f.width,
        height: f.height,
    }
}

/// `color` where `cover` holds, else the pixel as it was.
pub open spec fn paint_change(cover: spec_fn(int, int) -> bool, color: Pixel) -> spec_fn(
    int,
    int,
    Pixel,
) -> Pixel {
    |x: int, y: int, p: Pixel|
        if cover(x, y) {
            color
        } else {
            p
        }
}

/// `f` with every pixel where `cover` holds painted `color`.
pub open spec fn paint(f: FrameView, cover: spec_fn(int, int) -> bool, color: Pixel) -> FrameView {
    remap(f, paint_change(cover, color))
}

/// The pixels of the `w` x `h` rectangle at `(x, y)`.
pub open spec fn rect_cover(x: int, y: int, w: int, h: int) -> spec_fn(int, int) -> bool {
    |px: int, py: int| in_rect(px, py, x, y, w, h)
}

/// The pixels of the outline that `on_border` describes.
pub open spec fn border_cover(x: int, y: int, w: int, h: int, t: int) -> spec_fn(int, int) -> bool {
    |px: int, py: int| on_border(px, py, x, y, w, h, t)
}

/// The pixels that `text_covers` describes.
pub open spec fn text_cover(glyphs: Seq<u8>, f: Font, text: Seq<char>, x: int, y: int) -> spec_fn(
    int,
    int,
) -> bool {
    |px: int, py: int| text_covers(glyphs, f, text, x, y, px, py)
}

/// Every pixel.
pub open spec fn whole_cover() -> spec_fn(int, int) -> bool {
    |px: int, py: int| true
}

/// Two well-formed frames of one size that agree on every position are
/// equal.
pub proof fn lemma_frame_eq(a: FrameView, b: FrameView)
    requires
        a.wf(),
        b.wf(),
        a.same_size(b),
        forall|x: int, y: int| a.on(x, y) ==> a.at(x, y) == b.at(x, y),
    ensures
        a == b,
{
    assert forall|i: int| 0 <= i < a.pixels.len() implies a.pixels[i] == b.pixels[i] by {
        let w = a.width;
        assert(w > 0) by {
            if w == 0 {
                assert(a.pixels.len() == 0 * a.height);
            }
        }
        lemma_fundamental_div_mod(i, w);
        let x = i % w;
        let y = i / w;
        assert(y * w + x == i) by (nonlinear_arith)
            requires
                i == w * (i / w) + i % w,
                x == i % w,
                y == i / w,
        ;
        assert(y < a.height) by (nonlinear_arith)
            requires
                y * w + x == i,
                i < w * a.height,
                0 <= x,
                w > 0,
        ;
        assert(a.on(x, y));
    }
    assert(a.pixels =~= b.pixels);
}

/// What `remap` leaves at an on-frame position.
pub proof fn lemma_remap_at(f: FrameView, change: spec_fn(int, int, Pixel) -> Pixel, x: int, y: int)
    requires
        f.wf(),
        f.on(x, y),
    ensures
        remap(f, change).wf(),
        remap(f, change).at(x, y) == change(x, y, f.at(x, y)),
{
    lemma_index(f.width, f.height, x, y);
    lemma_fundamental_div_mod_converse(y * f.width + x, f.width, y, x);
}

/// A frame that shows `change(x, y, p)` wherever `f` shows `p` is
/// `remap(f, change)`.
pub proof fn lemma_remapped(f: FrameView, g: FrameView, change: spec_fn(int, int, Pixel) -> Pixel)
    requires
        f.wf(),
        g.wf(),
        g.same_size(f),
        forall|x: int, y: int| g.on(x, y) ==> g.at(x, y) == change(x, y, f.at(x, y)),
    ensures
        g == remap(f, change),
{
    let r = remap(f, change);
    assert(r.wf());
    assert forall|x: int, y: int| g.on(x, y) implies g.at(x, y) == r.at(x, y) by {
        lemma_remap_at(f, change, x, y);
    }
    lemma_frame_eq(g, r);
}

/// What `paint` leaves at an on-frame position.
pub proof fn lemma_paint_at(f: FrameView, cover: spec_fn(int, int) -> bool, color: Pixel, x: int, y: int)
    requires
        f.wf(),
        f.on(x, y),
    ensures
        paint(f, cover, color).wf(),
        paint(f, cover, color).at(x, y) == if cover(x, y) {
            color
        } else {
            f.at(x, y)
        },
{
    lemma_remap_at(f, paint_change(cover, color), x, y);
}

/// A frame that differs from `f` exactly by `color` where `cover` holds
/// is `paint(f, cover, color)`.
pub proof fn lemma_painted(f: FrameView, g: FrameView, cover: spec_fn(int, int) -> bool, color: Pixel)
    requires
        f.wf(),
        g.wf(),
        g.same_size(f),
        forall|x: int, y: int|
            g.on(x, y) ==> g.at(x, y) == if cover(x, y) {
                color
            } else {
                f.at(x, y)
            },
    ensures
        g == paint(f, cover, color),
{
    lemma_remapped(f, g, paint_change(cover, color));
}

impl Framebuffer {
    /// A frame filled with the background color.
    pub fn new(width: usize, height: usize) -> (r: Framebuffer)
        requires
            width <= i32::MAX,
            height <= i32::MAX,
            width * height <= usize::MAX,
        ensures
            r@.wf(),
            r@.width == width,
            r@.height == height,
            forall|x: int, y: int| r@.on(x, y) ==> r@.at(x, y) == color_pixel(Color::Background),
    {
        let background = Color::Background.pixel();
        let n = width * height;
        let mut pixels: Vec<Pixel> = Vec::new();
        let mut i: usize = 0;
        while i < n
            invariant
                i <= n,
                pixels@.len() == i,
                forall|k: int| 0 <= k < i ==> pixels@[k] == background,
            decreases n - i,
        {
            pixels.push(background);
            i += 1;
        }
        let r = Framebuffer { pixels, width, height };
        assert forall|x: int, y: int| r@.on(x, y) implies r@.at(x, y) == color_pixel(Color::Background) by {
            lemma_index(width as int, height as int, x, y);
        }
        r
    }

    /// The frame's width.
    pub fn width(&self) -> (r: usize)
        ensures
            r == self@.width,
    {
        self.width
    }

    /// The frame's height.
    pub fn height(&self) -> (r: usize)
        ensures
            r == self@.height,
    {
        self.height
    }

    /// The pixels, row by row, for copying to the screen.
    pub fn pixels(&self) -> (r: &[Pixel])
        ensures
            r@ == self@.pixels,
    {
        self.pixels.as_slice()
    }

    /// Paints the whole frame the background color.
    pub fn clear(&mut self)
        requires
            old(self)@.wf(),
        ensures
            final(self)@.wf(),
            final(self)@.same_size(old(self)@),
            forall|x: int, y: int| final(self)@.on(x, y) ==> final(self)@.at(x, y) == color_pixel(Color::Background),
            final(self)@ == paint(old(self)@, whole_cover(), color_pixel(Color::Background)),
    {
        let background = Color::Background.pixel();
        let n = self.pixels.len();
        let mut i: usize = 0;
        while i < n
            invariant
                i <= n,
                n == self.pixels@.len(),
                self@.wf(),
                self@.same_size(old(self)@),
                forall|k: int| 0 <= k < i ==> self.pixels@[k] == background,
            decreases n - i,
        {
            self.pixels.set(i, background);
            i += 1;
        }
        assert forall|x: int, y: int| self@.on(x, y) implies self@.at(x, y) == color_pixel(Color::Background) by {
            lemma_index(self.width as int, self.height as int, x, y);
        }
        proof {
            lemma_painted(old(self)@, self@, whole_cover(), color_pixel(Color::Background));
        }
    }

    fn put(&mut self, x: usize, y: usize, color: Pixel)
        requires
            old(self)@.wf(),
            old(self)@.on(x as int, y as int),
        ensures
            final(self)@.wf(),
            final(self)@.same_size(old(self)@),
            forall|cx: int, cy: int|
                final(self)@.on(cx, cy) ==> final(self)@.at(cx, cy) == if cx == x && cy == y {
                    color
                } else {
                    old(self)@.at(cx, cy)
                },
    {
        let n = self.pixels.len();
        proof {
            lemma_index(self.width as int, self.height as int, x as int, y as int);
            assert(y * self.width <= y * self.width + x < n);
        }
        let i = y * self.width + x;
        self.pixels.set(i, color);
        proof {
            assert forall|cx: int, cy: int| self@.on(cx, cy) implies self@.at(cx, cy) == if cx == x
                && cy == y {
                color
            } else {
                old(self)@.at(cx, cy)
            } by {
                lemma_index(self.width as int, self.height as int, cx, cy);
                if !(cx == x && cy == y) {
                    if cy * self.width + cx == i {
                        lemma_index_unique(self.width as int, cx, cy, x as int, y as int);
                    }
                }
            }
        }
    }

    /// Paints the `w` x `h` rectangle at `(x, y)` `color`, clipped to the
    /// frame.
    pub fn fill_rect(&mut self, x: usize, y: usize, w: usize, h: usize, color: Pixel)
        requires
            old(self)@.wf(),
            x + w <= usize::MAX,
            y + h <= usize::MAX,
        ensures
            final(self)@.wf(),
            final(self)@.same_size(old(self)@),
            forall|cx: int, cy: int|
                final(self)@.on(cx, cy) ==> final(self)@.at(cx, cy) == if in_rect(
                    cx,
                    cy,
                    x as int,
                    y as int,
                    w as int,
                    h as int,
                ) {
                    color
                } else {
                    old(self)@.at(cx, cy)
                },
            final(self)@ == paint(old(self)@, rect_cover(x as int, y as int, w as int, h as int), color),
    {
        let ghost before = self@;
        let x_end = if x + w < self.width {
            x + w
        } else {
            self.width
        };
        let y_end = if y + h < self.height {
            y + h
        } else {
            self.height
        };
        let x_start = if x < self.width {
            x
        } else {
            self.width
        };
        let mut row = if y < self.height {
            y
        } else {
            self.height
        };
        while row < y_end
            invariant
                before.wf(),
                self@.wf(),
                self@.same_size(before),
                y <= row || row == self.height,
                y_end <= self.height,
                x_end <= self.width,
                x_start == (if x < self.width { x } else { self.width }),
                x_end == (if x + w < self.width { x + w } else { self.width as int }),
                y_end == (if y + h < self.height { y + h } else { self.height as int }),
                forall|cx: int, cy: int|
                    self@.on(cx, cy) ==> self@.at(cx, cy) == if in_rect(
                        cx,
                        cy,
                        x as int,
                        y as int,
                        w as int,
                        h as int,
                    ) && cy < row {
                        color
                    } else {
                        before.at(cx, cy)
                    },
            decreases y_end - row,
        {
            let mut col = x_start;
            while col < x_end
                invariant
                    before.wf(),
                    self@.wf(),
                    self@.same_size(before),
                    y <= row < y_end,
                    y_end <= self.height,
                    x_end <= self.width,
                    x_start <= col,
                    x_start == (if x < self.width { x } else { self.width }),
                    x_end == (if x + w < self.width { x + w } else { self.width as int }),
                    y_end == (if y + h < self.height { y + h } else { self.height as int }),
                    forall|cx: int, cy: int|
                        self@.on(cx, cy) ==> self@.at(cx, cy) == if in_rect(
                            cx,
                            cy,
                            x as int,
                            y as int,
                            w as int,
                            h as int,
                        ) && (cy < row || (cy == row && cx < col)) {
                            color
                        } else {
                            before.at(cx, cy)
                        },
                decreases x_end - col,
            {
                self.put(col, row, color);
                col += 1;
            }
            row += 1;
        }
        proof {
            lemma_painted(before, self@, rect_cover(x as int, y as int, w as int, h as int), color);
        }
    }

    /// Outlines the `w` x `h` rectangle at `(x, y)` with bands `thickness`
    /// pixels wide, clipped to the frame.
    pub fn draw_rect_border(
        &mut self,
        x: usize,
        y: usize,
        w: usize,
        h: usize,
        thickness: usize,
        color: Pixel,
    )
        requires
            old(self)@.wf(),
            x + w <= usize::MAX,
            y + h <= usize::MAX,
            x + thickness <= usize::MAX,
            y + thickness <= usize::MAX,
        ensures
            final(self)@.wf(),
            final(self)@.same_size(old(self)@),
            forall|cx: int, cy: int|
                final(self)@.on(cx, cy) ==> final(self)@.at(cx, cy) == if on_border(
                    cx,
                    cy,
                    x as int,
                    y as int,
                    w as int,
                    h as int,
                    thickness as int,
                ) {
                    color
                } else {
                    old(self)@.at(cx, cy)
                },
            final(self)@ == paint(
                old(self)@,
                border_cover(x as int, y as int, w as int, h as int, thickness as int),
                color,
            ),
    {
        let ghost before = self@;
        self.fill_rect(x, y, w, thickness, color);
        if h > thickness {
            self.fill_rect(x, y + h - thickness, w, thickness, color);
        }
        self.fill_rect(x, y, thickness, h, color);
        if w > thickness {
            self.fill_rect(x + w - thickness, y, thickness, h, color);
        }
        proof {
            lemma_painted(
                before,
                self@,
                border_cover(x as int, y as int, w as int, h as int, thickness as int),
                color,
            );
        }
    }

    /// Draws `ch` in `font` with its top-left corner at `(x, y)`: every set
    /// glyph pixel that falls on the frame becomes `color`.  `glyphs` is the
    /// font's table.
    pub fn draw_char(&mut self, ch: char, x: i64, y: i64, color: Pixel, font: Font, glyphs: &[u8])
        requires
            old(self)@.wf(),
            glyphs@.len() >= glyph_table_len(font),
        ensures
            final(self)@.wf(),
            final(self)@.same_size(old(self)@),
            forall|cx: int, cy: int|
                final(self)@.on(cx, cy) ==> final(self)@.at(cx, cy) == if glyph_covers(
                    glyphs@,
                    font,
                    ch,
                    x as int,
                    y as int,
                    cx,
                    cy,
                ) {
                    color
                } else {
                    old(self)@.at(cx, cy)
                },
    {
        let ghost before = self@;
        let glyph_w = font.width();
        let (glyph_h, bytes_per_row): (usize, usize) = match font {
            Font::Small => (16, 1),
            Font::Large => (32, 2),
        };
        let code = ch as u32;
        let idx: usize = if code < 256 {
            code as usize
        } else {
            0xFE
        };
        proof {
            lemma_glyph_offset(font, idx as int, 0, 0);
        }
        let glyph_offset = idx * bytes_per_row * glyph_h;
        let mut row: usize = 0;
        while row < glyph_h
            invariant
                before.wf(),
                self@.wf(),
                self@.same_size(before),
                row <= glyph_h,
                glyph_h == glyph_height(font),
                glyph_w == glyph_width(font),
                bytes_per_row == glyph_row_bytes(font),
                idx == glyph_slot(ch),
                glyph_offset == idx * bytes_per_row * glyph_h,
                glyphs@.len() >= glyph_table_len(font),
                forall|cx: int, cy: int|
                    self@.on(cx, cy) ==> self@.at(cx, cy) == if glyph_covers(
                        glyphs@,
                        font,
                        ch,
                        x as int,
                        y as int,
                        cx,
                        cy,
                    ) && cy - y < row {
                        color
                    } else {
                        before.at(cx, cy)
                    },
            decreases glyph_h - row,
        {
            let py: i128 = y as i128 + row as i128;
            if py >= 0 && py < self.height as i128 {
                let row_offset = glyph_offset + row * bytes_per_row;
                let mut col: usize = 0;
                while col < glyph_w
                    invariant
                        before.wf(),
                        self@.wf(),
                        self@.same_size(before),
                        row < glyph_h,
                        col <= glyph_w,
                        py == y + row,
                        0 <= py < self@.height,
                        glyph_h == glyph_height(font),
                        glyph_w == glyph_width(font),
                        bytes_per_row == glyph_row_bytes(font),
                        idx == glyph_slot(ch),
                        row_offset == idx * bytes_per_row * glyph_h + row * bytes_per_row,
                        glyphs@.len() >= glyph_table_len(font),
                        forall|cx: int, cy: int|
                            self@.on(cx, cy) ==> self@.at(cx, cy) == if glyph_covers(
                                glyphs@,
                                font,
                                ch,
                                x as int,
                                y as int,
                                cx,
                                cy,
                            ) && (cy - y < row || (cy - y == row && cx - x < col)) {
                                color
                            } else {
                                before.at(cx, cy)
                            },
                    decreases glyph_w - col,
                {
                    proof {
                        lemma_glyph_offset(font, idx as int, row as int, col as int);
                    }
                    let byte_idx = col / 8;
                    let bit_idx = (7 - col % 8) as u8;
                    let set = (glyphs[row_offset + byte_idx] >> bit_idx) & 1u8 == 1u8;
                    assert(set == glyph_bit(glyphs@, font, ch, row as int, col as int));
                    if set {
                        let px: i128 = x as i128 + col as i128;
                        if px >= 0 && px < self.width as i128 {
                            self.put(px as usize, py as usize, color);
                        }
                    }
                    col += 1;
                }
            }
            row += 1;
        }
    }

    /// Draws `text` in `font` from `(x, y)`, one glyph width per character,
    /// stopping at the first character that starts past the right edge and
    /// skipping those that end left of it.
    pub fn draw_text(&mut self, text: &str, x: i64, y: i64, color: Pixel, font: Font, glyphs: &[u8])
        requires
            old(self)@.wf(),
            glyphs@.len() >= glyph_table_len(font),
        ensures
            final(self)@.wf(),
            final(self)@.same_size(old(self)@),
            forall|cx: int, cy: int|
                final(self)@.on(cx, cy) ==> final(self)@.at(cx, cy) == if text_covers(
                    glyphs@,
                    font,
                    text@,
                    x as int,
                    y as int,
                    cx,
                    cy,
                ) {
                    color
                } else {
                    old(self)@.at(cx, cy)
                },
            final(self)@ == paint(old(self)@, text_cover(glyphs@, font, text@, x as int, y as int), color),
    {
        let ghost before = self@;
        let chars = chars_of(text);
        let char_width = font.width() as i128;
        let width = self.width as i128;
        let mut i: usize = 0;
        while i < chars.len()
            invariant_except_break
                i <= chars@.len(),
                i == 0 || x + (i - 1) * char_width < width,
            invariant
                before.wf(),
                self@.wf(),
                self@.same_size(before),
                chars@ == text@,
                width == self@.width,
                width <= i32::MAX,
                char_width == glyph_width(font),
                glyphs@.len() >= glyph_table_len(font),
                forall|cx: int, cy: int|
                    self@.on(cx, cy) ==> self@.at(cx, cy) == if text_covers(
                        glyphs@,
                        font,
                        text@,
                        x as int,
                        y as int,
                        cx,
                        cy,
                    ) && (cx - x) / (char_width as int) < i {
                        color
                    } else {
                        before.at(cx, cy)
                    },
            ensures
                forall|cx: int, cy: int|
                    self@.on(cx, cy) ==> self@.at(cx, cy) == if text_covers(
                        glyphs@,
                        font,
                        text@,
                        x as int,
                        y as int,
                        cx,
                        cy,
                    ) {
                        color
                    } else {
                        before.at(cx, cy)
                    },
            decreases chars@.len() - i,
        {
            proof {
                if i > 0 {
                    assert((i - 1) * char_width >= 0) by (nonlinear_arith)
                        requires
                            i >= 1,
                            char_width > 0,
                    ;
                    assert(i * char_width == (i - 1) * char_width + char_width) by (nonlinear_arith);
                }
            }
            let char_x: i128 = x as i128 + i as i128 * char_width;
            if char_x >= width {
                proof {
                    assert forall|cx: int, cy: int|
                        self@.on(cx, cy) && text_covers(glyphs@, font, text@, x as int, y as int, cx, cy)
                        implies (cx - x) / (char_width as int) < i by {
                        let k = (cx - x) / (char_width as int);
                        lemma_fundamental_div_mod(cx - x, char_width as int);
                        if k >= i {
                            lemma_mul_inequality(i as int, k, char_width as int);
                            assert(char_width * k == k * char_width) by (nonlinear_arith);
                        }
                    }
                }
                break;
            }
            if char_x + char_width >= 0 {
                let ghost mid = self@;
                self.draw_char(chars[i], char_x as i64, y, color, font, glyphs);
                proof {
                    assert forall|cx: int, cy: int| self@.on(cx, cy) implies self@.at(cx, cy) == if text_covers(
                        glyphs@,
                        font,
                        text@,
                        x as int,
                        y as int,
                        cx,
                        cy,
                    ) && (cx - x) / (char_width as int) < i + 1 {
                        color
                    } else {
                        before.at(cx, cy)
                    } by {
                        let k = (cx - x) / (char_width as int);
                        lemma_fundamental_div_mod(cx - x, char_width as int);
                        assert(char_width * k == k * char_width) by (nonlinear_arith);
                        if glyph_covers(glyphs@, font, chars@[i as int], char_x as int, y as int, cx, cy) {
                            lemma_fundamental_div_mod_converse(
                                cx - x,
                                char_width as int,
                                i as int,
                                cx - char_x,
                            );
                        }
                    }
                }
            } else {
                proof {
                    assert forall|cx: int, cy: int| self@.on(cx, cy) implies self@.at(cx, cy) == if text_covers(
                        glyphs@,
                        font,
                        text@,
                        x as int,
                        y as int,
                        cx,
                        cy,
                    ) && (cx - x) / (char_width as int) < i + 1 {
                        color
                    } else {
                        before.at(cx, cy)
                    } by {
                        let k = (cx - x) / (char_width as int);
                        lemma_fundamental_div_mod(cx - x, char_width as int);
                        assert(char_width * k == k * char_width) by (nonlinear_arith);
                    }
                }
            }
            i += 1;
        }
        proof {
            lemma_painted(before, self@, text_cover(glyphs@, font, text@, x as int, y as int), color);
        }
    }

    fn get(&self, x: usize, y: usize) -> (r: Pixel)
        requires
            self@.wf(),
            self@.on(x as int, y as int),
        ensures
            r == self@.at(x as int, y as int),
    {
        let n = self.pixels.len();
        proof {
            lemma_index(self.width as int, self.height as int, x as int, y as int);
            assert(y * self.width <= y * self.width + x < n);
        }
        self.pixels[y * self.width + x]
    }

    /// Draws the run-length coded logo `data` with its top-left corner at
    /// `(dest_x, dest_y)`, blending each painted pixel over what the frame
    /// shows.  Nothing is drawn when the header is not a valid logo.
    pub fn draw_logo(&mut self, data: &[u8], dest_x: usize, dest_y: usize)
        requires
            old(self)@.wf(),
            logo_header_ok(data@) ==> logo_palette_ok(data@),
        ensures
            final(self)@.wf(),
            final(self)@.same_size(old(self)@),
            !logo_header_ok(data@) ==> final(self)@ == old(self)@,
            logo_header_ok(data@) ==> forall|i: int, cx: int, cy: int|
                final(self)@.on(cx, cy) && logo_run_paints(
                    data@,
                    i,
                    dest_x as int,
                    dest_y as int,
                    cx,
                    cy,
                ) ==> final(self)@.at(cx, cy) == logo_pixel(data@, i, old(self)@.at(cx, cy)),
            logo_header_ok(data@) ==> forall|cx: int, cy: int|
                final(self)@.on(cx, cy) && (forall|i: int|
                    !logo_run_paints(data@, i, dest_x as int, dest_y as int, cx, cy))
                    ==> final(self)@.at(cx, cy) == old(self)@.at(cx, cy),
            final(self)@ == logo_frame(old(self)@, data@, dest_x as int, dest_y as int),
    {
        let ghost before = self@;
        let ghost d = data@;
        let ghost dx = dest_x as int;
        let ghost dy = dest_y as int;
        if data.len() < 14 || data[0] != 0x4C || data[1] != 0x42 || data[2] != 0x43 || data[3]
            != 0x4C {
            return;
        }
        let palette_count = data[8] as u64 + data[9] as u64 * 256;
        let run_count = data[10] as u64 + data[11] as u64 * 256 + data[12] as u64 * 65536
            + data[13] as u64 * 16777216;
        let palette_start: u64 = 14;
        let runs_start = palette_start + palette_count * 3;
        if runs_start + run_count * 4 > data.len() as u64 {
            return;
        }
        let mut px_offset: u64 = 0;
        let mut i: u64 = 0;
        while i < run_count
            invariant
                before.wf(),
                self@.wf(),
                self@.same_size(before),
                d == data@,
                dx == dest_x,
                dy == dest_y,
                logo_header_ok(d),
                logo_palette_ok(d),
                run_count == logo_run_count(d),
                runs_start == logo_runs_start(d),
                palette_start == 14,
                i <= run_count,
                px_offset == logo_run_start(d, i as int),
                forall|j: int, cx: int, cy: int|
                    0 <= j < i && self@.on(cx, cy) && logo_run_paints(d, j, dx, dy, cx, cy)
                        ==> self@.at(cx, cy) == logo_pixel(d, j, before.at(cx, cy)),
                forall|cx: int, cy: int|
                    self@.on(cx, cy) && (forall|j: int|
                        0 <= j < i ==> !logo_run_paints(d, j, dx, dy, cx, cy)) ==> self@.at(cx, cy)
                        == before.at(cx, cy),
            decreases run_count - i,
        {
            proof {
                lemma_run_start_bound(d, i as int);
            }
            let run_off = (runs_start + i * 4) as usize;
            let count = data[run_off] as u64 + data[run_off + 1] as u64 * 256;
            let pal_idx = data[run_off + 2] as u64;
            let alpha = data[run_off + 3];
            if alpha == 0 {
                px_offset += count;
                i += 1;
                continue;
            }
            assert(alpha == logo_run_alpha(d, i as int) && pal_idx == logo_run_palette(d, i as int));
            assert(14 + 3 * logo_run_palette(d, i as int) + 3 <= d.len());
            let pal_off = (palette_start + pal_idx * 3) as usize;
            let r = data[pal_off];
            let g = data[pal_off + 1];
            let b = data[pal_off + 2];
            let ghost run_base = px_offset as int;
            let mut t: u64 = 0;
            while t < count
                invariant
                    before.wf(),
                    self@.wf(),
                    self@.same_size(before),
                    d == data@,
                    dx == dest_x,
                    dy == dest_y,
                    logo_header_ok(d),
                    logo_palette_ok(d),
                    run_count == logo_run_count(d),
                    runs_start == logo_runs_start(d),
                    i < run_count,
                    count == logo_run_len(d, i as int),
                    alpha == logo_run_alpha(d, i as int),
                    alpha != 0,
                    pal_off == 14 + 3 * logo_run_palette(d, i as int),
                    pal_off + 3 <= d.len(),
                    r == d[pal_off as int],
                    g == d[pal_off + 1],
                    b == d[pal_off + 2],
                    run_base == logo_run_start(d, i as int),
                    run_base <= 65535 * i,
                    t <= count,
                    px_offset == run_base + t,
                    forall|j: int, cx: int, cy: int|
                        0 <= j < i && self@.on(cx, cy) && logo_run_paints(d, j, dx, dy, cx, cy)
                            ==> self@.at(cx, cy) == logo_pixel(d, j, before.at(cx, cy)),
                    forall|cx: int, cy: int|
                        self@.on(cx, cy) && logo_run_paints(d, i as int, dx, dy, cx, cy)
                            && logo_offset(dx, dy, cx, cy) < run_base + t ==> self@.at(cx, cy)
                            == logo_pixel(d, i as int, before.at(cx, cy)),
                    forall|cx: int, cy: int|
                        self@.on(cx, cy) && (forall|j: int|
                            0 <= j < i ==> !logo_run_paints(d, j, dx, dy, cx, cy)) && !(
                        logo_run_paints(d, i as int, dx, dy, cx, cy) && logo_offset(dx, dy, cx, cy)
                            < run_base + t) ==> self@.at(cx, cy) == before.at(cx, cy),
                decreases count - t,
            {
                let ghost o = px_offset as int;
                let col = px_offset % 128;
                let row = px_offset / 128;
                px_offset += 1;
                let ghost pxg = dx + o % 128;
                let ghost pyg = dy + o / 128;
                proof {
                    assert(logo_offset(dx, dy, pxg, pyg) == o) by {
                        lemma_fundamental_div_mod(o, 128);
                    }
                    assert forall|j: int| 0 <= j < i implies !logo_run_paints(d, j, dx, dy, pxg, pyg) by {
                        lemma_run_start_mono(d, j, i as int);
                    }
                    assert forall|cx: int, cy: int|
                        dx <= cx < dx + 128 && dy <= cy && logo_offset(dx, dy, cx, cy) == o
                        implies cx == pxg && cy == pyg by {
                        lemma_logo_place(dx, dy, cx, cy, o);
                    }
                }
                if dest_x < self.width && col < (self.width - dest_x) as u64 && dest_y < self.height
                    && row < (self.height - dest_y) as u64 {
                    let px = dest_x + col as usize;
                    let py = dest_y + row as usize;
                    assert(px == pxg && py == pyg);
                    let under = self.get(px, py);
                    assert(under == before.at(px as int, py as int));
                    let color = if alpha == 255 {
                        assert(blend_channel(r, alpha, under.blue) == r) by {
                            assert((r * 255u8 + under.blue * 0u8) / 255 == r) by (nonlinear_arith);
                        }
                        assert(blend_channel(g, alpha, under.green) == g) by {
                            assert((g * 255u8 + under.green * 0u8) / 255 == g) by (nonlinear_arith);
                        }
                        assert(blend_channel(b, alpha, under.red) == b) by {
                            assert((b * 255u8 + under.red * 0u8) / 255 == b) by (nonlinear_arith);
                        }
                        Pixel { red: b, green: g, blue: r }
                    } else {
                        Pixel {
                            red: blend(b, alpha, under.red),
                            green: blend(g, alpha, under.green),
                            blue: blend(r, alpha, under.blue),
                        }
                    };
                    self.put(px, py, color);
                }
                t += 1;
            }
            i += 1;
        }
        proof {
            assert forall|x: int, y: int| self@.on(x, y) implies self@.at(x, y) == logo_change(
                d,
                dx,
                dy,
            )(x, y, before.at(x, y)) by {
                if exists|j: int| logo_run_paints(d, j, dx, dy, x, y) {
                    let j = choose|j: int| logo_run_paints(d, j, dx, dy, x, y);
                    assert(logo_run_paints(d, j, dx, dy, x, y));
                }
            }
            lemma_remapped(before, self@, logo_change(d, dx, dy));
        }
    }
}

} // verus!
