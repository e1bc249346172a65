use lamboot_core::framebuffer::{Color, Framebuffer, Pixel, LOGO_WIDTH};
use lamboot_core::platform::Font;

const RED: Pixel = Pixel { blue: 0, green: 0, red: 0xff };

fn at(fb: &Framebuffer, x: usize, y: usize) -> Pixel {
    fb.pixels()[y * fb.width() + x]
}

fn bg() -> Pixel {
    Color::Background.pixel()
}

/// A small-font table whose glyph for `'A'` is a diagonal (row r sets
/// column r for the first 8 rows) and whose placeholder glyph 0xFE is a
/// full first row.
fn small_font() -> Vec<u8> {
    let mut t = vec![0u8; 256 * 16];
    for r in 0..8 {
        t[('A' as usize) * 16 + r] = 0x80 >> r;
    }
    t[0xFE * 16] = 0xFF;
    t
}

#[test]
fn palette_values() {
    assert_eq!(Color::Background.pixel(), Pixel { red: 0x1e, green: 0x1e, blue: 0x2e });
    assert_eq!(Color::Accent.pixel(), Pixel { red: 0x89, green: 0xb4, blue: 0xfa });
    assert_eq!(Color::Warning.pixel(), Pixel { red: 0xfa, green: 0xb3, blue: 0x87 });
}

#[test]
fn new_frame_is_background() {
    let fb = Framebuffer::new(4, 3);
    assert_eq!(fb.width(), 4);
    assert_eq!(fb.height(), 3);
    assert_eq!(fb.pixels().len(), 12);
    assert!(fb.pixels().iter().all(|p| *p == bg()));
}

#[test]
fn fill_rect_is_clipped() {
    let mut fb = Framebuffer::new(4, 4);
    fb.fill_rect(2, 1, 10, 2, RED);
    for y in 0..4 {
        for x in 0..4 {
            let inside = x >= 2 && (1..3).contains(&y);
            assert_eq!(at(&fb, x, y), if inside { RED } else { bg() }, "({x},{y})");
        }
    }
    fb.clear();
    assert!(fb.pixels().iter().all(|p| *p == bg()));
}

#[test]
fn fill_rect_off_frame_changes_nothing() {
    let mut fb = Framebuffer::new(3, 3);
    fb.fill_rect(5, 0, 2, 2, RED);
    fb.fill_rect(0, 3, 2, 2, RED);
    assert!(fb.pixels().iter().all(|p| *p == bg()));
}

#[test]
fn rect_border_outlines() {
    let mut fb = Framebuffer::new(6, 6);
    fb.draw_rect_border(1, 1, 4, 4, 1, RED);
    for y in 0..6 {
        for x in 0..6 {
            let in_box = (1..5).contains(&x) && (1..5).contains(&y);
            let edge = in_box && (x == 1 || x == 4 || y == 1 || y == 4);
            assert_eq!(at(&fb, x, y), if edge { RED } else { bg() }, "({x},{y})");
        }
    }
}

#[test]
fn rect_border_thicker_than_box_fills_it() {
    let mut fb = Framebuffer::new(4, 4);
    fb.draw_rect_border(0, 0, 2, 2, 3, RED);
    for y in 0..4 {
        for x in 0..4 {
            let painted = x < 3 && y < 3 && (x < 2 || y < 2);
            assert_eq!(at(&fb, x, y), if painted { RED } else { bg() }, "({x},{y})");
        }
    }
}

#[test]
fn draw_char_sets_glyph_bits() {
    let font = small_font();
    let mut fb = Framebuffer::new(10, 10);
    fb.draw_char('A', 1, 0, RED, Font::Small, &font);
    for y in 0..10 {
        for x in 0..10 {
            let set = y < 8 && x == y + 1;
            assert_eq!(at(&fb, x, y), if set { RED } else { bg() }, "({x},{y})");
        }
    }
}

#[test]
fn draw_char_clips_at_negative_origin() {
    let font = small_font();
    let mut fb = Framebuffer::new(10, 10);
    fb.draw_char('A', -2, -3, RED, Font::Small, &font);
    // Row r of the glyph lands on y = r - 3 at x = r - 2.
    for y in 0..10 {
        for x in 0..10 {
            let set = y + 3 < 8 && x + 2 == y + 3;
            assert_eq!(at(&fb, x, y), if set { RED } else { bg() }, "({x},{y})");
        }
    }
}

#[test]
fn draw_char_uses_placeholder_past_latin1() {
    let font = small_font();
    let mut fb = Framebuffer::new(10, 2);
    fb.draw_char('\u{263A}', 0, 0, RED, Font::Small, &font);
    for x in 0..10 {
        assert_eq!(at(&fb, x, 0), if x < 8 { RED } else { bg() });
        assert_eq!(at(&fb, x, 1), bg());
    }
}

#[test]
fn draw_text_advances_one_glyph_per_char() {
    let font = small_font();
    let mut fb = Framebuffer::new(20, 8);
    fb.draw_text("AA", 0, 0, RED, Font::Small, &font);
    for y in 0..8 {
        for x in 0..20 {
            let set = x == y || x == y + 8;
            assert_eq!(at(&fb, x, y), if set { RED } else { bg() }, "({x},{y})");
        }
    }
}

#[test]
fn draw_text_skips_chars_left_of_frame() {
    let font = small_font();
    let mut fb = Framebuffer::new(12, 8);
    fb.draw_text("AA", -8, 0, RED, Font::Small, &font);
    for y in 0..8 {
        for x in 0..12 {
            assert_eq!(at(&fb, x, y), if x == y { RED } else { bg() }, "({x},{y})");
        }
    }
}

fn logo(palette: &[[u8; 3]], runs: &[(u16, u8, u8)]) -> Vec<u8> {
    let mut d = b"LBCL".to_vec();
    d.extend_from_slice(&[0, 0, 0, 0]);
    d.extend_from_slice(&(palette.len() as u16).to_le_bytes());
    d.extend_from_slice(&(runs.len() as u32).to_le_bytes());
    for p in palette {
        d.extend_from_slice(p);
    }
    for (count, idx, alpha) in runs {
        d.extend_from_slice(&count.to_le_bytes());
        d.push(*idx);
        d.push(*alpha);
    }
    d
}

#[test]
fn logo_runs_fill_rows_of_128() {
    assert_eq!(LOGO_WIDTH, 128);
    // Palette entry bytes go to blue, green, red in that order.
    let data = logo(&[[1, 2, 3]], &[(126, 0, 0), (4, 0, 255)]);
    let mut fb = Framebuffer::new(200, 3);
    fb.draw_logo(&data, 10, 0);
    let painted = Pixel { red: 3, green: 2, blue: 1 };
    for y in 0..3 {
        for x in 0..200 {
            // Offsets 126..130: row 0 columns 126, 127, row 1 columns 0, 1.
            let set = (y == 0 && (136..138).contains(&x)) || (y == 1 && (10..12).contains(&x));
            assert_eq!(at(&fb, x, y), if set { painted } else { bg() }, "({x},{y})");
        }
    }
}

#[test]
fn logo_blends_partial_alpha() {
    let data = logo(&[[200, 100, 0]], &[(1, 0, 128)]);
    let mut fb = Framebuffer::new(2, 1);
    fb.fill_rect(0, 0, 2, 1, Pixel { red: 0, green: 0, blue: 0 });
    fb.draw_logo(&data, 0, 0);
    // (fg * 128 + bg * 127) / 255 with bg = 0.
    assert_eq!(at(&fb, 0, 0), Pixel { red: 0, green: 50, blue: 100 });
    assert_eq!(at(&fb, 1, 0), Pixel { red: 0, green: 0, blue: 0 });
}

#[test]
fn logo_clipped_at_frame_edge() {
    let data = logo(&[[9, 9, 9]], &[(4, 0, 255)]);
    let mut fb = Framebuffer::new(3, 1);
    fb.draw_logo(&data, 1, 0);
    let p = Pixel { red: 9, green: 9, blue: 9 };
    assert_eq!(at(&fb, 0, 0), bg());
    assert_eq!(at(&fb, 1, 0), p);
    assert_eq!(at(&fb, 2, 0), p);
}

#[test]
fn logo_with_bad_header_draws_nothing() {
    let mut data = logo(&[[9, 9, 9]], &[(4, 0, 255)]);
    data[0] = b'X';
    let mut fb = Framebuffer::new(4, 1);
    fb.draw_logo(&data, 0, 0);
    assert!(fb.pixels().iter().all(|p| *p == bg()));

    let mut short = logo(&[[9, 9, 9]], &[(4, 0, 255)]);
    short.pop();
    fb.draw_logo(&short, 0, 0);
    assert!(fb.pixels().iter().all(|p| *p == bg()));
}
