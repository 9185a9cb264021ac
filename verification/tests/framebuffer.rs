use dew_firmware::board::{FB_SIZE, H_RES, V_RES};
use dew_firmware::framebuffer::{isqrt, text_center, text_center_within, FrameBuf};
use dew_firmware::palette::{Rgb565, BG, RAIN, TEXT};
use dew_firmware::text::{Font, MASK_ROW, MASK_SIZE};

use embedded_graphics::draw_target::DrawTarget;
use embedded_graphics::geometry::{Dimensions, Point, Size};
use embedded_graphics::mono_font::iso_8859_1::{FONT_10X20, FONT_9X15};
use embedded_graphics::mono_font::{MonoFont, MonoTextStyle};
use embedded_graphics::pixelcolor::raw::{RawData, RawU16};
use embedded_graphics::primitives::Rectangle;
use embedded_graphics::text::{Alignment, Baseline, Text, TextStyleBuilder};
use embedded_graphics::{Drawable, Pixel};

const RED: Rgb565 = (31, 0, 0);
const BLUE: Rgb565 = (0, 0, 31);

fn blank() -> Vec<u8> {
    vec![0u8; FB_SIZE]
}

fn word_at(buf: &[u8], x: i32, y: i32) -> u16 {
    let i = (y as usize * H_RES + x as usize) * 2;
    u16::from(buf[i]) | (u16::from(buf[i + 1]) << 8)
}

/// Every pixel is `colour` where `inside` holds and black elsewhere.
fn expect(buf: &[u8], colour: u16, inside: impl Fn(i32, i32) -> bool) {
    for y in 0..V_RES as i32 {
        for x in 0..H_RES as i32 {
            let want = if inside(x, y) { colour } else { 0 };
            assert_eq!(word_at(buf, x, y), want, "at ({x}, {y})");
        }
    }
}

#[test]
fn pixel_is_a_little_endian_word() {
    let mut buf = blank();
    FrameBuf::new(&mut buf).pset(3, 4, RED);
    let i = (4 * 480 + 3) * 2;
    assert_eq!(buf[i], 0x00);
    assert_eq!(buf[i + 1], 0xF8);
    expect(&buf, 0xF800, |x, y| x == 3 && y == 4);
}

#[test]
fn channels_share_the_word() {
    let mut buf = blank();
    let mut fb = FrameBuf::new(&mut buf);
    fb.pset(0, 0, BG);
    fb.pset(1, 0, TEXT);
    fb.pset(2, 0, (1, 2, 3));
    // Of a value that is too large only the low bits count.
    fb.pset(3, 0, (33, 66, 35));
    assert_eq!(word_at(&buf, 0, 0), (1 << 11) | (4 << 5) | 8);
    assert_eq!(word_at(&buf, 1, 0), 0xFFFF);
    assert_eq!(word_at(&buf, 2, 0), 0x0843);
    assert_eq!(word_at(&buf, 3, 0), word_at(&buf, 2, 0));
}

#[test]
fn points_off_the_panel_are_dropped() {
    let mut buf = blank();
    let mut fb = FrameBuf::new(&mut buf);
    fb.pset(-1, 0, RED);
    fb.pset(0, -1, RED);
    fb.pset(480, 0, RED);
    fb.pset(0, 480, RED);
    fb.pset(i32::MIN, i32::MAX, RED);
    expect(&buf, 0xF800, |_, _| false);
}

#[test]
fn points_off_the_panel_need_no_buffer() {
    let mut buf = [7u8; 3];
    let mut fb = FrameBuf::new(&mut buf);
    for (x, y) in [(-1, 0), (0, -1), (480, 0), (0, 480), (i32::MIN, i32::MAX)] {
        fb.pset(x, y, RED);
    }
    assert_eq!(buf, [7u8; 3]);
    FrameBuf::new(&mut []).pset(480, 480, RED);
}

#[test]
fn corners_are_on_the_panel() {
    let mut buf = blank();
    let mut fb = FrameBuf::new(&mut buf);
    fb.pset(0, 0, RED);
    fb.pset(479, 0, RED);
    fb.pset(0, 479, RED);
    fb.pset(479, 479, RED);
    expect(&buf, 0xF800, |x, y| (x == 0 || x == 479) && (y == 0 || y == 479));
}

#[test]
fn bytes_beyond_the_panel_stay() {
    let mut buf = vec![7u8; FB_SIZE + 5];
    FrameBuf::new(&mut buf).fill_rect(0, 0, 479, 479, RED);
    for y in 0..480 {
        for x in 0..480 {
            assert_eq!(word_at(&buf, x, y), 0xF800);
        }
    }
    assert_eq!(&buf[FB_SIZE..], &[7, 7, 7, 7, 7]);
}

#[test]
fn bounding_box_is_the_panel() {
    let mut buf = blank();
    assert_eq!(FrameBuf::new(&mut buf).bounding_box(), (0, 0, 480, 480));
}

#[test]
fn spans_are_inclusive_and_clipped() {
    let mut buf = blank();
    let mut fb = FrameBuf::new(&mut buf);
    fb.hspan(5, 10, 12, BLUE);
    fb.hspan(6, i32::MIN, 2, BLUE);
    fb.hspan(7, 478, i32::MAX, BLUE);
    fb.hspan(8, 12, 10, BLUE);
    fb.hspan(-3, 0, 479, BLUE);
    fb.hspan(480, 0, 479, BLUE);
    expect(&buf, 0x001F, |x, y| {
        (y == 5 && (10..=12).contains(&x)) || (y == 6 && x <= 2) || (y == 7 && x >= 478)
    });
}

#[test]
fn lines_are_inclusive_and_clipped() {
    let mut buf = blank();
    let mut fb = FrameBuf::new(&mut buf);
    fb.vline(5, 10, 12, BLUE);
    fb.vline(6, i32::MIN, 2, BLUE);
    fb.vline(7, 478, i32::MAX, BLUE);
    fb.vline(8, 12, 10, BLUE);
    fb.vline(-3, 0, 479, BLUE);
    expect(&buf, 0x001F, |x, y| {
        (x == 5 && (10..=12).contains(&y)) || (x == 6 && y <= 2) || (x == 7 && y >= 478)
    });
}

#[test]
fn rectangles_are_inclusive_and_clipped() {
    let mut buf = blank();
    let mut fb = FrameBuf::new(&mut buf);
    fb.fill_rect(-10, -10, 3, 4, RED);
    fb.fill_rect(470, 475, 900, 900, RED);
    fb.fill_rect(100, 100, 99, 99, RED);
    fb.fill_rect(0, i32::MAX, 479, i32::MAX, RED);
    expect(&buf, 0xF800, |x, y| (x <= 3 && y <= 4) || (x >= 470 && y >= 475));
}

#[test]
fn disc_is_what_lies_within_its_radius() {
    for r in [0, 1, 5, 28, 50] {
        let mut buf = blank();
        FrameBuf::new(&mut buf).fill_disc(200, 210, r, RED);
        expect(&buf, 0xF800, |x, y| (x - 200).pow(2) + (y - 210).pow(2) <= r * r);
    }
}

#[test]
fn disc_is_clipped_at_the_panel() {
    let mut buf = blank();
    FrameBuf::new(&mut buf).fill_disc(-5, 478, 20, RED);
    expect(&buf, 0xF800, |x, y| (x + 5).pow(2) + (y - 478).pow(2) <= 400);
}

#[test]
fn negative_radius_draws_nothing() {
    let mut buf = blank();
    let mut fb = FrameBuf::new(&mut buf);
    fb.fill_disc(100, 100, -3, RED);
    fb.ring(100, 100, -3, RED);
    fb.arc_top(100, 100, -3, RED);
    expect(&buf, 0xF800, |_, _| false);
}

#[test]
fn largest_radius_fits_machine_arithmetic() {
    let mut buf = blank();
    FrameBuf::new(&mut buf).fill_disc(240, 240, 46340, RED);
    expect(&buf, 0xF800, |_, _| true);
}

fn on_outline(dx: i32, dy: i32, r: i32) -> bool {
    let inside = |a: i32, b: i32| a * a + b * b <= r * r;
    inside(dx, dy) && (!inside(dx.abs() + 1, dy) || !inside(dx, dy.abs() + 1))
}

#[test]
fn ring_is_the_outline_of_the_disc() {
    for r in [0, 1, 2, 11, 25] {
        let mut buf = blank();
        FrameBuf::new(&mut buf).ring(240, 230, r, BLUE);
        expect(&buf, 0x001F, |x, y| on_outline(x - 240, y - 230, r));
    }
}

#[test]
fn small_ring_pixel_by_pixel() {
    let mut buf = blank();
    FrameBuf::new(&mut buf).ring(10, 10, 2, BLUE);
    let rows = ["..#..", ".#.#.", "#...#", ".#.#.", "..#.."];
    expect(&buf, 0x001F, |x, y| {
        (8..=12).contains(&x)
            && (8..=12).contains(&y)
            && rows[(y - 8) as usize].as_bytes()[(x - 8) as usize] == b'#'
    });
}

#[test]
fn arc_is_the_upper_half_of_the_ring() {
    for r in [0, 1, 2, 11, 25] {
        let mut buf = blank();
        FrameBuf::new(&mut buf).arc_top(240, 230, r, BLUE);
        expect(&buf, 0x001F, |x, y| y <= 230 && on_outline(x - 240, y - 230, r));
    }
}

#[test]
fn arc_has_no_gap() {
    let r = 25;
    let mut buf = blank();
    FrameBuf::new(&mut buf).arc_top(240, 230, r, BLUE);
    let set = |dx: i32, dy: i32| word_at(&buf, 240 + dx, 230 - dy) != 0;
    for dx in 0..=r {
        for dy in 1..=r {
            if set(dx, dy) {
                assert!(set(dx, dy - 1) || set(dx + 1, dy - 1) || set(dx + 1, dy));
                assert!(set(-dx, dy));
            }
        }
    }
    assert!(set(0, r) && set(r, 0) && set(-r, 0));
}

#[test]
fn root_is_exact() {
    let mut root = 0;
    for n in 0..200_000 {
        if (root + 1) * (root + 1) <= n {
            root += 1;
        }
        assert_eq!(isqrt(n), root);
    }
    assert_eq!(isqrt(i32::MAX), 46340);
    assert_eq!(isqrt(i32::MAX - 1), 46340);
    assert_eq!(isqrt(46340 * 46340), 46340);
    assert_eq!(isqrt(46340 * 46340 - 1), 46339);
}

#[test]
fn root_of_what_is_not_positive_is_zero() {
    assert_eq!(isqrt(0), 0);
    assert_eq!(isqrt(-1), 0);
    assert_eq!(isqrt(i32::MIN), 0);
}

#[test]
fn last_pixel_of_a_list_stays() {
    let mut buf = blank();
    FrameBuf::new(&mut buf).draw_iter(&[
        (1, 1, RED),
        (2, 1, RED),
        (-1, 1, RED),
        (480, 480, RED),
        (1, 1, BLUE),
    ]);
    assert_eq!(word_at(&buf, 1, 1), 0x001F);
    assert_eq!(word_at(&buf, 2, 1), 0xF800);
    assert_eq!(buf.iter().filter(|b| **b != 0).count(), 2);
}

#[test]
fn mask_bits_are_msb_first() {
    let mut mask = vec![0u8; MASK_SIZE];
    mask[0] = 0b1000_0001;
    mask[2 * MASK_ROW + 1] = 0b0100_0000;
    mask[MASK_SIZE - 1] = 1;
    let mut buf = blank();
    FrameBuf::new(&mut buf).draw_mask(&mask, RED);
    expect(&buf, 0xF800, |x, y| {
        (x, y) == (0, 0) || (x, y) == (7, 0) || (x, y) == (9, 2) || (x, y) == (479, 479)
    });
}

/// A plain draw target over a byte buffer.
struct Target(Vec<u8>);

impl Dimensions for Target {
    fn bounding_box(&self) -> Rectangle {
        Rectangle::new(Point::zero(), Size::new(480, 480))
    }
}

impl DrawTarget for Target {
    type Color = embedded_graphics::pixelcolor::Rgb565;
    type Error = core::convert::Infallible;

    fn draw_iter<I>(&mut self, pixels: I) -> Result<(), Self::Error>
    where
        I: IntoIterator<Item = Pixel<Self::Color>>,
    {
        for Pixel(p, c) in pixels {
            if (0..480).contains(&p.x) && (0..480).contains(&p.y) {
                let raw = RawU16::from(c).into_inner();
                let i = (p.y as usize * 480 + p.x as usize) * 2;
                self.0[i] = (raw & 0xFF) as u8;
                self.0[i + 1] = (raw >> 8) as u8;
            }
        }
        Ok(())
    }
}

fn drawn_directly(s: &str, x: i32, y: i32, font: &MonoFont<'_>, colour: Rgb565) -> Vec<u8> {
    let colour = embedded_graphics::pixelcolor::Rgb565::new(colour.0, colour.1, colour.2);
    let style =
        TextStyleBuilder::new().alignment(Alignment::Center).baseline(Baseline::Middle).build();
    let mut target = Target(blank());
    Text::with_text_style(s, Point::new(x, y), MonoTextStyle::new(font, colour), style)
        .draw(&mut target)
        .unwrap();
    target.0
}

fn drawn(s: &str, x: i32, y: i32, font: Font, colour: Rgb565) -> Vec<u8> {
    let mut buf = blank();
    text_center(&mut FrameBuf::new(&mut buf), s, x, y, font, colour);
    buf
}

#[test]
fn text_is_what_embedded_graphics_draws() {
    let cases = [
        ("dew", 240, 46),
        ("WATERING", 240, 438),
        ("100%", 150, 258),
        ("-12\u{b0}C", 330, 258),
        ("", 10, 10),
        ("two\nlines", 100, 100),
        ("edge", 0, 0),
        ("edge", 479, 479),
        ("off", -200, 900),
        ("\u{4e2d}?", 60, 60),
    ];
    for (s, x, y) in cases {
        for colour in [TEXT, RAIN] {
            let big = drawn(s, x, y, Font::Font10x20, colour);
            assert!(big == drawn_directly(s, x, y, &FONT_10X20, colour), "{s}");
            let small = drawn(s, x, y, Font::Font9x15, colour);
            assert!(small == drawn_directly(s, x, y, &FONT_9X15, colour), "{s}");
        }
    }
}

#[test]
fn text_lights_pixels() {
    let buf = drawn("dew", 240, 46, Font::Font10x20, TEXT);
    assert!(buf.iter().any(|b| *b != 0));
}

#[test]
fn text_stays_in_its_cells() {
    for (font, w, h) in [(Font::Font10x20, 10, 20), (Font::Font9x15, 9, 15)] {
        for s in ["I", "W#@J", "HUMIDITY", "~_|^\u{c5}\u{ff}"] {
            let n = s.chars().count() as i32;
            let left = 240 - (w * n - 1) / 2;
            let top = 240 - (h - 1) / 2;
            let buf = drawn(s, 240, 240, font, TEXT);
            for y in 0..480 {
                for x in 0..480 {
                    if word_at(&buf, x, y) != 0 {
                        assert!(left <= x && x < left + w * n, "{s}: column {x}");
                        assert!(top <= y && y < top + h, "{s}: row {y}");
                    }
                }
            }
        }
    }
}

#[test]
fn text_near_the_coordinate_limits_is_dropped() {
    for (x, y) in [(i32::MAX - 5, 100), (i32::MIN + 4, 100), (100, i32::MAX - 20)] {
        assert!(drawn("A", x, y, Font::Font10x20, TEXT) == blank());
    }
    assert!(drawn("A", 100, i32::MIN + 9, Font::Font10x20, TEXT) == blank());
    assert!(drawn("", i32::MAX, 100, Font::Font10x20, TEXT) == blank());
}

#[test]
fn text_is_cut_at_a_rectangle() {
    let area = (236, 40, 243, 50);
    let whole = drawn("dew", 240, 46, Font::Font10x20, TEXT);
    let mut buf = blank();
    text_center_within(
        &mut FrameBuf::new(&mut buf),
        "dew",
        240,
        46,
        Font::Font10x20,
        TEXT,
        area,
    );
    let mut lit = 0;
    for y in 0..480 {
        for x in 0..480 {
            let inside = area.0 <= x && x <= area.2 && area.1 <= y && y <= area.3;
            let want = if inside { word_at(&whole, x, y) } else { 0 };
            assert_eq!(word_at(&buf, x, y), want);
            lit += usize::from(want != 0);
        }
    }
    assert!(lit > 0);
}

#[test]
fn text_leaves_its_background_alone() {
    let mut buf = blank();
    let mut fb = FrameBuf::new(&mut buf);
    fb.fill_rect(0, 0, 479, 479, BLUE);
    text_center(&mut fb, "A", 100, 100, Font::Font9x15, RED);
    let mut lit = 0;
    for y in 0..480 {
        for x in 0..480 {
            let w = word_at(&buf, x, y);
            assert!(w == 0x001F || w == 0xF800);
            if w == 0xF800 {
                lit += 1;
            }
        }
    }
    assert!(0 < lit && lit < 9 * 15);
}
