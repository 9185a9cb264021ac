use dew_firmware::board::{FB_SIZE, H_RES};
use dew_firmware::dashboard::{paint_all, repaint, Dashboard};
use dew_firmware::framebuffer::{text_center, FrameBuf};
use dew_firmware::palette::{
    Rgb565, BG, CLOUD_OFF, CLOUD_ON, DROP_LINE, MERCURY, RAIN, TEXT, TEXT_DIM, THERMO_EMPTY,
    THERMO_LINE, WATER, WATER_EMPTY,
};
use dew_firmware::telemetry::telemetry;
use dew_firmware::text::Font;
use dew_firmware::widgets::{
    draw_humidity, draw_static, draw_temperature, draw_watering, CLOUD_BOX, DROP_BOX, THERMO_BOX,
};

type Area = (i32, i32, i32, i32);

fn word(c: Rgb565) -> u16 {
    (u16::from(c.0) << 11) | (u16::from(c.1) << 5) | u16::from(c.2)
}

fn word_at(buf: &[u8], x: i32, y: i32) -> u16 {
    let i = (y as usize * H_RES + x as usize) * 2;
    u16::from(buf[i]) | (u16::from(buf[i + 1]) << 8)
}

fn inside(b: Area, x: i32, y: i32) -> bool {
    b.0 <= x && x <= b.2 && b.1 <= y && y <= b.3
}

/// A buffer that no colour of the palette looks like.
fn noise() -> Vec<u8> {
    vec![0x5A; FB_SIZE]
}

fn count(buf: &[u8], colour: Rgb565) -> usize {
    let mut n = 0;
    for y in 0..480 {
        for x in 0..480 {
            if word_at(buf, x, y) == word(colour) {
                n += 1;
            }
        }
    }
    n
}

/// Outside the area nothing changed; inside it everything did.
fn expect_exactly(buf: &[u8], area: Area) {
    for y in 0..480 {
        for x in 0..480 {
            assert_eq!(word_at(buf, x, y) != 0x5A5A, inside(area, x, y), "at ({x}, {y})");
        }
    }
}

fn text_over(buf: &mut Vec<u8>, s: &str, x: i32, y: i32, colour: Rgb565) {
    text_center(&mut FrameBuf::new(buf), s, x, y, Font::Font10x20, colour);
}

fn humidity(rh: u8) -> Vec<u8> {
    let mut buf = noise();
    draw_humidity(&mut FrameBuf::new(&mut buf), rh);
    buf
}

fn temperature(temp: i16) -> Vec<u8> {
    let mut buf = noise();
    draw_temperature(&mut FrameBuf::new(&mut buf), temp);
    buf
}

fn watering(on: bool) -> Vec<u8> {
    let mut buf = noise();
    draw_watering(&mut FrameBuf::new(&mut buf), on);
    buf
}

fn put(buf: &mut [u8], x: i32, y: i32, colour: Rgb565) {
    let i = (y as usize * H_RES + x as usize) * 2;
    buf[i] = (word(colour) & 0xFF) as u8;
    buf[i + 1] = (word(colour) >> 8) as u8;
}

fn root(n: i32) -> i32 {
    let mut r = 0;
    while (r + 1) * (r + 1) <= n {
        r += 1;
    }
    r
}

#[test]
fn humidity_keeps_to_its_rectangle() {
    for rh in [0, 1, 9, 25, 50, 99, 100, 255] {
        expect_exactly(&humidity(rh), DROP_BOX);
    }
}

#[test]
fn humidity_pixel_by_pixel() {
    for rh in [0u8, 37, 100] {
        let mut want = noise();
        for y in 90..=274 {
            for x in 88..=212 {
                put(&mut want, x, y, BG);
            }
        }
        let level = 230 - i32::from(rh) * 134 / 100;
        for y in 96..=230 {
            let half = if y >= 180 {
                root(2500 - (y - 180) * (y - 180))
            } else {
                50 * (y - 96) / 84
            };
            for x in 150 - half..=150 + half {
                put(&mut want, x, y, if y >= level { WATER } else { WATER_EMPTY });
            }
            put(&mut want, 150 - half, y, DROP_LINE);
            put(&mut want, 150 + half, y, DROP_LINE);
        }
        text_over(&mut want, &format!("{rh}%"), 150, 258, TEXT);
        assert!(humidity(rh) == want, "{rh}");
    }
}

#[test]
fn drop_fills_from_the_bottom() {
    assert_eq!(count(&humidity(0), WATER), 0);
    assert_eq!(count(&humidity(100), WATER_EMPTY), 0);
    let mut last = 0;
    for rh in 0..=100 {
        let now = count(&humidity(rh), WATER);
        assert!(last <= now);
        last = now;
    }
    assert!(last > 0);
}

#[test]
fn drop_turns_from_empty_to_water() {
    for (less, more) in [(0u8, 1), (10, 60), (60, 100), (0, 100)] {
        let (a, b) = (humidity(less), humidity(more));
        let mut turned = 0;
        for y in 90..249 {
            for x in 88..=212 {
                let (p, q) = (word_at(&a, x, y), word_at(&b, x, y));
                if p != q {
                    assert_eq!((p, q), (word(WATER_EMPTY), word(WATER)));
                    turned += 1;
                }
            }
        }
        assert!(turned > 0, "{less} to {more}");
    }
}

#[test]
fn overfull_drop_is_a_full_one_with_another_label() {
    let (full, over) = (humidity(100), humidity(200));
    for y in 90..249 {
        for x in 88..=212 {
            assert_eq!(word_at(&full, x, y), word_at(&over, x, y));
        }
    }
    assert!(full != over);
}

#[test]
fn temperature_keeps_to_its_rectangle() {
    for temp in [
        i16::MIN, -10000, -9999, -999, -40, 0, 5, 20, 35, 40, 100, 9999, 10000, i16::MAX,
    ] {
        expect_exactly(&temperature(temp), THERMO_BOX);
    }
}

#[test]
fn wide_value_is_cut_at_the_rectangle() {
    for temp in [-10000, i16::MIN] {
        let mut whole = temperature(0);
        FrameBuf::new(&mut whole).fill_rect(296, 249, 364, 268, BG);
        text_over(&mut whole, &format!("{temp}\u{b0}C"), 330, 258, TEXT);
        let buf = temperature(temp);
        let mut cut = 0;
        for y in 249..=268 {
            for x in 0..480 {
                if inside(THERMO_BOX, x, y) {
                    assert_eq!(word_at(&buf, x, y), word_at(&whole, x, y));
                } else {
                    assert_eq!(word_at(&buf, x, y), 0x5A5A);
                    cut += usize::from(word_at(&whole, x, y) == word(TEXT));
                }
            }
        }
        assert!(cut > 0);
    }
}

#[test]
fn value_of_seven_characters_is_whole() {
    for temp in [-9999, -1000, 10000, i16::MAX] {
        let mut want = temperature(temp);
        text_over(&mut want, &format!("{temp}\u{b0}C"), 330, 258, TEXT);
        assert!(temperature(temp) == want, "{temp}");
    }
}

#[test]
fn repaint_clears_a_wide_value() {
    let mut buf = full((50, i16::MIN, false));
    repaint(&mut FrameBuf::new(&mut buf), (50, i16::MIN, false), (50, 20, false));
    assert!(buf == full((50, 20, false)));
}

#[test]
fn temperature_pixel_by_pixel() {
    for temp in [-5i16, 0, 17, 40, 41] {
        let fill = i32::from(temp).max(0).min(40) * 100 / 40;
        let level = 220 - fill * 104 / 100;
        let neck = 220 - root(625 - 121);
        let disc = |dx: i32, dy: i32, r: i32| dx * dx + dy * dy <= r * r;
        let outline = |dx: i32, dy: i32, r: i32| {
            disc(dx, dy, r) && (!disc(dx.abs() + 1, dy, r) || !disc(dx, dy.abs() + 1, r))
        };
        let mut want = noise();
        for y in 100..=274 {
            for x in 296..=364 {
                let dx: i32 = x - 330;
                let tube = |from: i32| dx.abs() <= 11 && from <= y && y <= 220;
                let cap = disc(dx, y - 116, 11);
                let colour = if (dx.abs() == 11 && 116 <= y && y <= neck)
                    || outline(dx, y - 220, 25)
                    || (y <= 116 && outline(dx, y - 116, 11))
                {
                    THERMO_LINE
                } else if disc(dx, y - 220, 25) || tube(level) || (level <= 116 && cap) {
                    MERCURY
                } else if tube(116) || cap {
                    THERMO_EMPTY
                } else {
                    BG
                };
                put(&mut want, x, y, colour);
            }
        }
        text_over(&mut want, &format!("{temp}\u{b0}C"), 330, 258, TEXT);
        assert!(temperature(temp) == want, "{temp}");
    }
}

#[test]
fn mercury_rises_and_saturates() {
    let mut last = 0;
    for temp in -10..=50 {
        let now = count(&temperature(temp), MERCURY);
        assert!(last <= now, "{temp}");
        last = now;
    }
    assert_eq!(count(&temperature(-10), MERCURY), count(&temperature(0), MERCURY));
    assert_eq!(count(&temperature(40), MERCURY), count(&temperature(50), MERCURY));
    assert_eq!(count(&temperature(40), THERMO_EMPTY), 0);
    // The bulb is full at every temperature.
    assert_eq!(word_at(&temperature(-10), 330, 220), word(MERCURY));
    assert_eq!(word_at(&temperature(-10), 330, 240), word(MERCURY));
}

#[test]
fn tube_turns_from_empty_to_mercury() {
    for (colder, warmer) in [(0, 10), (10, 39), (39, 40), (0, 40)] {
        let (a, b) = (temperature(colder), temperature(warmer));
        let mut turned = 0;
        for y in 100..249 {
            for x in 296..=364 {
                let (p, q) = (word_at(&a, x, y), word_at(&b, x, y));
                if p != q {
                    assert_eq!((p, q), (word(THERMO_EMPTY), word(MERCURY)));
                    turned += 1;
                }
            }
        }
        assert!(turned > 0, "{colder} to {warmer}");
    }
}

#[test]
fn dome_fills_last() {
    assert_eq!(word_at(&temperature(39), 330, 110), word(THERMO_EMPTY));
    assert_eq!(word_at(&temperature(40), 330, 110), word(MERCURY));
}

#[test]
fn watering_keeps_to_its_rectangle() {
    expect_exactly(&watering(true), CLOUD_BOX);
    expect_exactly(&watering(false), CLOUD_BOX);
}

#[test]
fn watering_pixel_by_pixel() {
    for on in [false, true] {
        let body = if on { CLOUD_ON } else { CLOUD_OFF };
        let disc = |dx: i32, dy: i32, r: i32| dx * dx + dy * dy <= r * r;
        let mut want = noise();
        for y in 300..=454 {
            for x in 166..=314 {
                let rain = (0..5).any(|i| inside((196 + 22 * i, 392, 199 + 22 * i, 412), x, y));
                let cloud = disc(x - 202, y - 360, 28)
                    || disc(x - 280, y - 360, 30)
                    || disc(x - 234, y - 338, 38)
                    || disc(x - 262, y - 350, 28)
                    || inside((184, 360, 302, 380), x, y);
                let colour = if on && rain {
                    RAIN
                } else if cloud {
                    body
                } else {
                    BG
                };
                put(&mut want, x, y, colour);
            }
        }
        text_over(&mut want, if on { "WATERING" } else { "IDLE" }, 240, 438, body);
        assert!(watering(on) == want, "{on}");
    }
}

#[test]
fn it_rains_only_when_watering() {
    assert_eq!(count(&watering(true), RAIN), 5 * 4 * 21);
    assert_eq!(count(&watering(false), RAIN), 0);
    assert_eq!(count(&watering(false), CLOUD_ON), 0);
}

#[test]
fn static_parts_cover_the_panel() {
    let mut buf = noise();
    draw_static(&mut FrameBuf::new(&mut buf));
    assert_eq!(count(&buf, BG) + count(&buf, TEXT_DIM), 480 * 480);
    let mut want = vec![0u8; FB_SIZE];
    let mut fb = FrameBuf::new(&mut want);
    fb.fill_rect(0, 0, 479, 479, BG);
    text_center(&mut fb, "dew", 240, 46, Font::Font10x20, TEXT_DIM);
    text_center(&mut fb, "HUMIDITY", 150, 284, Font::Font9x15, TEXT_DIM);
    text_center(&mut fb, "TEMP", 330, 284, Font::Font9x15, TEXT_DIM);
    assert!(buf == want);
}

#[test]
fn labels_stand_clear_of_the_widgets() {
    let mut buf = noise();
    draw_static(&mut FrameBuf::new(&mut buf));
    for y in 0..480 {
        for x in 0..480 {
            if inside(DROP_BOX, x, y) || inside(THERMO_BOX, x, y) || inside(CLOUD_BOX, x, y) {
                assert_eq!(word_at(&buf, x, y), word(BG));
            }
        }
    }
}

fn full(reading: (u8, i16, bool)) -> Vec<u8> {
    let mut buf = noise();
    paint_all(&mut FrameBuf::new(&mut buf), reading);
    buf
}

#[test]
fn full_paint_forgets_what_was_there() {
    let mut zeros = vec![0u8; FB_SIZE];
    paint_all(&mut FrameBuf::new(&mut zeros), (42, 21, false));
    assert!(zeros == full((42, 21, false)));
}

#[test]
fn full_paint_is_its_parts() {
    let mut want = noise();
    let mut fb = FrameBuf::new(&mut want);
    draw_static(&mut fb);
    draw_humidity(&mut fb, 42);
    draw_temperature(&mut fb, 21);
    draw_watering(&mut fb, true);
    assert!(want == full((42, 21, true)));
}

#[test]
fn repaint_is_a_full_paint() {
    let readings = [(0, 5, true), (0, 6, true), (25, 6, false), (100, 35, false), (100, 35, true)];
    for shown in readings {
        for reading in readings {
            let mut buf = full(shown);
            repaint(&mut FrameBuf::new(&mut buf), shown, reading);
            assert!(buf == full(reading), "{shown:?} to {reading:?}");
        }
    }
}

#[test]
fn repaint_of_the_same_reading_touches_nothing() {
    let mut buf = noise();
    repaint(&mut FrameBuf::new(&mut buf), (7, 8, true), (7, 8, true));
    assert!(buf == noise());
}

#[test]
fn repaint_touches_only_what_changed() {
    let mut buf = noise();
    repaint(&mut FrameBuf::new(&mut buf), (7, 8, true), (7, 9, true));
    expect_exactly(&buf, THERMO_BOX);
}

#[test]
fn loop_shows_every_frame() {
    let mut buf = noise();
    let mut dashboard = Dashboard::start(&mut FrameBuf::new(&mut buf));
    assert!(buf == full(telemetry(0)));
    for frame in 1..40 {
        dashboard.tick(&mut FrameBuf::new(&mut buf));
        assert!(buf == full(telemetry(frame)), "frame {frame}");
    }
}
