//! Plant-care dashboard widgets: a humidity water-drop, a temperature
//! thermometer, and a watering raincloud, over a static labelled background.
//!
//! Each widget clears its own dirty rectangle and repaints, so only the region
//! that actually changed is written to the framebuffer per frame. This keeps the
//! per-frame PSRAM write traffic small enough that the display DMA never
//! underruns (which would shear the image).

use vstd::prelude::*;

use crate::board::{FB_SIZE, H_RES, V_RES};
use crate::canvas;
use crate::framebuffer;
use crate::framebuffer::{isqrt, text_center, text_center_within, FrameBuf};
use crate::geometry;
use crate::palette;
use crate::palette::{
    Rgb565, BG, CLOUD_OFF, CLOUD_ON, DROP_LINE, MERCURY, RAIN, TEXT, TEXT_DIM, THERMO_EMPTY,
    THERMO_LINE, WATER, WATER_EMPTY,
};
use crate::text;
use crate::text::Font;

verus! {

// Widget layout. Each gauge has a fixed centre and a "dirty rectangle" that
// bounds everything it draws (shape + value text). Only these rectangles are
// repainted per frame.
pub const DROP_CX: i32 = 150;

pub const DROP_BOX: (i32, i32, i32, i32) = (88, 90, 212, 274);

pub const THERMO_CX: i32 = 330;

pub const THERMO_BOX: (i32, i32, i32, i32) = (296, 100, 364, 274);

pub const CLOUD_CX: i32 = 240;

pub const CLOUD_CY: i32 = 360;

pub const CLOUD_BOX: (i32, i32, i32, i32) = (166, 300, 314, 454);

/// The value moved into a range.
pub open spec fn clamped(v: int, lo: int, hi: int) -> int {
    if v < lo {
        lo
    } else if v > hi {
        hi
    } else {
        v
    }
}

fn clamp(v: i32, lo: i32, hi: i32) -> (c: i32)
    ensures
        c == clamped(v as int, lo as int, hi as int),
{
    if v < lo {
        lo
    } else if v > hi {
        hi
    } else {
        v
    }
}

// ---------------------------------------------------------------------------
// The drop
// ---------------------------------------------------------------------------

/// A teardrop: a circle of radius `r` for its rounded bottom, tapering linearly
/// to a point `taper_h` pixels above the centre.
pub open spec fn in_drop(cx: int, cy: int, r: int, taper_h: int, x: int, y: int) -> bool {
    &&& cy - taper_h <= y <= cy + r
    &&& if y >= cy {
        geometry::in_disc(x - cx, y - cy, r)
    } else {
        geometry::dist(x - cx) <= r * (y - (cy - taper_h)) / taper_h
    }
}

/// The outer pixels of each row of the drop.
pub open spec fn on_drop_edge(cx: int, cy: int, r: int, taper_h: int, x: int, y: int) -> bool {
    &&& in_drop(cx, cy, r, taper_h, x, y)
    &&& !in_drop(cx, cy, r, taper_h, cx + geometry::dist(x - cx) + 1, y)
}

/// The first row of the drop that is under water.
pub open spec fn water_row(cy: int, r: int, taper_h: int, fill_pct: int) -> int {
    cy + r - clamped(fill_pct, 0, 100) * (taper_h + r) / 100
}

/// The drop: its edge, and inside it water below the fill level.
pub open spec fn drop_layer(
    cx: int,
    cy: int,
    r: int,
    taper_h: int,
    fill_pct: int,
) -> canvas::Layer {
    |x: int, y: int|
        if on_drop_edge(cx, cy, r, taper_h, x, y) {
            Some(palette::word(DROP_LINE))
        } else if in_drop(cx, cy, r, taper_h, x, y) {
            if y >= water_row(cy, r, taper_h, fill_pct) {
                Some(palette::word(WATER))
            } else {
                Some(palette::word(WATER_EMPTY))
            }
        } else {
            None
        }
}

/// A teardrop that fills from the bottom to `fill_pct` (0..100).
///
/// The shape is a circle of radius `r` centred at `(cx, cy)` for its rounded
/// bottom, tapering linearly to a point `taper_h` pixels above the centre.
fn draw_drop(fb: &mut FrameBuf, cx: i32, cy: i32, r: i32, taper_h: i32, fill_pct: i32)
    requires
        old(fb).wf(),
        0 <= taper_h,
        0 <= r,
        framebuffer::disc_fits(cx as int, cy as int, r as int),
        i32::MIN <= cy - taper_h,
        r * taper_h <= i32::MAX,
        100 * (taper_h + r) <= i32::MAX,
    ensures
        canvas::painted(
            old(fb)@,
            final(fb)@,
            drop_layer(cx as int, cy as int, r as int, taper_h as int, fill_pct as int),
        ),
        final(final(fb).buf)@ == final(old(fb).buf)@,
{
    let top: i32 = cy - taper_h;
    let bottom: i32 = cy + r;
    let total: i32 = taper_h + r;
    let fill: i32 = clamp(fill_pct, 0, 100);
    proof {
        assert(0 <= fill * total <= 100 * total) by (nonlinear_arith)
            requires
                0 <= fill <= 100,
                0 <= total,
        ;
    }
    let y_fill: i32 = bottom - (fill * total) / 100;
    let ghost layer = drop_layer(cx as int, cy as int, r as int, taper_h as int, fill_pct as int);

    let mut row: i64 = top as i64;
    while row <= bottom as i64
        invariant
            fb.wf(),
            0 <= taper_h,
            0 <= r,
            framebuffer::disc_fits(cx as int, cy as int, r as int),
            r * taper_h <= i32::MAX,
            top == cy - taper_h,
            bottom == cy + r,
            y_fill == water_row(cy as int, r as int, taper_h as int, fill_pct as int),
            top <= row <= bottom + 1,
            layer == drop_layer(cx as int, cy as int, r as int, taper_h as int, fill_pct as int),
            canvas::painted(old(fb)@, fb@, canvas::rows_before(layer, row as int)),
            final(fb.buf)@ == final(old(fb).buf)@,
        decreases bottom + 1 - row,
    {
        let y: i32 = row as i32;
        let dy: i32 = y - cy;
        proof {
            if dy >= 0 {
                geometry::lemma_disc_row_range(dy as int, r as int);
                geometry::law_floor_sqrt_is_root(r * r - dy * dy);
                geometry::lemma_disc_row(
                    0,
                    dy as int,
                    r as int,
                    geometry::floor_sqrt(r * r - dy * dy),
                );
            } else {
                lemma_taper(r as int, taper_h as int, y - top);
            }
        }
        let half: i32 = if dy >= 0 {
            isqrt(r * r - dy * dy)  // rounded bottom
        } else {
            r * (y - top) / taper_h  // linear taper to the point
        };
        let colour: Rgb565 = if y >= y_fill {
            WATER
        } else {
            WATER_EMPTY
        };
        let ghost before = fb@;
        fb.hspan(y, cx - half, cx + half, colour);
        let ghost filled = fb@;
        fb.pset(cx - half, y, DROP_LINE);
        let ghost left_done = fb@;
        fb.pset(cx + half, y, DROP_LINE);
        proof {
            assert forall|x: int| #[trigger]
                in_drop(cx as int, cy as int, r as int, taper_h as int, x, y as int) <==> cx - half
                    <= x <= cx + half by {
                if dy >= 0 {
                    geometry::lemma_disc_row(x - cx, dy as int, r as int, half as int);
                }
            }
            let fill = framebuffer::rect(cx - half, y as int, cx + half, y as int, colour);
            let left = framebuffer::dot(cx - half, y as int, DROP_LINE);
            let right = framebuffer::dot(cx + half, y as int, DROP_LINE);
            canvas::law_paint_twice(before, filled, left_done, fill, left);
            canvas::law_paint_twice(before, left_done, fb@, canvas::over(left, fill), right);
            canvas::lemma_add_layer(
                old(fb)@,
                before,
                fb@,
                canvas::rows_before(layer, row as int),
                canvas::over(right, canvas::over(left, fill)),
                canvas::rows_before(layer, row + 1),
            );
        }
        row += 1;
    }
}

/// A row of the taper is narrower than the drop's circle.
proof fn lemma_taper(r: int, taper_h: int, k: int)
    requires
        0 <= r,
        0 <= k < taper_h,
    ensures
        0 <= r * k <= r * taper_h,
        0 <= r * k / taper_h <= r,
{
    assert(0 <= r * k <= r * taper_h) by (nonlinear_arith)
        requires
            0 <= r,
            0 <= k < taper_h,
    ;
    assert(0 <= r * k / taper_h <= r) by (nonlinear_arith)
        requires
            0 <= r * k <= r * taper_h,
            0 < taper_h,
    ;
}

// ---------------------------------------------------------------------------
// The thermometer
// ---------------------------------------------------------------------------

/// The bulb, a disc of radius `bulb_r`; the tube of half-width `tube_half` rising
/// to `tube_top`; and the tube's rounded cap.
pub struct Thermo {
    pub cx: int,
    pub bulb_y: int,
    pub bulb_r: int,
    pub tube_half: int,
    pub tube_top: int,
}

impl Thermo {
    pub open spec fn in_bulb(self, x: int, y: int) -> bool {
        geometry::in_disc(x - self.cx, y - self.bulb_y, self.bulb_r)
    }

    pub open spec fn in_cap(self, x: int, y: int) -> bool {
        geometry::in_disc(x - self.cx, y - self.tube_top, self.tube_half)
    }

    /// The tube between `row` and the centre of the bulb.
    pub open spec fn in_tube_below(self, row: int, x: int, y: int) -> bool {
        geometry::dist(x - self.cx) <= self.tube_half && row <= y <= self.bulb_y
    }

    /// Where the tube's walls meet the bulb's edge.
    pub open spec fn neck_row(self) -> int {
        self.bulb_y - geometry::floor_sqrt(
            self.bulb_r * self.bulb_r - self.tube_half * self.tube_half,
        )
    }

    /// The walls down to the neck, the bulb's outline and the dome over the tube.
    pub open spec fn on_outline(self, x: int, y: int) -> bool {
        ||| geometry::dist(x - self.cx) == self.tube_half && self.tube_top <= y <= self.neck_row()
        ||| geometry::on_circle(x - self.cx, y - self.bulb_y, self.bulb_r)
        ||| y <= self.tube_top && geometry::on_circle(
            x - self.cx,
            y - self.tube_top,
            self.tube_half,
        )
    }

    /// The top row of the mercury column.
    pub open spec fn mercury_row(self, fill_pct: int) -> int {
        self.bulb_y - clamped(fill_pct, 0, 100) * (self.bulb_y - self.tube_top) / 100
    }

    /// The full bulb, the column, and the cap once the column has reached it.
    pub open spec fn in_mercury(self, fill_pct: int, x: int, y: int) -> bool {
        ||| self.in_bulb(x, y)
        ||| self.in_tube_below(self.mercury_row(fill_pct), x, y)
        ||| self.mercury_row(fill_pct) <= self.tube_top && self.in_cap(x, y)
    }

    /// The thermometer: its outline, the mercury, and the empty tube.
    pub open spec fn layer(self, fill_pct: int) -> canvas::Layer {
        |x: int, y: int|
            if self.on_outline(x, y) {
                Some(palette::word(THERMO_LINE))
            } else if self.in_mercury(fill_pct, x, y) {
                Some(palette::word(MERCURY))
            } else if self.in_tube_below(self.tube_top, x, y) || self.in_cap(x, y) {
                Some(palette::word(THERMO_EMPTY))
            } else {
                None
            }
    }
}

/// A thermometer whose mercury column fills to `fill_pct` (0..100). Bulb of
/// radius `bulb_r` at `(cx, bulb_y)`; tube of half-width `tube_half` rising to
/// `tube_top`.
fn draw_thermo(
    fb: &mut FrameBuf,
    cx: i32,
    bulb_y: i32,
    bulb_r: i32,
    tube_half: i32,
    tube_top: i32,
    fill_pct: i32,
)
    requires
        old(fb).wf(),
        0 <= bulb_r,
        0 <= tube_half,
        framebuffer::disc_fits(cx as int, bulb_y as int, bulb_r as int),
        framebuffer::disc_fits(cx as int, tube_top as int, tube_half as int),
        tube_top <= bulb_y,
        100 * (bulb_y - tube_top) <= i32::MAX,
    ensures
        canvas::painted(
            old(fb)@,
            final(fb)@,
            (Thermo {
                cx: cx as int,
                bulb_y: bulb_y as int,
                bulb_r: bulb_r as int,
                tube_half: tube_half as int,
                tube_top: tube_top as int,
            }).layer(fill_pct as int),
        ),
        final(final(fb).buf)@ == final(old(fb).buf)@,
{
    let ghost shape = Thermo {
        cx: cx as int,
        bulb_y: bulb_y as int,
        bulb_r: bulb_r as int,
        tube_half: tube_half as int,
        tube_top: tube_top as int,
    };
    let fill: i32 = clamp(fill_pct, 0, 100);
    proof {
        let height = bulb_y - tube_top;
        assert(0 <= fill * height <= 100 * height) by (nonlinear_arith)
            requires
                0 <= fill <= 100,
                0 <= height,
        ;
    }
    let y_merc: i32 = bulb_y - (fill * (bulb_y - tube_top)) / 100;
    assert(y_merc == shape.mercury_row(fill_pct as int));

    // Empty (grey) tube first, with a rounded cap.
    let ghost b0 = fb@;
    fb.fill_rect(cx - tube_half, tube_top, cx + tube_half, bulb_y, THERMO_EMPTY);
    let ghost b1 = fb@;
    fb.fill_disc(cx, tube_top, tube_half, THERMO_EMPTY);
    let ghost b2 = fb@;

    // Mercury column + always-full bulb.
    fb.fill_rect(cx - tube_half, y_merc, cx + tube_half, bulb_y, MERCURY);
    let ghost b3 = fb@;
    if y_merc <= tube_top {
        fb.fill_disc(cx, tube_top, tube_half, MERCURY);
    }
    let ghost b4 = fb@;
    fb.fill_disc(cx, bulb_y, bulb_r, MERCURY);
    let ghost b5 = fb@;

    // Outline. The tube walls stop where they meet the bulb's edge (not its
    // centre), and the tube's top is a dome (arc), not a full circle.
    proof {
        geometry::lemma_disc_row_range(0, bulb_r as int);
        geometry::lemma_disc_row_range(0, tube_half as int);
        let rest = bulb_r * bulb_r - tube_half * tube_half;
        geometry::law_root_is_monotone(rest, bulb_r * bulb_r);
        geometry::law_root_of_square(bulb_r as int);
        if rest >= 0 {
            geometry::law_floor_sqrt_is_root(rest);
        }
    }
    let neck_y: i32 = bulb_y - isqrt(bulb_r * bulb_r - tube_half * tube_half);
    fb.vline(cx - tube_half, tube_top, neck_y, THERMO_LINE);
    let ghost b6 = fb@;
    fb.vline(cx + tube_half, tube_top, neck_y, THERMO_LINE);
    let ghost b7 = fb@;
    fb.ring(cx, bulb_y, bulb_r, THERMO_LINE);
    let ghost b8 = fb@;
    fb.arc_top(cx, tube_top, tube_half, THERMO_LINE);
    proof {
        let (left, right) = (shape.cx - shape.tube_half, shape.cx + shape.tube_half);
        let l1 = framebuffer::rect(left, shape.tube_top, right, shape.bulb_y, THERMO_EMPTY);
        let l2 = framebuffer::disc(shape.cx, shape.tube_top, shape.tube_half, THERMO_EMPTY);
        let l3 = framebuffer::rect(left, y_merc as int, right, shape.bulb_y, MERCURY);
        let l4 = if y_merc <= tube_top {
            framebuffer::disc(shape.cx, shape.tube_top, shape.tube_half, MERCURY)
        } else {
            canvas::nothing()
        };
        let l5 = framebuffer::disc(shape.cx, shape.bulb_y, shape.bulb_r, MERCURY);
        let l6 = framebuffer::rect(left, shape.tube_top, left, neck_y as int, THERMO_LINE);
        let l7 = framebuffer::rect(right, shape.tube_top, right, neck_y as int, THERMO_LINE);
        let l8 = framebuffer::circle(shape.cx, shape.bulb_y, shape.bulb_r, THERMO_LINE);
        let l9 = framebuffer::dome(shape.cx, shape.tube_top, shape.tube_half, THERMO_LINE);
        let s2 = canvas::over(l2, l1);
        let s3 = canvas::over(l3, s2);
        let s4 = canvas::over(l4, s3);
        let s5 = canvas::over(l5, s4);
        let s6 = canvas::over(l6, s5);
        let s7 = canvas::over(l7, s6);
        let s8 = canvas::over(l8, s7);
        canvas::law_paint_twice(b0, b1, b2, l1, l2);
        canvas::law_paint_twice(b0, b2, b3, s2, l3);
        canvas::law_paint_twice(b0, b3, b4, s3, l4);
        canvas::law_paint_twice(b0, b4, b5, s4, l5);
        canvas::law_paint_twice(b0, b5, b6, s5, l6);
        canvas::law_paint_twice(b0, b6, b7, s6, l7);
        canvas::law_paint_twice(b0, b7, b8, s7, l8);
        canvas::lemma_add_layer(b0, b8, fb@, s8, l9, shape.layer(fill_pct as int));
    }
}

// ---------------------------------------------------------------------------
// The cloud
// ---------------------------------------------------------------------------

/// The cloud: overlapping discs on a flat base.
pub open spec fn in_cloud(cx: int, cy: int, x: int, y: int) -> bool {
    ||| geometry::in_disc(x - (cx - 38), y - cy, 28)
    ||| geometry::in_disc(x - (cx + 40), y - cy, 30)
    ||| geometry::in_disc(x - (cx - 6), y - (cy - 22), 38)
    ||| geometry::in_disc(x - (cx + 22), y - (cy - 10), 28)
    ||| cx - 56 <= x <= cx + 62 && cy <= y <= cy + 20
}

/// Five streaks of rain under the cloud, four pixels wide, one every 22 pixels.
pub open spec fn in_rain(cx: int, cy: int, x: int, y: int) -> bool {
    let u = x - (cx - 44);
    0 <= u < 110 && u % 22 <= 3 && cy + 32 <= y <= cy + 52
}

/// The cloud's colour.
pub open spec fn cloud_colour(on: bool) -> Rgb565 {
    if on {
        CLOUD_ON
    } else {
        CLOUD_OFF
    }
}

/// The cloud, and rain under it when it is on.
pub open spec fn cloud_layer(cx: int, cy: int, on: bool) -> canvas::Layer {
    |x: int, y: int|
        if on && in_rain(cx, cy, x, y) {
            Some(palette::word(RAIN))
        } else if in_cloud(cx, cy, x, y) {
            Some(palette::word(cloud_colour(on)))
        } else {
            None
        }
}

/// The cloud without its rain.
spec fn body_layer(cx: int, cy: int, on: bool) -> canvas::Layer {
    |x: int, y: int|
        if in_cloud(cx, cy, x, y) {
            Some(palette::word(cloud_colour(on)))
        } else {
            None
        }
}

/// The first `n` streaks of rain.
spec fn rain_layer(cx: int, cy: int, n: int) -> canvas::Layer {
    |x: int, y: int|
        if in_rain(cx, cy, x, y) && x - (cx - 44) < 22 * n {
            Some(palette::word(RAIN))
        } else {
            None
        }
}

/// A cloud from overlapping discs; blue and raining when `on`, grey when off.
fn draw_cloud(fb: &mut FrameBuf, cx: i32, cy: i32, on: bool)
    requires
        old(fb).wf(),
        i32::MIN + 66 <= cx <= i32::MAX - 70,
        i32::MIN + 60 <= cy <= i32::MAX - 52,
    ensures
        canvas::painted(old(fb)@, final(fb)@, cloud_layer(cx as int, cy as int, on)),
        final(final(fb).buf)@ == final(old(fb).buf)@,
{
    let body: Rgb565 = if on {
        CLOUD_ON
    } else {
        CLOUD_OFF
    };
    let ghost b0 = fb@;
    fb.fill_disc(cx - 38, cy, 28, body);
    let ghost b1 = fb@;
    fb.fill_disc(cx + 40, cy, 30, body);
    let ghost b2 = fb@;
    fb.fill_disc(cx - 6, cy - 22, 38, body);
    let ghost b3 = fb@;
    fb.fill_disc(cx + 22, cy - 10, 28, body);
    let ghost b4 = fb@;
    fb.fill_rect(cx - 56, cy, cx + 62, cy + 20, body);
    let ghost b5 = fb@;
    proof {
        let l1 = framebuffer::disc(cx - 38, cy as int, 28, body);
        let l2 = framebuffer::disc(cx + 40, cy as int, 30, body);
        let l3 = framebuffer::disc(cx - 6, cy - 22, 38, body);
        let l4 = framebuffer::disc(cx + 22, cy - 10, 28, body);
        let l5 = framebuffer::rect(cx - 56, cy as int, cx + 62, cy + 20, body);
        let s2 = canvas::over(l2, l1);
        let s3 = canvas::over(l3, s2);
        let s4 = canvas::over(l4, s3);
        canvas::law_paint_twice(b0, b1, b2, l1, l2);
        canvas::law_paint_twice(b0, b2, b3, s2, l3);
        canvas::law_paint_twice(b0, b3, b4, s3, l4);
        canvas::lemma_add_layer(
            b0,
            b4,
            b5,
            s4,
            l5,
            body_layer(cx as int, cy as int, on),
        );
        if !on {
            canvas::lemma_same_layer(
                b0,
                b5,
                body_layer(cx as int, cy as int, on),
                cloud_layer(cx as int, cy as int, on),
            );
        }
    }

    if on {
        let mut i: i32 = 0;
        while i < 5
            invariant
                fb.wf(),
                0 <= i <= 5,
                i32::MIN + 66 <= cx <= i32::MAX - 70,
                i32::MIN + 60 <= cy <= i32::MAX - 52,
                canvas::painted(b5, fb@, rain_layer(cx as int, cy as int, i as int)),
                final(fb.buf)@ == final(old(fb).buf)@,
            decreases 5 - i,
        {
            let rx: i32 = cx - 44 + i * 22;
            let ghost before = fb@;
            fb.fill_rect(rx, cy + 32, rx + 3, cy + 52, RAIN);
            proof {
                canvas::lemma_add_layer(
                    b5,
                    before,
                    fb@,
                    rain_layer(cx as int, cy as int, i as int),
                    framebuffer::rect(rx as int, cy + 32, rx + 3, cy + 52, RAIN),
                    rain_layer(cx as int, cy as int, i + 1),
                );
            }
            i += 1;
        }
        proof {
            canvas::lemma_add_layer(
                b0,
                b5,
                fb@,
                body_layer(cx as int, cy as int, on),
                rain_layer(cx as int, cy as int, 5),
                cloud_layer(cx as int, cy as int, on),
            );
        }
    }
}

// ---------------------------------------------------------------------------
// The dashboard's parts
// ---------------------------------------------------------------------------

/// A rectangle filled with a colour.
pub open spec fn box_layer(b: (i32, i32, i32, i32), colour: Rgb565) -> canvas::Layer {
    framebuffer::rect(b.0 as int, b.1 as int, b.2 as int, b.3 as int, colour)
}

fn fill_box(fb: &mut FrameBuf, b: (i32, i32, i32, i32), colour: Rgb565)
    requires
        old(fb).wf(),
    ensures
        canvas::painted(old(fb)@, final(fb)@, box_layer(b, colour)),
        final(final(fb).buf)@ == final(old(fb).buf)@,
{
    let (x0, y0, x1, y1) = b;
    fb.fill_rect(x0, y0, x1, y1, colour);
}

/// The name over the dashboard and the labels under the two gauges.
pub open spec fn labels() -> canvas::Layer {
    canvas::over(
        framebuffer::label("TEMP"@, THERMO_CX as int, 284, Font::Font9x15, TEXT_DIM),
        canvas::over(
            framebuffer::label("HUMIDITY"@, DROP_CX as int, 284, Font::Font9x15, TEXT_DIM),
            framebuffer::label("dew"@, 240, 46, Font::Font10x20, TEXT_DIM),
        ),
    )
}

/// The labels on the background.
pub open spec fn static_layer() -> canvas::Layer {
    canvas::over(labels(), framebuffer::rect(0, 0, 479, 479, BG))
}

/// What the humidity widget shows.
pub open spec fn humidity_text(rh: u8) -> Seq<char> {
    text::decimal(rh as int) + "%"@
}

/// The humidity widget's value.
pub open spec fn humidity_label(rh: u8) -> canvas::Layer {
    framebuffer::label(humidity_text(rh), DROP_CX as int, 258, Font::Font10x20, TEXT)
}

/// The humidity widget: the value over the drop over its cleared rectangle.
pub open spec fn humidity_layer(rh: u8) -> canvas::Layer {
    canvas::over(
        humidity_label(rh),
        canvas::over(
            drop_layer(DROP_CX as int, 180, 50, 84, rh as int),
            box_layer(DROP_BOX, BG),
        ),
    )
}

/// What the temperature widget shows.
pub open spec fn temperature_text(temp_c: i16) -> Seq<char> {
    text::decimal(temp_c as int) + "\u{00b0}C"@
}

/// The dashboard's thermometer.
pub open spec fn thermometer() -> Thermo {
    Thermo { cx: THERMO_CX as int, bulb_y: 220, bulb_r: 25, tube_half: 11, tube_top: 116 }
}

/// How full the tube is, in percent: the tube spans 0..40 degrees.
pub open spec fn temperature_fill(temp_c: i16) -> int {
    clamped(temp_c as int, 0, 40) * 100 / 40
}

/// The temperature widget's value.
pub open spec fn temperature_label(temp_c: i16) -> canvas::Layer {
    framebuffer::label(temperature_text(temp_c), THERMO_CX as int, 258, Font::Font10x20, TEXT)
}

/// The temperature widget: the value, as far as it lies in the widget's
/// rectangle, over the thermometer over the cleared rectangle.
pub open spec fn temperature_layer(temp_c: i16) -> canvas::Layer {
    canvas::over(
        canvas::clipped(temperature_label(temp_c), THERMO_BOX),
        canvas::over(
            thermometer().layer(temperature_fill(temp_c)),
            box_layer(THERMO_BOX, BG),
        ),
    )
}

/// What the watering widget shows.
pub open spec fn watering_text(watering: bool) -> Seq<char> {
    if watering {
        "WATERING"@
    } else {
        "IDLE"@
    }
}

/// The watering widget's status.
pub open spec fn watering_label(watering: bool) -> canvas::Layer {
    framebuffer::label(
        watering_text(watering),
        CLOUD_CX as int,
        438,
        Font::Font10x20,
        cloud_colour(watering),
    )
}

/// The watering widget: the status over the cloud over its cleared rectangle.
pub open spec fn watering_layer(watering: bool) -> canvas::Layer {
    canvas::over(
        watering_label(watering),
        canvas::over(
            cloud_layer(CLOUD_CX as int, CLOUD_CY as int, watering),
            box_layer(CLOUD_BOX, BG),
        ),
    )
}

/// The layer keeps clear of the rectangle.
pub open spec fn avoids(layer: canvas::Layer, b: (i32, i32, i32, i32)) -> bool {
    forall|x: int, y: int| #[trigger] layer(x, y) is Some ==> !canvas::in_box(b, x, y)
}

/// Paint the parts of the dashboard that never change: background and the
/// static labels. Drawn once into the framebuffer at start-up.
///
/// It paints the whole panel, and its labels stand clear of the widgets'
/// rectangles.
pub fn draw_static(fb: &mut FrameBuf)
    requires
        old(fb).wf(),
    ensures
        canvas::painted(old(fb)@, final(fb)@, static_layer()),
        framebuffer::within_cells(
            framebuffer::label("dew"@, 240, 46, Font::Font10x20, TEXT_DIM),
            "dew"@,
            240,
            46,
            Font::Font10x20,
        ),
        framebuffer::within_cells(
            framebuffer::label("HUMIDITY"@, DROP_CX as int, 284, Font::Font9x15, TEXT_DIM),
            "HUMIDITY"@,
            DROP_CX as int,
            284,
            Font::Font9x15,
        ),
        framebuffer::within_cells(
            framebuffer::label("TEMP"@, THERMO_CX as int, 284, Font::Font9x15, TEXT_DIM),
            "TEMP"@,
            THERMO_CX as int,
            284,
            Font::Font9x15,
        ),
        avoids(labels(), DROP_BOX),
        avoids(labels(), THERMO_BOX),
        avoids(labels(), CLOUD_BOX),
        final(final(fb).buf)@ == final(old(fb).buf)@,
{
    proof {
        lemma_fixed_texts();
        text::lemma_line_fits("dew"@, 240, 46, Font::Font10x20);
        text::lemma_line_fits("HUMIDITY"@, DROP_CX as int, 284, Font::Font9x15);
        text::lemma_line_fits("TEMP"@, THERMO_CX as int, 284, Font::Font9x15);
    }
    let ghost b0 = fb@;
    fb.fill_rect(0, 0, H_RES as i32 - 1, V_RES as i32 - 1, BG);
    let ghost b1 = fb@;
    text_center(fb, "dew", 240, 46, Font::Font10x20, TEXT_DIM);
    let ghost b2 = fb@;
    text_center(fb, "HUMIDITY", DROP_CX, 284, Font::Font9x15, TEXT_DIM);
    let ghost b3 = fb@;
    text_center(fb, "TEMP", THERMO_CX, 284, Font::Font9x15, TEXT_DIM);
    proof {
        let l1 = framebuffer::rect(0, 0, 479, 479, BG);
        let l2 = framebuffer::label("dew"@, 240, 46, Font::Font10x20, TEXT_DIM);
        let l3 = framebuffer::label("HUMIDITY"@, DROP_CX as int, 284, Font::Font9x15, TEXT_DIM);
        let l4 = framebuffer::label("TEMP"@, THERMO_CX as int, 284, Font::Font9x15, TEXT_DIM);
        let s2 = canvas::over(l2, l1);
        canvas::law_paint_twice(b0, b1, b2, l1, l2);
        canvas::law_paint_twice(b0, b2, b3, s2, l3);
        canvas::lemma_add_layer(b0, b3, fb@, canvas::over(l3, s2), l4, static_layer());
    }
}

// Each widget clears its own dirty rectangle first, then draws its shape and
// value text. They are redrawn independently so we only touch the framebuffer
// region that actually changed.

/// Humidity: water-drop gauge (left) that fills to `rh` percent.
pub fn draw_humidity(fb: &mut FrameBuf, rh: u8)
    requires
        old(fb).wf(),
    ensures
        canvas::painted(old(fb)@, final(fb)@, humidity_layer(rh)),
        canvas::confined(humidity_layer(rh), DROP_BOX),
        framebuffer::within_cells(
            humidity_label(rh),
            humidity_text(rh),
            DROP_CX as int,
            258,
            Font::Font10x20,
        ),
        final(final(fb).buf)@ == final(old(fb).buf)@,
{
    let ghost b0 = fb@;
    fill_box(fb, DROP_BOX, BG);
    let ghost b1 = fb@;
    draw_drop(fb, DROP_CX, 180, 50, 84, rh as i32);
    let ghost b2 = fb@;
    let value: String = text::number_label(rh as i16, "%");
    proof {
        lemma_humidity_text(rh);
        text::lemma_line_fits(value@, DROP_CX as int, 258, Font::Font10x20);
    }
    text_center(fb, value.as_str(), DROP_CX, 258, Font::Font10x20, TEXT);
    proof {
        let l1 = box_layer(DROP_BOX, BG);
        let l2 = drop_layer(DROP_CX as int, 180, 50, 84, rh as int);
        canvas::law_paint_twice(b0, b1, b2, l1, l2);
        canvas::law_paint_twice(b0, b2, fb@, canvas::over(l2, l1), humidity_label(rh));
        lemma_drop_extent();
    }
}

/// Temperature: thermometer (right); mercury maps 0..40 degrees Celsius onto
/// the tube.
///
/// The widget keeps to its rectangle: of a value that is too wide for it, only
/// what lies inside is painted. One of up to six characters, its unit with
/// it, is shown whole.
pub fn draw_temperature(fb: &mut FrameBuf, temp_c: i16)
    requires
        old(fb).wf(),
    ensures
        canvas::painted(old(fb)@, final(fb)@, temperature_layer(temp_c)),
        canvas::confined(temperature_layer(temp_c), THERMO_BOX),
        -999 <= temp_c <= 9999 ==> canvas::confined(temperature_label(temp_c), THERMO_BOX),
        framebuffer::within_cells(
            temperature_label(temp_c),
            temperature_text(temp_c),
            THERMO_CX as int,
            258,
            Font::Font10x20,
        ),
        final(final(fb).buf)@ == final(old(fb).buf)@,
{
    let ghost b0 = fb@;
    fill_box(fb, THERMO_BOX, BG);
    let ghost b1 = fb@;
    let t_fill: i32 = (clamp(temp_c as i32, 0, 40) * 100) / 40;
    draw_thermo(fb, THERMO_CX, 220, 25, 11, 116, t_fill);
    let ghost b2 = fb@;
    let value: String = text::number_label(temp_c, "\u{00b0}C");
    proof {
        lemma_temperature_text(temp_c);
        text::lemma_line_fits(value@, THERMO_CX as int, 258, Font::Font10x20);
    }
    text_center_within(
        fb,
        value.as_str(),
        THERMO_CX,
        258,
        Font::Font10x20,
        TEXT,
        THERMO_BOX,
    );
    proof {
        let value_layer = canvas::clipped(temperature_label(temp_c), THERMO_BOX);
        let l1 = box_layer(THERMO_BOX, BG);
        let l2 = thermometer().layer(temperature_fill(temp_c));
        canvas::law_paint_twice(b0, b1, b2, l1, l2);
        canvas::law_paint_twice(b0, b2, fb@, canvas::over(l2, l1), value_layer);
        lemma_thermo_extent(temperature_fill(temp_c));
    }
}

/// Watering status: raincloud (bottom), blue and raining when active.
pub fn draw_watering(fb: &mut FrameBuf, watering: bool)
    requires
        old(fb).wf(),
    ensures
        canvas::painted(old(fb)@, final(fb)@, watering_layer(watering)),
        canvas::confined(watering_layer(watering), CLOUD_BOX),
        framebuffer::within_cells(
            watering_label(watering),
            watering_text(watering),
            CLOUD_CX as int,
            438,
            Font::Font10x20,
        ),
        final(final(fb).buf)@ == final(old(fb).buf)@,
{
    let ghost b0 = fb@;
    fill_box(fb, CLOUD_BOX, BG);
    let ghost b1 = fb@;
    draw_cloud(fb, CLOUD_CX, CLOUD_CY, watering);
    let ghost b2 = fb@;
    let (status, colour): (&str, Rgb565) = if watering {
        ("WATERING", CLOUD_ON)
    } else {
        ("IDLE", CLOUD_OFF)
    };
    proof {
        lemma_fixed_texts();
        text::lemma_line_fits(status@, CLOUD_CX as int, 438, Font::Font10x20);
    }
    text_center(fb, status, CLOUD_CX, 438, Font::Font10x20, colour);
    proof {
        let l1 = box_layer(CLOUD_BOX, BG);
        let l2 = cloud_layer(CLOUD_CX as int, CLOUD_CY as int, watering);
        canvas::law_paint_twice(b0, b1, b2, l1, l2);
        canvas::law_paint_twice(b0, b2, fb@, canvas::over(l2, l1), watering_label(watering));
        lemma_cloud_extent();
    }
}

/// The fixed texts are short and have no line break.
proof fn lemma_fixed_texts()
    ensures
        "dew"@.len() == 3,
        "HUMIDITY"@.len() == 8,
        "TEMP"@.len() == 4,
        "WATERING"@.len() == 8,
        "IDLE"@.len() == 4,
        !"dew"@.contains('\n'),
        !"HUMIDITY"@.contains('\n'),
        !"TEMP"@.contains('\n'),
        !"WATERING"@.contains('\n'),
        !"IDLE"@.contains('\n'),
{
    reveal_strlit("dew");
    reveal_strlit("HUMIDITY");
    reveal_strlit("TEMP");
    reveal_strlit("WATERING");
    reveal_strlit("IDLE");
}

proof fn lemma_humidity_text(rh: u8)
    ensures
        humidity_text(rh).len() <= 4,
        !humidity_text(rh).contains('\n'),
{
    reveal_strlit("%");
    text::lemma_decimal(rh as int);
}

proof fn lemma_temperature_text(temp_c: i16)
    ensures
        temperature_text(temp_c).len() <= 8,
        -999 <= temp_c <= 9999 ==> temperature_text(temp_c).len() <= 6,
        !temperature_text(temp_c).contains('\n'),
{
    reveal_strlit("\u{00b0}C");
    text::lemma_decimal(temp_c as int);
}

/// The dashboard's drop lies in its rectangle.
proof fn lemma_drop_extent()
    ensures
        forall|x: int, y: int| #[trigger]
            in_drop(DROP_CX as int, 180, 50, 84, x, y) ==> canvas::in_box(DROP_BOX, x, y),
{
    assert forall|x: int, y: int| #[trigger]
        in_drop(DROP_CX as int, 180, 50, 84, x, y) implies canvas::in_box(DROP_BOX, x, y) by {
        if y >= 180 {
            geometry::lemma_disc_bounds(x - DROP_CX, y - 180, 50);
        } else {
            lemma_taper(50, 84, y - 96);
        }
    }
}

/// The dashboard's thermometer lies in its rectangle.
proof fn lemma_thermo_extent(fill_pct: int)
    ensures
        canvas::confined(thermometer().layer(fill_pct), THERMO_BOX),
{
    let shape = thermometer();
    assert forall|x: int, y: int|
        canvas::on_panel(x, y) && #[trigger] shape.layer(fill_pct)(
            x,
            y,
        ) is Some implies canvas::in_box(THERMO_BOX, x, y) by {
        if shape.in_bulb(x, y) {
            geometry::lemma_disc_bounds(x - shape.cx, y - shape.bulb_y, shape.bulb_r);
        }
        if shape.in_cap(x, y) {
            geometry::lemma_disc_bounds(x - shape.cx, y - shape.tube_top, shape.tube_half);
        }
        geometry::law_floor_sqrt_is_root(25 * 25 - 11 * 11);
    }
}

/// The dashboard's cloud and its rain lie in its rectangle.
proof fn lemma_cloud_extent()
    ensures
        forall|x: int, y: int| #[trigger]
            in_cloud(CLOUD_CX as int, CLOUD_CY as int, x, y) ==> canvas::in_box(CLOUD_BOX, x, y),
        forall|x: int, y: int| #[trigger]
            in_rain(CLOUD_CX as int, CLOUD_CY as int, x, y) ==> canvas::in_box(CLOUD_BOX, x, y),
{
    assert forall|x: int, y: int| #[trigger]
        in_cloud(CLOUD_CX as int, CLOUD_CY as int, x, y) implies canvas::in_box(
        CLOUD_BOX,
        x,
        y,
    ) by {
        if geometry::in_disc(x - 202, y - 360, 28) {
            geometry::lemma_disc_bounds(x - 202, y - 360, 28);
        } else if geometry::in_disc(x - 280, y - 360, 30) {
            geometry::lemma_disc_bounds(x - 280, y - 360, 30);
        } else if geometry::in_disc(x - 234, y - 338, 38) {
            geometry::lemma_disc_bounds(x - 234, y - 338, 38);
        } else if geometry::in_disc(x - 262, y - 350, 28) {
            geometry::lemma_disc_bounds(x - 262, y - 350, 28);
        }
    }
}

// ---------------------------------------------------------------------------
// What the gauges show
// ---------------------------------------------------------------------------

/// The fill level moves nothing but the water: the drop's edge and silhouette
/// are the same at every level, and a pixel that differs between two levels
/// turns from empty to water on the way up. Levels beyond 0..100 show what the
/// nearer end of that range shows.
pub proof fn law_fill_moves_only_the_water(
    cx: int,
    cy: int,
    r: int,
    taper_h: int,
    less: int,
    more: int,
    x: int,
    y: int,
)
    requires
        0 <= r,
        0 <= taper_h,
        less <= more,
    ensures
        ({
            let a = drop_layer(cx, cy, r, taper_h, less)(x, y);
            let b = drop_layer(cx, cy, r, taper_h, more)(x, y);
            &&& a == Some(palette::word(WATER)) ==> b == Some(palette::word(WATER))
            &&& a == Some(palette::word(DROP_LINE)) <==> b == Some(palette::word(DROP_LINE))
            &&& a is Some <==> b is Some
            &&& a != b ==> a == Some(palette::word(WATER_EMPTY)) && b == Some(palette::word(WATER))
            &&& more <= 0 || 100 <= less ==> a == b
        }),
{
    let total = taper_h + r;
    let a = clamped(less, 0, 100);
    let b = clamped(more, 0, 100);
    assert(a * total <= b * total) by (nonlinear_arith)
        requires
            a <= b,
            0 <= total,
    ;
}

/// Of two drops painted over the same picture, the one filled to the higher
/// level has water wherever the other has, and the same edge; beyond 0..100
/// the two pictures are the same byte for byte.
pub proof fn law_fuller_drop_has_more_water(
    pre: Seq<u8>,
    a: Seq<u8>,
    b: Seq<u8>,
    cx: int,
    cy: int,
    r: int,
    taper_h: int,
    less: int,
    more: int,
)
    requires
        0 <= r,
        0 <= taper_h,
        less <= more,
        pre.len() >= FB_SIZE,
        canvas::painted(pre, a, drop_layer(cx, cy, r, taper_h, less)),
        canvas::painted(pre, b, drop_layer(cx, cy, r, taper_h, more)),
    ensures
        forall|x: int, y: int|
            #![trigger canvas::pixel(a, x, y)]
            #![trigger canvas::pixel(b, x, y)]
            canvas::on_panel(x, y) ==> {
                let (p, q) = (canvas::pixel(a, x, y), canvas::pixel(b, x, y));
                &&& p == palette::word(WATER) ==> q == palette::word(WATER)
                &&& p == palette::word(DROP_LINE) <==> q == palette::word(DROP_LINE)
                &&& p != q ==> p == palette::word(WATER_EMPTY) && q == palette::word(WATER)
            },
        more <= 0 || 100 <= less ==> a == b,
{
    let la = drop_layer(cx, cy, r, taper_h, less);
    let lb = drop_layer(cx, cy, r, taper_h, more);
    assert forall|x: int, y: int|
        #![trigger canvas::pixel(a, x, y)]
        #![trigger canvas::pixel(b, x, y)]
        canvas::on_panel(x, y) implies {
        let (p, q) = (canvas::pixel(a, x, y), canvas::pixel(b, x, y));
        &&& p == palette::word(WATER) ==> q == palette::word(WATER)
        &&& p == palette::word(DROP_LINE) <==> q == palette::word(DROP_LINE)
        &&& p != q ==> p == palette::word(WATER_EMPTY) && q == palette::word(WATER)
    } by {
        law_fill_moves_only_the_water(cx, cy, r, taper_h, less, more, x, y);
    }
    if more <= 0 || 100 <= less {
        assert forall|x: int, y: int| canvas::on_panel(x, y) implies #[trigger] la(x, y) == lb(
            x,
            y,
        ) by {
            law_fill_moves_only_the_water(cx, cy, r, taper_h, less, more, x, y);
        }
        canvas::lemma_same_layer(pre, b, lb, la);
        canvas::law_painted_is_exact(pre, a, b, la);
    }
}

/// A drop filled to 0 percent or less shows no water.
pub proof fn law_empty_drop_has_no_water(
    cx: int,
    cy: int,
    r: int,
    taper_h: int,
    fill_pct: int,
    x: int,
    y: int,
)
    requires
        0 <= r,
        0 <= taper_h,
        fill_pct <= 0,
    ensures
        drop_layer(cx, cy, r, taper_h, fill_pct)(x, y) != Some(palette::word(WATER)),
{
    assert(0 * (taper_h + r) == 0);
    if in_drop(cx, cy, r, taper_h, x, y) && y == cy + r {
        let dx = x - cx;
        assert(dx == 0) by (nonlinear_arith)
            requires
                dx * dx + r * r <= r * r,
        ;
        assert(!geometry::in_disc(1, r, r));
        assert(on_drop_edge(cx, cy, r, taper_h, x, y));
    }
}

/// A drop filled to 100 percent or more shows nothing but water inside its
/// edge.
pub proof fn law_full_drop_is_all_water(
    cx: int,
    cy: int,
    r: int,
    taper_h: int,
    fill_pct: int,
    x: int,
    y: int,
)
    requires
        0 <= r,
        0 <= taper_h,
        fill_pct >= 100,
    ensures
        drop_layer(cx, cy, r, taper_h, fill_pct)(x, y) != Some(palette::word(WATER_EMPTY)),
{
    let total = taper_h + r;
    assert(100 * total / 100 == total);
}

/// The bulb is always full: inside its outline there is mercury at every fill
/// level.
pub proof fn law_bulb_is_always_full(shape: Thermo, fill_pct: int, x: int, y: int)
    requires
        shape.in_bulb(x, y),
        !shape.on_outline(x, y),
    ensures
        shape.layer(fill_pct)(x, y) == Some(palette::word(MERCURY)),
{
}

/// The mercury rises with the fill level.
pub proof fn law_mercury_rises(shape: Thermo, less: int, more: int, x: int, y: int)
    requires
        shape.tube_top <= shape.bulb_y,
        less <= more,
        shape.in_mercury(less, x, y),
    ensures
        shape.in_mercury(more, x, y),
{
    let height = shape.bulb_y - shape.tube_top;
    let a = clamped(less, 0, 100);
    let b = clamped(more, 0, 100);
    assert(a * height <= b * height) by (nonlinear_arith)
        requires
            a <= b,
            0 <= height,
    ;
}

/// The fill level moves nothing but the mercury: a pixel that differs between
/// two levels turns from empty tube to mercury on the way up. Levels beyond
/// 0..100 show what the nearer end of that range shows.
pub proof fn law_fill_moves_only_the_mercury(shape: Thermo, less: int, more: int, x: int, y: int)
    requires
        shape.tube_top <= shape.bulb_y,
        less <= more,
    ensures
        ({
            let a = shape.layer(less)(x, y);
            let b = shape.layer(more)(x, y);
            &&& a is Some <==> b is Some
            &&& a == Some(palette::word(THERMO_LINE)) <==> b == Some(palette::word(THERMO_LINE))
            &&& a != b ==> a == Some(palette::word(THERMO_EMPTY)) && b == Some(
                palette::word(MERCURY),
            )
            &&& more <= 0 || 100 <= less ==> a == b
        }),
{
    if shape.in_mercury(less, x, y) {
        law_mercury_rises(shape, less, more, x, y);
    }
    lemma_mercury_row(shape, more);
}

/// Of two thermometers painted over the same picture, the one filled to the
/// higher level differs from the other only in mercury that stands where the
/// other's tube is empty; beyond 0..100 the two pictures are the same byte for
/// byte.
pub proof fn law_fuller_thermometer_has_more_mercury(
    pre: Seq<u8>,
    a: Seq<u8>,
    b: Seq<u8>,
    shape: Thermo,
    less: int,
    more: int,
)
    requires
        shape.tube_top <= shape.bulb_y,
        less <= more,
        pre.len() >= FB_SIZE,
        canvas::painted(pre, a, shape.layer(less)),
        canvas::painted(pre, b, shape.layer(more)),
    ensures
        forall|x: int, y: int|
            #![trigger canvas::pixel(a, x, y)]
            #![trigger canvas::pixel(b, x, y)]
            canvas::on_panel(x, y) && canvas::pixel(a, x, y) != canvas::pixel(b, x, y) ==> {
                &&& canvas::pixel(a, x, y) == palette::word(THERMO_EMPTY)
                &&& canvas::pixel(b, x, y) == palette::word(MERCURY)
            },
        more <= 0 || 100 <= less ==> a == b,
{
    assert forall|x: int, y: int|
        #![trigger canvas::pixel(a, x, y)]
        #![trigger canvas::pixel(b, x, y)]
        canvas::on_panel(x, y) && canvas::pixel(a, x, y) != canvas::pixel(b, x, y) implies {
        &&& canvas::pixel(a, x, y) == palette::word(THERMO_EMPTY)
        &&& canvas::pixel(b, x, y) == palette::word(MERCURY)
    } by {
        law_fill_moves_only_the_mercury(shape, less, more, x, y);
    }
    if more <= 0 || 100 <= less {
        let la = shape.layer(less);
        let lb = shape.layer(more);
        assert forall|x: int, y: int| canvas::on_panel(x, y) implies #[trigger] la(x, y) == lb(
            x,
            y,
        ) by {
            law_fill_moves_only_the_mercury(shape, less, more, x, y);
        }
        canvas::lemma_same_layer(pre, b, lb, la);
        canvas::law_painted_is_exact(pre, a, b, la);
    }
}

/// The dome over the tube is mercury inside its outline exactly when the
/// thermometer is full, and empty otherwise.
pub proof fn law_dome_fills_last(shape: Thermo, fill_pct: int, x: int, y: int)
    requires
        0 <= shape.bulb_r,
        shape.tube_top < shape.bulb_y,
        shape.tube_top <= shape.bulb_y - shape.bulb_r,
        shape.in_cap(x, y),
        y < shape.tube_top,
        !shape.on_outline(x, y),
    ensures
        shape.layer(fill_pct)(x, y) == Some(
            palette::word(
                if fill_pct >= 100 {
                    MERCURY
                } else {
                    THERMO_EMPTY
                },
            ),
        ),
{
    if shape.in_bulb(x, y) {
        geometry::lemma_disc_bounds(x - shape.cx, y - shape.bulb_y, shape.bulb_r);
    }
    lemma_mercury_row(shape, fill_pct);
}

/// The mercury column stays in the tube, and reaches its top only when full.
proof fn lemma_mercury_row(shape: Thermo, fill_pct: int)
    requires
        shape.tube_top <= shape.bulb_y,
    ensures
        shape.tube_top <= shape.mercury_row(fill_pct) <= shape.bulb_y,
        shape.tube_top < shape.bulb_y ==> (shape.mercury_row(fill_pct) == shape.tube_top
            <==> fill_pct >= 100),
{
    let height = shape.bulb_y - shape.tube_top;
    let fill = clamped(fill_pct, 0, 100);
    assert(0 <= fill * height <= 100 * height) by (nonlinear_arith)
        requires
            0 <= fill <= 100,
            0 <= height,
    ;
    if fill_pct < 100 {
        assert(fill * height <= 99 * height) by (nonlinear_arith)
            requires
                0 <= fill <= 99,
                0 <= height,
        ;
    }
}

/// The tube's walls stop where they meet the bulb's edge: their last pixel is
/// in the bulb, and those above it are not.
pub proof fn law_walls_end_at_the_bulb(shape: Thermo, y: int)
    requires
        0 <= shape.tube_half <= shape.bulb_r,
        y <= shape.bulb_y,
    ensures
        shape.in_bulb(shape.cx - shape.tube_half, y) <==> shape.neck_row() <= y,
        shape.in_bulb(shape.cx + shape.tube_half, y) <==> shape.neck_row() <= y,
{
    let h = shape.tube_half;
    let r = shape.bulb_r;
    assert(h * h <= r * r) by (nonlinear_arith)
        requires
            0 <= h <= r,
    ;
    geometry::law_floor_sqrt_is_root(r * r - h * h);
    geometry::lemma_disc_row(y - shape.bulb_y, h, r, geometry::floor_sqrt(r * r - h * h));
    geometry::law_disc_is_symmetric(h, y - shape.bulb_y, r);
}

/// The tube spans 0..40 degrees: it is empty below, full above, and in between
/// a higher temperature never shows a lower level.
pub proof fn law_tube_spans_its_range(colder: i16, warmer: i16)
    requires
        colder <= warmer,
    ensures
        0 <= temperature_fill(colder) <= temperature_fill(warmer) <= 100,
        colder <= 0 ==> temperature_fill(colder) == 0,
        warmer >= 40 ==> temperature_fill(warmer) == 100,
{
}

/// It rains only when the cloud is on.
pub proof fn law_rain_only_when_on(cx: int, cy: int, x: int, y: int)
    ensures
        cloud_layer(cx, cy, false)(x, y) != Some(palette::word(RAIN)),
        in_rain(cx, cy, x, y) ==> cloud_layer(cx, cy, true)(x, y) == Some(palette::word(RAIN)),
{
}

// ---------------------------------------------------------------------------
// What the dashboard looks like, pixel by pixel
// ---------------------------------------------------------------------------

/// The humidity widget's text is the humidity, and a percent sign after it.
pub proof fn law_humidity_text_reads_back(rh: u8)
    ensures
        humidity_text(rh).len() > 1,
        humidity_text(rh).last() == '%',
        text::reads_as(humidity_text(rh).drop_last(), rh as int),
{
    reveal_strlit("%");
    text::law_label_reads_back(rh as int);
    assert(humidity_text(rh).drop_last() =~= text::decimal(rh as int));
}

/// The temperature widget's text is the temperature, and after it a degree sign
/// and a `C`.
pub proof fn law_temperature_text_reads_back(temp_c: i16)
    ensures
        ({
            let s = temperature_text(temp_c);
            &&& s.len() > 2
            &&& s[s.len() - 1] == 'C'
            &&& s[s.len() - 2] == '\u{00b0}'
            &&& text::reads_as(s.take(s.len() - 2), temp_c as int)
        }),
{
    reveal_strlit("\u{00b0}C");
    text::law_label_reads_back(temp_c as int);
    let s = temperature_text(temp_c);
    assert(s.take(s.len() - 2) =~= text::decimal(temp_c as int));
}

/// Two humidities never show the same text, nor do two temperatures.
pub proof fn law_texts_tell_values_apart(rh: u8, other_rh: u8, temp_c: i16, other_temp_c: i16)
    ensures
        rh != other_rh ==> humidity_text(rh) != humidity_text(other_rh),
        temp_c != other_temp_c ==> temperature_text(temp_c) != temperature_text(other_temp_c),
{
    if humidity_text(rh) == humidity_text(other_rh) {
        text::law_labels_tell_numbers_apart(rh as int, other_rh as int, "%"@);
    }
    if temperature_text(temp_c) == temperature_text(other_temp_c) {
        text::law_labels_tell_numbers_apart(
            temp_c as int,
            other_temp_c as int,
            "\u{00b0}C"@,
        );
    }
}

/// The static parts cover the panel with the background, and on it stand `dew`
/// at the top and the two gauges' names under them.
pub proof fn law_static_picture(pre: Seq<u8>, post: Seq<u8>, x: int, y: int)
    requires
        canvas::painted(pre, post, static_layer()),
        0 <= x < 480,
        0 <= y < 480,
    ensures
        canvas::pixel(post, x, y) == palette::word(
            if text::lit(text::text_mask("dew"@, 240, 46, Font::Font10x20), x, y) || text::lit(
                text::text_mask("HUMIDITY"@, 150, 284, Font::Font9x15),
                x,
                y,
            ) || text::lit(text::text_mask("TEMP"@, 330, 284, Font::Font9x15), x, y) {
                TEXT_DIM
            } else {
                BG
            },
        ),
{
    assert(canvas::on_panel(x, y));
}

/// The humidity widget shows a drop whose tip is in row 96 and whose lowest row
/// is 230: round below row 180, and above it narrowing evenly to the tip. Inside
/// its edge there is water up to `rh` percent of its height of 134 rows, and
/// none above. Under it stands the value, which reads as `rh`.
pub proof fn law_humidity_picture(
    pre: Seq<u8>,
    post: Seq<u8>,
    rh: u8,
    value: Seq<char>,
    x: int,
    y: int,
)
    requires
        canvas::painted(pre, post, humidity_layer(rh)),
        value.len() > 0,
        value.last() == '%',
        text::reads_as(value.drop_last(), rh as int),
        0 <= x < 480,
        0 <= y < 480,
    ensures
        ({
            let d = if x < 150 {
                150 - x
            } else {
                x - 150
            };
            let reaches = |d: int|
                if y < 180 {
                    84 * d <= 50 * (y - 96)
                } else {
                    d * d + (y - 180) * (y - 180) <= 2500
                };
            canvas::pixel(post, x, y) == if text::lit(
                text::text_mask(value, 150, 258, Font::Font10x20),
                x,
                y,
            ) {
                palette::word(TEXT)
            } else if 96 <= y <= 230 && reaches(d) {
                if !reaches(d + 1) {
                    palette::word(DROP_LINE)
                } else if 100 * (230 - y) <= 134 * rh {
                    palette::word(WATER)
                } else {
                    palette::word(WATER_EMPTY)
                }
            } else if 88 <= x <= 212 && 90 <= y <= 274 {
                palette::word(BG)
            } else {
                canvas::pixel(pre, x, y)
            }
        }),
{
    assert(canvas::on_panel(x, y));
    reveal_strlit("%");
    text::law_one_numeral_per_number(value.drop_last(), rh as int);
    assert(value =~= humidity_text(rh));
    let d = geometry::dist(x - 150);
    assert(d * d == (x - 150) * (x - 150)) by (nonlinear_arith)
        requires
            d == x - 150 || d == -(x - 150),
    ;
}

/// The temperature widget shows a thermometer: a bulb of radius 25 around row
/// 220, full at every temperature, and a tube 23 columns wide that ends in a
/// round cap at row 116. The mercury in the tube stands at `percent` of its
/// height, where 0 degrees are nothing, 40 are everything and each degree in
/// between counts 2.5, rounded down; it fills the cap when it has reached the
/// top. Under it stands the value, which reads as `temp_c`. Nothing is painted
/// outside the widget's rectangle.
pub proof fn law_temperature_picture(
    pre: Seq<u8>,
    post: Seq<u8>,
    temp_c: i16,
    value: Seq<char>,
    percent: int,
    x: int,
    y: int,
)
    requires
        canvas::painted(pre, post, temperature_layer(temp_c)),
        value.len() > 2,
        value[value.len() - 1] == 'C',
        value[value.len() - 2] == '\u{00b0}',
        text::reads_as(value.take(value.len() - 2), temp_c as int),
        temp_c <= 0 ==> percent == 0,
        0 < temp_c < 40 ==> 2 * percent <= 5 * temp_c < 2 * (percent + 1),
        temp_c >= 40 ==> percent == 100,
        0 <= x < 480,
        0 <= y < 480,
    ensures
        ({
            let d = if x < 330 {
                330 - x
            } else {
                x - 330
            };
            let above = if y < 220 {
                220 - y
            } else {
                y - 220
            };
            let over = if y < 116 {
                116 - y
            } else {
                y - 116
            };
            let bulb = d * d + above * above <= 625;
            let cap = d * d + over * over <= 121;
            let bulb_edge = bulb && ((d + 1) * (d + 1) + above * above > 625 || d * d + (above + 1)
                * (above + 1) > 625);
            let cap_edge = cap && y <= 116 && ((d + 1) * (d + 1) + over * over > 121 || d * d + (
            over + 1) * (over + 1) > 121);
            canvas::pixel(post, x, y) == if !(296 <= x <= 364 && 100 <= y <= 274) {
                canvas::pixel(pre, x, y)
            } else if text::lit(text::text_mask(value, 330, 258, Font::Font10x20), x, y) {
                palette::word(TEXT)
            } else if bulb_edge || cap_edge || d == 11 && 116 <= y <= 198 {
                palette::word(THERMO_LINE)
            } else if bulb || d <= 11 && y <= 220 && 100 * (220 - y) <= 104 * percent || cap
                && percent == 100 {
                palette::word(MERCURY)
            } else if d <= 11 && 116 <= y <= 220 || cap {
                palette::word(THERMO_EMPTY)
            } else {
                palette::word(BG)
            }
        }),
{
    assert(canvas::on_panel(x, y));
    reveal_strlit("\u{00b0}C");
    text::law_one_numeral_per_number(value.take(value.len() - 2), temp_c as int);
    assert(value =~= temperature_text(temp_c));
    let shape = thermometer();
    assert(percent == temperature_fill(temp_c));
    lemma_mercury_row(shape, percent);
    lemma_thermo_extent(percent);
    assert(shape.neck_row() == 198) by {
        geometry::law_floor_sqrt_is_root(25 * 25 - 11 * 11);
        geometry::law_root_is_unique(504, geometry::floor_sqrt(504), 22);
    }
    let d = geometry::dist(x - 330);
    let above = geometry::dist(y - 220);
    let over = geometry::dist(y - 116);
    assert(d * d == (x - 330) * (x - 330)) by (nonlinear_arith)
        requires
            d == x - 330 || d == -(x - 330),
    ;
    assert(above * above == (y - 220) * (y - 220)) by (nonlinear_arith)
        requires
            above == y - 220 || above == -(y - 220),
    ;
    assert(over * over == (y - 116) * (y - 116)) by (nonlinear_arith)
        requires
            over == y - 116 || over == -(y - 116),
    ;
    assert(shape.layer(percent)(x, y) is Some ==> canvas::in_box(THERMO_BOX, x, y));
}

/// The watering widget shows a cloud of four discs on a flat base. While the
/// plant is watered it is blue, five streaks of rain fall from it and the status
/// reads `WATERING`; otherwise it is grey, nothing falls and the status reads
/// `IDLE`.
pub proof fn law_watering_picture(pre: Seq<u8>, post: Seq<u8>, watering: bool, x: int, y: int)
    requires
        canvas::painted(pre, post, watering_layer(watering)),
        0 <= x < 480,
        0 <= y < 480,
    ensures
        ({
            let (body, status) = if watering {
                (CLOUD_ON, "WATERING"@)
            } else {
                (CLOUD_OFF, "IDLE"@)
            };
            let cloud = (x - 202) * (x - 202) + (y - 360) * (y - 360) <= 784 || (x - 280) * (x
                - 280) + (y - 360) * (y - 360) <= 900 || (x - 234) * (x - 234) + (y - 338) * (y
                - 338) <= 1444 || (x - 262) * (x - 262) + (y - 350) * (y - 350) <= 784 || (184 <= x
                <= 302 && 360 <= y <= 380);
            let streak = 196 <= x <= 199 || 218 <= x <= 221 || 240 <= x <= 243 || 262 <= x <= 265
                || 284 <= x <= 287;
            canvas::pixel(post, x, y) == if text::lit(
                text::text_mask(status, 240, 438, Font::Font10x20),
                x,
                y,
            ) {
                palette::word(body)
            } else if watering && streak && 392 <= y <= 412 {
                palette::word(RAIN)
            } else if cloud {
                palette::word(body)
            } else if 166 <= x <= 314 && 300 <= y <= 454 {
                palette::word(BG)
            } else {
                canvas::pixel(pre, x, y)
            }
        }),
{
    assert(canvas::on_panel(x, y));
}

} // verus!
