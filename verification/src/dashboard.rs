//! The render loop's decisions: what is painted at start-up, and which widgets
//! are repainted between two frames.
//!
//! The DPI peripheral streams straight from PSRAM with no bounce buffer, so the
//! framebuffer is drawn only between frames, and to keep that gap tiny only the
//! widgets whose value actually changed are repainted.

use vstd::prelude::*;

use crate::canvas;
use crate::framebuffer::FrameBuf;
use crate::telemetry;
use crate::telemetry::telemetry;
use crate::widgets;
use crate::widgets::{
    draw_humidity, draw_static, draw_temperature, draw_watering, CLOUD_BOX, DROP_BOX, THERMO_BOX,
};

verus! {

/// A reading: humidity in %RH, temperature in degrees Celsius, watering active.
pub type Reading = (u8, i16, bool);

/// The whole dashboard for one reading.
pub open spec fn dashboard_layer(reading: Reading) -> canvas::Layer {
    canvas::over(
        widgets::watering_layer(reading.2),
        canvas::over(
            widgets::temperature_layer(reading.1),
            canvas::over(widgets::humidity_layer(reading.0), widgets::static_layer()),
        ),
    )
}

/// Each widget keeps to its rectangle.
pub open spec fn in_bounds(reading: Reading) -> bool {
    &&& canvas::confined(widgets::humidity_layer(reading.0), DROP_BOX)
    &&& canvas::confined(widgets::temperature_layer(reading.1), THERMO_BOX)
    &&& canvas::confined(widgets::watering_layer(reading.2), CLOUD_BOX)
}

/// Every pixel of the panel is as the dashboard for this reading has it, and
/// no widget reaches out of its rectangle for it.
pub open spec fn shows(bytes: Seq<u8>, reading: Reading) -> bool {
    &&& in_bounds(reading)
    &&& forall|x: int, y: int|
        canvas::on_panel(x, y) ==> Some(#[trigger] canvas::pixel(bytes, x, y)) == dashboard_layer(
            reading,
        )(x, y)
}

/// What repainting the widgets whose value differs paints.
pub open spec fn changes_layer(shown: Reading, reading: Reading) -> canvas::Layer {
    canvas::over(
        if reading.2 != shown.2 {
            widgets::watering_layer(reading.2)
        } else {
            canvas::nothing()
        },
        canvas::over(
            if reading.1 != shown.1 {
                widgets::temperature_layer(reading.1)
            } else {
                canvas::nothing()
            },
            if reading.0 != shown.0 {
                widgets::humidity_layer(reading.0)
            } else {
                canvas::nothing()
            },
        ),
    )
}

/// The pixel lies in the rectangle of a widget whose value differs.
pub open spec fn in_changed_box(shown: Reading, reading: Reading, x: int, y: int) -> bool {
    ||| reading.0 != shown.0 && canvas::in_box(DROP_BOX, x, y)
    ||| reading.1 != shown.1 && canvas::in_box(THERMO_BOX, x, y)
    ||| reading.2 != shown.2 && canvas::in_box(CLOUD_BOX, x, y)
}

/// Initial full paint: static background/labels plus all three gauges.
///
/// Nothing of what the buffer held before is left on the panel.
pub fn paint_all(fb: &mut FrameBuf, reading: Reading)
    requires
        old(fb).wf(),
    ensures
        canvas::painted(old(fb)@, final(fb)@, dashboard_layer(reading)),
        shows(final(fb)@, reading),
        final(final(fb).buf)@ == final(old(fb).buf)@,
{
    let (rh, temp, watering) = reading;
    let ghost b0 = fb@;
    draw_static(fb);
    let ghost b1 = fb@;
    draw_humidity(fb, rh);
    let ghost b2 = fb@;
    draw_temperature(fb, temp);
    let ghost b3 = fb@;
    draw_watering(fb, watering);
    proof {
        let l1 = widgets::static_layer();
        let l2 = widgets::humidity_layer(rh);
        let l3 = widgets::temperature_layer(temp);
        let s2 = canvas::over(l2, l1);
        canvas::law_paint_twice(b0, b1, b2, l1, l2);
        canvas::law_paint_twice(b0, b2, b3, s2, l3);
        canvas::law_paint_twice(
            b0,
            b3,
            fb@,
            canvas::over(l3, s2),
            widgets::watering_layer(watering),
        );
    }
}

/// Repaint the widgets whose value differs from the one shown.
///
/// Nothing outside the rectangles of these widgets is written.
/// Where the panel shows the dashboard for `shown`, it then shows the one for
/// `reading`, as if everything had been painted anew.
pub fn repaint(fb: &mut FrameBuf, shown: Reading, reading: Reading)
    requires
        old(fb).wf(),
    ensures
        canvas::painted(old(fb)@, final(fb)@, changes_layer(shown, reading)),
        forall|x: int, y: int|
            canvas::on_panel(x, y) && !in_changed_box(shown, reading, x, y)
                ==> #[trigger] canvas::pixel(final(fb)@, x, y) == canvas::pixel(old(fb)@, x, y),
        shows(old(fb)@, shown) ==> shows(final(fb)@, reading),
        final(final(fb).buf)@ == final(old(fb).buf)@,
{
    let ghost b0 = fb@;
    if reading.0 != shown.0 {
        draw_humidity(fb, reading.0);
    }
    let ghost b1 = fb@;
    if reading.1 != shown.1 {
        draw_temperature(fb, reading.1);
    }
    let ghost b2 = fb@;
    if reading.2 != shown.2 {
        draw_watering(fb, reading.2);
    }
    proof {
        let l1 = if reading.0 != shown.0 {
            widgets::humidity_layer(reading.0)
        } else {
            canvas::nothing()
        };
        let l2 = if reading.1 != shown.1 {
            widgets::temperature_layer(reading.1)
        } else {
            canvas::nothing()
        };
        let l3 = if reading.2 != shown.2 {
            widgets::watering_layer(reading.2)
        } else {
            canvas::nothing()
        };
        canvas::law_paint_twice(b0, b1, b2, l1, l2);
        canvas::law_paint_twice(b0, b2, fb@, canvas::over(l2, l1), l3);
        if shows(b0, shown) {
            law_repaint_is_full_paint(b0, fb@, shown, reading);
        }
    }
}

/// Repainting only what changed has the effect of painting everything: the
/// widgets' rectangles do not overlap, each widget covers its own, and none
/// reaches out of it.
pub proof fn law_repaint_is_full_paint(
    before: Seq<u8>,
    after: Seq<u8>,
    shown: Reading,
    reading: Reading,
)
    requires
        shows(before, shown),
        in_bounds(reading),
        canvas::painted(before, after, changes_layer(shown, reading)),
    ensures
        shows(after, reading),
{
    assert forall|x: int, y: int| canvas::on_panel(x, y) implies Some(
        #[trigger] canvas::pixel(after, x, y),
    ) == dashboard_layer(reading)(x, y) by {
        assert(Some(canvas::pixel(before, x, y)) == dashboard_layer(shown)(x, y));
        law_widgets_cover_their_boxes(shown, x, y);
        law_widgets_cover_their_boxes(reading, x, y);
        assert(widgets::humidity_layer(shown.0)(x, y) is Some ==> canvas::in_box(DROP_BOX, x, y));
        assert(widgets::temperature_layer(shown.1)(x, y) is Some ==> canvas::in_box(
            THERMO_BOX,
            x,
            y,
        ));
        assert(widgets::watering_layer(shown.2)(x, y) is Some ==> canvas::in_box(CLOUD_BOX, x, y));
        assert(widgets::humidity_layer(reading.0)(x, y) is Some ==> canvas::in_box(DROP_BOX, x, y));
        assert(widgets::temperature_layer(reading.1)(x, y) is Some ==> canvas::in_box(
            THERMO_BOX,
            x,
            y,
        ));
        assert(widgets::watering_layer(reading.2)(x, y) is Some ==> canvas::in_box(
            CLOUD_BOX,
            x,
            y,
        ));
    }
}

/// Each widget paints every pixel of its rectangle.
pub proof fn law_widgets_cover_their_boxes(reading: Reading, x: int, y: int)
    ensures
        canvas::in_box(DROP_BOX, x, y) ==> widgets::humidity_layer(reading.0)(x, y) is Some,
        canvas::in_box(THERMO_BOX, x, y) ==> widgets::temperature_layer(reading.1)(x, y) is Some,
        canvas::in_box(CLOUD_BOX, x, y) ==> widgets::watering_layer(reading.2)(x, y) is Some,
{
}

/// No pixel belongs to the rectangles of two widgets, and all of them lie on the
/// panel.
pub proof fn law_boxes_are_disjoint(x: int, y: int)
    ensures
        !(canvas::in_box(DROP_BOX, x, y) && canvas::in_box(THERMO_BOX, x, y)),
        !(canvas::in_box(DROP_BOX, x, y) && canvas::in_box(CLOUD_BOX, x, y)),
        !(canvas::in_box(THERMO_BOX, x, y) && canvas::in_box(CLOUD_BOX, x, y)),
        canvas::in_box(DROP_BOX, x, y) ==> canvas::on_panel(x, y),
        canvas::in_box(THERMO_BOX, x, y) ==> canvas::on_panel(x, y),
        canvas::in_box(CLOUD_BOX, x, y) ==> canvas::on_panel(x, y),
{
}

/// The telemetry of one frame.
pub open spec fn reading_of(frame: u32) -> Reading {
    let rh = telemetry::wave(frame as int, 464, 100) as u8;
    let temp = (5 + telemetry::wave(frame as int, 340, 30)) as i16;
    (rh, temp, rh < 25)
}

/// The render loop's state: the frame that comes next, and the reading that the
/// panel shows.
pub struct Dashboard {
    frame: u32,
    shown: Reading,
}

impl Dashboard {
    /// The frame that comes next.
    pub closed spec fn frame(&self) -> u32 {
        self.frame
    }

    /// The reading that the panel shows.
    pub closed spec fn shown(&self) -> Reading {
        self.shown
    }

    /// The panel shows the reading that the loop painted last.
    pub open spec fn on_display(&self, bytes: Seq<u8>) -> bool {
        shows(bytes, self.shown())
    }

    /// Paint the dashboard for frame 0.
    pub fn start(fb: &mut FrameBuf) -> (dashboard: Self)
        requires
            old(fb).wf(),
        ensures
            dashboard.frame() == 1,
            dashboard.shown() == reading_of(0),
            dashboard.shown() == (0u8, 5i16, true),
            canvas::painted(old(fb)@, final(fb)@, dashboard_layer(reading_of(0))),
            dashboard.on_display(final(fb)@),
            final(final(fb).buf)@ == final(old(fb).buf)@,
    {
        let shown: Reading = telemetry(0);
        proof {
            law_reading_follows_the_frame(0, 0, 0, 0, 0);
        }
        paint_all(fb, shown);
        Dashboard { frame: 1, shown }
    }

    /// Bring the dashboard up to date with the next frame's telemetry.
    pub fn tick(&mut self, fb: &mut FrameBuf)
        requires
            old(fb).wf(),
        ensures
            final(self).shown() == reading_of(old(self).frame()),
            final(self).shown().0 == telemetry::wave(old(self).frame() as int, 464, 100),
            final(self).shown().1 == 5 + telemetry::wave(old(self).frame() as int, 340, 30),
            final(self).shown().2 <==> final(self).shown().0 < 25,
            final(self).frame() == if old(self).frame() == u32::MAX {
                0
            } else {
                old(self).frame() + 1
            },
            canvas::painted(
                old(fb)@,
                final(fb)@,
                changes_layer(old(self).shown(), reading_of(old(self).frame())),
            ),
            forall|x: int, y: int|
                canvas::on_panel(x, y) && !in_changed_box(
                    old(self).shown(),
                    reading_of(old(self).frame()),
                    x,
                    y,
                ) ==> #[trigger] canvas::pixel(final(fb)@, x, y) == canvas::pixel(old(fb)@, x, y),
            old(self).on_display(old(fb)@) ==> final(self).on_display(final(fb)@),
            final(final(fb).buf)@ == final(old(fb).buf)@,
    {
        let reading: Reading = telemetry(self.frame);
        proof {
            let n = self.frame as int;
            law_reading_follows_the_frame(self.frame, n / 464, n % 464, n / 340, n % 340);
        }
        repaint(fb, self.shown, reading);
        self.shown = reading;
        self.frame = self.frame.wrapping_add(1);
    }
}

/// The reading of a frame is its telemetry: `p` frames into its 464 the humidity
/// has climbed from 0 towards 100 by the part of 232 frames that lie between it
/// and the nearer end, and in the same way the temperature goes from 5 to 35
/// and back in 340 frames. The plant is watered while the humidity is below 25.
pub proof fn law_reading_follows_the_frame(frame: u32, cycle: int, p: int, other: int, q: int)
    requires
        frame == 464 * cycle + p,
        0 <= p < 464,
        frame == 340 * other + q,
        0 <= q < 340,
    ensures
        ({
            let (rh, temp, watering) = reading_of(frame);
            let up = if p <= 232 {
                p
            } else {
                464 - p
            };
            let warm = if q <= 170 {
                q
            } else {
                340 - q
            };
            &&& rh == telemetry::wave(frame as int, 464, 100)
            &&& temp == 5 + telemetry::wave(frame as int, 340, 30)
            &&& 232 * rh <= 100 * up < 232 * (rh + 1)
            &&& 170 * (temp - 5) <= 30 * warm < 170 * (temp - 4)
            &&& 0 <= rh <= 100
            &&& 5 <= temp <= 35
            &&& watering <==> rh < 25
        }),
{
    telemetry::law_wave_is_bounded(frame as int, 464, 100);
    telemetry::law_wave_is_bounded(frame as int, 340, 30);
    telemetry::law_wave_is_even(cycle, p, 464, 100);
    telemetry::law_wave_is_even(other, q, 340, 30);
}

/// The render loop shows one frame after the other: after the start and `n`
/// further frames the panel's reading is that of frame `n`, and no frame is left
/// out or comes twice until the counter wraps.
pub proof fn law_loop_shows_frame_after_frame(loops: Seq<Dashboard>, n: int)
    requires
        0 <= n < loops.len() <= u32::MAX,
        loops[0].frame() == 1,
        loops[0].shown() == reading_of(0),
        forall|i: int|
            0 <= i < loops.len() - 1 ==> (#[trigger] loops[i + 1]).shown() == reading_of(
                loops[i].frame(),
            ) && loops[i + 1].frame() == if loops[i].frame() == u32::MAX {
                0
            } else {
                loops[i].frame() + 1
            },
    ensures
        loops[n].frame() == n + 1,
        loops[n].shown().0 == telemetry::wave(n, 464, 100),
        loops[n].shown().1 == 5 + telemetry::wave(n, 340, 30),
        loops[n].shown().2 <==> loops[n].shown().0 < 25,
    decreases n,
{
    law_reading_follows_the_frame(n as u32, n / 464, n % 464, n / 340, n % 340);
    if n > 0 {
        law_loop_shows_frame_after_frame(loops, n - 1);
        assert(loops[(n - 1) + 1].shown() == reading_of(loops[n - 1].frame()));
    }
}

/// A panel that shows a reading shows each widget for its own value: in the
/// drop's rectangle the humidity widget for the humidity, in the thermometer's
/// the temperature widget for the temperature, in the cloud's the watering
/// widget for the watering, and everywhere else the static parts.
pub proof fn law_panel_shows_each_value(bytes: Seq<u8>, reading: Reading, x: int, y: int)
    requires
        shows(bytes, reading),
        0 <= x < 480,
        0 <= y < 480,
    ensures
        Some(canvas::pixel(bytes, x, y)) == if 88 <= x <= 212 && 90 <= y <= 274 {
            widgets::humidity_layer(reading.0)(x, y)
        } else if 296 <= x <= 364 && 100 <= y <= 274 {
            widgets::temperature_layer(reading.1)(x, y)
        } else if 166 <= x <= 314 && 300 <= y <= 454 {
            widgets::watering_layer(reading.2)(x, y)
        } else {
            widgets::static_layer()(x, y)
        },
{
    assert(canvas::on_panel(x, y));
    law_widgets_cover_their_boxes(reading, x, y);
    assert(widgets::humidity_layer(reading.0)(x, y) is Some ==> canvas::in_box(DROP_BOX, x, y));
    assert(widgets::temperature_layer(reading.1)(x, y) is Some ==> canvas::in_box(
        THERMO_BOX,
        x,
        y,
    ));
    assert(widgets::watering_layer(reading.2)(x, y) is Some ==> canvas::in_box(CLOUD_BOX, x, y));
}

/// While the loop runs, the panel shows the loop's reading in this way.
pub proof fn law_loop_shows_each_value(dashboard: Dashboard, bytes: Seq<u8>, x: int, y: int)
    requires
        dashboard.on_display(bytes),
        0 <= x < 480,
        0 <= y < 480,
    ensures
        Some(canvas::pixel(bytes, x, y)) == if 88 <= x <= 212 && 90 <= y <= 274 {
            widgets::humidity_layer(dashboard.shown().0)(x, y)
        } else if 296 <= x <= 364 && 100 <= y <= 274 {
            widgets::temperature_layer(dashboard.shown().1)(x, y)
        } else if 166 <= x <= 314 && 300 <= y <= 454 {
            widgets::watering_layer(dashboard.shown().2)(x, y)
        } else {
            widgets::static_layer()(x, y)
        },
{
    law_panel_shows_each_value(bytes, dashboard.shown(), x, y);
}

/// A repaint draws the widgets whose value differs for their new value, and
/// leaves every other pixel as it was.
pub proof fn law_repaint_draws_the_new_values(
    pre: Seq<u8>,
    post: Seq<u8>,
    shown: Reading,
    reading: Reading,
    x: int,
    y: int,
)
    requires
        in_bounds(reading),
        canvas::painted(pre, post, changes_layer(shown, reading)),
        0 <= x < 480,
        0 <= y < 480,
    ensures
        Some(canvas::pixel(post, x, y)) == if 88 <= x <= 212 && 90 <= y <= 274 && reading.0
            != shown.0 {
            widgets::humidity_layer(reading.0)(x, y)
        } else if 296 <= x <= 364 && 100 <= y <= 274 && reading.1 != shown.1 {
            widgets::temperature_layer(reading.1)(x, y)
        } else if 166 <= x <= 314 && 300 <= y <= 454 && reading.2 != shown.2 {
            widgets::watering_layer(reading.2)(x, y)
        } else {
            Some(canvas::pixel(pre, x, y))
        },
{
    assert(canvas::on_panel(x, y));
    law_widgets_cover_their_boxes(reading, x, y);
    assert(widgets::humidity_layer(reading.0)(x, y) is Some ==> canvas::in_box(DROP_BOX, x, y));
    assert(widgets::temperature_layer(reading.1)(x, y) is Some ==> canvas::in_box(
        THERMO_BOX,
        x,
        y,
    ));
    assert(widgets::watering_layer(reading.2)(x, y) is Some ==> canvas::in_box(CLOUD_BOX, x, y));
}

} // verus!
