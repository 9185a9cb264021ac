//! RGB565 framebuffer and the integer-only fill/outline primitives the
//! dashboard gauges are drawn with.
//!
//! What each primitive paints is a [`Layer`](crate::canvas::Layer); its contract
//! says that the buffer is [`painted`](crate::canvas::painted) with that layer.

use vstd::prelude::*;

use crate::board::{FB_SIZE, H_RES, V_RES};
use crate::canvas;
use crate::geometry;
use crate::palette;
use crate::palette::Rgb565;
use crate::text;
use crate::text::{Font, MASK_ROW, MASK_SIZE};

verus! {

/// One pixel to plot: its column, its row and its colour.
pub type Pixel = (i32, i32, Rgb565);

/// A mutable view over the raw little-endian RGB565 framebuffer bytes.
pub struct FrameBuf<'a> {
    pub buf: &'a mut [u8],
}

impl View for FrameBuf<'_> {
    type V = Seq<u8>;

    open spec fn view(&self) -> Seq<u8> {
        self.buf@
    }
}

/// The panel as an inclusive rectangle.
pub const PANEL_BOX: (i32, i32, i32, i32) = (0, 0, 479, 479);

/// One pixel.
pub open spec fn dot(x: int, y: int, colour: Rgb565) -> canvas::Layer {
    |px: int, py: int|
        if px == x && py == y {
            Some(palette::word(colour))
        } else {
            None
        }
}

/// An inclusive rectangle.
pub open spec fn rect(x0: int, y0: int, x1: int, y1: int, colour: Rgb565) -> canvas::Layer {
    |px: int, py: int|
        if x0 <= px <= x1 && y0 <= py <= y1 {
            Some(palette::word(colour))
        } else {
            None
        }
}

/// A disc of radius `r`.
pub open spec fn disc(cx: int, cy: int, r: int, colour: Rgb565) -> canvas::Layer {
    |px: int, py: int|
        if geometry::in_disc(px - cx, py - cy, r) {
            Some(palette::word(colour))
        } else {
            None
        }
}

/// The outline of a disc of radius `r`.
pub open spec fn circle(cx: int, cy: int, r: int, colour: Rgb565) -> canvas::Layer {
    |px: int, py: int|
        if geometry::on_circle(px - cx, py - cy, r) {
            Some(palette::word(colour))
        } else {
            None
        }
}

/// The upper half of the outline of a disc, its centre row with it.
pub open spec fn dome(cx: int, cy: int, r: int, colour: Rgb565) -> canvas::Layer {
    |px: int, py: int|
        if py <= cy && geometry::on_circle(px - cx, py - cy, r) {
            Some(palette::word(colour))
        } else {
            None
        }
}

/// The pixels of a mask.
pub open spec fn stencil(mask: Seq<u8>, colour: Rgb565) -> canvas::Layer {
    |px: int, py: int|
        if canvas::on_panel(px, py) && text::lit(mask, px, py) {
            Some(palette::word(colour))
        } else {
            None
        }
}

/// Text centred at `(x, y)`.
pub open spec fn label(s: Seq<char>, x: int, y: int, font: Font, colour: Rgb565) -> canvas::Layer {
    stencil(text::text_mask(s, x, y, font), colour)
}

/// Pixels plotted one after the other: where several hit one place, the last
/// one stays.
pub open spec fn plotted(pixels: Seq<Pixel>) -> canvas::Layer {
    |px: int, py: int| last_plotted(pixels, px, py)
}

/// What the last of the pixels that hit this place puts there.
pub open spec fn last_plotted(pixels: Seq<Pixel>, px: int, py: int) -> Option<int>
    decreases pixels.len(),
{
    if pixels.len() == 0 {
        None
    } else if pixels.last().0 == px && pixels.last().1 == py {
        Some(palette::word(pixels.last().2))
    } else {
        last_plotted(pixels.drop_last(), px, py)
    }
}

/// A disc of this radius around this centre can be drawn in machine
/// arithmetic. One of negative radius has no pixel.
pub open spec fn disc_fits(cx: int, cy: int, r: int) -> bool {
    &&& i32::MIN < r <= 46340
    &&& 0 <= r ==> i32::MIN <= cx - r && cx + r <= i32::MAX
    &&& 0 <= r ==> i32::MIN <= cy - r && cy + r <= i32::MAX
}

/// The upper half of a disc can be drawn in machine arithmetic.
pub open spec fn dome_fits(cx: int, cy: int, r: int) -> bool {
    &&& i32::MIN < r <= 46340
    &&& 0 <= r ==> i32::MIN <= cx - r && cx + r <= i32::MAX
    &&& 0 <= r ==> i32::MIN <= cy - r
}

impl<'a> FrameBuf<'a> {
    /// The buffer holds the whole panel.
    pub open spec fn wf(&self) -> bool {
        self@.len() >= FB_SIZE
    }

    /// Wrap the raw framebuffer byte slice (`H_RES * V_RES * 2` bytes).
    pub fn new(buf: &'a mut [u8]) -> (fb: Self)
        ensures
            fb@ == old(buf)@,
            fb.wf() <==> old(buf)@.len() >= FB_SIZE,
            final(fb.buf)@ == final(buf)@,
    {
        Self { buf }
    }

    /// The panel's bounding box: column and row of its top left corner, then
    /// its width and height.
    pub fn bounding_box(&self) -> (area: (i32, i32, u32, u32))
        ensures
            area == (0i32, 0i32, 480u32, 480u32),
            forall|x: int, y: int|
                #[trigger] canvas::on_panel(x, y) <==> area.0 <= x < area.0 + area.2 && area.1 <= y
                    < area.1 + area.3,
    {
        (0, 0, H_RES as u32, V_RES as u32)
    }

    fn put(&mut self, x: usize, y: usize, color: Rgb565)
        requires
            canvas::on_panel(x as int, y as int) ==> old(self).wf(),
        ensures
            canvas::painted(old(self)@, final(self)@, dot(x as int, y as int, color)),
            !canvas::on_panel(x as int, y as int) ==> final(self)@ == old(self)@,
            final(final(self).buf)@ == final(old(self).buf)@,
    {
        if x >= H_RES || y >= V_RES {
            return;
        }
        let idx: usize = (y * H_RES + x) * 2;
        let raw: u16 = palette::raw_word(color);
        // Little-endian, matching the DPI 2-byte word order.
        let low: u8 = (raw & 0xFF) as u8;
        let high: u8 = (raw >> 8) as u8;
        self.buf[idx] = low;
        self.buf[idx + 1] = high;
        proof {
            assert(((raw & 0xFF) as u8) + 256 * ((raw >> 8) as u8) == raw) by (bit_vector);
        }
    }

    /// Signed-coordinate pixel plot; silently drops out-of-range points.
    pub fn pset(&mut self, x: i32, y: i32, color: Rgb565)
        requires
            canvas::on_panel(x as int, y as int) ==> old(self).wf(),
        ensures
            canvas::painted(old(self)@, final(self)@, dot(x as int, y as int, color)),
            !canvas::on_panel(x as int, y as int) ==> final(self)@ == old(self)@,
            final(final(self).buf)@ == final(old(self).buf)@,
    {
        if x >= 0 && y >= 0 {
            self.put(x as usize, y as usize, color);
        }
    }

    /// Fill a horizontal span [x0, x1] on row `y`.
    pub fn hspan(&mut self, y: i32, x0: i32, x1: i32, color: Rgb565)
        requires
            old(self).wf(),
        ensures
            canvas::painted(
                old(self)@,
                final(self)@,
                rect(x0 as int, y as int, x1 as int, y as int, color),
            ),
            final(final(self).buf)@ == final(old(self).buf)@,
    {
        let left: i32 = x0.max(0);
        let right: i32 = x1.min(H_RES as i32 - 1);
        let mut x: i32 = left;
        while x <= right
            invariant
                self.wf(),
                left <= x,
                x <= right + 1 || x == left,
                right < H_RES,
                canvas::painted(
                    old(self)@,
                    self@,
                    rect(left as int, y as int, x - 1, y as int, color),
                ),
                final(self.buf)@ == final(old(self).buf)@,
            decreases right + 1 - x,
        {
            let ghost before = self@;
            self.pset(x, y, color);
            proof {
                canvas::lemma_add_layer(
                    old(self)@,
                    before,
                    self@,
                    rect(left as int, y as int, x - 1, y as int, color),
                    dot(x as int, y as int, color),
                    rect(left as int, y as int, x as int, y as int, color),
                );
            }
            x += 1;
        }
    }

    /// Fill a vertical line [y0, y1] in column `x`.
    pub fn vline(&mut self, x: i32, y0: i32, y1: i32, color: Rgb565)
        requires
            old(self).wf(),
        ensures
            canvas::painted(
                old(self)@,
                final(self)@,
                rect(x as int, y0 as int, x as int, y1 as int, color),
            ),
            final(final(self).buf)@ == final(old(self).buf)@,
    {
        let top: i32 = y0.max(0);
        let bottom: i32 = y1.min(V_RES as i32 - 1);
        let mut y: i32 = top;
        while y <= bottom
            invariant
                self.wf(),
                top <= y,
                y <= bottom + 1 || y == top,
                bottom < V_RES,
                canvas::painted(
                    old(self)@,
                    self@,
                    rect(x as int, top as int, x as int, y - 1, color),
                ),
                final(self.buf)@ == final(old(self).buf)@,
            decreases bottom + 1 - y,
        {
            let ghost before = self@;
            self.pset(x, y, color);
            proof {
                canvas::lemma_add_layer(
                    old(self)@,
                    before,
                    self@,
                    rect(x as int, top as int, x as int, y - 1, color),
                    dot(x as int, y as int, color),
                    rect(x as int, top as int, x as int, y as int, color),
                );
            }
            y += 1;
        }
    }

    /// Fill the rectangle with corners `(x0, y0)` and `(x1, y1)`, both included.
    pub fn fill_rect(&mut self, x0: i32, y0: i32, x1: i32, y1: i32, color: Rgb565)
        requires
            old(self).wf(),
        ensures
            canvas::painted(
                old(self)@,
                final(self)@,
                rect(x0 as int, y0 as int, x1 as int, y1 as int, color),
            ),
            final(final(self).buf)@ == final(old(self).buf)@,
    {
        let mut y: i64 = y0 as i64;
        while y <= y1 as i64
            invariant
                self.wf(),
                y0 <= y,
                y <= y1 + 1 || y == y0,
                canvas::painted(
                    old(self)@,
                    self@,
                    rect(x0 as int, y0 as int, x1 as int, y - 1, color),
                ),
                final(self.buf)@ == final(old(self).buf)@,
            decreases y1 + 1 - y,
        {
            let ghost before = self@;
            self.hspan(y as i32, x0, x1, color);
            proof {
                canvas::lemma_add_layer(
                    old(self)@,
                    before,
                    self@,
                    rect(x0 as int, y0 as int, x1 as int, y - 1, color),
                    rect(x0 as int, y as int, x1 as int, y as int, color),
                    rect(x0 as int, y0 as int, x1 as int, y as int, color),
                );
            }
            y += 1;
        }
    }

    /// Fill a disc.
    pub fn fill_disc(&mut self, cx: i32, cy: i32, r: i32, color: Rgb565)
        requires
            old(self).wf(),
            disc_fits(cx as int, cy as int, r as int),
        ensures
            canvas::painted(
                old(self)@,
                final(self)@,
                disc(cx as int, cy as int, r as int, color),
            ),
            final(final(self).buf)@ == final(old(self).buf)@,
    {
        proof {
            lemma_disc_extent(cx as int, cy as int, r as int);
        }
        let mut dy: i32 = -r;
        while dy <= r
            invariant
                self.wf(),
                disc_fits(cx as int, cy as int, r as int),
                -r <= dy,
                dy <= r + 1 || dy == -r,
                canvas::painted(
                    old(self)@,
                    self@,
                    canvas::rows_before(disc(cx as int, cy as int, r as int, color), cy + dy),
                ),
                final(self.buf)@ == final(old(self).buf)@,
            decreases r + 1 - dy,
        {
            proof {
                geometry::lemma_disc_row_range(dy as int, r as int);
            }
            let hw: i32 = isqrt(r * r - dy * dy);
            proof {
                geometry::law_floor_sqrt_is_root(r * r - dy * dy);
                geometry::lemma_disc_row(0, dy as int, r as int, hw as int);
            }
            let ghost before = self@;
            self.hspan(cy + dy, cx - hw, cx + hw, color);
            proof {
                assert forall|px: int| #[trigger]
                    geometry::in_disc(px - cx, dy as int, r as int) <==> cx - hw <= px <= cx
                        + hw by {
                    geometry::lemma_disc_row(px - cx, dy as int, r as int, hw as int);
                }
                canvas::lemma_add_layer(
                    old(self)@,
                    before,
                    self@,
                    canvas::rows_before(disc(cx as int, cy as int, r as int, color), cy + dy),
                    rect(cx - hw, cy + dy, cx + hw, cy + dy, color),
                    canvas::rows_before(disc(cx as int, cy as int, r as int, color), cy + dy + 1),
                );
            }
            dy += 1;
        }
        proof {
            lemma_disc_extent(cx as int, cy as int, r as int);
        }
    }

    /// One-pixel circle outline.
    pub fn ring(&mut self, cx: i32, cy: i32, r: i32, color: Rgb565)
        requires
            old(self).wf(),
            disc_fits(cx as int, cy as int, r as int),
        ensures
            canvas::painted(
                old(self)@,
                final(self)@,
                circle(cx as int, cy as int, r as int, color),
            ),
            final(final(self).buf)@ == final(old(self).buf)@,
    {
        let ghost rows = row_ends(cx as int, cy as int, r as int, color);
        let ghost columns = column_ends(cx as int, cy as int, r as int, color);
        proof {
            lemma_disc_extent(cx as int, cy as int, r as int);
        }
        let mut dy: i32 = -r;
        while dy <= r
            invariant
                self.wf(),
                disc_fits(cx as int, cy as int, r as int),
                -r <= dy,
                dy <= r + 1 || dy == -r,
                rows == row_ends(cx as int, cy as int, r as int, color),
                canvas::painted(old(self)@, self@, canvas::rows_before(rows, cy + dy)),
                final(self.buf)@ == final(old(self).buf)@,
            decreases r + 1 - dy,
        {
            proof {
                geometry::lemma_disc_row_range(dy as int, r as int);
            }
            let hw: i32 = isqrt(r * r - dy * dy);
            proof {
                geometry::law_floor_sqrt_is_root(r * r - dy * dy);
                geometry::lemma_disc_row(0, dy as int, r as int, hw as int);
            }
            let ghost before = self@;
            self.pset(cx - hw, cy + dy, color);
            let ghost between = self@;
            self.pset(cx + hw, cy + dy, color);
            proof {
                assert forall|px: int| #[trigger]
                    geometry::row_end(px - cx, dy as int, r as int) <==> px == cx - hw || px == cx
                        + hw by {
                    geometry::lemma_row_ends(px - cx, dy as int, r as int, hw as int);
                }
                canvas::law_paint_twice(
                    before,
                    between,
                    self@,
                    dot(cx - hw, cy + dy, color),
                    dot(cx + hw, cy + dy, color),
                );
                canvas::lemma_add_layer(
                    old(self)@,
                    before,
                    self@,
                    canvas::rows_before(rows, cy + dy),
                    canvas::over(dot(cx + hw, cy + dy, color), dot(cx - hw, cy + dy, color)),
                    canvas::rows_before(rows, cy + dy + 1),
                );
            }
            dy += 1;
        }
        let ghost halfway = self@;
        proof {
            lemma_disc_extent(cx as int, cy as int, r as int);
            assert(canvas::painted(old(self)@, halfway, rows));
        }
        let mut dx: i32 = -r;
        while dx <= r
            invariant
                self.wf(),
                disc_fits(cx as int, cy as int, r as int),
                -r <= dx,
                dx <= r + 1 || dx == -r,
                columns == column_ends(cx as int, cy as int, r as int, color),
                canvas::painted(halfway, self@, columns_before(columns, cx + dx)),
                final(self.buf)@ == final(old(self).buf)@,
            decreases r + 1 - dx,
        {
            proof {
                geometry::lemma_disc_row_range(dx as int, r as int);
            }
            let hw: i32 = isqrt(r * r - dx * dx);
            proof {
                geometry::law_floor_sqrt_is_root(r * r - dx * dx);
                geometry::lemma_disc_row(0, dx as int, r as int, hw as int);
            }
            let ghost before = self@;
            self.pset(cx + dx, cy - hw, color);
            let ghost between = self@;
            self.pset(cx + dx, cy + hw, color);
            proof {
                assert forall|py: int| #[trigger]
                    geometry::column_end(dx as int, py - cy, r as int) <==> py == cy - hw || py
                        == cy + hw by {
                    geometry::lemma_row_ends(py - cy, dx as int, r as int, hw as int);
                }
                canvas::law_paint_twice(
                    before,
                    between,
                    self@,
                    dot(cx + dx, cy - hw, color),
                    dot(cx + dx, cy + hw, color),
                );
                canvas::lemma_add_layer(
                    halfway,
                    before,
                    self@,
                    columns_before(columns, cx + dx),
                    canvas::over(dot(cx + dx, cy + hw, color), dot(cx + dx, cy - hw, color)),
                    columns_before(columns, cx + dx + 1),
                );
            }
            dx += 1;
        }
        proof {
            lemma_disc_extent(cx as int, cy as int, r as int);
            assert(canvas::painted(halfway, self@, columns));
            canvas::lemma_add_layer(
                old(self)@,
                halfway,
                self@,
                rows,
                columns,
                circle(cx as int, cy as int, r as int, color),
            );
        }
    }

    /// Upper-semicircle outline (a dome cap), gap-free via both scan axes.
    pub fn arc_top(&mut self, cx: i32, cy: i32, r: i32, color: Rgb565)
        requires
            old(self).wf(),
            dome_fits(cx as int, cy as int, r as int),
        ensures
            canvas::painted(
                old(self)@,
                final(self)@,
                dome(cx as int, cy as int, r as int, color),
            ),
            final(final(self).buf)@ == final(old(self).buf)@,
    {
        let ghost columns = upper(column_ends(cx as int, cy as int, r as int, color), cy as int);
        let ghost rows = upper(row_ends(cx as int, cy as int, r as int, color), cy as int);
        proof {
            lemma_disc_extent(cx as int, cy as int, r as int);
        }
        let mut dx: i32 = -r;
        while dx <= r
            invariant
                self.wf(),
                dome_fits(cx as int, cy as int, r as int),
                -r <= dx,
                dx <= r + 1 || dx == -r,
                columns == upper(column_ends(cx as int, cy as int, r as int, color), cy as int),
                canvas::painted(old(self)@, self@, columns_before(columns, cx + dx)),
                final(self.buf)@ == final(old(self).buf)@,
            decreases r + 1 - dx,
        {
            proof {
                geometry::lemma_disc_row_range(dx as int, r as int);
            }
            let dy: i32 = isqrt(r * r - dx * dx);
            proof {
                geometry::law_floor_sqrt_is_root(r * r - dx * dx);
                geometry::lemma_disc_row(0, dx as int, r as int, dy as int);
            }
            let ghost before = self@;
            self.pset(cx + dx, cy - dy, color);
            proof {
                assert forall|py: int| py <= cy implies (#[trigger] geometry::column_end(
                    dx as int,
                    py - cy,
                    r as int,
                ) <==> py == cy - dy) by {
                    geometry::lemma_row_ends(py - cy, dx as int, r as int, dy as int);
                }
                canvas::lemma_add_layer(
                    old(self)@,
                    before,
                    self@,
                    columns_before(columns, cx + dx),
                    dot(cx + dx, cy - dy, color),
                    columns_before(columns, cx + dx + 1),
                );
            }
            dx += 1;
        }
        let ghost halfway = self@;
        proof {
            lemma_disc_extent(cx as int, cy as int, r as int);
            assert(canvas::painted(old(self)@, halfway, columns));
        }
        let mut dy: i32 = 0;
        while dy <= r
            invariant
                self.wf(),
                dome_fits(cx as int, cy as int, r as int),
                0 <= dy,
                dy <= r + 1 || dy == 0,
                rows == upper(row_ends(cx as int, cy as int, r as int, color), cy as int),
                canvas::painted(halfway, self@, rows_after(rows, cy - dy)),
                final(self.buf)@ == final(old(self).buf)@,
            decreases r + 1 - dy,
        {
            proof {
                geometry::lemma_disc_row_range(dy as int, r as int);
            }
            let dx: i32 = isqrt(r * r - dy * dy);
            proof {
                geometry::law_floor_sqrt_is_root(r * r - dy * dy);
                geometry::lemma_disc_row(0, dy as int, r as int, dx as int);
            }
            let ghost before = self@;
            self.pset(cx - dx, cy - dy, color);
            let ghost between = self@;
            self.pset(cx + dx, cy - dy, color);
            proof {
                assert((-dy) * (-dy) == dy * dy) by (nonlinear_arith);
                assert forall|px: int| #[trigger]
                    geometry::row_end(px - cx, -dy as int, r as int) <==> px == cx - dx || px == cx
                        + dx by {
                    geometry::lemma_row_ends(px - cx, -dy as int, r as int, dx as int);
                }
                canvas::law_paint_twice(
                    before,
                    between,
                    self@,
                    dot(cx - dx, cy - dy, color),
                    dot(cx + dx, cy - dy, color),
                );
                canvas::lemma_add_layer(
                    halfway,
                    before,
                    self@,
                    rows_after(rows, cy - dy),
                    canvas::over(dot(cx + dx, cy - dy, color), dot(cx - dx, cy - dy, color)),
                    rows_after(rows, cy - dy - 1),
                );
            }
            dy += 1;
        }
        proof {
            lemma_disc_extent(cx as int, cy as int, r as int);
            assert(canvas::painted(halfway, self@, rows));
            canvas::lemma_add_layer(
                old(self)@,
                halfway,
                self@,
                columns,
                rows,
                dome(cx as int, cy as int, r as int, color),
            );
        }
    }

    /// Plot pixels one after the other; silently drops out-of-range points.
    pub fn draw_iter(&mut self, pixels: &[Pixel])
        requires
            old(self).wf(),
        ensures
            canvas::painted(old(self)@, final(self)@, plotted(pixels@)),
            final(final(self).buf)@ == final(old(self).buf)@,
    {
        let mut i: usize = 0;
        while i < pixels.len()
            invariant
                self.wf(),
                i <= pixels@.len(),
                canvas::painted(old(self)@, self@, plotted(pixels@.take(i as int))),
                final(self.buf)@ == final(old(self).buf)@,
            decreases pixels.len() - i,
        {
            let (x, y, color) = pixels[i];
            let ghost before = self@;
            if x >= 0 && y >= 0 {
                self.put(x as usize, y as usize, color);
            }
            proof {
                let longer = pixels@.take(i + 1);
                assert(longer.drop_last() =~= pixels@.take(i as int));
                assert(longer.last() == pixels@[i as int]);
                canvas::lemma_add_layer(
                    old(self)@,
                    before,
                    self@,
                    plotted(pixels@.take(i as int)),
                    dot(x as int, y as int, color),
                    plotted(longer),
                );
            }
            i += 1;
        }
        proof {
            assert(pixels@.take(i as int) =~= pixels@);
        }
    }

    /// Plot every pixel whose bit is set in a mask of the panel.
    pub fn draw_mask(&mut self, mask: &[u8], color: Rgb565)
        requires
            old(self).wf(),
            mask@.len() >= MASK_SIZE,
        ensures
            canvas::painted(old(self)@, final(self)@, stencil(mask@, color)),
            final(final(self).buf)@ == final(old(self).buf)@,
    {
        self.draw_mask_within(mask, PANEL_BOX, color);
        proof {
            canvas::lemma_same_layer(
                old(self)@,
                self@,
                canvas::clipped(stencil(mask@, color), PANEL_BOX),
                stencil(mask@, color),
            );
        }
    }

    /// Plot every pixel of the rectangle whose bit is set in a mask of the panel.
    pub fn draw_mask_within(&mut self, mask: &[u8], area: (i32, i32, i32, i32), color: Rgb565)
        requires
            old(self).wf(),
            mask@.len() >= MASK_SIZE,
        ensures
            canvas::painted(
                old(self)@,
                final(self)@,
                canvas::clipped(stencil(mask@, color), area),
            ),
            final(final(self).buf)@ == final(old(self).buf)@,
    {
        let (x0, y0, x1, y1) = area;
        let ghost layer = canvas::clipped(stencil(mask@, color), area);
        let mut y: usize = 0;
        while y < V_RES
            invariant
                self.wf(),
                mask@.len() >= MASK_SIZE,
                y <= V_RES,
                area == (x0, y0, x1, y1),
                layer == canvas::clipped(stencil(mask@, color), area),
                canvas::painted(old(self)@, self@, canvas::rows_before(layer, y as int)),
                final(self.buf)@ == final(old(self).buf)@,
            decreases V_RES - y,
        {
            let ghost row_start = self@;
            let ghost row = |px: int, py: int| if py == y { layer(px, py) } else { None };
            let mut x: usize = 0;
            while x < H_RES
                invariant
                    self.wf(),
                    mask@.len() >= MASK_SIZE,
                    y < V_RES,
                    x <= H_RES,
                    area == (x0, y0, x1, y1),
                    layer == canvas::clipped(stencil(mask@, color), area),
                    row == (|px: int, py: int| if py == y { layer(px, py) } else { None }),
                    canvas::painted(row_start, self@, columns_before(row, x as int)),
                    final(self.buf)@ == final(old(self).buf)@,
                decreases H_RES - x,
            {
                let ghost before = self@;
                let bits: u8 = mask[y * MASK_ROW + x / 8];
                let (px, py): (i32, i32) = (x as i32, y as i32);
                let inside: bool = x0 <= px && px <= x1 && y0 <= py && py <= y1;
                if inside && (bits >> ((7 - x % 8) as u8)) & 1 == 1 {
                    self.put(x, y, color);
                    proof {
                        canvas::lemma_add_layer(
                            row_start,
                            before,
                            self@,
                            columns_before(row, x as int),
                            dot(x as int, y as int, color),
                            columns_before(row, x + 1),
                        );
                    }
                } else {
                    proof {
                        assert(!inside || !text::lit(mask@, x as int, y as int));
                        assert forall|px: int, py: int|
                            canvas::on_panel(px, py) implies #[trigger] columns_before(row, x + 1)(
                            px,
                            py,
                        ) == columns_before(row, x as int)(px, py) by {
                            if px == x && py == y {
                                assert(layer(px, py) is None);
                            }
                        }
                        canvas::lemma_same_layer(
                            row_start,
                            self@,
                            columns_before(row, x as int),
                            columns_before(row, x + 1),
                        );
                    }
                }
                x += 1;
            }
            proof {
                canvas::lemma_add_layer(
                    old(self)@,
                    row_start,
                    self@,
                    canvas::rows_before(layer, y as int),
                    columns_before(row, x as int),
                    canvas::rows_before(layer, y + 1),
                );
            }
            y += 1;
        }
        proof {
            canvas::lemma_same_layer(old(self)@, self@, canvas::rows_before(layer, y as int), layer);
        }
    }
}

/// Draw horizontally- and vertically-centred text at `(x, y)`.
pub fn text_center(fb: &mut FrameBuf, s: &str, x: i32, y: i32, font: Font, colour: Rgb565)
    requires
        old(fb).wf(),
        text::text_fits(s@, x as int, y as int, font),
    ensures
        canvas::painted(
            old(fb)@,
            final(fb)@,
            label(s@, x as int, y as int, font, colour),
        ),
        !s@.contains('\n') ==> within_cells(
            label(s@, x as int, y as int, font, colour),
            s@,
            x as int,
            y as int,
            font,
        ),
        final(final(fb).buf)@ == final(old(fb).buf)@,
{
    let mask: Vec<u8> = text::render_mask(s, x, y, font);
    fb.draw_mask(mask.as_slice(), colour);
}

/// Draw text centred at `(x, y)`, as far as it lies in the rectangle.
pub fn text_center_within(
    fb: &mut FrameBuf,
    s: &str,
    x: i32,
    y: i32,
    font: Font,
    colour: Rgb565,
    area: (i32, i32, i32, i32),
)
    requires
        old(fb).wf(),
        text::text_fits(s@, x as int, y as int, font),
    ensures
        canvas::painted(
            old(fb)@,
            final(fb)@,
            canvas::clipped(label(s@, x as int, y as int, font, colour), area),
        ),
        !s@.contains('\n') ==> within_cells(
            label(s@, x as int, y as int, font, colour),
            s@,
            x as int,
            y as int,
            font,
        ),
        final(final(fb).buf)@ == final(old(fb).buf)@,
{
    let mask: Vec<u8> = text::render_mask(s, x, y, font);
    fb.draw_mask_within(mask.as_slice(), area, colour);
}

/// The layer keeps to the character cells of a line of text.
pub open spec fn within_cells(
    layer: canvas::Layer,
    s: Seq<char>,
    x: int,
    y: int,
    font: Font,
) -> bool {
    forall|px: int, py: int| #[trigger]
        layer(px, py) is Some ==> text::in_cells(s.len() as int, x, y, font, px, py)
}

/// The two ends of each row of a disc.
spec fn row_ends(cx: int, cy: int, r: int, colour: Rgb565) -> canvas::Layer {
    |px: int, py: int|
        if geometry::row_end(px - cx, py - cy, r) {
            Some(palette::word(colour))
        } else {
            None
        }
}

/// The two ends of each column of a disc.
spec fn column_ends(cx: int, cy: int, r: int, colour: Rgb565) -> canvas::Layer {
    |px: int, py: int|
        if geometry::column_end(px - cx, py - cy, r) {
            Some(palette::word(colour))
        } else {
            None
        }
}

/// The part of a layer in the columns before `column`.
spec fn columns_before(layer: canvas::Layer, column: int) -> canvas::Layer {
    |px: int, py: int|
        if px < column {
            layer(px, py)
        } else {
            None
        }
}

/// The part of a layer in the rows after `row`.
spec fn rows_after(layer: canvas::Layer, row: int) -> canvas::Layer {
    |px: int, py: int|
        if py > row {
            layer(px, py)
        } else {
            None
        }
}

/// The part of a layer in the rows up to `row`.
spec fn upper(layer: canvas::Layer, row: int) -> canvas::Layer {
    |px: int, py: int|
        if py <= row {
            layer(px, py)
        } else {
            None
        }
}

/// A disc keeps to the rows and columns within its radius.
proof fn lemma_disc_extent(cx: int, cy: int, r: int)
    ensures
        forall|px: int, py: int| #[trigger]
            geometry::in_disc(px - cx, py - cy, r) ==> cx - r <= px <= cx + r && cy - r <= py <= cy
                + r,
{
    assert forall|px: int, py: int| #[trigger]
        geometry::in_disc(px - cx, py - cy, r) implies cx - r <= px <= cx + r && cy - r <= py <= cy
        + r by {
        geometry::lemma_disc_bounds(px - cx, py - cy, r);
    }
}

/// Integer square root (Newton's method); returns 0 for non-positive input.
pub fn isqrt(n: i32) -> (root: i32)
    ensures
        n <= 0 ==> root == 0,
        n > 0 ==> geometry::is_root(n as int, root as int),
        n > 0 ==> 0 < root && root * root <= n < (root + 1) * (root + 1),
        root == geometry::floor_sqrt(n as int),
{
    if n <= 0 {
        return 0;
    }
    let mut x: i32 = n;
    let mut y: i32 = x / 2 + x % 2;
    proof {
        assert(n < (n + 1) * (n + 1)) by (nonlinear_arith)
            requires
                0 < n,
        ;
        assert(n as int / n as int == 1) by (nonlinear_arith)
            requires
                0 < n,
        ;
    }
    while y < x
        invariant
            1 <= x <= n,
            n < (x + 1) * (x + 1),
            y == (x + n as int / x as int) / 2,
        decreases x,
    {
        let ghost q = n as int / x as int;
        proof {
            lemma_newton_step(n as int, x as int, q, y as int);
        }
        x = y;
        proof {
            lemma_newton_bound(n as int, x as int);
        }
        y = (x + n / x) / 2;
    }
    proof {
        lemma_newton_stop(n as int, x as int, n as int / x as int);
        geometry::law_floor_sqrt_is_root(n as int);
        geometry::law_root_is_unique(n as int, x as int, geometry::floor_sqrt(n as int));
    }
    x
}

proof fn lemma_newton_step(n: int, x: int, q: int, y: int)
    requires
        1 <= x <= n,
        q == n / x,
        y == (x + q) / 2,
    ensures
        1 <= y,
        n < (y + 1) * (y + 1),
{
    assert(n < x * (q + 1)) by (nonlinear_arith)
        requires
            1 <= x,
            q == n / x,
    ;
    assert(1 <= q) by (nonlinear_arith)
        requires
            1 <= x <= n,
            q == n / x,
    ;
    let s = x + (q + 1);
    assert(4 * (x * (q + 1)) <= s * s) by (nonlinear_arith)
        requires
            s == x + (q + 1),
    ;
    assert(s * s <= 4 * ((y + 1) * (y + 1))) by (nonlinear_arith)
        requires
            0 <= s <= 2 * (y + 1),
    ;
}

proof fn lemma_newton_bound(n: int, x: int)
    requires
        1 <= x < n,
        n < (x + 1) * (x + 1),
    ensures
        1 <= n / x,
        x + n / x <= n || x + n / x <= 4,
{
    let q = n / x;
    assert(x * q <= n) by (nonlinear_arith)
        requires
            1 <= x,
            q == n / x,
    ;
    assert(1 <= q) by (nonlinear_arith)
        requires
            1 <= x < n,
            q == n / x,
    ;
    if x == 1 {
        assert(q <= 3) by (nonlinear_arith)
            requires
                x == 1,
                x * q <= n,
                n < (x + 1) * (x + 1),
        ;
    } else if q >= 2 {
        assert(x + q <= x * q) by (nonlinear_arith)
            requires
                2 <= x,
                2 <= q,
        ;
    }
}

proof fn lemma_newton_stop(n: int, x: int, q: int)
    requires
        1 <= x,
        q == n / x,
        x <= (x + q) / 2,
    ensures
        x * x <= n,
{
    assert(x * q <= n) by (nonlinear_arith)
        requires
            1 <= x,
            q == n / x,
    ;
    assert(x * x <= x * q) by (nonlinear_arith)
        requires
            1 <= x <= q,
    ;
}

// ---------------------------------------------------------------------------
// What the primitives draw, pixel by pixel
// ---------------------------------------------------------------------------

/// Plotting a pixel sets that one and no other.
pub proof fn law_one_pixel_is_plotted(
    pre: Seq<u8>,
    post: Seq<u8>,
    x: int,
    y: int,
    colour: Rgb565,
    px: int,
    py: int,
)
    requires
        canvas::painted(pre, post, dot(x, y, colour)),
        0 <= px < 480,
        0 <= py < 480,
    ensures
        px == x && py == y ==> canvas::pixel(post, px, py) == palette::word(colour),
        px != x || py != y ==> canvas::pixel(post, px, py) == canvas::pixel(pre, px, py),
{
    assert(canvas::on_panel(px, py));
}

/// Filling a rectangle (a span and a line are thin ones) sets the pixels between
/// its corners, both included, and no others.
pub proof fn law_rectangle_is_filled(
    pre: Seq<u8>,
    post: Seq<u8>,
    x0: int,
    y0: int,
    x1: int,
    y1: int,
    colour: Rgb565,
    px: int,
    py: int,
)
    requires
        canvas::painted(pre, post, rect(x0, y0, x1, y1, colour)),
        0 <= px < 480,
        0 <= py < 480,
    ensures
        canvas::pixel(post, px, py) == if x0 <= px && px <= x1 && y0 <= py && py <= y1 {
            palette::word(colour)
        } else {
            canvas::pixel(pre, px, py)
        },
{
    assert(canvas::on_panel(px, py));
}

/// Filling a disc sets the pixels whose distance from its centre is at most its
/// radius, and no others.
pub proof fn law_disc_is_filled(
    pre: Seq<u8>,
    post: Seq<u8>,
    cx: int,
    cy: int,
    r: int,
    colour: Rgb565,
    px: int,
    py: int,
)
    requires
        canvas::painted(pre, post, disc(cx, cy, r, colour)),
        0 <= px < 480,
        0 <= py < 480,
    ensures
        canvas::pixel(post, px, py) == if r >= 0 && (px - cx) * (px - cx) + (py - cy) * (py - cy)
            <= r * r {
            palette::word(colour)
        } else {
            canvas::pixel(pre, px, py)
        },
{
    assert(canvas::on_panel(px, py));
}

/// A ring sets the pixels of the disc that leave it with one more step away from
/// the centre, along their row or along their column, and no others. A dome
/// does so down to the row of its centre.
pub proof fn law_outline_is_drawn(
    pre: Seq<u8>,
    ring: Seq<u8>,
    arc: Seq<u8>,
    cx: int,
    cy: int,
    r: int,
    colour: Rgb565,
    px: int,
    py: int,
)
    requires
        canvas::painted(pre, ring, circle(cx, cy, r, colour)),
        canvas::painted(pre, arc, dome(cx, cy, r, colour)),
        0 <= px < 480,
        0 <= py < 480,
    ensures
        ({
            let dx = if px < cx {
                cx - px
            } else {
                px - cx
            };
            let dy = if py < cy {
                cy - py
            } else {
                py - cy
            };
            let on = r >= 0 && dx * dx + dy * dy <= r * r && ((dx + 1) * (dx + 1) + dy * dy > r * r
                || dx * dx + (dy + 1) * (dy + 1) > r * r);
            &&& canvas::pixel(ring, px, py) == if on {
                palette::word(colour)
            } else {
                canvas::pixel(pre, px, py)
            }
            &&& canvas::pixel(arc, px, py) == if on && py <= cy {
                palette::word(colour)
            } else {
                canvas::pixel(pre, px, py)
            }
        }),
{
    assert(canvas::on_panel(px, py));
    let (dx, dy) = (geometry::dist(px - cx), geometry::dist(py - cy));
    assert(dx * dx == (px - cx) * (px - cx)) by (nonlinear_arith)
        requires
            dx == px - cx || dx == -(px - cx),
    ;
    assert(dy * dy == (py - cy) * (py - cy)) by (nonlinear_arith)
        requires
            dy == py - cy || dy == -(py - cy),
    ;
}

/// Of the pixels in a list that hit one place, the last one stays.
pub proof fn law_last_pixel_stays(pre: Seq<u8>, post: Seq<u8>, pixels: Seq<Pixel>, i: int)
    requires
        canvas::painted(pre, post, plotted(pixels)),
        0 <= i < pixels.len(),
        0 <= pixels[i].0 < 480,
        0 <= pixels[i].1 < 480,
        forall|j: int|
            i < j < pixels.len() ==> (#[trigger] pixels[j]).0 != pixels[i].0 || pixels[j].1
                != pixels[i].1,
    ensures
        canvas::pixel(post, pixels[i].0 as int, pixels[i].1 as int) == palette::word(pixels[i].2),
{
    let (px, py) = (pixels[i].0 as int, pixels[i].1 as int);
    assert(canvas::on_panel(px, py));
    lemma_last_plotted(pixels, i, px, py);
}

/// A place that no pixel of a list hits stays as it was.
pub proof fn law_pixels_leave_the_rest(
    pre: Seq<u8>,
    post: Seq<u8>,
    pixels: Seq<Pixel>,
    px: int,
    py: int,
)
    requires
        canvas::painted(pre, post, plotted(pixels)),
        0 <= px < 480,
        0 <= py < 480,
        forall|j: int|
            0 <= j < pixels.len() ==> (#[trigger] pixels[j]).0 != px || pixels[j].1 != py,
    ensures
        canvas::pixel(post, px, py) == canvas::pixel(pre, px, py),
{
    assert(canvas::on_panel(px, py));
    lemma_none_plotted(pixels, px, py);
}

proof fn lemma_last_plotted(pixels: Seq<Pixel>, i: int, px: int, py: int)
    requires
        0 <= i < pixels.len(),
        pixels[i].0 == px,
        pixels[i].1 == py,
        forall|j: int|
            i < j < pixels.len() ==> (#[trigger] pixels[j]).0 != px || pixels[j].1 != py,
    ensures
        last_plotted(pixels, px, py) == Some(palette::word(pixels[i].2)),
    decreases pixels.len(),
{
    if i < pixels.len() - 1 {
        let rest = pixels.drop_last();
        assert forall|j: int| i < j < rest.len() implies (#[trigger] rest[j]).0 != px || rest[j].1
            != py by {
            assert(rest[j] == pixels[j]);
        }
        assert(rest[i] == pixels[i]);
        assert(pixels[pixels.len() - 1].0 != px || pixels[pixels.len() - 1].1 != py);
        lemma_last_plotted(rest, i, px, py);
    }
}

proof fn lemma_none_plotted(pixels: Seq<Pixel>, px: int, py: int)
    requires
        forall|j: int|
            0 <= j < pixels.len() ==> (#[trigger] pixels[j]).0 != px || pixels[j].1 != py,
    ensures
        last_plotted(pixels, px, py) is None,
    decreases pixels.len(),
{
    if pixels.len() > 0 {
        let rest = pixels.drop_last();
        assert forall|j: int| 0 <= j < rest.len() implies (#[trigger] rest[j]).0 != px || rest[j].1
            != py by {
            assert(rest[j] == pixels[j]);
        }
        assert(pixels[pixels.len() - 1].0 != px || pixels[pixels.len() - 1].1 != py);
        lemma_none_plotted(rest, px, py);
    }
}

/// A mask sets the pixels whose bit is set, as far as they lie in the rectangle,
/// and no others.
pub proof fn law_mask_is_drawn(
    pre: Seq<u8>,
    whole: Seq<u8>,
    part: Seq<u8>,
    mask: Seq<u8>,
    area: (i32, i32, i32, i32),
    colour: Rgb565,
    px: int,
    py: int,
)
    requires
        canvas::painted(pre, whole, stencil(mask, colour)),
        canvas::painted(pre, part, canvas::clipped(stencil(mask, colour), area)),
        0 <= px < 480,
        0 <= py < 480,
    ensures
        canvas::pixel(whole, px, py) == if text::lit(mask, px, py) {
            palette::word(colour)
        } else {
            canvas::pixel(pre, px, py)
        },
        canvas::pixel(part, px, py) == if text::lit(mask, px, py) && area.0 <= px && px <= area.2
            && area.1 <= py && py <= area.3 {
            palette::word(colour)
        } else {
            canvas::pixel(pre, px, py)
        },
{
    assert(canvas::on_panel(px, py));
}

/// Text sets the pixels of its mask, and no others.
pub proof fn law_text_is_drawn(
    pre: Seq<u8>,
    post: Seq<u8>,
    s: Seq<char>,
    x: int,
    y: int,
    font: Font,
    colour: Rgb565,
    px: int,
    py: int,
)
    requires
        canvas::painted(pre, post, label(s, x, y, font, colour)),
        0 <= px < 480,
        0 <= py < 480,
    ensures
        canvas::pixel(post, px, py) == if text::lit(text::text_mask(s, x, y, font), px, py) {
            palette::word(colour)
        } else {
            canvas::pixel(pre, px, py)
        },
{
    assert(canvas::on_panel(px, py));
}

} // verus!
