# dew firmware

The display firmware of dew, an automated, self-hydrating plant monitor, for the
Waveshare ESP32-S3-Touch-LCD-2.1 (480x480 round IPS panel, ST7701S controller,
TCA9554 GPIO expander). It draws a plant-care dashboard: a humidity water-drop
gauge, a thermometer and a raincloud that shows whether the plant is watered.

- `src/` is the library. Everything that computes is here and is verified with
  Verus: the framebuffer and its drawing primitives, the widgets, the telemetry
  sweeps, the panel's init sequence, the expander's pins, and the decision which
  widgets to repaint between two frames.
- `app/` is the `no_std` program around it: boot, peripherals, DMA.
- `tests/` runs the library.

What a drawing function does is stated as a layer, a map from pixels to the
words it puts there (`src/canvas.rs`); its contract says that the buffer is the
old one with that layer painted over it, byte for byte. From this the library
proves, among other things, that a widget keeps to its own rectangle and that
repainting only what changed leaves the panel as a full repaint would.

Text is rendered by `embedded-graphics`. Which pixels a text lights is taken from
it as a mask (`src/text.rs`). The library relies on two things of the mask: it
depends on text, position and font alone, and a line of text stays in its
character cells.
