//! Board and framebuffer constants for the Waveshare ESP32-S3-Touch-LCD-2.1,
//! and the output pins of its TCA9554 GPIO expander.

use vstd::prelude::*;

verus! {

/// Panel width in pixels (square 480x480 round IPS).
pub const H_RES: usize = 480;

/// Panel height in pixels.
pub const V_RES: usize = 480;

/// RGB565 framebuffer size in bytes (2 bytes/pixel = 460_800).
pub const FB_SIZE: usize = H_RES * V_RES * 2;

/// DMA over PSRAM needs 64-byte external burst alignment.
pub const DMA_ALIGNMENT: usize = 64;

/// Bytes moved by one DMA descriptor; kept under 4092.
pub const DMA_CHUNK_SIZE: usize = 4096 - DMA_ALIGNMENT;

// Horizontal timing of the RGB interface, in pixel clocks.
pub const HSYNC_WIDTH: usize = 8;

pub const H_BACK_PORCH: usize = 10;

pub const H_FRONT_PORCH: usize = 50;

pub const H_TOTAL: usize = H_RES + HSYNC_WIDTH + H_BACK_PORCH + H_FRONT_PORCH;

// Vertical timing of the RGB interface, in lines.
pub const VSYNC_WIDTH: usize = 3;

pub const V_BACK_PORCH: usize = 8;

pub const V_FRONT_PORCH: usize = 8;

pub const V_TOTAL: usize = V_RES + VSYNC_WIDTH + V_BACK_PORCH + V_FRONT_PORCH;

/// I2C address of the TCA9554 expander.
pub const EXIO_ADDRESS: u8 = 0x20;

/// The expander's output register.
pub const EXIO_REG_OUTPUT: u8 = 0x01;

/// The expander's configuration register: a clear bit makes a pin an output.
pub const EXIO_REG_CONFIG: u8 = 0x03;

// TCA9554 expander bit assignments (Waveshare 2.1 board).
pub const EXIO_LCD_RST: u8 = 0;

pub const EXIO_TP_RST: u8 = 1;

pub const EXIO_LCD_CS: u8 = 2;

/// The buzzer (EXIO_PIN8) is active high and has to stay low.
pub const EXIO_BUZZER: u8 = 7;

/// A step of the panel's reset, for whoever owns the I2C bus.
#[derive(Clone, Copy, PartialEq, Eq, Debug)]
pub enum ResetStep {
    /// Write these two bytes to the expander.
    Write([u8; 2]),
    DelayMillis(u32),
}

/// The level of one pin in a byte of the output register.
pub open spec fn pin(output: u8, bit: u8) -> bool {
    (output >> bit) & 1 == 1
}

/// The levels that the expander's pins are driven to. The buzzer's is low at
/// all times.
pub struct Expander {
    output: u8,
}

impl Expander {
    /// The level of one pin.
    pub closed spec fn level(&self, bit: u8) -> bool {
        pin(self.output, bit)
    }

    /// The buzzer is silent.
    pub open spec fn wf(&self) -> bool {
        !self.level(EXIO_BUZZER)
    }

    /// A message that writes these levels to the output register.
    pub open spec fn is_output_message(&self, message: [u8; 2]) -> bool {
        &&& message[0] == EXIO_REG_OUTPUT
        &&& forall|b: u8| b < 8 ==> #[trigger] pin(message[1], b) == self.level(b)
    }

    /// Everything high except the buzzer, which is active high and must stay
    /// low.
    pub fn new() -> (exio: Self)
        ensures
            exio.wf(),
            forall|b: u8| b < 8 ==> #[trigger] exio.level(b) == (b != EXIO_BUZZER),
    {
        let output: u8 = 0xFF & !(1u8 << EXIO_BUZZER);
        proof {
            assert(forall|b: u8|
                b < 8 ==> (((0xFFu8 & !(1u8 << 7u8)) >> b) & 1 == 1) == (b != 7)) by (bit_vector);
        }
        Expander { output }
    }

    /// The message that makes every pin an output.
    pub fn config_message(&self) -> (message: [u8; 2])
        ensures
            message[0] == EXIO_REG_CONFIG,
            forall|b: u8| b < 8 ==> !#[trigger] pin(message[1], b),
    {
        proof {
            assert(forall|b: u8| b < 8 ==> (0u8 >> b) & 1 != 1) by (bit_vector);
        }
        [EXIO_REG_CONFIG, 0x00]
    }

    /// The message that drives the pins to their levels.
    pub fn output_message(&self) -> (message: [u8; 2])
        ensures
            self.is_output_message(message),
    {
        [EXIO_REG_OUTPUT, self.output]
    }

    /// The panel's reset: all pins become outputs, then the reset line goes low
    /// and high again, with time for the panel to settle after each.
    pub fn reset_panel(&mut self) -> (steps: Vec<ResetStep>)
        requires
            old(self).wf(),
        ensures
            final(self).wf(),
            forall|b: u8|
                b < 8 ==> #[trigger] final(self).level(b) == (b == EXIO_LCD_RST || old(self).level(
                    b,
                )),
            steps@.len() == 6,
            steps@[0] matches ResetStep::Write(m) && m[0] == EXIO_REG_CONFIG && forall|b: u8|
                b < 8 ==> !#[trigger] pin(m[1], b),
            steps@[1] matches ResetStep::Write(m) && old(self).is_output_message(m),
            steps@[2] matches ResetStep::Write(m) && m[0] == EXIO_REG_OUTPUT && forall|b: u8|
                b < 8 ==> #[trigger] pin(m[1], b) == (b != EXIO_LCD_RST && old(self).level(b)),
            steps@[3] == ResetStep::DelayMillis(20),
            steps@[4] matches ResetStep::Write(m) && final(self).is_output_message(m),
            steps@[5] == ResetStep::DelayMillis(80),
    {
        let mut steps: Vec<ResetStep> = Vec::new();
        steps.push(ResetStep::Write(self.config_message()));
        steps.push(ResetStep::Write(self.output_message()));
        let low: [u8; 2] = self.drive_low(EXIO_LCD_RST);
        steps.push(ResetStep::Write(low));
        steps.push(ResetStep::DelayMillis(20));
        let high: [u8; 2] = self.drive_high(EXIO_LCD_RST);
        steps.push(ResetStep::Write(high));
        steps.push(ResetStep::DelayMillis(80));
        steps
    }

    /// Drive one pin low; returns the message that does so.
    pub fn drive_low(&mut self, bit: u8) -> (message: [u8; 2])
        requires
            old(self).wf(),
            bit < 8,
        ensures
            final(self).wf(),
            forall|b: u8|
                b < 8 ==> #[trigger] final(self).level(b) == (b != bit && old(self).level(b)),
            final(self).is_output_message(message),
    {
        let ghost before = self.output;
        self.output = self.output & !(1u8 << bit);
        proof {
            assert forall|b: u8| b < 8 implies #[trigger] self.level(b) == (b != bit && pin(
                before,
                b,
            )) by {
                lemma_clear_bit(before, bit, b);
            }
        }
        self.output_message()
    }

    /// Drive one pin other than the buzzer high; returns the message that does
    /// so.
    pub fn drive_high(&mut self, bit: u8) -> (message: [u8; 2])
        requires
            old(self).wf(),
            bit < 8,
            bit != EXIO_BUZZER,
        ensures
            final(self).wf(),
            forall|b: u8|
                b < 8 ==> #[trigger] final(self).level(b) == (b == bit || old(self).level(b)),
            final(self).is_output_message(message),
    {
        let ghost before = self.output;
        self.output = self.output | (1u8 << bit);
        proof {
            assert forall|b: u8| b < 8 implies #[trigger] self.level(b) == (b == bit || pin(
                before,
                b,
            )) by {
                lemma_set_bit(before, bit, b);
            }
        }
        self.output_message()
    }
}

proof fn lemma_clear_bit(byte: u8, bit: u8, b: u8)
    by (bit_vector)
    requires
        bit < 8,
        b < 8,
    ensures
        (((byte & !(1u8 << bit)) >> b) & 1 == 1) == (b != bit && (byte >> b) & 1 == 1),
{
}

proof fn lemma_set_bit(byte: u8, bit: u8, b: u8)
    by (bit_vector)
    requires
        bit < 8,
        b < 8,
    ensures
        (((byte | (1u8 << bit)) >> b) & 1 == 1) == (b == bit || (byte >> b) & 1 == 1),
{
}

/// A pin's level is its binary digit in the output register.
pub proof fn law_pin_is_a_digit(output: u8)
    ensures
        pin(output, 0) <==> output % 2 == 1,
        pin(output, 1) <==> (output / 2) % 2 == 1,
        pin(output, 2) <==> (output / 4) % 2 == 1,
        pin(output, 3) <==> (output / 8) % 2 == 1,
        pin(output, 4) <==> (output / 16) % 2 == 1,
        pin(output, 5) <==> (output / 32) % 2 == 1,
        pin(output, 6) <==> (output / 64) % 2 == 1,
        pin(output, 7) <==> (output / 128) % 2 == 1,
{
    assert((output >> 0) & 1 == output % 2 && (output >> 1) & 1 == (output / 2) % 2 && (output >> 2)
        & 1 == (output / 4) % 2 && (output >> 3) & 1 == (output / 8) % 2 && (output >> 4) & 1 == (
    output / 16) % 2 && (output >> 5) & 1 == (output / 32) % 2 && (output >> 6) & 1 == (output / 64)
        % 2 && (output >> 7) & 1 == (output / 128) % 2) by (bit_vector);
}

/// The levels of the eight pins leave no choice of the message that drives them.
pub proof fn law_levels_fix_the_message(exio: Expander, a: [u8; 2], b: [u8; 2])
    requires
        exio.is_output_message(a),
        exio.is_output_message(b),
    ensures
        a[0] == 1 && b[0] == 1,
        a[1] == b[1],
{
    law_pin_is_a_digit(a[1]);
    law_pin_is_a_digit(b[1]);
    assert(forall|k: u8| k < 8 ==> #[trigger] pin(a[1], k) == pin(b[1], k));
}

/// A line is its sync pulse, its back porch, its pixels and its front porch, and
/// so is a frame in lines; the framebuffer's bytes fill whole DMA bursts, and a
/// descriptor moves as many whole bursts as it can below its limit.
pub proof fn law_board_constants()
    ensures
        HSYNC_WIDTH == 8 && H_BACK_PORCH == 10 && H_RES == 480 && H_FRONT_PORCH == 50,
        H_TOTAL == 8 + 10 + 480 + 50,
        VSYNC_WIDTH == 3 && V_BACK_PORCH == 8 && V_RES == 480 && V_FRONT_PORCH == 8,
        V_TOTAL == 3 + 8 + 480 + 8,
        FB_SIZE == 2 * 480 * 480,
        DMA_ALIGNMENT == 64,
        FB_SIZE % DMA_ALIGNMENT == 0,
        DMA_CHUNK_SIZE % DMA_ALIGNMENT == 0,
        DMA_CHUNK_SIZE < 4092 <= DMA_CHUNK_SIZE + DMA_ALIGNMENT,
        EXIO_ADDRESS == 0x20 && EXIO_REG_OUTPUT == 1 && EXIO_REG_CONFIG == 3,
        EXIO_LCD_RST == 0 && EXIO_TP_RST == 1 && EXIO_LCD_CS == 2 && EXIO_BUZZER == 7,
{
}

} // verus!
