//! Dashboard colour palette (RGB565: R 0..31, G 0..63, B 0..31).

use embedded_graphics::pixelcolor::raw::{RawData, RawU16};
use vstd::prelude::*;

verus! {

/// An RGB565 colour, as its red, green and blue channel.
///
/// Of a channel value that is too large only the low bits count.
pub type Rgb565 = (u8, u8, u8);

pub const BG: Rgb565 = (1, 4, 8);

pub const TEXT: Rgb565 = (31, 63, 31);

pub const TEXT_DIM: Rgb565 = (16, 34, 20);

pub const WATER: Rgb565 = (7, 34, 31);

pub const WATER_EMPTY: Rgb565 = (3, 9, 13);

pub const DROP_LINE: Rgb565 = (15, 44, 31);

pub const MERCURY: Rgb565 = (31, 10, 8);

pub const THERMO_EMPTY: Rgb565 = (8, 18, 18);

pub const THERMO_LINE: Rgb565 = (20, 40, 28);

pub const CLOUD_ON: Rgb565 = (15, 42, 31);

pub const CLOUD_OFF: Rgb565 = (13, 26, 13);

pub const RAIN: Rgb565 = (9, 36, 31);

/// The 16-bit word of a colour: red in the top five bits, green in the six
/// below them, blue in the low five.
pub open spec fn word(colour: Rgb565) -> int {
    (colour.0 as int % 32) * 2048 + (colour.1 as int % 64) * 32 + colour.2 as int % 32
}

/// `Rgb565::new` of embedded-graphics, converted to its raw data by
/// `RawU16::from` and `RawData::into_inner`.
///
/// Claimed: each channel keeps its low five, six and five bits, and these stand
/// in the word from the top in the order red, green, blue.
#[verifier::external_body]
pub(crate) fn raw_word(colour: Rgb565) -> (raw: u16)
    ensures
        raw == word(colour),
{
    let (r, g, b) = colour;
    RawU16::from(embedded_graphics::pixelcolor::Rgb565::new(r, g, b)).into_inner()
}

/// Two colours whose channels are in range share a word only if they are the
/// same colour.
pub proof fn law_words_tell_colours_apart(a: Rgb565, b: Rgb565)
    requires
        a.0 < 32 && a.1 < 64 && a.2 < 32,
        b.0 < 32 && b.1 < 64 && b.2 < 32,
        word(a) == word(b),
    ensures
        a == b,
{
}

/// A colour's channels can be read back from its word.
pub proof fn law_word_holds_its_channels(colour: Rgb565)
    ensures
        0 <= word(colour) <= 0xFFFF,
        word(colour) / 2048 == colour.0 % 32,
        (word(colour) / 32) % 64 == colour.1 % 64,
        word(colour) % 32 == colour.2 % 32,
{
}

/// The words that the dashboard's colours put on the panel.
pub proof fn law_palette_words()
    ensures
        word(BG) == 0x0888,
        word(TEXT) == 0xFFFF,
        word(TEXT_DIM) == 0x8454,
        word(WATER) == 0x3C5F,
        word(WATER_EMPTY) == 0x192D,
        word(DROP_LINE) == 0x7D9F,
        word(MERCURY) == 0xF948,
        word(THERMO_EMPTY) == 0x4252,
        word(THERMO_LINE) == 0xA51C,
        word(CLOUD_ON) == 0x7D5F,
        word(CLOUD_OFF) == 0x6B4D,
        word(RAIN) == 0x4C9F,
{
}

} // verus!
