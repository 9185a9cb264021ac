//! Text: which pixels a centred line of text lights, and number labels.

use embedded_graphics::{
    framebuffer::Framebuffer,
    geometry::Point,
    mono_font::{
        iso_8859_1::{FONT_10X20, FONT_9X15},
        MonoTextStyle,
    },
    pixelcolor::{
        raw::{BigEndian, RawU1},
        BinaryColor,
    },
    text::{Alignment, Baseline, Text, TextStyleBuilder},
    Drawable,
};
use vstd::prelude::*;

use crate::board::{H_RES, V_RES};
use crate::canvas;

verus! {

/// The two ISO 8859-1 fonts that the dashboard is set in.
#[derive(Clone, Copy, PartialEq, Eq, Debug, Structural)]
pub enum Font {
    Font10x20,
    Font9x15,
}

impl Font {
    /// Width of a character cell.
    pub open spec fn width(self) -> int {
        match self {
            Font::Font10x20 => 10,
            Font::Font9x15 => 9,
        }
    }

    /// Height of a character cell.
    pub open spec fn height(self) -> int {
        match self {
            Font::Font10x20 => 20,
            Font::Font9x15 => 15,
        }
    }
}

/// Bytes in one row of a mask: one bit for each of its 480 pixels.
pub const MASK_ROW: usize = 60;

/// Bytes in a mask of the panel.
pub const MASK_SIZE: usize = MASK_ROW * V_RES;

/// The mask holds a set bit for this pixel. Each row starts with a new byte,
/// and the leftmost pixel of a byte is its most significant bit.
pub open spec fn lit(mask: Seq<u8>, x: int, y: int) -> bool {
    (mask[y * MASK_ROW + x / 8] >> ((7 - x % 8) as u8)) & 1 == 1
}

/// The mask that embedded-graphics draws for the text `s` in `font`, centred
/// horizontally and vertically at `(x, y)`.
pub uninterp spec fn text_mask(s: Seq<char>, x: int, y: int, font: Font) -> Seq<u8>;

/// How many line breaks the text has.
pub open spec fn line_breaks(s: Seq<char>) -> int
    decreases s.len(),
{
    if s.len() == 0 {
        0
    } else {
        line_breaks(s.drop_last()) + if s.last() == '\n' {
            1int
        } else {
            0
        }
    }
}

/// A line of `len` characters centred at `x` stays within machine coordinates.
pub open spec fn line_fits(len: int, x: int, font: Font) -> bool {
    &&& font.width() * len <= i32::MAX
    &&& i32::MIN <= text_left(len, x, font)
    &&& text_left(len, x, font) + font.width() * len <= i32::MAX
}

/// Every line of the text centred at `(x, y)`, and the position of the line
/// that would come next, stay within machine coordinates.
pub open spec fn text_fits(s: Seq<char>, x: int, y: int, font: Font) -> bool {
    &&& forall|i: int, j: int|
        0 <= i < j <= s.len() && !(#[trigger] s.subrange(i, j)).contains('\n') ==> line_fits(
            j - i,
            x,
            font,
        )
    &&& i32::MIN <= text_top(y, font)
    &&& y + font.height() * (line_breaks(s) + 1) <= i32::MAX
}

/// Text without a line break fits where its one line does.
pub proof fn lemma_line_fits(s: Seq<char>, x: int, y: int, font: Font)
    requires
        !s.contains('\n'),
        line_fits(s.len() as int, x, font),
        i32::MIN <= text_top(y, font),
        y + font.height() <= i32::MAX,
    ensures
        text_fits(s, x, y, font),
{
    lemma_no_line_breaks(s);
}

proof fn lemma_no_line_breaks(s: Seq<char>)
    requires
        !s.contains('\n'),
    ensures
        line_breaks(s) == 0,
    decreases s.len(),
{
    if s.len() > 0 {
        assert(s.contains(s.last()));
        assert forall|c: char| s.drop_last().contains(c) implies s.contains(c) by {
            let i = s.drop_last().index_of(c);
            assert(s[i] == c);
        }
        lemma_no_line_breaks(s.drop_last());
    }
}

/// Column of the left edge of a line of `len` characters centred at `x`.
pub open spec fn text_left(len: int, x: int, font: Font) -> int {
    x - (font.width() * len - 1) / 2
}

/// Row of the top edge of a line of text centred at `y`.
pub open spec fn text_top(y: int, font: Font) -> int {
    y - (font.height() - 1) / 2
}

/// The pixel lies in the character cells of a line of `len` characters centred
/// at `(x, y)`.
pub open spec fn in_cells(len: int, x: int, y: int, font: Font, px: int, py: int) -> bool {
    &&& text_left(len, x, font) <= px < text_left(len, x, font) + font.width() * len
    &&& text_top(y, font) <= py < text_top(y, font) + font.height()
}

/// `Text::with_text_style` of embedded-graphics, centred in both directions,
/// drawn by `Drawable::draw` in `MonoTextStyle::new` on an empty `Framebuffer`
/// of the panel's size with one bit per pixel.
///
/// Claimed: the framebuffer's data has one bit for each pixel and depends on
/// the text, the position and the font alone; and text without a line break
/// lights only pixels of its character cells. Which pixels of a cell a character
/// lights is not stated further, nor where text with line breaks lies.
#[verifier::external_body]
pub(crate) fn render_mask(s: &str, x: i32, y: i32, font: Font) -> (mask: Vec<u8>)
    requires
        text_fits(s@, x as int, y as int, font),
    ensures
        mask@ == text_mask(s@, x as int, y as int, font),
        mask@.len() == MASK_SIZE,
        !s@.contains('\n') ==> forall|px: int, py: int|
            canvas::on_panel(px, py) && #[trigger] lit(mask@, px, py) ==> in_cells(
                s@.len() as int,
                x as int,
                y as int,
                font,
                px,
                py,
            ),
{
    let font = match font {
        Font::Font10x20 => &FONT_10X20,
        Font::Font9x15 => &FONT_9X15,
    };
    let char_style = MonoTextStyle::new(font, BinaryColor::On);
    let text_style =
        TextStyleBuilder::new().alignment(Alignment::Center).baseline(Baseline::Middle).build();
    let mut target =
        Framebuffer::<BinaryColor, RawU1, BigEndian, H_RES, V_RES, MASK_SIZE>::new();
    Text::with_text_style(s, Point::new(x, y), char_style, text_style).draw(&mut target).unwrap();
    target.data().to_vec()
}

/// The character of a decimal digit.
pub open spec fn digit(d: int) -> char {
    ('0' as int + d) as char
}

/// The decimal digits of a number, without leading zeros.
pub open spec fn digits(n: int) -> Seq<char>
    decreases n,
{
    if n < 10 {
        seq![digit(n)]
    } else {
        digits(n / 10).push(digit(n % 10))
    }
}

/// A number in decimal, with a minus sign where it is negative.
pub open spec fn decimal(n: int) -> Seq<char> {
    if n < 0 {
        seq!['-'] + digits(-n)
    } else {
        digits(n)
    }
}

/// A number of up to five digits has as many characters, one more with its
/// sign, and no line break among them.
pub proof fn lemma_decimal(n: int)
    requires
        -99999 <= n <= 99999,
    ensures
        1 <= decimal(n).len() <= 6,
        -999 <= n <= 9999 ==> decimal(n).len() <= 4,
        0 <= n <= 999 ==> decimal(n).len() <= 3,
        !decimal(n).contains('\n'),
{
    let m = if n < 0 {
        -n
    } else {
        n
    };
    lemma_digits(m);
    reveal_with_fuel(digits, 6);
}

proof fn lemma_digits(n: int)
    requires
        0 <= n,
    ensures
        !digits(n).contains('\n'),
    decreases n,
{
    if n >= 10 {
        lemma_digits(n / 10);
    }
}

/// std's `format!` with an integer's `Display` followed by a string's.
///
/// Claimed: the result is the number in decimal and then the unit.
#[verifier::external_body]
pub(crate) fn number_label(n: i16, unit: &str) -> (label: String)
    ensures
        label@ == decimal(n as int) + unit@,
{
    format!("{n}{unit}")
}

/// The number that a row of digits stands for.
pub open spec fn value_of(s: Seq<char>) -> int
    decreases s.len(),
{
    if s.len() == 0 {
        0
    } else {
        10 * value_of(s.drop_last()) + (s.last() as int - '0' as int)
    }
}

/// A row of digits as people write it: at least one, and no leading zero but
/// for zero itself.
pub open spec fn is_numeral(s: Seq<char>) -> bool {
    &&& s.len() > 0
    &&& forall|i: int| 0 <= i < s.len() ==> '0' <= #[trigger] s[i] <= '9'
    &&& s.len() > 1 ==> s[0] != '0'
}

/// Reading the text gives this number.
pub open spec fn reads_as(s: Seq<char>, n: int) -> bool {
    if n < 0 {
        s.len() > 0 && s[0] == '-' && is_numeral(s.skip(1)) && value_of(s.skip(1)) == -n
    } else {
        is_numeral(s) && value_of(s) == n
    }
}

/// A number's label reads as that number.
pub proof fn law_label_reads_back(n: int)
    ensures
        reads_as(decimal(n), n),
{
    if n < 0 {
        lemma_digits_read_back(-n);
        assert(decimal(n).skip(1) =~= digits(-n));
    } else {
        lemma_digits_read_back(n);
    }
}

/// There is one way to write a number.
pub proof fn law_one_numeral_per_number(s: Seq<char>, n: int)
    requires
        reads_as(s, n),
    ensures
        s == decimal(n),
{
    if n < 0 {
        lemma_numeral_is_digits(s.skip(1));
        assert(s =~= seq!['-'] + s.skip(1));
    } else {
        lemma_numeral_is_digits(s);
    }
}

/// Two numbers never have the same label, whatever unit they share.
pub proof fn law_labels_tell_numbers_apart(m: int, n: int, unit: Seq<char>)
    requires
        decimal(m) + unit == decimal(n) + unit,
    ensures
        m == n,
{
    let (a, b) = (decimal(m), decimal(n));
    assert(a.len() == b.len()) by {
        assert((a + unit).len() == (b + unit).len());
    }
    assert(a =~= b) by {
        assert((a + unit).take(a.len() as int) =~= a);
        assert((b + unit).take(b.len() as int) =~= b);
    }
    law_label_reads_back(m);
    law_label_reads_back(n);
    if (m < 0) != (n < 0) {
        assert('0' <= a[0] <= '9' || '0' <= b[0] <= '9');
    }
}

proof fn lemma_digits_read_back(n: int)
    requires
        0 <= n,
    ensures
        is_numeral(digits(n)),
        value_of(digits(n)) == n,
        n > 0 ==> digits(n)[0] != '0',
    decreases n,
{
    if n >= 10 {
        lemma_digits_read_back(n / 10);
        let rest = digits(n / 10);
        assert(digits(n).drop_last() =~= rest);
        assert(digits(n)[0] == rest[0]);
    } else {
        let s = digits(n);
        assert(s.drop_last() =~= Seq::empty());
        assert(value_of(s.drop_last()) == 0);
    }
}

proof fn lemma_numeral_is_digits(s: Seq<char>)
    requires
        is_numeral(s),
    ensures
        0 <= value_of(s),
        s[0] != '0' ==> value_of(s) > 0,
        s == digits(value_of(s)),
    decreases s.len(),
{
    let d = s.last() as int - '0' as int;
    assert('0' <= s[s.len() - 1] <= '9');
    if s.len() == 1 {
        assert(s.drop_last() =~= Seq::empty());
        assert(value_of(s.drop_last()) == 0);
        assert(s =~= seq![digit(d)]);
    } else {
        let t = s.drop_last();
        assert forall|i: int| 0 <= i < t.len() implies '0' <= #[trigger] t[i] <= '9' by {
            assert(t[i] == s[i]);
        }
        lemma_numeral_is_digits(t);
        assert(s =~= t.push(digit(d)));
    }
}

/// A mask's pixels are the binary digits of its bytes, sixty bytes to a row,
/// from the most significant digit to the right.
pub proof fn law_mask_bits(mask: Seq<u8>, column: int, k: int, y: int)
    requires
        0 <= k < 8,
    ensures
        ({
            let byte = mask[60 * y + column] as int;
            let weight: int = if k == 0 {
                128
            } else if k == 1 {
                64
            } else if k == 2 {
                32
            } else if k == 3 {
                16
            } else if k == 4 {
                8
            } else if k == 5 {
                4
            } else if k == 6 {
                2
            } else {
                1
            };
            lit(mask, 8 * column + k, y) <==> (byte / weight) % 2 == 1
        }),
{
    let byte = mask[60 * y + column];
    assert((8 * column + k) / 8 == column && (8 * column + k) % 8 == k);
    assert(y * MASK_ROW + column == 60 * y + column);
    assert((byte >> 7) & 1 == (byte / 128) % 2 && (byte >> 6) & 1 == (byte / 64) % 2 && (byte >> 5)
        & 1 == (byte / 32) % 2 && (byte >> 4) & 1 == (byte / 16) % 2 && (byte >> 3) & 1 == (byte
        / 8) % 2 && (byte >> 2) & 1 == (byte / 4) % 2 && (byte >> 1) & 1 == (byte / 2) % 2 && (byte
        >> 0) & 1 == (byte / 1) % 2) by (bit_vector);
}

} // verus!
