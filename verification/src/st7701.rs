//! ST7701S panel initialisation.
//!
//! The panel's configuration registers are programmed over a 3-wire SPI that is
//! bit-banged on two pins, SDA and SCL. Each word is 9 bits: a D/C flag then
//! 8 payload bits, MSB-first, SPI mode 0 (data sampled on the rising edge).
//! Chip-select and reset live on the TCA9554 I2C expander and are driven by the
//! caller; [`send_init`] only owns the SPI clocking.
//!
//! The functions here record what the pins have to do; whoever owns the pins
//! plays the recording.

use vstd::prelude::*;

use crate::st7701::Kind::{Cmd, Data, Delay};

verus! {

/// One entry of the ST7701S init sequence.
#[derive(Clone, Copy, PartialEq, Eq, Debug, Structural)]
pub enum Init {
    Cmd(u8),
    Data(u8),
    Delay(u16),
}

/// What a row of the init table holds: a command, a data byte, or a pause in
/// milliseconds.
#[derive(Clone, Copy, PartialEq, Eq, Debug, Structural)]
pub enum Kind {
    Cmd,
    Data,
    Delay,
}

/// One action on the two SPI pins, or a wait between two of them.
#[derive(Clone, Copy, PartialEq, Eq, Debug, Structural)]
pub enum PinOp {
    SclLow,
    SclHigh,
    Sda(bool),
    /// Spin this many times.
    Spin(u32),
    DelayMillis(u32),
}

/// How often a pin's settling time is spun through.
pub const TINY_DELAY_SPINS: u32 = 40;

/// Rows of the init table.
pub const INIT_LEN: usize = 215;

// ---------------------------------------------------------------------------
// ST7701S initialisation table (Waveshare ESP32-S3-Touch-LCD-2.1)
// ---------------------------------------------------------------------------

pub const ST7701_INIT: [(Kind, u16); INIT_LEN] = [
    // Command2 BK0
    (Cmd, 0xFF), (Data, 0x77), (Data, 0x01), (Data, 0x00), (Data, 0x00), (Data, 0x10),
    (Cmd, 0xC0), (Data, 0x3B), (Data, 0x00),
    (Cmd, 0xC1), (Data, 0x0B), (Data, 0x02),
    (Cmd, 0xC2), (Data, 0x07), (Data, 0x02),
    (Cmd, 0xCC), (Data, 0x10),
    (Cmd, 0xCD), (Data, 0x08),
    // Positive gamma
    (Cmd, 0xB0), (Data, 0x00), (Data, 0x11), (Data, 0x16), (Data, 0x0E), (Data, 0x11),
    (Data, 0x06),
    (Data, 0x05), (Data, 0x09), (Data, 0x08), (Data, 0x21), (Data, 0x06), (Data, 0x13),
    (Data, 0x10), (Data, 0x29), (Data, 0x31), (Data, 0x18),
    // Negative gamma
    (Cmd, 0xB1), (Data, 0x00), (Data, 0x11), (Data, 0x16), (Data, 0x0E), (Data, 0x11),
    (Data, 0x07),
    (Data, 0x05), (Data, 0x09), (Data, 0x09), (Data, 0x21), (Data, 0x05), (Data, 0x13),
    (Data, 0x11), (Data, 0x2A), (Data, 0x31), (Data, 0x18),
    // Command2 BK1
    (Cmd, 0xFF), (Data, 0x77), (Data, 0x01), (Data, 0x00), (Data, 0x00), (Data, 0x11),
    (Cmd, 0xB0), (Data, 0x6D),
    (Cmd, 0xB1), (Data, 0x37),
    (Cmd, 0xB2), (Data, 0x81),
    (Cmd, 0xB3), (Data, 0x80),
    (Cmd, 0xB5), (Data, 0x43),
    (Cmd, 0xB7), (Data, 0x85),
    (Cmd, 0xB8), (Data, 0x20),
    (Cmd, 0xC1), (Data, 0x78),
    (Cmd, 0xC2), (Data, 0x78),
    (Cmd, 0xD0), (Data, 0x88),
    (Cmd, 0xE0), (Data, 0x00), (Data, 0x00), (Data, 0x02),
    (Cmd, 0xE1), (Data, 0x03), (Data, 0xA0), (Data, 0x00), (Data, 0x00), (Data, 0x04),
    (Data, 0xA0),
    (Data, 0x00), (Data, 0x00), (Data, 0x00), (Data, 0x20), (Data, 0x20),
    (Cmd, 0xE2), (Data, 0x00), (Data, 0x00), (Data, 0x00), (Data, 0x00), (Data, 0x00),
    (Data, 0x00),
    (Data, 0x00), (Data, 0x00), (Data, 0x00), (Data, 0x00), (Data, 0x00), (Data, 0x00),
    (Data, 0x00),
    (Cmd, 0xE3), (Data, 0x00), (Data, 0x00), (Data, 0x11), (Data, 0x00),
    (Cmd, 0xE4), (Data, 0x22), (Data, 0x00),
    (Cmd, 0xE5), (Data, 0x05), (Data, 0xEC), (Data, 0xA0), (Data, 0xA0), (Data, 0x07),
    (Data, 0xEE),
    (Data, 0xA0), (Data, 0xA0), (Data, 0x00), (Data, 0x00), (Data, 0x00), (Data, 0x00),
    (Data, 0x00), (Data, 0x00), (Data, 0x00), (Data, 0x00),
    (Cmd, 0xE6), (Data, 0x00), (Data, 0x00), (Data, 0x11), (Data, 0x00),
    (Cmd, 0xE7), (Data, 0x22), (Data, 0x00),
    (Cmd, 0xE8), (Data, 0x06), (Data, 0xED), (Data, 0xA0), (Data, 0xA0), (Data, 0x08),
    (Data, 0xEF),
    (Data, 0xA0), (Data, 0xA0), (Data, 0x00), (Data, 0x00), (Data, 0x00), (Data, 0x00),
    (Data, 0x00), (Data, 0x00), (Data, 0x00), (Data, 0x00),
    (Cmd, 0xEB), (Data, 0x00), (Data, 0x00), (Data, 0x40), (Data, 0x40), (Data, 0x00),
    (Data, 0x00),
    (Data, 0x00),
    (Cmd, 0xED), (Data, 0xFF), (Data, 0xFF), (Data, 0xFF), (Data, 0xBA), (Data, 0x0A),
    (Data, 0xBF),
    (Data, 0x45), (Data, 0xFF), (Data, 0xFF), (Data, 0x54), (Data, 0xFB), (Data, 0xA0),
    (Data, 0xAB), (Data, 0xFF), (Data, 0xFF), (Data, 0xFF),
    (Cmd, 0xEF), (Data, 0x10), (Data, 0x0D), (Data, 0x04), (Data, 0x08), (Data, 0x3F),
    (Data, 0x1F),
    // Command2 BK3
    (Cmd, 0xFF), (Data, 0x77), (Data, 0x01), (Data, 0x00), (Data, 0x00), (Data, 0x13),
    (Cmd, 0xEF), (Data, 0x08),
    // Back to user commands (BK0 off)
    (Cmd, 0xFF), (Data, 0x77), (Data, 0x01), (Data, 0x00), (Data, 0x00), (Data, 0x00),
    (Cmd, 0x36), (Data, 0x00),
    (Cmd, 0x3A), (Data, 0x66),
    (Cmd, 0x11),  // Sleep out
    (Delay, 480),
    (Cmd, 0x20),  // Display inversion off
    (Delay, 120),
    (Cmd, 0x29),  // Display on
    (Delay, 20),
];

/// What a row of the init table stands for.
pub open spec fn init_entry(i: int) -> Init {
    let (kind, value) = ST7701_INIT[i];
    match kind {
        Kind::Cmd => Init::Cmd(value as u8),
        Kind::Data => Init::Data(value as u8),
        Kind::Delay => Init::Delay(value),
    }
}

/// One row of the init table.
pub fn init_at(i: usize) -> (entry: Init)
    requires
        i < INIT_LEN,
    ensures
        entry == init_entry(i as int),
{
    let (kind, value) = ST7701_INIT[i];
    match kind {
        Kind::Cmd => Init::Cmd(value as u8),
        Kind::Data => Init::Data(value as u8),
        Kind::Delay => Init::Delay(value),
    }
}

/// The actions that put one bit on the wire.
pub open spec fn bit_ops(bit: bool) -> Seq<PinOp> {
    seq![
        PinOp::SclLow,
        PinOp::Sda(bit),
        PinOp::Spin(TINY_DELAY_SPINS),
        PinOp::SclHigh,
        PinOp::Spin(TINY_DELAY_SPINS),
    ]
}

/// The bits of a 9-bit word: the D/C flag, then the byte from its most
/// significant bit down.
pub open spec fn word_bits(byte: u8, is_data: bool) -> Seq<bool> {
    Seq::new(
        9,
        |i: int|
            if i == 0 {
                is_data
            } else {
                (byte >> ((8 - i) as u8)) & 1 != 0
            },
    )
}

/// The actions that put a sequence of bits on the wire.
pub open spec fn bits_ops(bits: Seq<bool>) -> Seq<PinOp>
    decreases bits.len(),
{
    if bits.len() == 0 {
        Seq::empty()
    } else {
        bits_ops(bits.drop_last()) + bit_ops(bits.last())
    }
}

/// The actions that play one entry.
pub open spec fn entry_ops(entry: Init) -> Seq<PinOp> {
    match entry {
        Init::Cmd(byte) => bits_ops(word_bits(byte, false)),
        Init::Data(byte) => bits_ops(word_bits(byte, true)),
        Init::Delay(ms) => seq![PinOp::DelayMillis(ms as u32)],
    }
}

/// The actions that play the first `n` rows of the init table.
pub open spec fn init_ops(n: nat) -> Seq<PinOp>
    decreases n,
{
    if n == 0 {
        Seq::empty()
    } else {
        init_ops((n - 1) as nat) + entry_ops(init_entry(n - 1))
    }
}

/// Play the whole [`ST7701_INIT`] table out over the bit-banged SPI. The caller
/// must hold chip-select (TCA9554 bit2) low while the recording is played.
pub fn send_init() -> (ops: Vec<PinOp>)
    ensures
        ops@ == init_ops(INIT_LEN as nat),
{
    let mut ops: Vec<PinOp> = Vec::new();
    let mut i: usize = 0;
    while i < INIT_LEN
        invariant
            i <= INIT_LEN,
            ops@ == init_ops(i as nat),
        decreases INIT_LEN - i,
    {
        match init_at(i) {
            Init::Cmd(c) => spi9(&mut ops, c, false),
            Init::Data(d) => spi9(&mut ops, d, true),
            Init::Delay(ms) => {
                ops.push(PinOp::DelayMillis(ms as u32));
                assert(ops@ =~= init_ops(i as nat) + entry_ops(init_entry(i as int)));
            },
        }
        i += 1;
    }
    ops
}

/// Bit-bang one 9-bit ST7701S SPI word: D/C bit first (0 = command, 1 = data),
/// then 8 payload bits MSB-first.
pub fn spi9(ops: &mut Vec<PinOp>, byte: u8, is_data: bool)
    ensures
        final(ops)@ == old(ops)@ + bits_ops(word_bits(byte, is_data)),
{
    let ghost bits = word_bits(byte, is_data);
    write_bit(ops, is_data);  // first bit: 0 for command, 1 for data
    proof {
        assert(bits.take(1).drop_last() =~= Seq::empty());
        assert(bits.take(1).last() == is_data);
        assert(bits_ops(bits.take(1).drop_last()) =~= Seq::empty());
        assert(bits_ops(bits.take(1)) =~= bit_ops(is_data));
    }
    let mut i: u8 = 8;
    while i > 0
        invariant
            i <= 8,
            bits == word_bits(byte, is_data),
            ops@ == old(ops)@ + bits_ops(bits.take(9 - i)),
        decreases i,
    {
        i -= 1;
        let ghost before = ops@;
        write_bit(ops, (byte >> i) & 1 != 0);
        proof {
            let longer = bits.take(9 - i);
            assert(longer.drop_last() =~= bits.take(8 - i));
            assert(longer.last() == ((byte >> i) & 1 != 0));
            assert(ops@ =~= old(ops)@ + bits_ops(longer));
        }
    }
    proof {
        assert(bits.take(9) =~= bits);
    }
}

/// Put one bit on the wire.
pub fn write_bit(ops: &mut Vec<PinOp>, bit: bool)
    ensures
        final(ops)@ == old(ops)@ + bit_ops(bit),
{
    ops.push(PinOp::SclLow);
    ops.push(PinOp::Sda(bit));
    ops.push(tiny_delay());
    ops.push(PinOp::SclHigh);
    ops.push(tiny_delay());
    assert(ops@ =~= old(ops)@ + bit_ops(bit));
}

/// The settling time of a pin.
pub fn tiny_delay() -> (op: PinOp)
    ensures
        op == PinOp::Spin(40),
{
    PinOp::Spin(TINY_DELAY_SPINS)
}

// ---------------------------------------------------------------------------
// What the panel receives
// ---------------------------------------------------------------------------

/// The levels of the two SPI lines.
pub struct Bus {
    pub scl: bool,
    pub sda: bool,
}

/// The lines after a sequence of actions.
pub open spec fn bus_after(ops: Seq<PinOp>, bus: Bus) -> Bus
    decreases ops.len(),
{
    if ops.len() == 0 {
        bus
    } else {
        let before = bus_after(ops.drop_last(), bus);
        match ops.last() {
            PinOp::SclLow => Bus { scl: false, sda: before.sda },
            PinOp::SclHigh => Bus { scl: true, sda: before.sda },
            PinOp::Sda(level) => Bus { scl: before.scl, sda: level },
            _ => before,
        }
    }
}

/// The bits that a receiver samples: SDA at each rising edge of SCL.
pub open spec fn sampled(ops: Seq<PinOp>, bus: Bus) -> Seq<bool>
    decreases ops.len(),
{
    if ops.len() == 0 {
        Seq::empty()
    } else {
        let before = bus_after(ops.drop_last(), bus);
        let bits = sampled(ops.drop_last(), bus);
        if ops.last() is SclHigh && !before.scl {
            bits.push(before.sda)
        } else {
            bits
        }
    }
}

/// The byte that eight bits spell, most significant bit first.
pub open spec fn byte_of(bits: Seq<bool>) -> int
    decreases bits.len(),
{
    if bits.len() == 0 {
        0
    } else {
        2 * byte_of(bits.drop_last()) + if bits.last() {
            1int
        } else {
            0
        }
    }
}

/// A stream of bits read as 9-bit words: each a D/C flag and a byte.
pub open spec fn words_of(bits: Seq<bool>) -> Seq<(bool, int)>
    decreases bits.len(),
{
    if bits.len() < 9 {
        Seq::empty()
    } else {
        let rest = bits.len() - 9;
        words_of(bits.take(rest)).push((bits[rest], byte_of(bits.skip(rest + 1))))
    }
}

/// The commands and data bytes among the first `n` rows of the init table.
pub open spec fn init_words(n: nat) -> Seq<(bool, int)>
    decreases n,
{
    if n == 0 {
        Seq::empty()
    } else {
        let before = init_words((n - 1) as nat);
        match init_entry(n - 1) {
            Init::Cmd(byte) => before.push((false, byte as int)),
            Init::Data(byte) => before.push((true, byte as int)),
            Init::Delay(ms) => before,
        }
    }
}

proof fn lemma_concat(a: Seq<PinOp>, b: Seq<PinOp>, bus: Bus)
    ensures
        bus_after(a + b, bus) == bus_after(b, bus_after(a, bus)),
        sampled(a + b, bus) == sampled(a, bus) + sampled(b, bus_after(a, bus)),
    decreases b.len(),
{
    if b.len() == 0 {
        assert(a + b =~= a);
        assert(sampled(a, bus) + sampled(b, bus_after(a, bus)) =~= sampled(a, bus));
    } else {
        assert((a + b).drop_last() =~= a + b.drop_last());
        assert((a + b).last() == b.last());
        lemma_concat(a, b.drop_last(), bus);
        assert(sampled(a + b, bus) =~= sampled(a, bus) + sampled(b, bus_after(a, bus)));
    }
}

proof fn lemma_bit_is_sampled(bit: bool, bus: Bus)
    ensures
        sampled(bit_ops(bit), bus) == seq![bit],
{
    let o = bit_ops(bit);
    assert(o.drop_last().drop_last().drop_last().drop_last().drop_last() =~= Seq::empty());
    reveal_with_fuel(sampled, 6);
    reveal_with_fuel(bus_after, 6);
    assert(sampled(o, bus) =~= seq![bit]);
}

/// A receiver that samples SDA on the rising edges of SCL reads back the bits
/// that were put on the wire, whatever the lines were before.
pub proof fn law_bits_are_sampled(bits: Seq<bool>, bus: Bus)
    ensures
        sampled(bits_ops(bits), bus) == bits,
    decreases bits.len(),
{
    if bits.len() > 0 {
        let rest = bits_ops(bits.drop_last());
        law_bits_are_sampled(bits.drop_last(), bus);
        lemma_concat(rest, bit_ops(bits.last()), bus);
        lemma_bit_is_sampled(bits.last(), bus_after(rest, bus));
    }
    assert(sampled(bits_ops(bits), bus) =~= bits);
}

/// A word's first bit is its D/C flag, and the other eight spell its byte.
pub proof fn law_word_spells_its_byte(byte: u8, is_data: bool)
    ensures
        word_bits(byte, is_data).len() == 9,
        word_bits(byte, is_data)[0] == is_data,
        byte_of(word_bits(byte, is_data).skip(1)) == byte,
{
    let b = word_bits(byte, is_data).skip(1);
    let half = b.drop_last().drop_last().drop_last().drop_last();
    assert(half.drop_last().drop_last().drop_last().drop_last() =~= Seq::empty());
    reveal_with_fuel(byte_of, 9);
    assert(byte == 128 * ((byte >> 7) & 1) + 64 * ((byte >> 6) & 1) + 32 * ((byte >> 5) & 1)
        + 16 * ((byte >> 4) & 1) + 8 * ((byte >> 3) & 1) + 4 * ((byte >> 2) & 1)
        + 2 * ((byte >> 1) & 1) + ((byte >> 0) & 1)) by (bit_vector);
    assert forall|k: u8| #[trigger] ((byte >> k) & 1) == 0 || (byte >> k) & 1 == 1 by {
        assert((byte >> k) & 1 == 0 || (byte >> k) & 1 == 1) by (bit_vector);
    }
}

/// Playing the init sequence makes the panel receive the table's commands and
/// data bytes, each flagged as what it is, in the table's order.
pub proof fn law_panel_receives_the_table(n: nat, bus: Bus)
    ensures
        words_of(sampled(init_ops(n), bus)) == init_words(n),
        sampled(init_ops(n), bus).len() % 9 == 0,
    decreases n,
{
    if n > 0 {
        let k = (n - 1) as nat;
        let rest = init_ops(k);
        let ops = entry_ops(init_entry(n - 1));
        law_panel_receives_the_table(k, bus);
        lemma_concat(rest, ops, bus);
        let then = bus_after(rest, bus);
        let bits = sampled(rest, bus);
        let all = sampled(init_ops(n), bus);
        match init_entry(n - 1) {
            Init::Cmd(byte) => {
                law_bits_are_sampled(word_bits(byte, false), then);
                lemma_one_more_word(bits, all, byte, false);
            },
            Init::Data(byte) => {
                law_bits_are_sampled(word_bits(byte, true), then);
                lemma_one_more_word(bits, all, byte, true);
            },
            Init::Delay(ms) => {
                assert(ops.drop_last() =~= Seq::empty());
                assert(sampled(ops.drop_last(), then) =~= Seq::empty());
                assert(sampled(ops, then) =~= Seq::empty());
                assert(all =~= bits);
            },
        }
    }
}

proof fn lemma_one_more_word(bits: Seq<bool>, all: Seq<bool>, byte: u8, is_data: bool)
    requires
        all == bits + word_bits(byte, is_data),
    ensures
        words_of(all) == words_of(bits).push((is_data, byte as int)),
        all.len() == bits.len() + 9,
{
    law_word_spells_its_byte(byte, is_data);
    assert(all.take(all.len() - 9) =~= bits);
    assert(all.skip(all.len() - 8) =~= word_bits(byte, is_data).skip(1));
}

/// The table's commands and data are bytes: reading a row loses nothing of it.
pub proof fn law_rows_are_read_whole(i: int)
    requires
        0 <= i < INIT_LEN,
    ensures
        match init_entry(i) {
            Init::Cmd(byte) => ST7701_INIT[i] == (Kind::Cmd, byte as u16),
            Init::Data(byte) => ST7701_INIT[i] == (Kind::Data, byte as u16),
            Init::Delay(ms) => ST7701_INIT[i] == (Kind::Delay, ms),
        },
{
    assert(ST7701_INIT[i].0 is Delay || ST7701_INIT[i].1 <= 0xFF);
}

// ---------------------------------------------------------------------------
// What the panel is told
// ---------------------------------------------------------------------------

/// A command and its parameters, as the panel receives them.
pub open spec fn order(command: u8, parameters: Seq<u8>) -> Seq<(bool, int)> {
    seq![(false, command as int)] + Seq::new(
        parameters.len(),
        |k: int| (true, parameters[k] as int),
    )
}

/// Rows of a command and its parameters make up one order.
proof fn lemma_order(i: int, command: u8, parameters: Seq<u8>)
    requires
        0 <= i,
        i + 1 + parameters.len() <= INIT_LEN,
        init_entry(i) == Init::Cmd(command),
        forall|k: int|
            0 <= k < parameters.len() ==> init_entry(i + 1 + k) == Init::Data(
                #[trigger] parameters[k],
            ),
    ensures
        init_words((i + 1 + parameters.len()) as nat) == init_words(i as nat) + order(
            command,
            parameters,
        ),
    decreases parameters.len(),
{
    if parameters.len() == 0 {
        assert(init_words(i as nat) + order(command, parameters) =~= init_words(i as nat).push(
            (false, command as int),
        ));
    } else {
        let rest = parameters.drop_last();
        let last = parameters[parameters.len() - 1];
        assert forall|k: int| 0 <= k < rest.len() implies init_entry(i + 1 + k) == Init::Data(
            #[trigger] rest[k],
        ) by {
            assert(rest[k] == parameters[k]);
        }
        lemma_order(i, command, rest);
        assert(init_entry(i + 1 + rest.len()) == Init::Data(last));
        assert(order(command, parameters) =~= order(command, rest).push((true, last as int)));
        assert(init_words(i as nat) + order(command, parameters) =~= (init_words(i as nat) + order(
            command,
            rest,
        )).push((true, last as int)));
    }
}

/// What the panel is told in Command2 BK0, the two gamma curves with it.
pub proof fn law_bank_0()
    ensures
        init_words(53) == Seq::<(bool, int)>::empty()
            + order(0xFF, seq![0x77u8, 0x01, 0x00, 0x00, 0x10])
            + order(0xC0, seq![0x3Bu8, 0x00])
            + order(0xC1, seq![0x0Bu8, 0x02])
            + order(0xC2, seq![0x07u8, 0x02])
            + order(0xCC, seq![0x10u8])
            + order(0xCD, seq![0x08u8])
            + order(0xB0, seq![
                0x00u8, 0x11, 0x16, 0x0E, 0x11, 0x06, 0x05, 0x09, 0x08, 0x21, 0x06, 0x13, 0x10,
                0x29, 0x31, 0x18,
            ])
            + order(0xB1, seq![
                0x00u8, 0x11, 0x16, 0x0E, 0x11, 0x07, 0x05, 0x09, 0x09, 0x21, 0x05, 0x13, 0x11,
                0x2A, 0x31, 0x18,
            ]),
{
    lemma_order(0, 0xFF, seq![0x77u8, 0x01, 0x00, 0x00, 0x10]);
    lemma_order(6, 0xC0, seq![0x3Bu8, 0x00]);
    lemma_order(9, 0xC1, seq![0x0Bu8, 0x02]);
    lemma_order(12, 0xC2, seq![0x07u8, 0x02]);
    lemma_order(15, 0xCC, seq![0x10u8]);
    lemma_order(17, 0xCD, seq![0x08u8]);
    lemma_order(19, 0xB0, seq![
        0x00u8, 0x11, 0x16, 0x0E, 0x11, 0x06, 0x05, 0x09, 0x08, 0x21, 0x06, 0x13, 0x10, 0x29,
        0x31, 0x18,
    ]);
    lemma_order(36, 0xB1, seq![
        0x00u8, 0x11, 0x16, 0x0E, 0x11, 0x07, 0x05, 0x09, 0x09, 0x21, 0x05, 0x13, 0x11, 0x2A,
        0x31, 0x18,
    ]);
}

/// What the panel is told in Command2 BK1, up to register 0xD0.
pub proof fn law_bank_1_power()
    ensures
        init_words(79) == init_words(53)
            + order(0xFF, seq![0x77u8, 0x01, 0x00, 0x00, 0x11])
            + order(0xB0, seq![0x6Du8])
            + order(0xB1, seq![0x37u8])
            + order(0xB2, seq![0x81u8])
            + order(0xB3, seq![0x80u8])
            + order(0xB5, seq![0x43u8])
            + order(0xB7, seq![0x85u8])
            + order(0xB8, seq![0x20u8])
            + order(0xC1, seq![0x78u8])
            + order(0xC2, seq![0x78u8])
            + order(0xD0, seq![0x88u8]),
{
    lemma_order(53, 0xFF, seq![0x77u8, 0x01, 0x00, 0x00, 0x11]);
    lemma_order(59, 0xB0, seq![0x6Du8]);
    lemma_order(61, 0xB1, seq![0x37u8]);
    lemma_order(63, 0xB2, seq![0x81u8]);
    lemma_order(65, 0xB3, seq![0x80u8]);
    lemma_order(67, 0xB5, seq![0x43u8]);
    lemma_order(69, 0xB7, seq![0x85u8]);
    lemma_order(71, 0xB8, seq![0x20u8]);
    lemma_order(73, 0xC1, seq![0x78u8]);
    lemma_order(75, 0xC2, seq![0x78u8]);
    lemma_order(77, 0xD0, seq![0x88u8]);
}

/// What the panel is told in Command2 BK1, from register 0xE0 on.
pub proof fn law_bank_1_timing()
    ensures
        init_words(191) == init_words(79)
            + order(0xE0, seq![0x00u8, 0x00, 0x02])
            + order(0xE1, seq![0x03u8, 0xA0, 0x00, 0x00, 0x04, 0xA0, 0x00, 0x00, 0x00, 0x20, 0x20])
            + order(0xE2, seq![
                0x00u8, 0x00, 0x00, 0x00, 0x00, 0x00, 0x00, 0x00, 0x00, 0x00, 0x00, 0x00, 0x00,
            ])
            + order(0xE3, seq![0x00u8, 0x00, 0x11, 0x00])
            + order(0xE4, seq![0x22u8, 0x00])
            + order(0xE5, seq![
                0x05u8, 0xEC, 0xA0, 0xA0, 0x07, 0xEE, 0xA0, 0xA0, 0x00, 0x00, 0x00, 0x00, 0x00,
                0x00, 0x00, 0x00,
            ])
            + order(0xE6, seq![0x00u8, 0x00, 0x11, 0x00])
            + order(0xE7, seq![0x22u8, 0x00])
            + order(0xE8, seq![
                0x06u8, 0xED, 0xA0, 0xA0, 0x08, 0xEF, 0xA0, 0xA0, 0x00, 0x00, 0x00, 0x00, 0x00,
                0x00, 0x00, 0x00,
            ])
            + order(0xEB, seq![0x00u8, 0x00, 0x40, 0x40, 0x00, 0x00, 0x00])
            + order(0xED, seq![
                0xFFu8, 0xFF, 0xFF, 0xBA, 0x0A, 0xBF, 0x45, 0xFF, 0xFF, 0x54, 0xFB, 0xA0, 0xAB,
                0xFF, 0xFF, 0xFF,
            ])
            + order(0xEF, seq![0x10u8, 0x0D, 0x04, 0x08, 0x3F, 0x1F]),
{
    lemma_order(79, 0xE0, seq![0x00u8, 0x00, 0x02]);
    lemma_order(83, 0xE1, seq![0x03u8, 0xA0, 0x00, 0x00, 0x04, 0xA0, 0x00, 0x00, 0x00, 0x20, 0x20]);
    lemma_order(95, 0xE2, seq![
        0x00u8, 0x00, 0x00, 0x00, 0x00, 0x00, 0x00, 0x00, 0x00, 0x00, 0x00, 0x00, 0x00,
    ]);
    lemma_order(109, 0xE3, seq![0x00u8, 0x00, 0x11, 0x00]);
    lemma_order(114, 0xE4, seq![0x22u8, 0x00]);
    lemma_order(117, 0xE5, seq![
        0x05u8, 0xEC, 0xA0, 0xA0, 0x07, 0xEE, 0xA0, 0xA0, 0x00, 0x00, 0x00, 0x00, 0x00, 0x00,
        0x00, 0x00,
    ]);
    lemma_order(134, 0xE6, seq![0x00u8, 0x00, 0x11, 0x00]);
    lemma_order(139, 0xE7, seq![0x22u8, 0x00]);
    lemma_order(142, 0xE8, seq![
        0x06u8, 0xED, 0xA0, 0xA0, 0x08, 0xEF, 0xA0, 0xA0, 0x00, 0x00, 0x00, 0x00, 0x00, 0x00,
        0x00, 0x00,
    ]);
    lemma_order(159, 0xEB, seq![0x00u8, 0x00, 0x40, 0x40, 0x00, 0x00, 0x00]);
    lemma_order(167, 0xED, seq![
        0xFFu8, 0xFF, 0xFF, 0xBA, 0x0A, 0xBF, 0x45, 0xFF, 0xFF, 0x54, 0xFB, 0xA0, 0xAB, 0xFF,
        0xFF, 0xFF,
    ]);
    lemma_order(184, 0xEF, seq![0x10u8, 0x0D, 0x04, 0x08, 0x3F, 0x1F]);
}

/// What the panel is told in Command2 BK3 and then among the user commands, up to
/// sleep out, inversion off and display on, with a pause after each of these.
pub proof fn law_bank_3_and_user_set()
    ensures
        init_words(215) == init_words(191)
            + order(0xFF, seq![0x77u8, 0x01, 0x00, 0x00, 0x13])
            + order(0xEF, seq![0x08u8])
            + order(0xFF, seq![0x77u8, 0x01, 0x00, 0x00, 0x00])
            + order(0x36, seq![0x00u8])
            + order(0x3A, seq![0x66u8])
            + order(0x11, Seq::<u8>::empty())
            + order(0x20, Seq::<u8>::empty())
            + order(0x29, Seq::<u8>::empty()),
        init_entry(210) == Init::Delay(480),
        init_entry(212) == Init::Delay(120),
        init_entry(214) == Init::Delay(20),
{
    lemma_order(191, 0xFF, seq![0x77u8, 0x01, 0x00, 0x00, 0x13]);
    lemma_order(197, 0xEF, seq![0x08u8]);
    lemma_order(199, 0xFF, seq![0x77u8, 0x01, 0x00, 0x00, 0x00]);
    lemma_order(205, 0x36, seq![0x00u8]);
    lemma_order(207, 0x3A, seq![0x66u8]);
    lemma_order(209, 0x11, Seq::<u8>::empty());
    assert(init_entry(210) == Init::Delay(480));
    assert(init_words(211) == init_words(210));
    lemma_order(211, 0x20, Seq::<u8>::empty());
    assert(init_entry(212) == Init::Delay(120));
    assert(init_words(213) == init_words(212));
    lemma_order(213, 0x29, Seq::<u8>::empty());
    assert(init_entry(214) == Init::Delay(20));
    assert(init_words(215) == init_words(214));
}

/// On the wire every bit takes five actions: the clock goes low, the bit is put
/// on the data line and settles, then the clock goes high and the line stays
/// as it is until the panel has read it.
pub proof fn law_bit_timing(bits: Seq<bool>, i: int)
    requires
        0 <= i < bits.len(),
    ensures
        bits_ops(bits).len() == 5 * bits.len(),
        bits_ops(bits)[5 * i] == PinOp::SclLow,
        bits_ops(bits)[5 * i + 1] == PinOp::Sda(bits[i]),
        bits_ops(bits)[5 * i + 2] == PinOp::Spin(40),
        bits_ops(bits)[5 * i + 3] == PinOp::SclHigh,
        bits_ops(bits)[5 * i + 4] == PinOp::Spin(40),
    decreases bits.len(),
{
    let rest = bits.drop_last();
    if rest.len() == 0 {
        assert(bits_ops(rest) =~= Seq::empty());
    } else if i < rest.len() {
        law_bit_timing(rest, i);
        assert(rest[i] == bits[i]);
    } else {
        law_bit_timing(rest, 0);
    }
}

/// A word is its flag and then the binary digits of its byte, the one that
/// weighs most first.
pub proof fn law_word_is_flag_and_digits(byte: u8, is_data: bool)
    ensures
        word_bits(byte, is_data) == seq![
            is_data,
            (byte / 128) % 2 == 1,
            (byte / 64) % 2 == 1,
            (byte / 32) % 2 == 1,
            (byte / 16) % 2 == 1,
            (byte / 8) % 2 == 1,
            (byte / 4) % 2 == 1,
            (byte / 2) % 2 == 1,
            byte % 2 == 1,
        ],
{
    assert((byte >> 7) & 1 == (byte / 128) % 2 && (byte >> 6) & 1 == (byte / 64) % 2 && (byte >> 5)
        & 1 == (byte / 32) % 2 && (byte >> 4) & 1 == (byte / 16) % 2 && (byte >> 3) & 1 == (byte
        / 8) % 2 && (byte >> 2) & 1 == (byte / 4) % 2 && (byte >> 1) & 1 == (byte / 2) % 2 && (byte
        >> 0) & 1 == byte % 2) by (bit_vector);
    assert(word_bits(byte, is_data) =~= seq![
        is_data,
        (byte / 128) % 2 == 1,
        (byte / 64) % 2 == 1,
        (byte / 32) % 2 == 1,
        (byte / 16) % 2 == 1,
        (byte / 8) % 2 == 1,
        (byte / 4) % 2 == 1,
        (byte / 2) % 2 == 1,
        byte % 2 == 1,
    ]);
}

} // verus!
