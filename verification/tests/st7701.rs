use dew_firmware::st7701::{
    init_at, send_init, spi9, tiny_delay, write_bit, Init, Kind, PinOp, ST7701_INIT,
};

/// The bits that a receiver samples on rising edges of the clock.
fn sample(ops: &[PinOp]) -> Vec<bool> {
    let (mut scl, mut sda) = (true, true);
    let mut bits = Vec::new();
    for op in ops {
        match *op {
            PinOp::SclLow => scl = false,
            PinOp::SclHigh => {
                if !scl {
                    bits.push(sda);
                }
                scl = true;
            }
            PinOp::Sda(level) => sda = level,
            PinOp::Spin(_) | PinOp::DelayMillis(_) => {}
        }
    }
    bits
}

#[test]
fn one_bit_on_the_wire() {
    let mut ops = vec![PinOp::SclHigh];
    write_bit(&mut ops, true);
    assert_eq!(
        ops,
        vec![
            PinOp::SclHigh,
            PinOp::SclLow,
            PinOp::Sda(true),
            PinOp::Spin(40),
            PinOp::SclHigh,
            PinOp::Spin(40),
        ]
    );
    assert_eq!(tiny_delay(), PinOp::Spin(40));
}

#[test]
fn word_is_flag_then_byte_msb_first() {
    let mut ops = Vec::new();
    spi9(&mut ops, 0b1010_0110, false);
    assert_eq!(ops.len(), 45);
    assert_eq!(
        sample(&ops),
        vec![false, true, false, true, false, false, true, true, false]
    );
    spi9(&mut ops, 0x01, true);
    assert_eq!(
        sample(&ops[45..]),
        vec![true, false, false, false, false, false, false, false, true]
    );
}

#[test]
fn every_byte_survives_the_wire() {
    for byte in 0..=255u8 {
        for flag in [false, true] {
            let mut ops = Vec::new();
            spi9(&mut ops, byte, flag);
            let bits = sample(&ops);
            assert_eq!(bits.len(), 9);
            assert_eq!(bits[0], flag);
            let back = bits[1..].iter().fold(0u8, |b, bit| (b << 1) | u8::from(*bit));
            assert_eq!(back, byte);
        }
    }
}

#[test]
fn panel_receives_the_table() {
    let bits = sample(&send_init());
    let mut words = bits.chunks(9);
    for (kind, value) in ST7701_INIT {
        if kind == Kind::Delay {
            continue;
        }
        let word = words.next().unwrap();
        assert_eq!(word.len(), 9);
        assert_eq!(word[0], kind == Kind::Data);
        let byte = word[1..].iter().fold(0u16, |b, bit| (b << 1) | u16::from(*bit));
        assert_eq!(byte, value);
    }
    assert!(words.next().is_none());
}

#[test]
fn pauses_stand_between_the_last_commands() {
    let ops = send_init();
    let pauses: Vec<(usize, u32)> = ops
        .iter()
        .enumerate()
        .filter_map(|(i, op)| match *op {
            PinOp::DelayMillis(ms) => Some((i, ms)),
            _ => None,
        })
        .collect();
    assert_eq!(ops.len(), 212 * 45 + 3);
    assert_eq!(pauses, vec![(210 * 45, 480), (211 * 45 + 1, 120), (212 * 45 + 2, 20)]);
}

#[test]
fn table_bytes_fit_a_byte() {
    assert_eq!(ST7701_INIT.len(), 215);
    assert_eq!(ST7701_INIT[0], (Kind::Cmd, 0xFF));
    assert_eq!(ST7701_INIT[214], (Kind::Delay, 20));
    assert_eq!(init_at(0), Init::Cmd(0xFF));
    assert_eq!(init_at(1), Init::Data(0x77));
    assert_eq!(init_at(214), Init::Delay(20));
    for (kind, value) in ST7701_INIT {
        assert!(kind == Kind::Delay || value <= 0xFF);
    }
}
