use dew_firmware::board::{
    Expander, ResetStep, DMA_ALIGNMENT, DMA_CHUNK_SIZE, EXIO_BUZZER, EXIO_LCD_CS, EXIO_LCD_RST,
    EXIO_TP_RST, FB_SIZE, H_TOTAL, V_TOTAL,
};

#[test]
fn framebuffer_size() {
    assert_eq!(FB_SIZE, 460_800);
    assert_eq!(FB_SIZE % DMA_ALIGNMENT, 0);
}

#[test]
fn dma_chunks_are_short_and_aligned() {
    assert_eq!(DMA_CHUNK_SIZE, 4032);
    assert!(DMA_CHUNK_SIZE < 4092);
    assert_eq!(DMA_CHUNK_SIZE % DMA_ALIGNMENT, 0);
}

#[test]
fn frame_totals() {
    assert_eq!(H_TOTAL, 548);
    assert_eq!(V_TOTAL, 499);
}

#[test]
fn everything_but_the_buzzer_starts_high() {
    let exio = Expander::new();
    assert_eq!(exio.config_message(), [0x03, 0x00]);
    assert_eq!(exio.output_message(), [0x01, 0x7F]);
}

#[test]
fn pins_are_driven_one_by_one() {
    let mut exio = Expander::new();
    assert_eq!(exio.drive_low(EXIO_LCD_CS), [0x01, 0x7B]);
    assert_eq!(exio.drive_low(EXIO_TP_RST), [0x01, 0x79]);
    assert_eq!(exio.drive_low(EXIO_TP_RST), [0x01, 0x79]);
    assert_eq!(exio.drive_high(EXIO_LCD_CS), [0x01, 0x7D]);
    assert_eq!(exio.output_message(), [0x01, 0x7D]);
}

#[test]
fn reset_pulls_the_line_low_and_high() {
    let mut exio = Expander::new();
    let steps = exio.reset_panel();
    assert_eq!(
        steps,
        vec![
            ResetStep::Write([0x03, 0x00]),
            ResetStep::Write([0x01, 0x7F]),
            ResetStep::Write([0x01, 0x7E]),
            ResetStep::DelayMillis(20),
            ResetStep::Write([0x01, 0x7F]),
            ResetStep::DelayMillis(80),
        ]
    );
    assert_eq!(exio.output_message(), [0x01, 0x7F]);
}

#[test]
fn buzzer_stays_silent() {
    let mut exio = Expander::new();
    for bit in 0..8 {
        assert_eq!(exio.drive_low(bit)[1] >> EXIO_BUZZER, 0);
    }
    for bit in EXIO_LCD_RST..EXIO_BUZZER {
        assert_eq!(exio.drive_high(bit)[1] >> EXIO_BUZZER, 0);
    }
}
