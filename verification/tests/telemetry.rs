use dew_firmware::telemetry::{telemetry, triangle};

#[test]
fn wave_goes_up_and_down() {
    let period: Vec<u32> = (0..8).map(|p| triangle(p, 8, 100)).collect();
    assert_eq!(period, vec![0, 25, 50, 75, 100, 75, 50, 25]);
    assert_eq!(triangle(8, 8, 100), 0);
    assert_eq!(triangle(13, 8, 100), 75);
}

#[test]
fn wave_of_two_steps() {
    assert_eq!(triangle(0, 2, 9), 0);
    assert_eq!(triangle(1, 2, 9), 9);
}

#[test]
fn odd_wave_peaks_at_its_maximum() {
    let period: Vec<u32> = (0..5).map(|p| triangle(p, 5, 100)).collect();
    assert_eq!(period, vec![0, 50, 100, 100, 50]);
    let period: Vec<u32> = (0..3).map(|p| triangle(p, 3, 10)).collect();
    assert_eq!(period, vec![0, 10, 10]);
}

#[test]
fn wave_is_symmetric() {
    for period in [464, 465] {
        for p in 1..period {
            assert_eq!(triangle(p, period, 100), triangle(period - p, period, 100));
        }
    }
}

#[test]
fn readings_stay_in_range() {
    let mut dry = false;
    let mut wet = false;
    for frame in 0..2000 {
        let (rh, temp, watering) = telemetry(frame);
        assert!(rh <= 100);
        assert!((5..=35).contains(&temp));
        assert_eq!(watering, rh < 25);
        dry |= rh == 0;
        wet |= rh == 100;
    }
    assert!(dry && wet);
}

#[test]
fn first_and_middle_readings() {
    assert_eq!(telemetry(0), (0, 5, true));
    assert_eq!(telemetry(58), (25, 5 + 30 * 58 / 170, false));
    assert_eq!(telemetry(57), (24, 5 + 30 * 57 / 170, true));
    assert_eq!(telemetry(170), (73, 35, false));
    assert_eq!(telemetry(232), (100, 5 + 30 * 108 / 170, false));
    assert_eq!(telemetry(u32::MAX).1, 20);
}

#[test]
fn humidity_repeats_after_its_period() {
    for frame in 0..464 {
        assert_eq!(telemetry(frame).0, telemetry(frame + 464).0);
        assert_eq!(telemetry(frame).1, telemetry(frame + 340).1);
    }
}
