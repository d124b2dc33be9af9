use splogbook::vfo::{quick_band, QUICK_BANDS, dimmed_digits, step_frequency, tuning_digits, tuning_weight, MIN_TUNED_HZ};

#[test]
fn digits_of_a_frequency() {
    assert_eq!(tuning_digits(14_074_123), vec![0, 1, 4, 0, 7, 4, 1, 2, 3]);
    assert_eq!(tuning_digits(432_100_000), vec![4, 3, 2, 1, 0, 0, 0, 0, 0]);
    // Above 1 GHz only the lower nine digits show.
    assert_eq!(tuning_digits(1_296_000_001), vec![2, 9, 6, 0, 0, 0, 0, 0, 1]);
}

#[test]
fn dimmed_leading_digits() {
    assert_eq!(dimmed_digits(7_100_000), (true, true));
    assert_eq!(dimmed_digits(14_000_000), (true, false));
    assert_eq!(dimmed_digits(144_300_000), (false, false));
}

#[test]
fn weights() {
    assert_eq!(tuning_weight(0), 100_000_000);
    assert_eq!(tuning_weight(5), 1_000);
    assert_eq!(tuning_weight(8), 1);
}

#[test]
fn steps_and_floor() {
    assert_eq!(step_frequency(14_074_000, 1_000), 14_075_000);
    assert_eq!(step_frequency(14_074_000, -100_000), 13_974_000);
    assert_eq!(step_frequency(150_000, -100_000), MIN_TUNED_HZ as u64);
    assert_eq!(step_frequency(14_074_000, -100_000_000), 100_000);
    // Up then down gives the frequency back.
    assert_eq!(step_frequency(step_frequency(3_573_000, 10_000), -10_000), 3_573_000);
}

#[test]
fn quick_bands() {
    assert_eq!(QUICK_BANDS, 12);
    assert_eq!(quick_band(0), ("160m", 1_840_000, "LSB"));
    assert_eq!(quick_band(4), ("20m", 14_195_000, "USB"));
    assert_eq!(quick_band(11), ("70cm", 432_200_000, "USB"));
}
