use karma_keepers::params::Blessing;
use karma_keepers::price::cost;

#[test]
fn price_of_the_second_level_of_circle_of_grace_is_29() {
    assert_eq!(Blessing::CircleOfGrace.price(2), 29);
}

#[test]
fn price_agrees_with_the_formula_in_floating_point() {
    let all = [
        (Blessing::CircleOfGrace, 10.0f64),
        (Blessing::KarmaAmplification, 30.0),
        (Blessing::KarmaPersistence, 80.0),
        (Blessing::SpiritualFocus, 150.0),
        (Blessing::AscendantEnergy, 300.0),
        (Blessing::Devotion, 550.0),
        (Blessing::GracefulPause, 1000.0),
        (Blessing::SpiritualGate, 1800.0),
        (Blessing::EternalGrace, 2590.0),
    ];
    for (blessing, base) in all {
        for level in 0u8..=11 {
            let exponent = 1.3 + level as f64 / 12.0;
            let real = base.powf(exponent);
            // Away from whole numbers the floating-point value decides.
            if real - real.floor() > 0.001 && real.ceil() - real > 0.001 {
                assert_eq!(blessing.price(level), real.floor() as u64);
            }
        }
    }
}

#[test]
fn price_of_each_first_level() {
    assert_eq!(Blessing::CircleOfGrace.price(1), 24);
    assert_eq!(Blessing::KarmaAmplification.price(1), 110);
    assert_eq!(Blessing::KarmaPersistence.price(1), 429);
    assert_eq!(Blessing::SpiritualFocus.price(1), 1023);
    assert_eq!(Blessing::AscendantEnergy.price(1), 2671);
    assert_eq!(Blessing::Devotion.price(1), 6177);
    assert_eq!(Blessing::GracefulPause.price(1), 14125);
    assert_eq!(Blessing::SpiritualGate.price(1), 31851);
    assert_eq!(Blessing::EternalGrace.price(1), 52690);
}

#[test]
fn price_of_level_zero_is_the_base_to_the_power_one_point_three() {
    assert_eq!(Blessing::CircleOfGrace.price(0), 19);
    assert_eq!(Blessing::GracefulPause.price(0), 7943);
    assert_eq!(Blessing::EternalGrace.price(0), 27370);
}

#[test]
fn price_of_the_highest_levels() {
    assert_eq!(Blessing::CircleOfGrace.price(10), 135);
    assert_eq!(Blessing::CircleOfGrace.price(11), 164);
    assert_eq!(Blessing::GracefulPause.price(10), 2_511_886);
    assert_eq!(Blessing::SpiritualGate.price(10), 8_801_999);
    assert_eq!(Blessing::EternalGrace.price(10), 19_129_612);
    assert_eq!(Blessing::EternalGrace.price(11), 36_825_428);
}

#[test]
fn price_grows_with_the_level() {
    let mut last = 0;
    for level in 0u8..=40 {
        let price = Blessing::Devotion.price(level);
        assert!(price > last);
        last = price;
    }
}

#[test]
fn price_beyond_64_bits_is_the_largest_number() {
    assert_eq!(Blessing::EternalGrace.price(52), 16_914_350_961_039_327_129);
    assert_eq!(Blessing::EternalGrace.price(53), u64::MAX);
    assert_eq!(Blessing::EternalGrace.price(255), u64::MAX);
    assert_eq!(Blessing::CircleOfGrace.price(255), u64::MAX);
}

#[test]
fn cost_is_exact_on_large_numbers() {
    assert_eq!(cost(10, 100), 4_298_662_347);
    assert_eq!(cost(10, 200), 926_118_728_128_793_493);
    assert_eq!(cost(2590, 50), 4_564_277_528_994_574_485);
}

#[test]
fn cost_of_the_smallest_bases() {
    assert_eq!(cost(0, 0), 0);
    assert_eq!(cost(0, 255), 0);
    assert_eq!(cost(1, 0), 1);
    assert_eq!(cost(1, 255), 1);
    // 2 to the power 1.3 is 2.46, and 2 to the power 6.3 is 78.8.
    assert_eq!(cost(2, 0), 2);
    assert_eq!(cost(2, 60), 78);
}
