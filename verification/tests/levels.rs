use truce_analyzer::level::{clamp, is_at_most, is_below};
use truce_analyzer::{analyzer, mono, plot, readout, spectrum};

const VALUES: [f32; 12] = [
    f32::NEG_INFINITY,
    -1.0e9,
    -90.0,
    -0.5,
    -0.0,
    0.0,
    1.0e-40,
    0.25,
    27.5,
    20480.0,
    f32::INFINITY,
    f32::NAN,
];

#[test]
fn order_of_bit_patterns_is_the_order_of_numbers() {
    for x in VALUES {
        for y in VALUES {
            assert_eq!(is_below(x.to_bits(), y.to_bits()), x < y, "{} < {}", x, y);
            assert_eq!(is_at_most(x.to_bits(), y.to_bits()), x <= y, "{} <= {}", x, y);
        }
    }
}

#[test]
fn clamping_follows_the_numbers() {
    for x in VALUES {
        let clamped = clamp(x.to_bits(), (-90.0f32).to_bits(), 0.0f32.to_bits());
        assert_eq!(clamped, x.clamp(-90.0, 0.0).to_bits(), "{}", x);
    }
}

#[test]
fn constants_are_the_numbers_they_stand_for() {
    assert_eq!(f32::from_bits(spectrum::CQT_F_MIN), 27.5);
    assert_eq!(f32::from_bits(spectrum::CQT_F_MAX), 20480.0);
    assert_eq!(f32::from_bits(spectrum::DB_FLOOR), -90.0);
    assert_eq!(f32::from_bits(spectrum::DB_CEIL), 0.0);
    assert_eq!(f32::from_bits(spectrum::FREQ_MIN), 20.0);
    assert_eq!(f32::from_bits(spectrum::FREQ_MAX), 20000.0);
    assert_eq!(f32::from_bits(spectrum::INITIAL_SAMPLE_RATE), 44100.0);
    assert_eq!(f32::from_bits(analyzer::SMOOTH_UP), 0.9);
    assert_eq!(f32::from_bits(analyzer::SMOOTH_DOWN), 0.9);
    assert_eq!(f32::from_bits(mono::SMOOTH_UP), 0.4);
    assert_eq!(f32::from_bits(mono::SMOOTH_DOWN), 0.8);
    assert_eq!(f32::from_bits(plot::DIFF_RANGE), 45.0);
    assert_eq!(f32::from_bits(plot::DIFF_RANGE_BELOW), -45.0);
    assert_eq!(f32::from_bits(readout::ONE_KILOHERTZ), 1000.0);
    assert_eq!(spectrum::BINS_PER_OCTAVE, 96);
    assert_eq!(mono::BINS_PER_OCTAVE, 48);
    assert_eq!(analyzer::HOP_SIZE, 2048);
}
