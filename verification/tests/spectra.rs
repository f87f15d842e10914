use truce_analyzer::spectrum::{cqt_center_frequencies, make_bins, SpectrumData, SpectrumSource};
use truce_analyzer::spectrum::{DB_FLOOR, MODE_BOTH, MODE_DIFF, MODE_SUM};
use truce_analyzer::mono;

fn bits(x: f32) -> u32 {
    x.to_bits()
}

#[test]
fn new_spectrum_is_silent() {
    let s = SpectrumData::new(vec![bits(27.5), bits(55.0), bits(110.0)]);
    assert_eq!(s.num_bins(), 3);
    assert_eq!(s.center_freq(1), bits(55.0));
    assert_eq!(s.center_freqs_slice(), &[bits(27.5), bits(55.0), bits(110.0)]);
    for i in 0..3 {
        assert_eq!(s.read_bin(i), bits(-90.0));
        assert_eq!(s.read_bin_b(i), bits(-90.0));
    }
    assert_eq!(s.sample_rate_bits(), bits(44100.0));
    assert_eq!(s.mode(), MODE_SUM);
    assert_eq!(s.version(), 0);
    assert!(!s.has_remotes());
    assert!(!s.is_both());
}

#[test]
fn written_levels_are_read_back() {
    let mut s = SpectrumData::new(vec![bits(27.5), bits(55.0)]);
    s.write_bin(0, bits(-12.0));
    s.write_bin_b(1, bits(-24.0));
    assert_eq!(s.read_bin(0), bits(-12.0));
    assert_eq!(s.read_bin(1), bits(-90.0));
    assert_eq!(s.read_bin_b(0), bits(-90.0));
    assert_eq!(s.read_bin_b(1), bits(-24.0));
    assert_eq!(s.read_bin_bits(0), bits(-12.0));
    assert_eq!(s.read_bin_b_bits(1), bits(-24.0));
    s.set_sample_rate(bits(48000.0));
    assert_eq!(s.sample_rate_bits(), bits(48000.0));
}

#[test]
fn reading_stops_at_the_shorter_end() {
    let mut s = SpectrumData::new(vec![bits(27.5), bits(55.0)]);
    s.write_bin(0, 1);
    s.write_bin(1, 2);
    let mut short = [9u32; 1];
    s.read_all(&mut short);
    assert_eq!(short, [1]);
    let mut long = [9u32; 3];
    s.read_all(&mut long);
    assert_eq!(long, [1, 2, 9]);
    s.read_all_b(&mut long);
    assert_eq!(long, [DB_FLOOR, DB_FLOOR, 9]);
}

#[test]
fn versions_start_over_after_the_last() {
    let mut s = SpectrumData::new(Vec::new());
    s.bump_version();
    s.bump_version();
    assert_eq!(s.version(), 2);
    s.set_version(u32::MAX);
    s.bump_version();
    assert_eq!(s.version(), 0);
}

#[test]
fn modes_and_flags_are_kept() {
    let mut s = SpectrumData::new(Vec::new());
    s.set_mode(MODE_BOTH);
    assert!(s.is_both());
    s.set_mode(MODE_DIFF);
    assert_eq!(s.mode(), MODE_DIFF);
    assert!(!s.is_both());
    s.set_has_remotes(true);
    assert!(s.has_remotes());
}

#[test]
fn nearest_bin_is_held_to_the_bins() {
    let s = SpectrumData::new(vec![bits(27.5), bits(27.7), bits(27.9)]);
    assert_eq!(s.nearest_bin(bits(20.0), 7), 0);
    assert_eq!(s.nearest_bin(bits(27.5), 7), 0);
    assert_eq!(s.nearest_bin(bits(27.7), 1), 1);
    assert_eq!(s.nearest_bin(bits(20000.0), 900), 2);
    assert_eq!(s.nearest_bin(bits(f32::INFINITY), 0), 2);
    assert_eq!(s.nearest_bin(bits(f32::NAN), 2), 0);
    assert_eq!(s.nearest_bin(bits(-5.0), 2), 0);
    let empty = SpectrumData::new(Vec::new());
    assert_eq!(empty.nearest_bin(bits(1000.0), 5), 0);
}

fn version_of<S: SpectrumSource>(s: &S) -> (u32, usize, bool) {
    (s.version(), s.num_bins(), s.is_both())
}

#[test]
fn every_center_has_its_own_bin() {
    let center = |k: usize| bits(27.5 * 2.0_f32.powf(k as f32 / 96.0));
    let freqs = cqt_center_frequencies(916, &center);
    let s = SpectrumData::new(freqs);
    for k in 0..916 {
        let freq = f32::from_bits(s.center_freq(k));
        let position = (96.0 * (freq / 27.5).log2()).round() as usize;
        assert_eq!(s.nearest_bin(bits(freq), position), k);
    }
}

#[test]
fn a_spectrum_is_a_source() {
    let mut s = SpectrumData::new(vec![bits(27.5)]);
    s.bump_version();
    s.set_mode(MODE_BOTH);
    assert_eq!(version_of(&s), (1, 1, true));
}

#[test]
fn bins_start_at_the_floor() {
    assert_eq!(make_bins(3), vec![bits(-90.0); 3]);
    assert!(make_bins(0).is_empty());
}

#[test]
fn center_frequencies_come_in_order() {
    let center = |k: usize| bits(27.5 * 2.0_f32.powf(k as f32 / 96.0));
    let freqs = cqt_center_frequencies(97, &center);
    assert_eq!(freqs.len(), 97);
    assert_eq!(freqs[0], bits(27.5));
    assert_eq!(freqs[96], bits(55.0));
}

#[test]
fn mono_spectrum_keeps_its_levels() {
    let mut s = mono::SpectrumData::new(vec![bits(27.5), bits(55.0)]);
    assert_eq!(s.num_bins(), 2);
    assert_eq!(s.center_freq(1), bits(55.0));
    assert_eq!(s.read_bin(1), bits(-90.0));
    assert_eq!(s.sample_rate(), bits(44100.0));
    s.write_bin(1, bits(-6.0));
    s.set_sample_rate(bits(96000.0));
    let mut out = [0u32; 2];
    s.read_all(&mut out);
    assert_eq!(out, [bits(-90.0), bits(-6.0)]);
    assert_eq!(s.sample_rate(), bits(96000.0));
    assert_eq!(s.nearest_bin(bits(60.0), 54), 1);
    assert_eq!(s.nearest_bin(bits(10.0), 54), 0);
}
