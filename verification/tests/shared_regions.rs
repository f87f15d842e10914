use truce_analyzer::region::{shm_total_size, size_fits};
use truce_analyzer::shm_calls::{create_call, create_next, open_call, open_next};
use truce_analyzer::shm_calls::{CreateStep, OpenStep, ShmCall};
use truce_analyzer::shmem::{is_whole, open_shared_spectrum, read_announced_bins};
use truce_analyzer::shmem::shm_name_for_id;
use truce_analyzer::shmem::{SharedMemorySpectrum, SharedMemoryWriter};
use truce_analyzer::spectrum::{SpectrumData, SpectrumSource, MODE_BOTH};

fn center(k: usize) -> u32 {
    (27.5 * 2.0_f32.powf(k as f32 / 96.0)).to_bits()
}

fn writer(num_bins: usize) -> SharedMemoryWriter {
    let region = vec![0u8; shm_total_size(num_bins)];
    SharedMemoryWriter::create(7, "Bass", num_bins, Some(region)).unwrap()
}

fn word(bytes: &[u8], at: usize) -> u32 {
    u32::from_le_bytes([bytes[at], bytes[at + 1], bytes[at + 2], bytes[at + 3]])
}

fn reader(bytes: &[u8]) -> SharedMemorySpectrum {
    open_shared_spectrum(Some(bytes.to_vec()), center).unwrap()
}

#[test]
fn region_has_room_for_header_and_levels() {
    assert_eq!(shm_total_size(0), 96);
    assert_eq!(shm_total_size(10), 176);
}

#[test]
fn objects_are_named_after_instances() {
    assert_eq!(shm_name_for_id(0), "/truce-analyzer-0");
    assert_eq!(shm_name_for_id(4294967295), "/truce-analyzer-4294967295");
}

#[test]
fn created_region_has_a_header() {
    let w = writer(2);
    let bytes = w.region();
    assert_eq!(bytes.len(), 112);
    assert_eq!(word(bytes, 0), 0x5441_5A52);
    assert_eq!(word(bytes, 4), 1);
    assert_eq!(word(bytes, 8), 2);
    assert_eq!(word(bytes, 16), 0);
    assert_eq!(word(bytes, 20), 0);
    assert_eq!(word(bytes, 24), 4);
    assert_eq!(&bytes[28..32], b"Bass");
    assert_eq!(w.num_bins(), 2);
    assert_eq!(w.shm_name(), "/truce-analyzer-7");
}

#[test]
fn creation_leaves_other_bytes_alone() {
    let region = vec![0xAAu8; shm_total_size(1)];
    let w = SharedMemoryWriter::create(1, "Hi", 1, Some(region)).unwrap();
    let bytes = w.region();
    assert_eq!(word(bytes, 12), 0xAAAA_AAAA);
    assert_eq!(bytes[30], 0xAA);
    assert_eq!(word(bytes, 92), 0xAAAA_AAAA);
    assert_eq!(word(bytes, 96), 0xAAAA_AAAA);
}

#[test]
fn no_region_no_writer() {
    assert!(SharedMemoryWriter::create(1, "A", 4, None).is_none());
}

#[test]
fn reader_sees_what_was_written() {
    let mut s = SpectrumData::new(vec![center(0), center(1), center(2)]);
    for i in 0..3 {
        s.write_bin(i, (-10.0 * i as f32).to_bits());
        s.write_bin_b(i, (-3.0 * i as f32).to_bits());
    }
    s.set_mode(MODE_BOTH);
    s.set_sample_rate(48000.0f32.to_bits());
    s.bump_version();
    let mut w = writer(3);
    w.update(&s);

    let r = reader(w.region());
    assert_eq!(r.num_bins(), 3);
    assert_eq!(r.version(), 1);
    assert_eq!(r.mode(), MODE_BOTH);
    assert!(r.is_both());
    assert_eq!(r.center_freq(2), center(2));
    assert_eq!(r.center_freqs_slice(), s.center_freqs_slice());
    let mut a = [0u32; 4];
    r.read_all(&mut a);
    assert_eq!(a, [0f32.to_bits() | 0x8000_0000, (-10.0f32).to_bits(), (-20.0f32).to_bits(), 0]);
    let mut b = [0u32; 2];
    r.read_all_b(&mut b);
    assert_eq!(b, [(-0.0f32).to_bits(), (-3.0f32).to_bits()]);
    assert_eq!(word(w.region(), 12), 48000.0f32.to_bits());
    assert_eq!(r.nearest_bin(40.0f32.to_bits(), 52), 2);
}

#[test]
fn reader_follows_later_updates() {
    let mut s = SpectrumData::new(vec![center(0)]);
    let mut w = writer(1);
    w.update(&s);
    assert_eq!(reader(w.region()).version(), 0);
    s.write_bin(0, 5);
    s.bump_version();
    w.update(&s);
    let r = reader(w.region());
    assert_eq!(r.version(), 1);
    let mut a = [0u32];
    r.read_all(&mut a);
    assert_eq!(a, [5]);
}

#[test]
fn mode_is_the_low_byte_of_its_word() {
    let w = writer(1);
    let mut bytes = w.region().to_vec();
    bytes[16] = 3;
    bytes[17] = 1;
    assert_eq!(reader(&bytes).mode(), 3);
}

#[test]
fn unmarked_region_is_not_opened() {
    let bytes = vec![0u8; 96];
    assert!(open_shared_spectrum(Some(bytes), center).is_none());
    assert!(open_shared_spectrum(None, center).is_none());
}

#[test]
fn renaming_pads_with_zeros_and_cuts_off() {
    let mut w = writer(1);
    w.update_name("A much longer name than before");
    w.update_name("Kick");
    let bytes = w.region();
    assert_eq!(word(bytes, 24), 4);
    assert_eq!(&bytes[28..32], b"Kick");
    assert!(bytes[32..92].iter().all(|b| *b == 0));

    let long = "x".repeat(80);
    w.update_name(&long);
    let bytes = w.region();
    assert_eq!(word(bytes, 24), 64);
    assert!(bytes[28..92].iter().all(|b| *b == b'x'));
    assert_eq!(word(bytes, 92), 0);
    assert_eq!(word(bytes, 0), 0x5441_5A52);
}

#[test]
fn update_leaves_the_name_alone() {
    let mut w = writer(1);
    w.update(&SpectrumData::new(vec![center(0)]));
    assert_eq!(&w.region()[28..32], b"Bass");
    assert_eq!(word(w.region(), 24), 4);
    assert_eq!(word(w.region(), 8), 1);
}

#[test]
fn header_announces_the_bins() {
    let w = writer(5);
    assert_eq!(read_announced_bins(&w.region()[..96].to_vec()), 5);
    assert!(is_whole(&w.region().to_vec()));
    assert!(!is_whole(&w.region()[..135].to_vec()));
    assert!(!is_whole(&w.region()[..95].to_vec()));
    assert!(!is_whole(&Vec::new()));
    assert!(size_fits(1000));
}

fn run_creation(grants: [bool; 3]) -> (Vec<ShmCall>, CreateStep) {
    let mut step = CreateStep::Opening;
    let mut calls = Vec::new();
    loop {
        let call = create_call(step, 500);
        if call == ShmCall::Nothing {
            return (calls, step);
        }
        let granted = calls.len() >= 3 || grants[calls.len()];
        calls.push(call);
        step = create_next(step, granted);
    }
}

#[test]
fn granted_creation_is_ready() {
    let (calls, step) = run_creation([true, true, true]);
    assert!(step == CreateStep::Ready);
    assert!(
        calls
            == vec![
                ShmCall::CreateObject,
                ShmCall::Resize(500),
                ShmCall::MapBytes(500),
                ShmCall::Close
            ]
    );
}

#[test]
fn refused_creation_cleans_up() {
    let (calls, step) = run_creation([false, true, true]);
    assert!(step == CreateStep::Failed && calls == vec![ShmCall::CreateObject]);

    let (calls, step) = run_creation([true, false, true]);
    assert!(step == CreateStep::Failed);
    assert!(
        calls
            == vec![
                ShmCall::CreateObject,
                ShmCall::Resize(500),
                ShmCall::Close,
                ShmCall::Unlink
            ]
    );

    let (calls, step) = run_creation([true, true, false]);
    assert!(step == CreateStep::Failed);
    assert!(
        calls
            == vec![
                ShmCall::CreateObject,
                ShmCall::Resize(500),
                ShmCall::MapBytes(500),
                ShmCall::Close,
                ShmCall::Unlink
            ]
    );
}

fn run_opening(grants: [bool; 5]) -> (Vec<ShmCall>, OpenStep) {
    let mut step = OpenStep::Opening;
    let mut calls = Vec::new();
    loop {
        let call = open_call(step);
        if call == ShmCall::Nothing {
            return (calls, step);
        }
        let granted = grants[calls.len()];
        calls.push(call);
        step = open_next(step, granted, 10);
    }
}

#[test]
fn granted_opening_maps_the_announced_region() {
    let (calls, step) = run_opening([true; 5]);
    assert!(step == OpenStep::Ready(176));
    assert!(
        calls
            == vec![
                ShmCall::OpenObject,
                ShmCall::MapBytes(96),
                ShmCall::UnmapBytes(96),
                ShmCall::MapBytes(176),
                ShmCall::Close
            ]
    );
}

#[test]
fn refused_opening_closes_the_object() {
    let (calls, step) = run_opening([false, true, true, true, true]);
    assert!(step == OpenStep::Failed && calls == vec![ShmCall::OpenObject]);

    let (calls, step) = run_opening([true, false, true, true, true]);
    assert!(step == OpenStep::Failed);
    assert!(calls == vec![ShmCall::OpenObject, ShmCall::MapBytes(96), ShmCall::Close]);

    let (calls, step) = run_opening([true, true, true, false, true]);
    assert!(step == OpenStep::Failed);
    assert!(calls.len() == 5 && calls[4] == ShmCall::Close);
}
