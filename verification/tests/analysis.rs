use std::cell::RefCell;

use rustfft::num_complex::Complex;
use rustfft::FftPlanner;

use truce_analyzer::analyzer::{next_power_of_two, AnalyzerCore, KernelPoll, HOP_SIZE};
use truce_analyzer::arithmetic::{Arithmetic, KernelArithmetic};
use truce_analyzer::kernel::{apply_cqt, generate_kernels, kernels_match, Smoothing, SparseKernel};
use truce_analyzer::mono;
use truce_analyzer::region::shm_total_size;
use truce_analyzer::shmem::{open_shared_spectrum, SharedMemoryWriter};
use truce_analyzer::spectrum::{SpectrumData, SpectrumSource};
use truce_analyzer::spectrum::{MODE_BOTH, MODE_DIFF, MODE_LEFT, MODE_RIGHT, MODE_SUM};
use truce_analyzer::worker::{drain, RoundEnd, WorkerLoop, WorkerStep, DRAIN_FRAMES};

const SAMPLE_RATE: f64 = 8000.0;

fn num(bits: u32) -> f32 {
    f32::from_bits(bits)
}

fn half_sum(l: u32, r: u32) -> u32 {
    ((num(l) + num(r)) * 0.5).to_bits()
}

fn half_difference(l: u32, r: u32) -> u32 {
    ((num(l) - num(r)) * 0.5).to_bits()
}

fn smooth(from: u32, to: u32, fraction: u32) -> u32 {
    (num(from) + num(fraction) * (num(to) - num(from))).to_bits()
}

// Arithmetic in which a transform changes nothing and levels are plain sums.

fn plain_transform(samples: Vec<u32>) -> Vec<f32> {
    samples.into_iter().map(num).collect()
}

fn plain_accumulate(sum: f32, x: f32, y: f32) -> f32 {
    sum + x * y
}

fn plain_level(x: f32, _n: usize) -> u32 {
    x.to_bits()
}

fn plain() -> Arithmetic<
    f32,
    impl Fn(u32, u32) -> u32,
    impl Fn(u32, u32) -> u32,
    impl Fn(Vec<u32>) -> Vec<f32>,
    impl Fn(f32, f32, f32) -> f32,
    impl Fn(f32, usize) -> u32,
    impl Fn(u32, u32, u32) -> u32,
> {
    Arithmetic {
        zero: 0.0,
        half_sum,
        half_difference,
        transform: plain_transform,
        accumulate: plain_accumulate,
        level: plain_level,
        smooth,
    }
}

// Arithmetic with a Fourier transform.

fn fourier(mut samples: Vec<Complex<f32>>) -> Vec<Complex<f32>> {
    let fft = FftPlanner::new().plan_fft_forward(samples.len());
    fft.process(&mut samples);
    samples
}

fn real_fourier(samples: Vec<u32>) -> Vec<Complex<f32>> {
    fourier(samples.into_iter().map(|s| Complex::new(num(s), 0.0)).collect())
}

fn accumulate(sum: Complex<f32>, x: Complex<f32>, y: Complex<f32>) -> Complex<f32> {
    sum + x * y
}

fn level(x: Complex<f32>, n: usize) -> u32 {
    (20.0 * (x.norm() / n as f32).max(1e-10).log10()).to_bits()
}

fn fourier_math() -> Arithmetic<
    Complex<f32>,
    impl Fn(u32, u32) -> u32,
    impl Fn(u32, u32) -> u32,
    impl Fn(Vec<u32>) -> Vec<Complex<f32>>,
    impl Fn(Complex<f32>, Complex<f32>, Complex<f32>) -> Complex<f32>,
    impl Fn(Complex<f32>, usize) -> u32,
    impl Fn(u32, u32, u32) -> u32,
> {
    Arithmetic {
        zero: Complex::new(0.0, 0.0),
        half_sum,
        half_difference,
        transform: real_fourier,
        accumulate,
        level,
        smooth,
    }
}

fn q_factor() -> f64 {
    1.0 / (2.0_f64.powf(1.0 / 12.0) - 1.0)
}

fn window_len(freq: u32) -> usize {
    (q_factor() * SAMPLE_RATE / f64::from(num(freq))).ceil() as usize
}

fn tone(freq: u32, n: usize, len: usize) -> Complex<f32> {
    let pi2 = 2.0 * std::f64::consts::PI;
    let inv = 1.0 / len as f64;
    let hann = 0.5 * (1.0 - (pi2 * n as f64 * inv).cos());
    let phase = -pi2 * f64::from(num(freq)) * n as f64 / SAMPLE_RATE;
    Complex::new((hann * phase.cos() * inv) as f32, (hann * phase.sin() * inv) as f32)
}

fn norm(x: Complex<f32>) -> u32 {
    x.norm().to_bits()
}

fn threshold(largest: u32) -> u32 {
    (num(largest) * 0.001).to_bits()
}

fn conjugate(x: Complex<f32>) -> Complex<f32> {
    x.conj()
}

fn kernel_math() -> KernelArithmetic<
    Complex<f32>,
    impl Fn(u32) -> usize,
    impl Fn(u32, usize, usize) -> Complex<f32>,
    impl Fn(Vec<Complex<f32>>) -> Vec<Complex<f32>>,
    impl Fn(Complex<f32>) -> u32,
    impl Fn(u32) -> u32,
    impl Fn(Complex<f32>) -> Complex<f32>,
> {
    KernelArithmetic {
        zero: Complex::new(0.0, 0.0),
        window_len,
        tone,
        transform: fourier,
        norm,
        threshold,
        conjugate,
    }
}

fn twelve_tones() -> Vec<u32> {
    (0..12).map(|k| (220.0 * 2.0_f32.powf(k as f32 / 12.0)).to_bits()).collect()
}

fn never<C>() -> KernelPoll<C> {
    KernelPoll::Empty
}

fn loudest(levels: &[u32]) -> usize {
    (0..levels.len())
        .max_by(|a, b| num(levels[*a]).partial_cmp(&num(levels[*b])).unwrap())
        .unwrap()
}

#[test]
fn powers_of_two_are_rounded_up_to() {
    assert_eq!(next_power_of_two(0), 1);
    assert_eq!(next_power_of_two(1), 1);
    assert_eq!(next_power_of_two(3), 4);
    assert_eq!(next_power_of_two(4), 4);
    assert_eq!(next_power_of_two(221_000), 262_144);
    for n in 0..300usize {
        assert_eq!(next_power_of_two(n), n.next_power_of_two());
    }
}

#[test]
fn kernels_are_sparse_and_in_range() {
    let freqs = twelve_tones();
    let size = next_power_of_two(window_len(freqs[0]));
    let kernels = generate_kernels(&freqs, size, &kernel_math());
    assert_eq!(kernels.len(), 12);
    assert!(kernels_match(&kernels, 12, size));
    assert!(!kernels_match(&kernels, 11, size));
    assert!(!kernels_match(&kernels, 12, 3));
    for kernel in &kernels {
        assert!(!kernel.entries.is_empty());
        assert!(kernel.entries.len() < size);
        for pair in kernel.entries.windows(2) {
            assert!(pair[0].0 < pair[1].0);
        }
    }
}

#[test]
fn kernel_keeps_lines_above_the_threshold() {
    let math = KernelArithmetic {
        zero: 0.0f32,
        window_len: |_: u32| 3usize,
        tone: |_: u32, n: usize, _: usize| [10.0f32, 0.001, -5.0][n],
        transform: |v: Vec<f32>| v,
        norm: |x: f32| x.abs().to_bits(),
        threshold,
        conjugate: |x: f32| -x,
    };
    let kernels = generate_kernels(&[100.0f32.to_bits()], 4, &math);
    assert_eq!(kernels[0].entries, vec![(1, -10.0), (3, 5.0)]);
    let clipped = generate_kernels(&[100.0f32.to_bits()], 2, &math);
    assert_eq!(clipped[0].entries, vec![(0, -10.0)]);
}

#[test]
fn levels_are_clamped_and_smoothed() {
    let kernels = vec![
        SparseKernel { entries: vec![(0, 1.0f32), (2, 2.0)] },
        SparseKernel { entries: vec![(1, 1.0)] },
        SparseKernel { entries: vec![] },
    ];
    let mut levels = vec![(-90.0f32).to_bits(), (-90.0f32).to_bits(), (-40.0f32).to_bits()];
    let speed = Smoothing { up: 0.5f32.to_bits(), down: 0.25f32.to_bits() };
    apply_cqt(&vec![-10.0f32, -500.0, -20.0], &kernels, &mut levels, 4, speed, &plain());
    assert_eq!(num(levels[0]), -90.0 + 0.5 * 40.0);
    assert_eq!(num(levels[1]), -90.0);
    assert_eq!(num(levels[2]), -40.0 + 0.5 * 40.0);
    apply_cqt(&vec![-90.0f32, 7.0, 0.0], &kernels, &mut levels, 4, speed, &plain());
    assert_eq!(num(levels[0]), -70.0 + 0.25 * -20.0);
    assert_eq!(num(levels[1]), -45.0);
}

fn prepared(mode: u8) -> AnalyzerCore<f32> {
    let mut spectrum = SpectrumData::new(vec![1, 2]);
    spectrum.set_mode(mode);
    let mut core = AnalyzerCore::new(spectrum);
    assert!(core.reset(100.0f32.to_bits(), 4));
    core.wait_for_kernels(Some(vec![
        SparseKernel { entries: vec![(3, 1.0)] },
        SparseKernel { entries: vec![(0, 1.0)] },
    ]));
    core
}

fn feed(core: &mut AnalyzerCore<f32>, frames: usize) {
    for i in 0..frames {
        let left = -((i % 64) as f32);
        let right = -1.0f32;
        core.process_stereo(left.to_bits(), right.to_bits(), &never, &plain());
    }
}

#[test]
fn updates_come_every_hop() {
    let mut core = prepared(MODE_LEFT);
    feed(&mut core, HOP_SIZE - 1);
    assert_eq!(core.spectrum().version(), 0);
    feed(&mut core, 1);
    assert_eq!(core.spectrum().version(), 1);
    feed(&mut core, HOP_SIZE);
    assert_eq!(core.spectrum().version(), 2);
}

#[test]
fn newest_sample_is_the_last_of_the_signal() {
    let mut core = prepared(MODE_LEFT);
    feed(&mut core, HOP_SIZE);
    // The newest left sample is -63, the oldest of the four -60.
    assert_eq!(core.spectrum().read_bin(0), smooth((-90f32).to_bits(), (-63f32).to_bits(), 0.9f32.to_bits()));
    assert_eq!(core.spectrum().read_bin(1), smooth((-90f32).to_bits(), (-60f32).to_bits(), 0.9f32.to_bits()));
    assert_eq!(num(core.spectrum().read_bin_b(0)), -90.0);
}

#[test]
fn modes_mix_the_channels() {
    for (mode, expected) in [
        (MODE_LEFT, -63.0f32),
        (MODE_RIGHT, -1.0),
        (MODE_SUM, -32.0),
        (MODE_DIFF, -31.0),
        (MODE_BOTH, -63.0),
    ] {
        let mut core = prepared(mode);
        feed(&mut core, HOP_SIZE);
        let level = smooth((-90f32).to_bits(), expected.to_bits(), 0.9f32.to_bits());
        assert_eq!(core.spectrum().read_bin(0), level);
        let other = if mode == MODE_BOTH {
            smooth((-90f32).to_bits(), (-1f32).to_bits(), 0.9f32.to_bits())
        } else {
            (-90f32).to_bits()
        };
        assert_eq!(core.spectrum().read_bin_b(0), other);
    }
}

#[test]
fn same_rate_keeps_levels_and_another_forgets_them() {
    let mut core = prepared(MODE_LEFT);
    feed(&mut core, HOP_SIZE);
    let shown = core.spectrum().read_bin(0);
    assert!(!core.reset(100.0f32.to_bits(), 3));
    assert_eq!(core.fft_size(), 4);
    // Silence follows: the kept level moves on from where it was.
    for _ in 0..HOP_SIZE {
        core.process_stereo(0, 0, &never, &plain());
    }
    assert_eq!(core.spectrum().read_bin(0), smooth(shown, 0, 0.9f32.to_bits()));

    assert!(core.reset(100.0f32.to_bits(), 5));
    assert_eq!(core.fft_size(), 8);
    let version = core.spectrum().version();
    feed(&mut core, HOP_SIZE);
    assert_eq!(core.spectrum().version(), version);
}

#[test]
fn another_rate_of_the_same_size_brings_new_kernels() {
    // At 44.1 kHz and at 48 kHz the longest window rounds up to the same power of two.
    let q = 1.0 / (2.0_f64.powf(1.0 / 96.0) - 1.0);
    let windows: Vec<usize> = [44100.0, 48000.0].iter().map(|sr| (q * sr / 27.5) as usize).collect();
    assert_eq!(next_power_of_two(windows[0]), 262_144);
    assert_eq!(next_power_of_two(windows[1]), 262_144);

    let mut core = prepared(MODE_LEFT);
    feed(&mut core, HOP_SIZE);
    assert!(core.reset(110.0f32.to_bits(), 4));
    assert_eq!(core.fft_size(), 4);
    assert_eq!(core.spectrum().sample_rate_bits(), 110.0f32.to_bits());
    // The old kernels are gone.
    let version = core.spectrum().version();
    feed(&mut core, HOP_SIZE);
    assert_eq!(core.spectrum().version(), version);
    // With new ones, smoothing starts from the floor.
    core.wait_for_kernels(Some(vec![
        SparseKernel { entries: vec![(2, 1.0)] },
        SparseKernel { entries: vec![(0, 1.0)] },
    ]));
    feed(&mut core, HOP_SIZE);
    assert_eq!(
        core.spectrum().read_bin(0),
        smooth((-90f32).to_bits(), (-62f32).to_bits(), 0.9f32.to_bits())
    );
}

#[test]
fn left_and_right_are_heard_alone() {
    for (mode, left, right) in [(MODE_LEFT, -30.0f32, -1.0f32), (MODE_RIGHT, -1.0, -30.0)] {
        let mut one = prepared(mode);
        let mut two = prepared(mode);
        for i in 0..HOP_SIZE {
            let noise = -((i % 50) as f32);
            let (l, r) = if mode == MODE_LEFT { (left, noise) } else { (noise, right) };
            one.process_stereo(left.to_bits(), right.to_bits(), &never, &plain());
            two.process_stereo(l.to_bits(), r.to_bits(), &never, &plain());
        }
        assert_eq!(one.spectrum().read_bin(0), two.spectrum().read_bin(0));
        assert_eq!(one.spectrum().read_bin(1), two.spectrum().read_bin(1));
    }
}

#[test]
fn difference_is_the_sum_with_the_right_channel_negated() {
    let mut diff = prepared(MODE_DIFF);
    let mut sum = prepared(MODE_SUM);
    for i in 0..2 * HOP_SIZE {
        let l = -((i % 37) as f32);
        let r = (i % 11) as f32;
        diff.process_stereo(l.to_bits(), r.to_bits(), &never, &plain());
        sum.process_stereo(l.to_bits(), (-r).to_bits(), &never, &plain());
    }
    assert_eq!(diff.spectrum().version(), 2);
    for q in 0..2 {
        assert_eq!(diff.spectrum().read_bin(q), sum.spectrum().read_bin(q));
    }
}

#[test]
fn levels_end_between_old_value_and_target() {
    let kernels = vec![SparseKernel { entries: vec![(0, 1.0f32)] }];
    let speed = Smoothing { up: 0.9f32.to_bits(), down: 0.9f32.to_bits() };
    for old in [-90.0f32, -45.5, -0.1, 0.0] {
        for target in [-90.0f32, -60.25, -0.3, 0.0] {
            let mut levels = vec![old.to_bits()];
            apply_cqt(&vec![target], &kernels, &mut levels, 1, speed, &plain());
            let level = num(levels[0]);
            assert!(old.min(target) <= level && level <= old.max(target));
        }
    }
}

#[test]
fn nothing_happens_before_a_rate_is_known() {
    let mut core: AnalyzerCore<f32> = AnalyzerCore::new(SpectrumData::new(vec![1]));
    feed(&mut core, 3 * HOP_SIZE);
    assert_eq!(core.fft_size(), 0);
    assert_eq!(core.spectrum().version(), 0);
}

#[test]
fn kernels_are_awaited() {
    let mut core: AnalyzerCore<f32> = AnalyzerCore::new(SpectrumData::new(vec![1]));
    core.reset(100.0f32.to_bits(), 2);
    assert!(!core.accept_kernels(KernelPoll::Empty));
    let kernels = vec![SparseKernel { entries: vec![(1, 1.0)] }];
    assert!(core.accept_kernels(KernelPoll::Ready(kernels)));
    assert!(core.accept_kernels(KernelPoll::Empty));

    core.reset(100.0f32.to_bits(), 3);
    assert!(!core.accept_kernels(KernelPoll::Disconnected));
    assert!(!core.accept_kernels(KernelPoll::Empty));
    core.wait_for_kernels(None);
    core.run_cqt(KernelPoll::Empty, &plain());
    assert_eq!(core.spectrum().version(), 0);
}

#[test]
fn kernels_are_picked_up_when_an_update_is_due() {
    let mut core: AnalyzerCore<f32> = AnalyzerCore::new(SpectrumData::new(vec![1]));
    core.reset(100.0f32.to_bits(), 2);
    let ready = || KernelPoll::Ready(vec![SparseKernel { entries: vec![(1, 1.0)] }]);
    for _ in 0..HOP_SIZE {
        core.process_stereo((-8f32).to_bits(), 0, &ready, &plain());
    }
    assert_eq!(core.spectrum().version(), 1);
    assert_eq!(
        core.spectrum().read_bin(0),
        smooth((-90f32).to_bits(), (-4f32).to_bits(), 0.9f32.to_bits())
    );
}

#[test]
fn updates_are_mirrored_to_the_region() {
    let mut core = prepared(MODE_BOTH);
    assert!(core.shmem_writer().is_none());
    let region = vec![0u8; shm_total_size(2)];
    core.set_shmem_writer(SharedMemoryWriter::create(3, "M", 2, Some(region)).unwrap());
    feed(&mut core, HOP_SIZE);
    let bytes = core.shmem_writer().unwrap().region().to_vec();
    let reader = open_shared_spectrum(Some(bytes), |k: usize| k as u32).unwrap();
    assert_eq!(reader.version(), 1);
    let mut a = [0u32; 2];
    reader.read_all(&mut a);
    assert_eq!(a, [core.spectrum().read_bin(0), core.spectrum().read_bin(1)]);
    reader.read_all_b(&mut a);
    assert_eq!(a, [core.spectrum().read_bin_b(0), core.spectrum().read_bin_b(1)]);
}

#[test]
fn a_tone_is_loudest_in_its_bin() {
    let freqs = twelve_tones();
    let mut core = AnalyzerCore::new(SpectrumData::new(freqs.clone()));
    assert!(core.reset((SAMPLE_RATE as f32).to_bits(), window_len(freqs[0])));
    let kernels = generate_kernels(&freqs, core.fft_size(), &kernel_math());
    core.wait_for_kernels(Some(kernels));
    let freq = f64::from(num(freqs[7]));
    for i in 0..HOP_SIZE {
        let phase = 2.0 * std::f64::consts::PI * freq * i as f64 / SAMPLE_RATE;
        let sample = (phase.sin() as f32).to_bits();
        core.process_stereo(sample, sample, &never, &fourier_math());
    }
    let mut levels = vec![0u32; 12];
    core.spectrum().read_all(&mut levels);
    assert_eq!(loudest(&levels), 7);
    for level in levels {
        assert!((-90.0..=0.0).contains(&num(level)));
    }
}

#[test]
fn mono_analyzer_hears_a_tone() {
    let freqs = twelve_tones();
    let mut core = mono::AnalyzerCore::new(mono::SpectrumData::new(freqs.clone()));
    core.process_sample(0, &fourier_math());
    core.reset((SAMPLE_RATE as f32).to_bits(), window_len(freqs[0]), &kernel_math());
    let freq = f64::from(num(freqs[3]));
    for i in 0..HOP_SIZE {
        let phase = 2.0 * std::f64::consts::PI * freq * i as f64 / SAMPLE_RATE;
        core.process_sample((phase.sin() as f32).to_bits(), &fourier_math());
    }
    let mut levels = vec![0u32; 12];
    core.spectrum().read_all(&mut levels);
    assert_eq!(loudest(&levels), 3);
    assert_eq!(core.spectrum().sample_rate(), 8000.0f32.to_bits());
}

#[test]
fn mono_analyzer_smooths_more_upwards_slowly() {
    let math = KernelArithmetic {
        zero: 0.0f32,
        window_len: |_: u32| 1usize,
        tone: |_: u32, _: usize, _: usize| 1.0f32,
        transform: |v: Vec<f32>| v,
        norm: |x: f32| x.abs().to_bits(),
        threshold,
        conjugate: |x: f32| x,
    };
    let mut core = mono::AnalyzerCore::new(mono::SpectrumData::new(vec![1]));
    core.reset(100.0f32.to_bits(), 2, &math);
    for _ in 0..HOP_SIZE {
        core.process_sample((-40f32).to_bits(), &plain());
    }
    let up = smooth((-90f32).to_bits(), (-40f32).to_bits(), 0.4f32.to_bits());
    assert_eq!(core.spectrum().read_bin(0), up);
    for _ in 0..HOP_SIZE {
        core.process_sample((-80f32).to_bits(), &plain());
    }
    assert_eq!(core.spectrum().read_bin(0), smooth(up, (-80f32).to_bits(), 0.8f32.to_bits()));
}

#[test]
fn worker_resets_once_per_request() {
    let mut w = WorkerLoop::new();
    let rate = 48000.0f32.to_bits();
    assert!(w.poll_control(false, 0, rate) == WorkerStep::Drain);
    assert!(w.poll_control(false, 1, rate) == WorkerStep::ResetAndDrain(rate));
    assert!(w.poll_control(false, 1, rate) == WorkerStep::Drain);
    assert!(w.poll_control(false, 2, 0) == WorkerStep::Drain);
    assert!(w.poll_control(false, 3, (-1f32).to_bits()) == WorkerStep::Drain);
    assert!(w.poll_control(false, 4, f32::NAN.to_bits()) == WorkerStep::Drain);
    assert!(w.poll_control(true, 5, rate) == WorkerStep::Stop);
    assert!(w.poll_control(false, 5, rate) == WorkerStep::ResetAndDrain(rate));
}

#[test]
fn worker_rounds_reset_before_reading() {
    let mut control = WorkerLoop::new();
    let mut core: AnalyzerCore<f32> = AnalyzerCore::new(SpectrumData::new(vec![1]));
    core.set_mode(MODE_LEFT);
    let window = |_: u32| 2usize;
    let started = RefCell::new(Vec::new());
    let start = |rate: u32, size: usize| started.borrow_mut().push((num(rate), size));
    let limits = RefCell::new(Vec::new());
    let queue = RefCell::new(vec![2048usize, 5, 0]);
    let read = |limit: usize| {
        limits.borrow_mut().push(limit);
        let frames = queue.borrow_mut().pop().unwrap();
        vec![(-20f32).to_bits(); 2 * frames]
    };
    let poll = || KernelPoll::Ready(vec![SparseKernel { entries: vec![(1, 1.0f32)] }]);
    let rate = 100.0f32.to_bits();
    let mut round = |shutdown: bool, version: u32| {
        control.round(
            &mut core, shutdown, version, rate, &window, &start, &read, &poll, &plain(),
        )
    };
    assert!(round(false, 0) == RoundEnd::Idle);
    assert!(round(false, 1) == RoundEnd::Fed);
    assert!(round(false, 1) == RoundEnd::Fed);
    assert!(round(true, 2) == RoundEnd::Stop);
    assert_eq!(*started.borrow(), vec![(100.0, 2)]);
    assert_eq!(*limits.borrow(), vec![DRAIN_FRAMES; 3]);
    // 5 frames and 2048 frames make one hop.
    assert_eq!(core.spectrum().version(), 1);
    assert_eq!(
        core.spectrum().read_bin(0),
        smooth((-90f32).to_bits(), (-20f32).to_bits(), 0.9f32.to_bits())
    );
}

#[test]
fn worker_asks_for_kernels_only_where_they_are_needed() {
    let mut control = WorkerLoop::new();
    let mut core: AnalyzerCore<f32> = AnalyzerCore::new(SpectrumData::new(vec![1]));
    let window = |_: u32| 2usize;
    let rate = 100.0f32.to_bits();
    let mut started = 0;
    let mut batches = 0;
    for version in [1, 1, 2] {
        let end = control.round(
            &mut core,
            false,
            version,
            rate,
            &window,
            |_: u32, _: usize| started += 1,
            |_: usize| {
                batches += 1;
                vec![0u32; 2]
            },
            &never,
            &plain(),
        );
        assert!(end == RoundEnd::Fed);
    }
    // The second reset is to the same rate.
    assert_eq!((started, batches), (1, 3));
}

#[test]
fn worker_feeds_frames_in_order() {
    let mut core = prepared(MODE_BOTH);
    let mut scratch = Vec::new();
    for i in 0..DRAIN_FRAMES {
        scratch.push((-((i % 64) as f32)).to_bits());
        scratch.push((-1f32).to_bits());
    }
    assert!(drain(&mut core, &scratch, 0, &never, &plain()));
    assert!(!drain(&mut core, &scratch, DRAIN_FRAMES, &never, &plain()));
    let mut other = prepared(MODE_BOTH);
    feed(&mut other, DRAIN_FRAMES);
    assert_eq!(core.spectrum().version(), 1);
    assert_eq!(core.spectrum().read_bin(0), other.spectrum().read_bin(0));
    assert_eq!(core.spectrum().read_bin_b(0), other.spectrum().read_bin_b(0));
}
