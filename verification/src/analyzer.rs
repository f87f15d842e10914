//! The analyzer: it keeps the most recent samples and, every so often, turns them into levels.

use vstd::prelude::*;

use crate::arithmetic::{Arithmetic, ArithmeticView};
use crate::kernel::{applied, apply_cqt, bin_level, dot_product, entries_of, followed};
use crate::kernel::{kernels_fit, Smoothing, SparseKernel};
use crate::level::{at_most, clamped, clamped_is_bounded, is_nan, ZERO};
use crate::shmem::{updated, SharedMemoryWriter, WriterView};
use crate::spectrum::{make_bins, next_version, silent, SpectrumData, SpectrumView};
use crate::spectrum::{DB_CEIL, DB_FLOOR, MODE_BOTH, MODE_DIFF, MODE_LEFT, MODE_RIGHT};
use crate::spectrum::MODE_SUM;

verus! {

/// How many frames pass between two updates of the spectrum.
pub const HOP_SIZE: usize = 2048;

/// 0.9, the part of the distance to a louder level that is gone at each update.
pub const SMOOTH_UP: u32 = 0x3F66_6666;

/// 0.9, the part of the distance to a quieter level that is gone at each update.
pub const SMOOTH_DOWN: u32 = 0x3F66_6666;

/// The smoothing of the stereo analyzer.
pub open spec fn stereo_smoothing() -> Smoothing {
    Smoothing { up: SMOOTH_UP, down: SMOOTH_DOWN }
}

/// The least power of two that is no less than `n`.
pub open spec fn power_at_least(n: nat) -> nat
    decreases n,
{
    if n <= 1 {
        1
    } else {
        2 * power_at_least((n / 2 + n % 2) as nat)
    }
}

/// Is `n` one, doubled any number of times?
pub open spec fn is_power_of_two(n: nat) -> bool
    decreases n,
{
    n == 1 || n > 1 && n % 2 == 0 && is_power_of_two(n / 2)
}

/// The least power of two that is no less than `n`.
pub fn next_power_of_two(n: usize) -> (p: usize)
    requires
        power_at_least(n as nat) <= usize::MAX,
    ensures
        p == power_at_least(n as nat),
    decreases n,
{
    if n <= 1 {
        1
    } else {
        2 * next_power_of_two(n / 2 + n % 2)
    }
}

/// It is a power of two, no less than `n`, and every other such power is larger.
pub proof fn power_at_least_is_least(n: nat, other: nat)
    ensures
        is_power_of_two(power_at_least(n)),
        n <= power_at_least(n),
        is_power_of_two(other) && n <= other ==> power_at_least(n) <= other,
    decreases n,
{
    if n > 1 {
        power_at_least_is_least((n / 2 + n % 2) as nat, other / 2);
    }
}

/// What came of asking whether the kernels are there.
pub enum KernelPoll<C> {
    /// They are.
    Ready(Vec<SparseKernel<C>>),
    /// They are still being made.
    Empty,
    /// Nobody is making them any more.
    Disconnected,
}

/// What an analyzer holds.
#[verifier::ext_equal]
#[verifier::reject_recursive_types(C)]
pub struct AnalyzerView<C> {
    pub spectrum: SpectrumView,
    /// How many samples a transform takes.
    pub fft_size: nat,
    /// The most recent samples of the left channel, the oldest first.
    pub left: Seq<u32>,
    /// The most recent samples of the right channel, the oldest first.
    pub right: Seq<u32>,
    /// How many frames have come since the last update.
    pub hop: nat,
    pub smoothed_a: Seq<u32>,
    pub smoothed_b: Seq<u32>,
    pub kernels: Seq<Seq<(usize, C)>>,
    /// Are the kernels there?
    pub ready: bool,
    /// Are kernels being made?
    pub pending: bool,
    pub writer: Option<WriterView>,
}

/// The items of a ring in the order in which they came, where `pos` is where the next one goes.
pub open spec fn unrolled(ring: Seq<u32>, pos: int) -> Seq<u32> {
    Seq::new(
        ring.len(),
        |i: int|
            if pos + i < ring.len() {
                ring[pos + i]
            } else {
                ring[pos + i - ring.len()]
            },
    )
}

/// `count` samples of silence.
pub open spec fn silence(count: nat) -> Seq<u32> {
    Seq::new(count, |i: int| ZERO)
}

/// The recent samples after one more, which takes the place of the oldest.
pub open spec fn shifted(samples: Seq<u32>, sample: u32) -> Seq<u32> {
    samples.drop_first().push(sample)
}

/// Does the next frame bring an update?
pub open spec fn due<C>(v: AnalyzerView<C>) -> bool {
    v.fft_size > 0 && v.hop + 1 >= HOP_SIZE
}

/// An analyzer after one more frame, before any update. Without a size it takes no frames.
pub open spec fn pushed<C>(v: AnalyzerView<C>, left: u32, right: u32) -> AnalyzerView<C> {
    if v.fft_size == 0 {
        v
    } else {
        AnalyzerView {
            left: shifted(v.left, left),
            right: shifted(v.right, right),
            hop: if due(v) {
                0
            } else {
                v.hop + 1
            },
            ..v
        }
    }
}

/// An analyzer after it was told whether its kernels are there. It listens only while it
/// waits for them.
pub open spec fn polled<C>(v: AnalyzerView<C>, poll: KernelPoll<C>) -> AnalyzerView<C> {
    if !v.pending {
        v
    } else {
        match poll {
            KernelPoll::Ready(kernels) => AnalyzerView {
                kernels: entries_of(kernels@),
                ready: true,
                pending: false,
                ..v
            },
            KernelPoll::Empty => v,
            KernelPoll::Disconnected => AnalyzerView { pending: false, ..v },
        }
    }
}

/// Can the spectrum be updated? Not while the kernels are being made, nor without them.
pub open spec fn proceeds<C>(v: AnalyzerView<C>, poll: KernelPoll<C>) -> bool {
    if v.pending {
        poll is Ready
    } else {
        v.ready
    }
}

/// The sample that the primary levels are made from.
pub open spec fn mixed<C>(m: ArithmeticView<C>, mode: u8, left: u32, right: u32) -> u32 {
    if mode == MODE_RIGHT {
        right
    } else if mode == MODE_SUM {
        (m.half_sum)(left, right)
    } else if mode == MODE_DIFF {
        (m.half_difference)(left, right)
    } else {
        left
    }
}

/// The signal that the primary levels are made from.
pub open spec fn primary_signal<C>(
    m: ArithmeticView<C>,
    mode: u8,
    left: Seq<u32>,
    right: Seq<u32>,
) -> Seq<u32> {
    Seq::new(left.len(), |i: int| mixed(m, mode, left[i], right[i]))
}

/// Levels after a signal was taken into account.
pub open spec fn heard<C>(
    m: ArithmeticView<C>,
    v: AnalyzerView<C>,
    signal: Seq<u32>,
    levels: Seq<u32>,
) -> Seq<u32> {
    applied(
        m,
        (m.transform)(signal),
        v.kernels,
        levels,
        v.fft_size as usize,
        stereo_smoothing(),
    )
}

/// An analyzer with its kernels at hand, after an update of the spectrum.
pub open spec fn refreshed<C>(m: ArithmeticView<C>, v: AnalyzerView<C>) -> AnalyzerView<C> {
    let a = heard(m, v, primary_signal(m, v.spectrum.mode, v.left, v.right), v.smoothed_a);
    let both = v.spectrum.mode == MODE_BOTH;
    let b = if both {
        heard(m, v, v.right, v.smoothed_b)
    } else {
        v.smoothed_b
    };
    let spectrum = SpectrumView {
        bins_a: a,
        bins_b: if both {
            b
        } else {
            v.spectrum.bins_b
        },
        version: next_version(v.spectrum.version),
        ..v.spectrum
    };
    AnalyzerView {
        spectrum,
        smoothed_a: a,
        smoothed_b: b,
        writer: match v.writer {
            Some(w) => Some(WriterView { fields: updated(w.fields, spectrum), ..w }),
            None => None,
        },
        ..v
    }
}

/// An analyzer after an update was due.
pub open spec fn ran<C>(
    m: ArithmeticView<C>,
    v: AnalyzerView<C>,
    poll: KernelPoll<C>,
) -> AnalyzerView<C> {
    if proceeds(v, poll) {
        refreshed(m, polled(v, poll))
    } else {
        polled(v, poll)
    }
}

/// `after` can come of `before` by one frame. `poll` is what is asked whether awaited kernels
/// are there.
pub open spec fn stepped<C, Poll: FnOnce() -> KernelPoll<C>>(
    m: ArithmeticView<C>,
    poll: Poll,
    before: AnalyzerView<C>,
    frame: (u32, u32),
    after: AnalyzerView<C>,
) -> bool {
    let next = pushed(before, frame.0, frame.1);
    if due(before) {
        exists|p: KernelPoll<C>|
            (before.pending ==> poll.ensures((), p)) && after == #[trigger] ran(m, next, p)
    } else {
        after == next
    }
}

/// Does an analyzer need other kernels at a sample rate at which the longest window takes
/// `max_window` samples? Kernels are made for one rate and one size.
pub open spec fn needs_kernels<C>(v: AnalyzerView<C>, sample_rate: u32, max_window: nat) -> bool {
    power_at_least(max_window) != v.fft_size || sample_rate != v.spectrum.sample_rate
}

/// An analyzer that was set to a sample rate at which the longest window takes `max_window`
/// samples. If neither the rate nor the size of the transform changes, only the recent samples
/// are forgotten; otherwise everything is, and kernels are to be made.
pub open spec fn reset_to<C>(
    v: AnalyzerView<C>,
    sample_rate: u32,
    max_window: nat,
) -> AnalyzerView<C> {
    let size = power_at_least(max_window);
    let spectrum = SpectrumView { sample_rate, ..v.spectrum };
    let quiet = AnalyzerView {
        spectrum,
        left: silence(size),
        right: silence(size),
        hop: 0,
        ..v
    };
    if !needs_kernels(v, sample_rate, max_window) {
        quiet
    } else {
        AnalyzerView {
            fft_size: size,
            smoothed_a: silent(v.smoothed_a.len()),
            smoothed_b: silent(v.smoothed_b.len()),
            kernels: seq![],
            ready: false,
            pending: true,
            ..quiet
        }
    }
}

/// Kernels that arrive fit an analyzer.
pub open spec fn poll_fits<C>(v: AnalyzerView<C>, poll: KernelPoll<C>) -> bool {
    poll matches KernelPoll::Ready(kernels) ==> kernels_fit(
        entries_of(kernels@),
        v.spectrum.center_freqs.len(),
        v.fft_size,
    )
}

/// An analyzer of two channels.
pub struct AnalyzerCore<C> {
    spectrum: SpectrumData,
    fft_size: usize,
    kernels: Vec<SparseKernel<C>>,
    ready: bool,
    pending: bool,
    ring_left: Vec<u32>,
    ring_right: Vec<u32>,
    ring_pos: usize,
    hop_counter: usize,
    smoothed_a: Vec<u32>,
    smoothed_b: Vec<u32>,
    shmem_writer: Option<SharedMemoryWriter>,
}

impl<C> View for AnalyzerCore<C> {
    type V = AnalyzerView<C>;

    closed spec fn view(&self) -> AnalyzerView<C> {
        AnalyzerView {
            spectrum: self.spectrum@,
            fft_size: self.fft_size as nat,
            left: unrolled(self.ring_left@, self.ring_pos as int),
            right: unrolled(self.ring_right@, self.ring_pos as int),
            hop: self.hop_counter as nat,
            smoothed_a: self.smoothed_a@,
            smoothed_b: self.smoothed_b@,
            kernels: entries_of(self.kernels@),
            ready: self.ready,
            pending: self.pending,
            writer: match self.shmem_writer {
                Some(w) => Some(w@),
                None => None,
            },
        }
    }
}

/// `count` samples of silence.
pub(crate) fn make_silence(count: usize) -> (samples: Vec<u32>)
    ensures
        samples@ == silence(count as nat),
{
    let mut samples: Vec<u32> = Vec::new();
    let mut i: usize = 0;
    while i < count
        invariant
            i <= count,
            samples@ == silence(i as nat),
        decreases count - i,
    {
        samples.push(ZERO);
        i = i + 1;
        assert(samples@ =~= silence(i as nat));
    }
    samples
}

/// The place after `pos` in a ring of `size` items.
pub(crate) fn next_place(pos: usize, size: usize) -> (next: usize)
    requires
        pos < size,
    ensures
        next == (if pos + 1 < size {
            pos + 1
        } else {
            0
        }),
{
    if pos + 1 < size {
        pos + 1
    } else {
        0
    }
}

/// Writing where the next item goes and moving on replaces the oldest item by the new one.
pub(crate) proof fn ring_shifts(ring: Seq<u32>, pos: int, sample: u32, next: int)
    requires
        0 <= pos < ring.len(),
        next == (if pos + 1 < ring.len() {
            pos + 1
        } else {
            0
        }),
    ensures
        unrolled(ring.update(pos, sample), next) == shifted(unrolled(ring, pos), sample),
{
    assert(unrolled(ring.update(pos, sample), next) =~= shifted(unrolled(ring, pos), sample));
}

/// The item that came `i` places after the oldest one.
pub(crate) fn ring_item(ring: &Vec<u32>, pos: usize, i: usize) -> (sample: u32)
    requires
        pos < ring@.len(),
        i < ring@.len(),
    ensures
        sample == unrolled(ring@, pos as int)[i as int],
{
    let until_end: usize = ring.len() - pos;
    if i < until_end {
        ring[pos + i]
    } else {
        ring[i - until_end]
    }
}

impl<C: Copy> AnalyzerCore<C> {
    /// The rings have the size of the transform, and the next place is in them.
    pub closed spec fn ring_wf(&self) -> bool {
        &&& self.ring_left@.len() == self.fft_size
        &&& self.ring_right@.len() == self.fft_size
        &&& self.ring_pos < self.fft_size || self.fft_size == 0 && self.ring_pos == 0
        &&& self.spectrum.wf()
        &&& self.shmem_writer matches Some(w) ==> w.wf()
    }

    /// Every bin has its levels, the recent samples fill a transform, and kernels that are
    /// there fit.
    pub open spec fn wf(&self) -> bool {
        let n = self@.spectrum.center_freqs.len();
        &&& self.ring_wf()
        &&& self@.spectrum.bins_a.len() == n
        &&& self@.spectrum.bins_b.len() == n
        &&& self@.smoothed_a.len() == n
        &&& self@.smoothed_b.len() == n
        &&& self@.left.len() == self@.fft_size
        &&& self@.right.len() == self@.fft_size
        &&& self@.fft_size <= usize::MAX
        &&& self@.hop < HOP_SIZE
        &&& self@.ready ==> kernels_fit(self@.kernels, n, self@.fft_size)
        &&& self@.writer matches Some(w) ==> w.num_bins <= n
    }

    /// An analyzer that fills `spectrum`, and takes no samples before it knows their rate.
    pub fn new(spectrum: SpectrumData) -> (core: Self)
        requires
            spectrum.wf(),
        ensures
            core.wf(),
            core@ == (AnalyzerView::<C> {
                spectrum: spectrum@,
                fft_size: 0,
                left: seq![],
                right: seq![],
                hop: 0,
                smoothed_a: silent(spectrum@.center_freqs.len()),
                smoothed_b: silent(spectrum@.center_freqs.len()),
                kernels: seq![],
                ready: false,
                pending: false,
                writer: None,
            }),
    {
        let num_bins: usize = spectrum.num_bins();
        let core = AnalyzerCore {
            spectrum,
            fft_size: 0,
            kernels: Vec::new(),
            ready: false,
            pending: false,
            ring_left: Vec::new(),
            ring_right: Vec::new(),
            ring_pos: 0,
            hop_counter: 0,
            smoothed_a: make_bins(num_bins),
            smoothed_b: make_bins(num_bins),
            shmem_writer: None,
        };
        assert(core@.left =~= seq![]);
        assert(core@.right =~= seq![]);
        assert(core@.kernels =~= seq![]);
        core
    }

    /// Mirrors the spectrum to a shared region from now on.
    pub fn set_shmem_writer(&mut self, writer: SharedMemoryWriter)
        requires
            old(self).wf(),
            writer.wf(),
            writer@.num_bins <= old(self)@.spectrum.center_freqs.len(),
        ensures
            final(self).wf(),
            final(self)@ == (AnalyzerView { writer: Some(writer@), ..old(self)@ }),
    {
        self.shmem_writer = Some(writer);
    }

    /// Sets the sample rate, at which the longest window takes `max_window` samples, and says
    /// whether kernels are to be made.
    pub fn reset(&mut self, sample_rate: u32, max_window: usize) -> (generate: bool)
        requires
            old(self).wf(),
            power_at_least(max_window as nat) <= usize::MAX,
        ensures
            final(self).wf(),
            final(self)@ == reset_to(old(self)@, sample_rate, max_window as nat),
            generate == needs_kernels(old(self)@, sample_rate, max_window as nat),
    {
        let new_fft_size: usize = next_power_of_two(max_window);
        let generate = new_fft_size != self.fft_size || sample_rate
            != self.spectrum.sample_rate_bits();
        self.spectrum.set_sample_rate(sample_rate);
        self.ring_left = make_silence(new_fft_size);
        self.ring_right = make_silence(new_fft_size);
        self.ring_pos = 0;
        self.hop_counter = 0;
        if generate {
            self.fft_size = new_fft_size;
            self.ready = false;
            self.kernels = Vec::new();
            self.pending = true;
            self.smoothed_a = make_bins(self.smoothed_a.len());
            self.smoothed_b = make_bins(self.smoothed_b.len());
            assert(self@.kernels =~= seq![]);
        }
        proof {
            power_at_least_is_least(max_window as nat, 0);
            assert(self@.left =~= silence(new_fft_size as nat));
            assert(self@.right =~= silence(new_fft_size as nat));
        }
        generate
    }

    /// Ends the wait for kernels with what was received, if anything was.
    pub fn wait_for_kernels(&mut self, received: Option<Vec<SparseKernel<C>>>)
        requires
            old(self).wf(),
            received matches Some(kernels) ==> kernels_fit(
                entries_of(kernels@),
                old(self)@.spectrum.center_freqs.len(),
                old(self)@.fft_size,
            ),
        ensures
            final(self).wf(),
            final(self)@ == polled(
                old(self)@,
                match received {
                    Some(kernels) => KernelPoll::Ready(kernels),
                    None => KernelPoll::Disconnected,
                },
            ),
    {
        if self.pending {
            self.pending = false;
            match received {
                Some(kernels) => {
                    self.kernels = kernels;
                    self.ready = true;
                },
                None => {},
            }
        }
    }

    /// Takes note of whether the kernels are there, and says whether the spectrum can be
    /// updated.
    pub fn accept_kernels(&mut self, poll: KernelPoll<C>) -> (go: bool)
        requires
            old(self).wf(),
            poll_fits(old(self)@, poll),
        ensures
            final(self).wf(),
            final(self)@ == polled(old(self)@, poll),
            go == proceeds(old(self)@, poll),
            go ==> final(self)@.ready,
    {
        if self.pending {
            match poll {
                KernelPoll::Ready(kernels) => {
                    self.kernels = kernels;
                    self.ready = true;
                    self.pending = false;
                },
                KernelPoll::Empty => {
                    return false;
                },
                KernelPoll::Disconnected => {
                    self.pending = false;
                    return false;
                },
            }
        }
        self.ready
    }

    /// The signal that the primary levels are made from.
    fn primary<HalfSum, HalfDifference, Transform, Accumulate, Level, Smooth>(
        &self,
        math: &Arithmetic<C, HalfSum, HalfDifference, Transform, Accumulate, Level, Smooth>,
    ) -> (signal: Vec<u32>) where
        HalfSum: Fn(u32, u32) -> u32,
        HalfDifference: Fn(u32, u32) -> u32,
        Transform: Fn(Vec<u32>) -> Vec<C>,
        Accumulate: Fn(C, C, C) -> C,
        Level: Fn(C, usize) -> u32,
        Smooth: Fn(u32, u32, u32) -> u32,

        requires
            self.wf(),
            math.wf(),
        ensures
            signal@ == primary_signal(
                math@,
                self@.spectrum.mode,
                self@.left,
                self@.right,
            ),
            signal@.len() == self@.fft_size,
    {
        let mode: u8 = self.spectrum.mode();
        let ghost whole = primary_signal(math@, mode, self@.left, self@.right);
        let mut signal: Vec<u32> = Vec::new();
        let mut i: usize = 0;
        while i < self.fft_size
            invariant
                i <= self.fft_size,
                self.wf(),
                math.wf(),
                whole == primary_signal(math@, mode, self@.left, self@.right),
                signal@ == whole.take(i as int),
            decreases self.fft_size - i,
        {
            let left: u32 = ring_item(&self.ring_left, self.ring_pos, i);
            let right: u32 = ring_item(&self.ring_right, self.ring_pos, i);
            let sample: u32 = if mode == MODE_RIGHT {
                right
            } else if mode == MODE_SUM {
                math.half_sum_of(left, right)
            } else if mode == MODE_DIFF {
                math.half_difference_of(left, right)
            } else {
                left
            };
            signal.push(sample);
            i = i + 1;
            assert(signal@ =~= whole.take(i as int));
        }
        assert(whole.take(i as int) =~= whole);
        signal
    }

    /// The signal that the secondary levels are made from.
    fn secondary(&self) -> (signal: Vec<u32>)
        requires
            self.wf(),
        ensures
            signal@ == self@.right,
    {
        let mut signal: Vec<u32> = Vec::new();
        let mut i: usize = 0;
        while i < self.fft_size
            invariant
                i <= self.fft_size,
                self.wf(),
                signal@ == self@.right.take(i as int),
            decreases self.fft_size - i,
        {
            signal.push(ring_item(&self.ring_right, self.ring_pos, i));
            i = i + 1;
            assert(signal@ =~= self@.right.take(i as int));
        }
        assert(self@.right.take(i as int) =~= self@.right);
        signal
    }

    /// Updates the spectrum from the recent samples, if the kernels are there.
    pub fn run_cqt<HalfSum, HalfDifference, Transform, Accumulate, Level, Smooth>(
        &mut self,
        poll: KernelPoll<C>,
        math: &Arithmetic<C, HalfSum, HalfDifference, Transform, Accumulate, Level, Smooth>,
    ) where
        HalfSum: Fn(u32, u32) -> u32,
        HalfDifference: Fn(u32, u32) -> u32,
        Transform: Fn(Vec<u32>) -> Vec<C>,
        Accumulate: Fn(C, C, C) -> C,
        Level: Fn(C, usize) -> u32,
        Smooth: Fn(u32, u32, u32) -> u32,

        requires
            old(self).wf(),
            math.wf(),
            poll_fits(old(self)@, poll),
        ensures
            final(self).wf(),
            final(self)@ == ran(math@, old(self)@, poll),
    {
        if !self.accept_kernels(poll) {
            return;
        }
        let ghost start = self@;
        let speed = Smoothing { up: SMOOTH_UP, down: SMOOTH_DOWN };
        let mode: u8 = self.spectrum.mode();

        let signal = math.transform_of(self.primary(math));
        apply_cqt(&signal, &self.kernels, &mut self.smoothed_a, self.fft_size, speed, math);
        self.show_primary();

        if mode == MODE_BOTH {
            let signal = math.transform_of(self.secondary());
            apply_cqt(&signal, &self.kernels, &mut self.smoothed_b, self.fft_size, speed, math);
            self.show_secondary();
        }
        self.spectrum.bump_version();

        if let Some(writer) = &mut self.shmem_writer {
            writer.update(&self.spectrum);
        }
        assert(self@ =~= refreshed(math@, start));
    }

    /// Writes the smoothed primary levels to the spectrum.
    fn show_primary(&mut self)
        requires
            old(self).wf(),
        ensures
            final(self).wf(),
            final(self)@ == (AnalyzerView {
                spectrum: SpectrumView {
                    bins_a: old(self)@.smoothed_a,
                    ..old(self)@.spectrum
                },
                ..old(self)@
            }),
    {
        let ghost start = self@;
        let mut q: usize = 0;
        while q < self.smoothed_a.len()
            invariant
                self.wf(),
                q <= self.smoothed_a.len(),
                self@ == (AnalyzerView {
                    spectrum: SpectrumView { bins_a: self@.spectrum.bins_a, ..start.spectrum },
                    ..start
                }),
                forall|p: int|
                    0 <= p < q ==> #[trigger] self@.spectrum.bins_a[p] == start.smoothed_a[p],
            decreases self.smoothed_a.len() - q,
        {
            self.spectrum.write_bin(q, self.smoothed_a[q]);
            q = q + 1;
        }
        assert(self@.spectrum.bins_a =~= start.smoothed_a);
    }

    /// Writes the smoothed secondary levels to the spectrum.
    fn show_secondary(&mut self)
        requires
            old(self).wf(),
        ensures
            final(self).wf(),
            final(self)@ == (AnalyzerView {
                spectrum: SpectrumView {
                    bins_b: old(self)@.smoothed_b,
                    ..old(self)@.spectrum
                },
                ..old(self)@
            }),
    {
        let ghost start = self@;
        let mut q: usize = 0;
        while q < self.smoothed_b.len()
            invariant
                self.wf(),
                q <= self.smoothed_b.len(),
                self@ == (AnalyzerView {
                    spectrum: SpectrumView { bins_b: self@.spectrum.bins_b, ..start.spectrum },
                    ..start
                }),
                forall|p: int|
                    0 <= p < q ==> #[trigger] self@.spectrum.bins_b[p] == start.smoothed_b[p],
            decreases self.smoothed_b.len() - q,
        {
            self.spectrum.write_bin_b(q, self.smoothed_b[q]);
            q = q + 1;
        }
        assert(self@.spectrum.bins_b =~= start.smoothed_b);
    }

    /// Takes a frame and, when an update is due, makes it. `poll` is asked whether the kernels
    /// are there, once, if an update is due and they are awaited.
    pub fn process_stereo<Poll, HalfSum, HalfDifference, Transform, Accumulate, Level, Smooth>(
        &mut self,
        left: u32,
        right: u32,
        poll: Poll,
        math: &Arithmetic<C, HalfSum, HalfDifference, Transform, Accumulate, Level, Smooth>,
    ) where
        Poll: FnOnce() -> KernelPoll<C>,
        HalfSum: Fn(u32, u32) -> u32,
        HalfDifference: Fn(u32, u32) -> u32,
        Transform: Fn(Vec<u32>) -> Vec<C>,
        Accumulate: Fn(C, C, C) -> C,
        Level: Fn(C, usize) -> u32,
        Smooth: Fn(u32, u32, u32) -> u32,

        requires
            old(self).wf(),
            math.wf(),
            due(old(self)@) && old(self)@.pending ==> poll.requires(()),
            forall|p: KernelPoll<C>| #[trigger] poll.ensures((), p) ==> poll_fits(old(self)@, p),
        ensures
            final(self).wf(),
            stepped(math@, poll, old(self)@, (left, right), final(self)@),
    {
        if self.fft_size == 0 {
            return;
        }
        let ghost start = self@;
        proof {
            let next: int = if self.ring_pos + 1 < self.fft_size {
                self.ring_pos + 1
            } else {
                0
            };
            ring_shifts(self.ring_left@, self.ring_pos as int, left, next);
            ring_shifts(self.ring_right@, self.ring_pos as int, right, next);
        }
        self.ring_left.set(self.ring_pos, left);
        self.ring_right.set(self.ring_pos, right);
        self.ring_pos = next_place(self.ring_pos, self.fft_size);
        self.hop_counter = self.hop_counter + 1;
        if self.hop_counter >= HOP_SIZE {
            self.hop_counter = 0;
            assert(self@ =~= pushed(start, left, right));
            let arrived = if self.pending {
                poll()
            } else {
                KernelPoll::Empty
            };
            self.run_cqt(arrived, math);
        } else {
            assert(self@ =~= pushed(start, left, right));
        }
    }

    /// The spectrum.
    pub fn spectrum(&self) -> (spectrum: &SpectrumData)
        requires
            self.wf(),
        ensures
            spectrum@ == self@.spectrum,
            spectrum.wf(),
    {
        &self.spectrum
    }

    /// Sets the channel mode of the spectrum.
    pub fn set_mode(&mut self, mode: u8)
        requires
            old(self).wf(),
        ensures
            final(self).wf(),
            final(self)@ == (AnalyzerView {
                spectrum: SpectrumView { mode, ..old(self)@.spectrum },
                ..old(self)@
            }),
    {
        self.spectrum.set_mode(mode);
    }

    /// Says in the spectrum whether other instances are being compared with this one.
    pub fn set_has_remotes(&mut self, v: bool)
        requires
            old(self).wf(),
        ensures
            final(self).wf(),
            final(self)@ == (AnalyzerView {
                spectrum: SpectrumView { has_remotes: v, ..old(self)@.spectrum },
                ..old(self)@
            }),
    {
        self.spectrum.set_has_remotes(v);
    }

    /// How many samples a transform takes; none before the sample rate is known.
    pub fn fft_size(&self) -> (size: usize)
        ensures
            size == self@.fft_size,
    {
        self.fft_size
    }

    /// The writer to the shared region, if there is one.
    pub fn shmem_writer(&self) -> (writer: Option<&SharedMemoryWriter>)
        requires
            self.wf(),
        ensures
            writer is Some <==> self@.writer is Some,
            writer matches Some(w) ==> w.wf() && self@.writer == Some(w@),
    {
        self.shmem_writer.as_ref()
    }
}

/// An analyzer after a row of frames, were no update to come in between.
pub open spec fn pushed_all<C>(v: AnalyzerView<C>, frames: Seq<(u32, u32)>) -> AnalyzerView<C>
    decreases frames.len(),
{
    if frames.len() == 0 {
        v
    } else {
        let before = pushed_all(v, frames.drop_last());
        pushed(before, frames.last().0, frames.last().1)
    }
}

/// The recent samples are the last ones that came, in their order: of each channel, what was
/// there followed by the new samples, cut to the newest.
pub proof fn recent_samples_are_the_newest<C>(v: AnalyzerView<C>, frames: Seq<(u32, u32)>)
    requires
        v.fft_size > 0,
        v.left.len() == v.fft_size,
        v.right.len() == v.fft_size,
        v.hop < HOP_SIZE,
    ensures
        pushed_all(v, frames).left == (v.left + frames.map_values(
            |f: (u32, u32)| f.0,
        )).skip(frames.len() as int),
        pushed_all(v, frames).right == (v.right + frames.map_values(
            |f: (u32, u32)| f.1,
        )).skip(frames.len() as int),
        pushed_all(v, frames).hop == (v.hop + frames.len()) % (HOP_SIZE as nat),
        pushed_all(v, frames).fft_size == v.fft_size,
    decreases frames.len(),
{
    let lefts = frames.map_values(|f: (u32, u32)| f.0);
    let rights = frames.map_values(|f: (u32, u32)| f.1);
    if frames.len() == 0 {
        assert((v.left + lefts).skip(0) =~= v.left);
        assert((v.right + rights).skip(0) =~= v.right);
    } else {
        let rest = frames.drop_last();
        recent_samples_are_the_newest(v, rest);
        let before = pushed_all(v, rest);
        assert(shifted(before.left, frames.last().0) =~= (v.left + lefts).skip(
            frames.len() as int,
        ));
        assert(shifted(before.right, frames.last().1) =~= (v.right + rights).skip(
            frames.len() as int,
        ));
    }
}

/// A frame brings an update exactly when it completes a whole number of hops since the
/// frames were counted from nothing.
pub proof fn updates_come_every_hop<C>(v: AnalyzerView<C>, frames: Seq<(u32, u32)>)
    requires
        v.fft_size > 0,
        v.left.len() == v.fft_size,
        v.right.len() == v.fft_size,
        v.hop == 0,
    ensures
        due(pushed_all(v, frames)) <==> (frames.len() + 1) % (HOP_SIZE as nat) == 0,
{
    recent_samples_are_the_newest(v, frames);
}

/// Setting the same rate again only forgets the recent samples: the levels, the kernels and
/// the shown spectrum stay.
pub proof fn same_rate_keeps_levels<C>(v: AnalyzerView<C>, max_window: nat)
    requires
        power_at_least(max_window) == v.fft_size,
    ensures
        ({
            let after = reset_to(v, v.spectrum.sample_rate, max_window);
            &&& after.smoothed_a == v.smoothed_a
            &&& after.smoothed_b == v.smoothed_b
            &&& after.kernels == v.kernels
            &&& after.ready == v.ready
            &&& after.pending == v.pending
            &&& after.spectrum == v.spectrum
            &&& after.writer == v.writer
        }),
{
}

/// Setting another rate always asks for new kernels and starts from silent levels, whether or
/// not the transform keeps its size.
pub proof fn another_rate_starts_over<C>(v: AnalyzerView<C>, sample_rate: u32, max_window: nat)
    requires
        sample_rate != v.spectrum.sample_rate,
    ensures
        ({
            let after = reset_to(v, sample_rate, max_window);
            &&& after.pending
            &&& !after.ready
            &&& after.kernels.len() == 0
            &&& after.smoothed_a == silent(v.smoothed_a.len())
            &&& after.smoothed_b == silent(v.smoothed_b.len())
            &&& after.spectrum == (SpectrumView { sample_rate, ..v.spectrum })
        }),
{
}

/// Setting a rate twice is setting it once.
pub proof fn reset_is_idempotent<C>(v: AnalyzerView<C>, sample_rate: u32, max_window: nat)
    ensures
        ({
            let once = reset_to(v, sample_rate, max_window);
            reset_to(once, sample_rate, max_window) == once
        }),
{
}

/// In mode Left the primary signal is the left channel and does not depend on the right one;
/// in mode Right it is the other way round.
pub proof fn channels_stand_alone<C>(
    m: ArithmeticView<C>,
    left: Seq<u32>,
    right: Seq<u32>,
    other: Seq<u32>,
)
    requires
        right.len() == left.len(),
        other.len() == left.len(),
    ensures
        primary_signal(m, MODE_LEFT, left, right) == left,
        primary_signal(m, MODE_LEFT, left, right) == primary_signal(m, MODE_LEFT, left, other),
        primary_signal(m, MODE_RIGHT, left, right) == right,
        primary_signal(m, MODE_RIGHT, left, right) == primary_signal(m, MODE_RIGHT, other, right),
{
    assert(primary_signal(m, MODE_LEFT, left, right) =~= left);
    assert(primary_signal(m, MODE_LEFT, left, other) =~= left);
    assert(primary_signal(m, MODE_RIGHT, left, right) =~= right);
    assert(primary_signal(m, MODE_RIGHT, other, right) =~= right);
}

/// The signal of mode Diff is that of mode Sum on other right samples, wherever half the
/// difference to a right sample is half the sum with the other one.
pub proof fn difference_is_a_sum<C>(
    m: ArithmeticView<C>,
    left: Seq<u32>,
    right: Seq<u32>,
    other: Seq<u32>,
)
    requires
        right.len() == left.len(),
        other.len() == left.len(),
        forall|i: int|
            0 <= i < left.len() ==> (m.half_difference)(left[i], #[trigger] right[i])
                == (m.half_sum)(left[i], other[i]),
    ensures
        primary_signal(m, MODE_DIFF, left, right) == primary_signal(m, MODE_SUM, left, other),
{
    assert forall|i: int| 0 <= i < left.len() implies mixed(m, MODE_DIFF, left[i], right[i])
        == mixed(m, MODE_SUM, left[i], other[i]) by {
        assert((m.half_difference)(left[i], right[i]) == (m.half_sum)(left[i], other[i]));
    }
    assert(primary_signal(m, MODE_DIFF, left, right) =~= primary_signal(
        m,
        MODE_SUM,
        left,
        other,
    ));
}

/// An update that cannot be made, for want of kernels, leaves the spectrum and its mirror as
/// they are.
pub proof fn no_kernels_no_change<C>(
    m: ArithmeticView<C>,
    v: AnalyzerView<C>,
    poll: KernelPoll<C>,
)
    requires
        !proceeds(v, poll),
    ensures
        ran(m, v, poll).spectrum == v.spectrum,
        ran(m, v, poll).writer == v.writer,
        ran(m, v, poll).smoothed_a == v.smoothed_a,
        ran(m, v, poll).smoothed_b == v.smoothed_b,
{
}

/// An update that is made gets a new version, and what the shared region then shows is the
/// new spectrum. Unless both channels are analyzed, the secondary levels stay.
pub proof fn update_is_mirrored<C>(m: ArithmeticView<C>, v: AnalyzerView<C>, poll: KernelPoll<C>)
    requires
        proceeds(v, poll),
        v.smoothed_a.len() == v.spectrum.bins_a.len(),
        v.smoothed_b.len() == v.spectrum.bins_b.len(),
        v.writer matches Some(w) ==> {
            &&& w.fields.bins_a.len() == v.spectrum.bins_a.len()
            &&& w.fields.bins_b.len() == v.spectrum.bins_b.len()
        },
    ensures
        ran(m, v, poll).spectrum.version != v.spectrum.version,
        v.spectrum.mode != MODE_BOTH ==> ran(m, v, poll).spectrum.bins_b == v.spectrum.bins_b,
        ran(m, v, poll).writer is Some <==> v.writer is Some,
        ran(m, v, poll).writer matches Some(w) ==> {
            &&& w.fields.bins_a == ran(m, v, poll).spectrum.bins_a
            &&& w.fields.bins_b == ran(m, v, poll).spectrum.bins_b
            &&& w.fields.mode == ran(m, v, poll).spectrum.mode
            &&& w.fields.data_version == ran(m, v, poll).spectrum.version
            &&& w.fields.sample_rate == ran(m, v, poll).spectrum.sample_rate
        },
{
    let after = ran(m, v, poll);
    if after.writer is Some {
        let w = v.writer->0;
        let fields = updated(w.fields, after.spectrum);
        assert(fields.bins_a =~= after.spectrum.bins_a);
        assert(fields.bins_b =~= after.spectrum.bins_b);
    }
}

/// Does a level lie on the scale that is shown?
pub open spec fn level_on_scale(level: u32) -> bool {
    at_most(DB_FLOOR, level) && at_most(level, DB_CEIL)
}

/// Does every level lie on the scale that is shown?
pub open spec fn on_scale(levels: Seq<u32>) -> bool {
    forall|q: int| 0 <= q < levels.len() ==> level_on_scale(#[trigger] levels[q])
}

/// Does `x` lie between two numbers, either of which may be the larger?
pub open spec fn lies_between(from: u32, x: u32, to: u32) -> bool {
    ||| at_most(from, x) && at_most(x, to)
    ||| at_most(to, x) && at_most(x, from)
}

/// Smoothing at this speed moves a level on the scale towards another, and not past it.
pub open spec fn smooths_between<C>(m: ArithmeticView<C>, speed: Smoothing) -> bool {
    forall|from: u32, to: u32, fraction: u32|
        level_on_scale(from) && level_on_scale(to) && (fraction == speed.up || fraction
            == speed.down) ==> lies_between(from, #[trigger] (m.smooth)(from, to, fraction), to)
}

/// Every level that the arithmetic gives is a number.
pub open spec fn levels_are_numbers<C>(m: ArithmeticView<C>) -> bool {
    forall|x: C, n: usize| !is_nan(#[trigger] (m.level)(x, n))
}

/// Where smoothing does not go past its target, a level ends between its old value and the
/// target.
pub proof fn level_moves_towards_target<C>(
    m: ArithmeticView<C>,
    from: u32,
    db: u32,
    speed: Smoothing,
)
    requires
        smooths_between(m, speed),
        level_on_scale(from),
        level_on_scale(db),
    ensures
        lies_between(from, followed(m, from, db, speed), db),
        level_on_scale(followed(m, from, db, speed)),
{
}

/// Where smoothing does not go past its target and every level is a number, levels on the
/// scale stay on it; and each ends between its old value and the new level of its bin, which
/// is on the scale too.
pub proof fn levels_stay_on_scale<C>(
    m: ArithmeticView<C>,
    signal: Seq<C>,
    kernels: Seq<Seq<(usize, C)>>,
    levels: Seq<u32>,
    fft_size: usize,
    speed: Smoothing,
)
    requires
        on_scale(levels),
        levels_are_numbers(m),
        smooths_between(m, speed),
    ensures
        on_scale(applied(m, signal, kernels, levels, fft_size, speed)),
        forall|q: int|
            0 <= q < levels.len() && q < kernels.len() ==> {
                let target = bin_level(m, signal, kernels[q], fft_size);
                &&& level_on_scale(target)
                &&& lies_between(
                    levels[q],
                    #[trigger] applied(m, signal, kernels, levels, fft_size, speed)[q],
                    target,
                )
            },
{
    let after = applied(m, signal, kernels, levels, fft_size, speed);
    assert forall|q: int| 0 <= q < levels.len() && q < kernels.len() implies level_on_scale(
        bin_level(m, signal, kernels[q], fft_size),
    ) && lies_between(
        levels[q],
        #[trigger] after[q],
        bin_level(m, signal, kernels[q], fft_size),
    ) && level_on_scale(after[q]) by {
        clamped_is_bounded(
            (m.level)(dot_product(m, signal, kernels[q]), fft_size),
            DB_FLOOR,
            DB_CEIL,
        );
        level_moves_towards_target(
            m,
            levels[q],
            bin_level(m, signal, kernels[q], fft_size),
            speed,
        );
    }
    assert forall|q: int| 0 <= q < after.len() implies level_on_scale(#[trigger] after[q]) by {
        if q >= kernels.len() {
            assert(after[q] == levels[q]);
        }
    }
}

/// Where smoothing does not go past its target and every level is a number, an analyzer whose
/// levels are on the scale shows only such levels after an update.
pub proof fn spectrum_stays_on_scale<C>(m: ArithmeticView<C>, v: AnalyzerView<C>)
    requires
        on_scale(v.smoothed_a),
        on_scale(v.smoothed_b),
        on_scale(v.spectrum.bins_b),
        levels_are_numbers(m),
        smooths_between(m, stereo_smoothing()),
    ensures
        on_scale(refreshed(m, v).smoothed_a),
        on_scale(refreshed(m, v).smoothed_b),
        on_scale(refreshed(m, v).spectrum.bins_a),
        on_scale(refreshed(m, v).spectrum.bins_b),
{
    let signal = (m.transform)(primary_signal(m, v.spectrum.mode, v.left, v.right));
    let size = v.fft_size as usize;
    levels_stay_on_scale(m, signal, v.kernels, v.smoothed_a, size, stereo_smoothing());
    levels_stay_on_scale(
        m,
        (m.transform)(v.right),
        v.kernels,
        v.smoothed_b,
        size,
        stereo_smoothing(),
    );
}

/// A frame moves each channel on by one sample: the oldest is dropped, the new one comes last,
/// and those between keep their order. Left and right do not mix. The hop counts on, or starts
/// anew with an update. Nothing else changes, and before a rate is known nothing at all.
pub proof fn frame_moves_the_samples_on<C>(v: AnalyzerView<C>, left: u32, right: u32, i: int)
    requires
        v.left.len() == v.fft_size,
        v.right.len() == v.fft_size,
        v.hop < 2048,
    ensures
        v.fft_size == 0 ==> pushed(v, left, right) == v && !due(v),
        v.fft_size > 0 ==> {
            let after = pushed(v, left, right);
            &&& after.left.len() == v.fft_size
            &&& after.right.len() == v.fft_size
            &&& after.left.last() == left
            &&& after.right.last() == right
            &&& 0 <= i < v.fft_size - 1 ==> after.left[i] == v.left[i + 1] && after.right[i]
                == v.right[i + 1]
            &&& due(v) <==> v.hop == 2047
            &&& after.hop == (v.hop + 1) % 2048
            &&& after == (AnalyzerView {
                left: after.left,
                right: after.right,
                hop: after.hop,
                ..v
            })
        },
{
}

/// Kernels that arrive while they are awaited are taken, in their order, and end the wait; as
/// long as they have not arrived it goes on; and where nobody makes them any more it ends
/// without them. Who does not wait takes nothing.
pub proof fn awaited_kernels_are_taken<C>(
    v: AnalyzerView<C>,
    kernels: Vec<SparseKernel<C>>,
    poll: KernelPoll<C>,
    q: int,
)
    ensures
        !v.pending ==> polled(v, poll) == v,
        v.pending ==> polled(v, KernelPoll::Empty) == v,
        v.pending ==> polled(v, KernelPoll::Disconnected) == (AnalyzerView { pending: false, ..v }),
        v.pending ==> {
            let after = polled(v, KernelPoll::Ready(kernels));
            &&& after.ready
            &&& !after.pending
            &&& after.kernels.len() == kernels@.len()
            &&& 0 <= q < kernels@.len() ==> after.kernels[q] == kernels@[q].entries@
            &&& after == (AnalyzerView {
                ready: true,
                pending: false,
                kernels: after.kernels,
                ..v
            })
        },
{
}

/// An update is made exactly when the kernels are at hand: those that just arrived, where they
/// were awaited, or those that are there. It then counts one version on.
pub proof fn update_needs_kernels<C>(m: ArithmeticView<C>, v: AnalyzerView<C>, poll: KernelPoll<C>)
    ensures
        proceeds(v, poll) <==> (v.pending && poll is Ready) || (!v.pending && v.ready),
        proceeds(v, poll) ==> ran(m, v, poll).spectrum.version == (v.spectrum.version + 1)
            % 0x1_0000_0000,
        !proceeds(v, poll) ==> ran(m, v, poll).spectrum == v.spectrum && ran(m, v, poll)
            == polled(v, poll),
        proceeds(v, poll) ==> ran(m, v, poll) == refreshed(m, polled(v, poll)),
{
}

/// What the primary levels are made from, sample by sample: the mean in mode Sum, half the
/// difference in mode Diff, the right channel in mode Right, and the left channel in every
/// other mode.
pub proof fn modes_choose_the_signal<C>(
    m: ArithmeticView<C>,
    mode: u8,
    left: Seq<u32>,
    right: Seq<u32>,
    i: int,
)
    requires
        0 <= i < left.len(),
        left.len() == right.len(),
    ensures
        primary_signal(m, mode, left, right).len() == left.len(),
        mode == 0 ==> primary_signal(m, mode, left, right)[i] == (m.half_sum)(left[i], right[i]),
        mode == 3 ==> primary_signal(m, mode, left, right)[i] == right[i],
        mode == 4 ==> primary_signal(m, mode, left, right)[i] == (m.half_difference)(
            left[i],
            right[i],
        ),
        mode != 0 && mode != 3 && mode != 4 ==> primary_signal(m, mode, left, right)[i] == left[i],
{
}

/// An update shows, for every bin, its old level moved by nine tenths towards what the bin
/// hears in the transform of the recent samples: of the primary signal for the primary levels
/// and, in mode Both alone, of the right channel for the secondary ones. Nothing but the
/// levels, the version and the mirror changes.
pub proof fn update_shows_what_is_heard<C>(
    m: ArithmeticView<C>,
    v: AnalyzerView<C>,
    q: int,
    target_a: u32,
    target_b: u32,
)
    requires
        v.kernels.len() == v.smoothed_a.len(),
        v.kernels.len() == v.smoothed_b.len(),
        target_a == clamped(
            (m.level)(
                dot_product(
                    m,
                    (m.transform)(primary_signal(m, v.spectrum.mode, v.left, v.right)),
                    v.kernels[q],
                ),
                v.fft_size as usize,
            ),
            DB_FLOOR,
            DB_CEIL,
        ),
        target_b == clamped(
            (m.level)(
                dot_product(m, (m.transform)(v.right), v.kernels[q]),
                v.fft_size as usize,
            ),
            DB_FLOOR,
            DB_CEIL,
        ),
    ensures
        ({
            let after = refreshed(m, v);
            &&& after.smoothed_a.len() == v.smoothed_a.len()
            &&& after.smoothed_b.len() == v.smoothed_b.len()
            &&& after.spectrum.bins_a == after.smoothed_a
            &&& 0 <= q < v.kernels.len() ==> after.spectrum.bins_a[q] == (m.smooth)(
                v.smoothed_a[q],
                target_a,
                0x3F66_6666,
            )
            &&& v.spectrum.mode == 1 ==> after.spectrum.bins_b == after.smoothed_b
            &&& v.spectrum.mode == 1 && 0 <= q < v.kernels.len() ==> after.spectrum.bins_b[q] == (
            m.smooth)(v.smoothed_b[q], target_b, 0x3F66_6666)
            &&& v.spectrum.mode != 1 ==> after.spectrum.bins_b == v.spectrum.bins_b
                && after.smoothed_b == v.smoothed_b
            &&& after.spectrum == (SpectrumView {
                bins_a: after.spectrum.bins_a,
                bins_b: after.spectrum.bins_b,
                version: after.spectrum.version,
                ..v.spectrum
            })
            &&& after == (AnalyzerView {
                spectrum: after.spectrum,
                smoothed_a: after.smoothed_a,
                smoothed_b: after.smoothed_b,
                writer: after.writer,
                ..v
            })
        }),
{
}

/// A frame that brings no update only moves the samples on; one that brings an update, with no
/// kernels awaited, makes it with the new frame among the samples, whatever would be found of
/// kernels.
pub proof fn frames_bring_updates<C, Poll: FnOnce() -> KernelPoll<C>>(
    m: ArithmeticView<C>,
    poll: Poll,
    before: AnalyzerView<C>,
    frame: (u32, u32),
    after: AnalyzerView<C>,
)
    requires
        stepped(m, poll, before, frame, after),
    ensures
        !due(before) ==> after == pushed(before, frame.0, frame.1),
        due(before) && !before.pending && before.ready ==> after == refreshed(
            m,
            pushed(before, frame.0, frame.1),
        ),
        due(before) && !before.pending && !before.ready ==> after == pushed(
            before,
            frame.0,
            frame.1,
        ),
        due(before) && before.pending ==> exists|p: KernelPoll<C>| #[trigger]
            poll.ensures((), p) && after == ran(m, pushed(before, frame.0, frame.1), p),
{
    if due(before) {
        let p = choose|p: KernelPoll<C>|
            (before.pending ==> poll.ensures((), p)) && after == #[trigger] ran(
                m,
                pushed(before, frame.0, frame.1),
                p,
            );
        if before.pending {
            assert(poll.ensures((), p));
        }
    }
}

/// However a rate is set, the recent samples are then silence, as many as the least power of
/// two that holds the longest window, and the hop starts anew. Kernels are asked for exactly
/// when the rate or that size has changed, and then every level starts at the floor; otherwise
/// kernels and levels stay. What is shown stays in either case, but for its rate.
pub proof fn reset_starts_from_silence<C>(
    v: AnalyzerView<C>,
    sample_rate: u32,
    max_window: nat,
    i: int,
    q: int,
)
    requires
        v.smoothed_a.len() == v.smoothed_b.len(),
        0 <= i < power_at_least(max_window),
    ensures
        ({
            let after = reset_to(v, sample_rate, max_window);
            let size = power_at_least(max_window);
            let changed = size != v.fft_size || sample_rate != v.spectrum.sample_rate;
            &&& needs_kernels(v, sample_rate, max_window) <==> changed
            &&& after.fft_size == size
            &&& after.left.len() == size
            &&& after.right.len() == size
            &&& after.left[i] == 0
            &&& after.right[i] == 0
            &&& after.hop == 0
            &&& after.spectrum == (SpectrumView { sample_rate, ..v.spectrum })
            &&& after.writer == v.writer
            &&& changed ==> {
                &&& after.pending
                &&& !after.ready
                &&& after.kernels.len() == 0
                &&& after.smoothed_a.len() == v.smoothed_a.len()
                &&& after.smoothed_b.len() == v.smoothed_b.len()
                &&& 0 <= q < v.smoothed_a.len() ==> after.smoothed_a[q] == 0xC2B4_0000u32
                    && after.smoothed_b[q] == 0xC2B4_0000u32
            }
            &&& !changed ==> {
                &&& after.pending == v.pending
                &&& after.ready == v.ready
                &&& after.kernels == v.kernels
                &&& after.smoothed_a == v.smoothed_a
                &&& after.smoothed_b == v.smoothed_b
            }
        }),
{
}

/// A ring is read from where the next item goes, round to just before it.
pub proof fn ring_is_read_round(ring: Seq<u32>, pos: int, i: int)
    requires
        0 <= pos < ring.len(),
        0 <= i < ring.len(),
    ensures
        unrolled(ring, pos).len() == ring.len(),
        unrolled(ring, pos)[i] == ring[(pos + i) % ring.len() as int],
{
    let n = ring.len() as int;
    if pos + i < n {
        assert((pos + i) % n == pos + i) by (nonlinear_arith)
            requires
                0 <= pos + i < n,
        ;
    } else {
        assert((pos + i) % n == pos + i - n) by (nonlinear_arith)
            requires
                n <= pos + i < 2 * n,
        ;
    }
}

/// A mirror with room for fewer bins than the spectrum is updated with every update too, for
/// the bins that it has, and stays under its name.
pub proof fn every_mirror_is_updated<C>(
    m: ArithmeticView<C>,
    v: AnalyzerView<C>,
    w: WriterView,
    k: int,
)
    requires
        v.writer == Some(w),
        w.fields.bins_a.len() <= v.smoothed_a.len(),
        w.fields.bins_b.len() <= v.smoothed_b.len(),
        w.fields.bins_b.len() <= v.spectrum.bins_b.len(),
    ensures
        refreshed(m, v).writer is Some,
        ({
            let after = refreshed(m, v).writer->0;
            let shown = refreshed(m, v).spectrum;
            &&& after.num_bins == w.num_bins
            &&& after.shm_name == w.shm_name
            &&& after.fields.bins_a.len() == w.fields.bins_a.len()
            &&& after.fields.bins_b.len() == w.fields.bins_b.len()
            &&& 0 <= k < w.fields.bins_a.len() ==> after.fields.bins_a[k] == shown.bins_a[k]
            &&& 0 <= k < w.fields.bins_b.len() ==> after.fields.bins_b[k] == shown.bins_b[k]
            &&& after.fields.mode == shown.mode
            &&& after.fields.data_version == shown.version
            &&& after.fields.sample_rate == shown.sample_rate
            &&& after.fields.name == w.fields.name
            &&& after.fields.name_len == w.fields.name_len
            &&& after.fields.magic == w.fields.magic
            &&& after.fields.num_bins == w.fields.num_bins
        }),
{
}

} // verus!
