//! An analyzer of one channel, with half as many bins, that makes its kernels on the spot.

use vstd::prelude::*;

use crate::analyzer::{make_silence, next_place, next_power_of_two, power_at_least};
use crate::analyzer::{power_at_least_is_least, ring_item, ring_shifts, shifted, silence, unrolled};
use crate::analyzer::HOP_SIZE;
use crate::arithmetic::{Arithmetic, ArithmeticView, KernelArithmetic, KernelArithmeticView};
use crate::kernel::{applied, apply_cqt, dot_product, entries_of, generate_kernels, kernel_of};
use crate::kernel::{kernels_fit, kernels_of, Smoothing, SparseKernel};
use crate::level::{below, clamped};
use crate::spectrum::{make_bins, nearest_bin_of, overwrite, overwritten, pick_bin, silent};
use crate::spectrum::{DB_CEIL, DB_FLOOR, INITIAL_SAMPLE_RATE};

verus! {

/// Bins per octave of the transform.
pub const BINS_PER_OCTAVE: usize = 48;

/// 0.4, the part of the distance to a louder level that is gone at each update.
pub const SMOOTH_UP: u32 = 0x3ECC_CCCD;

/// 0.8, the part of the distance to a quieter level that is gone at each update.
pub const SMOOTH_DOWN: u32 = 0x3F4C_CCCD;

/// The smoothing of this analyzer.
pub open spec fn mono_smoothing() -> Smoothing {
    Smoothing { up: SMOOTH_UP, down: SMOOTH_DOWN }
}

/// What a spectrum holds.
#[verifier::ext_equal]
pub struct MonoSpectrumView {
    pub bins: Seq<u32>,
    pub center_freqs: Seq<u32>,
    pub sample_rate: u32,
}

/// A spectrum: a row of levels over a row of center frequencies.
pub struct SpectrumData {
    bins: Vec<u32>,
    center_freqs: Vec<u32>,
    sample_rate: u32,
}

impl View for SpectrumData {
    type V = MonoSpectrumView;

    closed spec fn view(&self) -> MonoSpectrumView {
        MonoSpectrumView {
            bins: self.bins@,
            center_freqs: self.center_freqs@,
            sample_rate: self.sample_rate,
        }
    }
}

impl SpectrumData {
    /// Every bin has a level and a center frequency.
    pub open spec fn wf(&self) -> bool {
        self@.bins.len() == self@.center_freqs.len()
    }

    /// A silent spectrum over the given center frequencies.
    pub fn new(center_freqs: Vec<u32>) -> (spectrum: Self)
        ensures
            spectrum.wf(),
            spectrum@ == (MonoSpectrumView {
                bins: silent(center_freqs@.len()),
                center_freqs: center_freqs@,
                sample_rate: INITIAL_SAMPLE_RATE,
            }),
    {
        let n: usize = center_freqs.len();
        SpectrumData { bins: make_bins(n), center_freqs, sample_rate: INITIAL_SAMPLE_RATE }
    }

    /// The number of bins.
    pub fn num_bins(&self) -> (n: usize)
        ensures
            n == self@.center_freqs.len(),
    {
        self.center_freqs.len()
    }

    /// The center frequency of a bin.
    pub fn center_freq(&self, bin: usize) -> (freq: u32)
        requires
            bin < self@.center_freqs.len(),
        ensures
            freq == self@.center_freqs[bin as int],
    {
        self.center_freqs[bin]
    }

    /// Sets a level.
    pub fn write_bin(&mut self, index: usize, db: u32)
        requires
            index < old(self)@.bins.len(),
        ensures
            final(self)@ == (MonoSpectrumView {
                bins: old(self)@.bins.update(index as int, db),
                ..old(self)@
            }),
    {
        self.bins.set(index, db);
    }

    /// The level of a bin.
    pub fn read_bin(&self, index: usize) -> (db: u32)
        requires
            index < self@.bins.len(),
        ensures
            db == self@.bins[index as int],
    {
        self.bins[index]
    }

    /// Sets the sample rate.
    pub fn set_sample_rate(&mut self, sr: u32)
        ensures
            final(self)@ == (MonoSpectrumView { sample_rate: sr, ..old(self)@ }),
    {
        self.sample_rate = sr;
    }

    /// The sample rate.
    pub fn sample_rate(&self) -> (sr: u32)
        ensures
            sr == self@.sample_rate,
    {
        self.sample_rate
    }

    /// Reads the levels, as many as `out` has room for.
    pub fn read_all(&self, out: &mut [u32])
        ensures
            final(out)@ == overwritten(old(out)@, self@.bins),
    {
        overwrite(&self.bins, out);
    }

    /// The bin for a frequency whose place on the scale of bins rounds to `position`.
    pub fn nearest_bin(&self, freq: u32, position: usize) -> (bin: usize)
        ensures
            bin == nearest_bin_of(self@.center_freqs.len(), freq, position as nat),
    {
        pick_bin(self.num_bins(), freq, position)
    }
}

/// What an analyzer holds.
#[verifier::ext_equal]
#[verifier::reject_recursive_types(C)]
pub struct MonoView<C> {
    pub spectrum: MonoSpectrumView,
    /// How many samples a transform takes.
    pub fft_size: nat,
    /// The most recent samples, the oldest first.
    pub recent: Seq<u32>,
    /// How many samples have come since the last update.
    pub hop: nat,
    pub smoothed: Seq<u32>,
    pub kernels: Seq<Seq<(usize, C)>>,
    /// Are the kernels there?
    pub ready: bool,
}

/// Does the next sample bring an update?
pub open spec fn due<C>(v: MonoView<C>) -> bool {
    v.fft_size > 0 && v.hop + 1 >= HOP_SIZE
}

/// An analyzer after one more sample, before any update. Without a size it takes no samples.
pub open spec fn pushed<C>(v: MonoView<C>, sample: u32) -> MonoView<C> {
    if v.fft_size == 0 {
        v
    } else {
        MonoView {
            recent: shifted(v.recent, sample),
            hop: if due(v) {
                0
            } else {
                v.hop + 1
            },
            ..v
        }
    }
}

/// An analyzer after an update of the spectrum was due.
pub open spec fn ran<C>(m: ArithmeticView<C>, v: MonoView<C>) -> MonoView<C> {
    if !v.ready {
        v
    } else {
        let levels = applied(
            m,
            (m.transform)(v.recent),
            v.kernels,
            v.smoothed,
            v.fft_size as usize,
            mono_smoothing(),
        );
        MonoView {
            spectrum: MonoSpectrumView { bins: levels, ..v.spectrum },
            smoothed: levels,
            ..v
        }
    }
}

/// An analyzer that was set to a sample rate at which the longest window takes `max_window`
/// samples.
pub open spec fn reset_to<C>(
    k: KernelArithmeticView<C>,
    v: MonoView<C>,
    sample_rate: u32,
    max_window: nat,
) -> MonoView<C> {
    let size = power_at_least(max_window);
    MonoView {
        spectrum: MonoSpectrumView { sample_rate, ..v.spectrum },
        fft_size: size,
        recent: silence(size),
        hop: 0,
        smoothed: silent(v.smoothed.len()),
        kernels: kernels_of(k, v.spectrum.center_freqs, size as usize),
        ready: true,
    }
}

/// An analyzer of one channel.
pub struct AnalyzerCore<C> {
    spectrum: SpectrumData,
    fft_size: usize,
    kernels: Vec<SparseKernel<C>>,
    ready: bool,
    ring_buffer: Vec<u32>,
    ring_pos: usize,
    hop_counter: usize,
    smoothed: Vec<u32>,
}

impl<C> View for AnalyzerCore<C> {
    type V = MonoView<C>;

    closed spec fn view(&self) -> MonoView<C> {
        MonoView {
            spectrum: self.spectrum@,
            fft_size: self.fft_size as nat,
            recent: unrolled(self.ring_buffer@, self.ring_pos as int),
            hop: self.hop_counter as nat,
            smoothed: self.smoothed@,
            kernels: entries_of(self.kernels@),
            ready: self.ready,
        }
    }
}

impl<C: Copy> AnalyzerCore<C> {
    /// The ring has the size of the transform, and the next place is in it.
    pub closed spec fn ring_wf(&self) -> bool {
        &&& self.ring_buffer@.len() == self.fft_size
        &&& self.ring_pos < self.fft_size || self.fft_size == 0 && self.ring_pos == 0
        &&& self.spectrum.wf()
    }

    /// Every bin has its level, the recent samples fill a transform, and kernels that are there
    /// fit.
    pub open spec fn wf(&self) -> bool {
        let n = self@.spectrum.center_freqs.len();
        &&& self.ring_wf()
        &&& self@.spectrum.bins.len() == n
        &&& self@.smoothed.len() == n
        &&& self@.recent.len() == self@.fft_size
        &&& self@.fft_size <= usize::MAX
        &&& self@.hop < HOP_SIZE
        &&& self@.ready ==> kernels_fit(self@.kernels, n, self@.fft_size)
    }

    /// An analyzer that fills `spectrum`, and takes no samples before it knows their rate.
    pub fn new(spectrum: SpectrumData) -> (core: Self)
        requires
            spectrum.wf(),
        ensures
            core.wf(),
            core@ == (MonoView::<C> {
                spectrum: spectrum@,
                fft_size: 0,
                recent: seq![],
                hop: 0,
                smoothed: silent(spectrum@.center_freqs.len()),
                kernels: seq![],
                ready: false,
            }),
    {
        let num_bins: usize = spectrum.num_bins();
        let core = AnalyzerCore {
            spectrum,
            fft_size: 0,
            kernels: Vec::new(),
            ready: false,
            ring_buffer: Vec::new(),
            ring_pos: 0,
            hop_counter: 0,
            smoothed: make_bins(num_bins),
        };
        assert(core@.recent =~= seq![]);
        assert(core@.kernels =~= seq![]);
        core
    }

    /// Sets the sample rate, at which the longest window takes `max_window` samples, and makes
    /// the kernels for it.
    pub fn reset<WindowLen, Tone, Transform, Norm, Threshold, Conjugate>(
        &mut self,
        sample_rate: u32,
        max_window: usize,
        math: &KernelArithmetic<C, WindowLen, Tone, Transform, Norm, Threshold, Conjugate>,
    ) where
        WindowLen: Fn(u32) -> usize,
        Tone: Fn(u32, usize, usize) -> C,
        Transform: Fn(Vec<C>) -> Vec<C>,
        Norm: Fn(C) -> u32,
        Threshold: Fn(u32) -> u32,
        Conjugate: Fn(C) -> C,

        requires
            old(self).wf(),
            math.wf(),
            power_at_least(max_window as nat) <= usize::MAX,
        ensures
            final(self).wf(),
            final(self)@ == reset_to(math@, old(self)@, sample_rate, max_window as nat),
    {
        self.spectrum.set_sample_rate(sample_rate);
        self.fft_size = next_power_of_two(max_window);
        self.kernels = generate_kernels(
            self.spectrum.center_freqs.as_slice(),
            self.fft_size,
            math,
        );
        self.ready = true;
        self.ring_buffer = make_silence(self.fft_size);
        self.ring_pos = 0;
        self.hop_counter = 0;
        self.smoothed = make_bins(self.smoothed.len());
        proof {
            power_at_least_is_least(max_window as nat, 0);
            assert(self@.recent =~= silence(self.fft_size as nat));
        }
    }

    /// Takes a sample and, when an update is due, makes it.
    pub fn process_sample<HalfSum, HalfDifference, Transform, Accumulate, Level, Smooth>(
        &mut self,
        sample: u32,
        math: &Arithmetic<C, HalfSum, HalfDifference, Transform, Accumulate, Level, Smooth>,
    ) where
        HalfSum: Fn(u32, u32) -> u32,
        HalfDifference: Fn(u32, u32) -> u32,
        Transform: Fn(Vec<u32>) -> Vec<C>,
        Accumulate: Fn(C, C, C) -> C,
        Level: Fn(C, usize) -> u32,
        Smooth: Fn(u32, u32, u32) -> u32,

        requires
            old(self).wf(),
            math.wf(),
        ensures
            final(self).wf(),
            final(self)@ == (if due(old(self)@) {
                ran(math@, pushed(old(self)@, sample))
            } else {
                pushed(old(self)@, sample)
            }),
    {
        if self.fft_size == 0 {
            return;
        }
        let ghost start = self@;
        proof {
            let next: int = if self.ring_pos + 1 < self.fft_size {
                self.ring_pos + 1
            } else {
                0
            };
            ring_shifts(self.ring_buffer@, self.ring_pos as int, sample, next);
        }
        self.ring_buffer.set(self.ring_pos, sample);
        self.ring_pos = next_place(self.ring_pos, self.fft_size);
        self.hop_counter = self.hop_counter + 1;
        if self.hop_counter >= HOP_SIZE {
            self.hop_counter = 0;
            assert(self@ =~= pushed(start, sample));
            self.run_cqt(math);
        } else {
            assert(self@ =~= pushed(start, sample));
        }
    }

    /// The recent samples, the oldest first.
    fn recent(&self) -> (signal: Vec<u32>)
        requires
            self.wf(),
        ensures
            signal@ == self@.recent,
    {
        let mut signal: Vec<u32> = Vec::new();
        let mut i: usize = 0;
        while i < self.fft_size
            invariant
                i <= self.fft_size,
                self.wf(),
                signal@ == self@.recent.take(i as int),
            decreases self.fft_size - i,
        {
            signal.push(ring_item(&self.ring_buffer, self.ring_pos, i));
            i = i + 1;
            assert(signal@ =~= self@.recent.take(i as int));
        }
        assert(self@.recent.take(i as int) =~= self@.recent);
        signal
    }

    /// Updates the spectrum from the recent samples, if the kernels are there.
    pub fn run_cqt<HalfSum, HalfDifference, Transform, Accumulate, Level, Smooth>(
        &mut self,
        math: &Arithmetic<C, HalfSum, HalfDifference, Transform, Accumulate, Level, Smooth>,
    ) where
        HalfSum: Fn(u32, u32) -> u32,
        HalfDifference: Fn(u32, u32) -> u32,
        Transform: Fn(Vec<u32>) -> Vec<C>,
        Accumulate: Fn(C, C, C) -> C,
        Level: Fn(C, usize) -> u32,
        Smooth: Fn(u32, u32, u32) -> u32,

        requires
            old(self).wf(),
            math.wf(),
        ensures
            final(self).wf(),
            final(self)@ == ran(math@, old(self)@),
    {
        if !self.ready {
            return;
        }
        let ghost start = self@;
        let speed = Smoothing { up: SMOOTH_UP, down: SMOOTH_DOWN };
        let signal = math.transform_of(self.recent());
        apply_cqt(&signal, &self.kernels, &mut self.smoothed, self.fft_size, speed, math);
        let ghost levels = self.smoothed@;
        let mut q: usize = 0;
        while q < self.smoothed.len()
            invariant
                self.wf(),
                q <= self.smoothed.len(),
                self@ == (MonoView {
                    spectrum: MonoSpectrumView { bins: self@.spectrum.bins, ..start.spectrum },
                    smoothed: levels,
                    ..start
                }),
                forall|p: int| 0 <= p < q ==> #[trigger] self@.spectrum.bins[p] == levels[p],
            decreases self.smoothed.len() - q,
        {
            self.spectrum.write_bin(q, self.smoothed[q]);
            q = q + 1;
        }
        assert(self@.spectrum.bins =~= levels);
    }

    /// The spectrum.
    pub fn spectrum(&self) -> (spectrum: &SpectrumData)
        requires
            self.wf(),
        ensures
            spectrum@ == self@.spectrum,
            spectrum.wf(),
    {
        &self.spectrum
    }
}

/// An analyzer after a row of samples.
pub open spec fn processed<C>(
    m: ArithmeticView<C>,
    v: MonoView<C>,
    samples: Seq<u32>,
) -> MonoView<C>
    decreases samples.len(),
{
    if samples.len() == 0 {
        v
    } else {
        let before = processed(m, v, samples.drop_last());
        let next = pushed(before, samples.last());
        if due(before) {
            ran(m, next)
        } else {
            next
        }
    }
}

/// The recent samples are the last ones that came, in their order, and updates come every
/// hop.
pub proof fn recent_samples_are_the_newest<C>(
    m: ArithmeticView<C>,
    v: MonoView<C>,
    samples: Seq<u32>,
)
    requires
        v.fft_size > 0,
        v.recent.len() == v.fft_size,
        v.hop < HOP_SIZE,
    ensures
        processed(m, v, samples).recent == (v.recent + samples).skip(samples.len() as int),
        processed(m, v, samples).hop == (v.hop + samples.len()) % (HOP_SIZE as nat),
        processed(m, v, samples).fft_size == v.fft_size,
    decreases samples.len(),
{
    if samples.len() == 0 {
        assert((v.recent + samples).skip(0) =~= v.recent);
    } else {
        let rest = samples.drop_last();
        recent_samples_are_the_newest(m, v, rest);
        let before = processed(m, v, rest);
        assert(shifted(before.recent, samples.last()) =~= (v.recent + samples).skip(
            samples.len() as int,
        ));
    }
}

/// What is shown are the smoothed levels, after every update.
pub proof fn shown_levels_are_smoothed<C>(m: ArithmeticView<C>, v: MonoView<C>)
    requires
        v.ready,
    ensures
        ran(m, v).spectrum.bins == ran(m, v).smoothed,
        ran(m, v).spectrum.bins.len() == v.smoothed.len(),
{
}

/// A sample moves the recent ones on: the oldest is dropped and the new one comes last.
/// Nothing but the samples and the count of the hop changes, and before a rate is known
/// nothing at all.
pub proof fn sample_moves_the_others_on<C>(v: MonoView<C>, sample: u32, i: int)
    requires
        v.recent.len() == v.fft_size,
        v.hop < 2048,
    ensures
        v.fft_size == 0 ==> pushed(v, sample) == v && !due(v),
        v.fft_size > 0 ==> {
            let after = pushed(v, sample);
            &&& after.recent.len() == v.fft_size
            &&& after.recent.last() == sample
            &&& 0 <= i < v.fft_size - 1 ==> after.recent[i] == v.recent[i + 1]
            &&& due(v) <==> v.hop == 2047
            &&& after.hop == (v.hop + 1) % 2048
            &&& after == (MonoView { recent: after.recent, hop: after.hop, ..v })
        },
{
}

/// An update shows, for every bin, its old level moved towards what the bin hears in the
/// transform of the recent samples: by two fifths if that is louder, by four fifths if not.
/// Without kernels nothing is shown, and nothing but the levels changes.
pub proof fn update_shows_what_is_heard<C>(
    m: ArithmeticView<C>,
    v: MonoView<C>,
    q: int,
    target: u32,
)
    requires
        v.kernels.len() == v.smoothed.len(),
        target == clamped(
            (m.level)(
                dot_product(m, (m.transform)(v.recent), v.kernels[q]),
                v.fft_size as usize,
            ),
            DB_FLOOR,
            DB_CEIL,
        ),
    ensures
        !v.ready ==> ran(m, v) == v,
        v.ready ==> {
            let after = ran(m, v);
            &&& after.smoothed.len() == v.smoothed.len()
            &&& after.spectrum.bins == after.smoothed
            &&& 0 <= q < v.kernels.len() && below(v.smoothed[q], target) ==> after.spectrum.bins[q] == (m.smooth)(
                v.smoothed[q],
                target,
                0x3ECC_CCCD,
            )
            &&& 0 <= q < v.kernels.len() && !below(v.smoothed[q], target) ==> after.spectrum.bins[q] == (m.smooth)(
                v.smoothed[q],
                target,
                0x3F4C_CCCD,
            )
            &&& after == (MonoView {
                spectrum: MonoSpectrumView { bins: after.spectrum.bins, ..v.spectrum },
                smoothed: after.smoothed,
                ..v
            })
        },
{
}

/// Setting a rate starts over from silence, with the least power of two that holds the longest
/// window as the size, levels at the floor, and a kernel for every bin. What is shown stays,
/// but for its rate.
pub proof fn reset_starts_from_silence<C>(
    k: KernelArithmeticView<C>,
    v: MonoView<C>,
    sample_rate: u32,
    max_window: nat,
    i: int,
    q: int,
)
    requires
        v.smoothed.len() == v.spectrum.center_freqs.len(),
        0 <= i < power_at_least(max_window),
    ensures
        ({
            let after = reset_to(k, v, sample_rate, max_window);
            let size = power_at_least(max_window);
            &&& after.fft_size == size
            &&& after.recent.len() == size
            &&& after.recent[i] == 0
            &&& after.hop == 0
            &&& after.ready
            &&& after.smoothed.len() == v.smoothed.len()
            &&& 0 <= q < v.smoothed.len() ==> after.smoothed[q] == 0xC2B4_0000u32
            &&& after.kernels.len() == v.spectrum.center_freqs.len()
            &&& 0 <= q < v.smoothed.len() ==> after.kernels[q] == kernel_of(
                k,
                v.spectrum.center_freqs[q],
                size as usize,
            )
            &&& after.spectrum == (MonoSpectrumView { sample_rate, ..v.spectrum })
        }),
{
}

} // verus!
