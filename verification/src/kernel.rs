//! Sparse kernels: what each bin takes from the transform of the signal.

use vstd::prelude::*;

use crate::arithmetic::{Arithmetic, ArithmeticView, KernelArithmetic, KernelArithmeticView};
use crate::level::{at_most, below, clamp, clamped, greatest, greatest_is_an_upper_bound};
use crate::level::{is_below, ZERO};
use crate::spectrum::{DB_CEIL, DB_FLOOR};

verus! {

/// The lines of a transform that a bin listens to, each with its weight.
pub struct SparseKernel<C> {
    pub entries: Vec<(usize, C)>,
}

impl<C> View for SparseKernel<C> {
    type V = Seq<(usize, C)>;

    open spec fn view(&self) -> Seq<(usize, C)> {
        self.entries@
    }
}

/// The entries of each kernel.
pub open spec fn entries_of<C>(kernels: Seq<SparseKernel<C>>) -> Seq<Seq<(usize, C)>> {
    Seq::new(kernels.len(), |q: int| kernels[q]@)
}

/// The length of the window for a frequency, where at most `fft_size` samples are at hand.
pub open spec fn window_for<C>(m: KernelArithmeticView<C>, freq: u32, fft_size: usize) -> usize {
    if (m.window_len)(freq) < fft_size {
        (m.window_len)(freq)
    } else {
        fft_size
    }
}

/// The windowed tone of a frequency at the end of `fft_size` samples, where the newest
/// samples are; silence before it.
pub open spec fn time_kernel_of<C>(
    m: KernelArithmeticView<C>,
    freq: u32,
    fft_size: usize,
) -> Seq<C> {
    let len = window_for(m, freq, fft_size);
    let offset = fft_size - len;
    Seq::new(
        fft_size as nat,
        |i: int|
            if i < offset {
                m.zero
            } else {
                (m.tone)(freq, (i - offset) as usize, len)
            },
    )
}

/// The absolute values of the lines of a transform.
pub open spec fn norms<C>(m: KernelArithmeticView<C>, lines: Seq<C>) -> Seq<u32> {
    Seq::new(lines.len(), |k: int| (m.norm)(lines[k]))
}

/// What a line must exceed to count.
pub open spec fn threshold_for<C>(m: KernelArithmeticView<C>, lines: Seq<C>) -> u32 {
    (m.threshold)(greatest(ZERO, norms(m, lines)))
}

/// Those of the first `count` lines that exceed `threshold`, each with its place and
/// conjugated, in the order of the lines.
pub open spec fn significant<C>(
    m: KernelArithmeticView<C>,
    lines: Seq<C>,
    threshold: u32,
    count: nat,
) -> Seq<(usize, C)>
    decreases count,
{
    if count == 0 {
        seq![]
    } else {
        let k = (count - 1) as nat;
        let before = significant(m, lines, threshold, k);
        if below(threshold, (m.norm)(lines[k as int])) {
            before.push((k as usize, (m.conjugate)(lines[k as int])))
        } else {
            before
        }
    }
}

/// The kernel for a frequency.
pub open spec fn kernel_of<C>(
    m: KernelArithmeticView<C>,
    freq: u32,
    fft_size: usize,
) -> Seq<(usize, C)> {
    let lines = (m.transform)(time_kernel_of(m, freq, fft_size));
    significant(m, lines, threshold_for(m, lines), lines.len())
}

/// The kernels for a row of frequencies.
pub open spec fn kernels_of<C>(
    m: KernelArithmeticView<C>,
    center_freqs: Seq<u32>,
    fft_size: usize,
) -> Seq<Seq<(usize, C)>> {
    Seq::new(center_freqs.len(), |q: int| kernel_of(m, center_freqs[q], fft_size))
}

/// There is a kernel for each of `num_bins` bins, and none looks beyond `fft_size` lines.
pub open spec fn kernels_fit<C>(
    kernels: Seq<Seq<(usize, C)>>,
    num_bins: nat,
    fft_size: nat,
) -> bool {
    &&& kernels.len() == num_bins
    &&& forall|q: int, e: int|
        0 <= q < kernels.len() && 0 <= e < kernels[q].len() ==> (#[trigger] kernels[q][e]).0
            < fft_size
}

/// Makes the time-domain kernel for a frequency.
fn time_kernel<C, WindowLen, Tone, Transform, Norm, Threshold, Conjugate>(
    math: &KernelArithmetic<C, WindowLen, Tone, Transform, Norm, Threshold, Conjugate>,
    freq: u32,
    fft_size: usize,
) -> (samples: Vec<C>) where
    C: Copy,
    WindowLen: Fn(u32) -> usize,
    Tone: Fn(u32, usize, usize) -> C,
    Transform: Fn(Vec<C>) -> Vec<C>,
    Norm: Fn(C) -> u32,
    Threshold: Fn(u32) -> u32,
    Conjugate: Fn(C) -> C,

    requires
        math.wf(),
    ensures
        samples@ == time_kernel_of(math@, freq, fft_size),
{
    let wanted: usize = math.window_len_of(freq);
    let window_len: usize = if wanted < fft_size {
        wanted
    } else {
        fft_size
    };
    let offset: usize = fft_size - window_len;
    let mut samples: Vec<C> = Vec::new();
    let mut i: usize = 0;
    while i < offset
        invariant
            i <= offset,
            samples@ == Seq::new(i as nat, |j: int| math.zero),
        decreases offset - i,
    {
        samples.push(math.zero);
        i = i + 1;
        assert(samples@ =~= Seq::new(i as nat, |j: int| math.zero));
    }
    let mut n: usize = 0;
    while n < window_len
        invariant
            n <= window_len,
            offset + window_len == fft_size,
            window_len == window_for(math@, freq, fft_size),
            math.wf(),
            samples@ == time_kernel_of(math@, freq, fft_size).take(offset + n),
        decreases window_len - n,
    {
        samples.push(math.tone_at(freq, n, window_len));
        n = n + 1;
        assert(samples@ =~= time_kernel_of(math@, freq, fft_size).take(offset + n));
    }
    assert(samples@ =~= time_kernel_of(math@, freq, fft_size));
    samples
}

/// Keeps the lines of a transform that count.
fn sparsify<C, WindowLen, Tone, Transform, Norm, Threshold, Conjugate>(
    math: &KernelArithmetic<C, WindowLen, Tone, Transform, Norm, Threshold, Conjugate>,
    lines: &Vec<C>,
) -> (kernel: SparseKernel<C>) where
    C: Copy,
    WindowLen: Fn(u32) -> usize,
    Tone: Fn(u32, usize, usize) -> C,
    Transform: Fn(Vec<C>) -> Vec<C>,
    Norm: Fn(C) -> u32,
    Threshold: Fn(u32) -> u32,
    Conjugate: Fn(C) -> C,

    requires
        math.wf(),
    ensures
        kernel@ == significant(
            math@,
            lines@,
            threshold_for(math@, lines@),
            lines@.len(),
        ),
{
    let mut largest: u32 = ZERO;
    let mut k: usize = 0;
    while k < lines.len()
        invariant
            k <= lines.len(),
            math.wf(),
            largest == greatest(ZERO, norms(math@, lines@).take(k as int)),
        decreases lines.len() - k,
    {
        let norm: u32 = math.norm_of(lines[k]);
        assert(norms(math@, lines@).take(k + 1).drop_last() =~= norms(math@, lines@).take(
            k as int,
        ));
        if is_below(largest, norm) {
            largest = norm;
        }
        k = k + 1;
    }
    assert(norms(math@, lines@).take(k as int) =~= norms(math@, lines@));
    let threshold: u32 = math.threshold_of(largest);
    let mut entries: Vec<(usize, C)> = Vec::new();
    let mut j: usize = 0;
    while j < lines.len()
        invariant
            j <= lines.len(),
            math.wf(),
            entries@ == significant(math@, lines@, threshold, j as nat),
        decreases lines.len() - j,
    {
        if is_below(threshold, math.norm_of(lines[j])) {
            entries.push((j, math.conjugate_of(lines[j])));
        }
        j = j + 1;
    }
    SparseKernel { entries }
}

/// Makes the kernels for a row of frequencies.
pub fn generate_kernels<C, WindowLen, Tone, Transform, Norm, Threshold, Conjugate>(
    center_freqs: &[u32],
    fft_size: usize,
    math: &KernelArithmetic<C, WindowLen, Tone, Transform, Norm, Threshold, Conjugate>,
) -> (kernels: Vec<SparseKernel<C>>) where
    C: Copy,
    WindowLen: Fn(u32) -> usize,
    Tone: Fn(u32, usize, usize) -> C,
    Transform: Fn(Vec<C>) -> Vec<C>,
    Norm: Fn(C) -> u32,
    Threshold: Fn(u32) -> u32,
    Conjugate: Fn(C) -> C,

    requires
        math.wf(),
    ensures
        entries_of(kernels@) == kernels_of(math@, center_freqs@, fft_size),
        kernels_fit(entries_of(kernels@), center_freqs@.len(), fft_size as nat),
{
    let mut kernels: Vec<SparseKernel<C>> = Vec::new();
    let mut q: usize = 0;
    while q < center_freqs.len()
        invariant
            q <= center_freqs.len(),
            math.wf(),
            kernels@.len() == q,
            forall|p: int|
                0 <= p < q ==> (#[trigger] kernels@[p])@ == kernel_of(
                    math@,
                    center_freqs@[p],
                    fft_size,
                ),
            forall|p: int, e: int|
                0 <= p < q && 0 <= e < kernels@[p]@.len() ==> (#[trigger] kernels@[p]@[e]).0
                    < fft_size,
        decreases center_freqs.len() - q,
    {
        let samples = time_kernel(math, center_freqs[q], fft_size);
        let lines = math.transform_of(samples);
        let kernel = sparsify(math, &lines);
        proof {
            significant_lines(math@, lines@, threshold_for(math@, lines@), lines@.len());
        }
        kernels.push(kernel);
        q = q + 1;
    }
    assert(entries_of(kernels@) =~= kernels_of(math@, center_freqs@, fft_size));
    kernels
}

/// Do the kernels fit `num_bins` bins and `fft_size` lines?
pub fn kernels_match<C>(kernels: &Vec<SparseKernel<C>>, num_bins: usize, fft_size: usize) -> (r:
    bool) where C: Copy
    ensures
        r == kernels_fit(entries_of(kernels@), num_bins as nat, fft_size as nat),
{
    if kernels.len() != num_bins {
        return false;
    }
    let ghost all = entries_of(kernels@);
    let mut q: usize = 0;
    while q < kernels.len()
        invariant
            q <= kernels.len(),
            all == entries_of(kernels@),
            forall|p: int, e: int|
                0 <= p < q && 0 <= e < all[p].len() ==> (#[trigger] all[p][e]).0 < fft_size,
        decreases kernels.len() - q,
    {
        let entries = &kernels[q].entries;
        let mut i: usize = 0;
        while i < entries.len()
            invariant
                q < kernels.len(),
                all == entries_of(kernels@),
                entries@ == all[q as int],
                i <= entries.len(),
                forall|e: int| 0 <= e < i ==> (#[trigger] all[q as int][e]).0 < fft_size,
            decreases entries.len() - i,
        {
            if entries[i].0 >= fft_size {
                assert(all[q as int][i as int].0 >= fft_size);
                return false;
            }
            i = i + 1;
        }
        q = q + 1;
    }
    true
}

/// The sum over a kernel of each line it names, times its weight.
pub open spec fn dot_product<C>(
    m: ArithmeticView<C>,
    signal: Seq<C>,
    entries: Seq<(usize, C)>,
) -> C
    decreases entries.len(),
{
    if entries.len() == 0 {
        m.zero
    } else {
        (m.accumulate)(
            dot_product(m, signal, entries.drop_last()),
            signal[entries.last().0 as int],
            entries.last().1,
        )
    }
}

/// The level of a bin in the transform `signal` of `fft_size` samples.
pub open spec fn bin_level<C>(
    m: ArithmeticView<C>,
    signal: Seq<C>,
    entries: Seq<(usize, C)>,
    fft_size: usize,
) -> u32 {
    clamped((m.level)(dot_product(m, signal, entries), fft_size), DB_FLOOR, DB_CEIL)
}

/// How fast a level follows a louder or a quieter signal.
#[derive(Clone, Copy, PartialEq, Eq, Structural)]
pub struct Smoothing {
    pub up: u32,
    pub down: u32,
}

/// A level moved towards `db`.
pub open spec fn followed<C>(m: ArithmeticView<C>, from: u32, db: u32, speed: Smoothing) -> u32 {
    (m.smooth)(
        from,
        db,
        if below(from, db) {
            speed.up
        } else {
            speed.down
        },
    )
}

/// The levels after the transform `signal` was taken into account. Levels without a kernel
/// stay.
pub open spec fn applied<C>(
    m: ArithmeticView<C>,
    signal: Seq<C>,
    kernels: Seq<Seq<(usize, C)>>,
    levels: Seq<u32>,
    fft_size: usize,
    speed: Smoothing,
) -> Seq<u32> {
    Seq::new(
        levels.len(),
        |q: int|
            if q < kernels.len() {
                followed(m, levels[q], bin_level(m, signal, kernels[q], fft_size), speed)
            } else {
                levels[q]
            },
    )
}

/// Takes the transform `signal` into account in the levels.
pub fn apply_cqt<C, HalfSum, HalfDifference, Transform, Accumulate, Level, Smooth>(
    signal: &Vec<C>,
    kernels: &Vec<SparseKernel<C>>,
    smoothed: &mut Vec<u32>,
    fft_size: usize,
    speed: Smoothing,
    math: &Arithmetic<C, HalfSum, HalfDifference, Transform, Accumulate, Level, Smooth>,
) where
    C: Copy,
    HalfSum: Fn(u32, u32) -> u32,
    HalfDifference: Fn(u32, u32) -> u32,
    Transform: Fn(Vec<u32>) -> Vec<C>,
    Accumulate: Fn(C, C, C) -> C,
    Level: Fn(C, usize) -> u32,
    Smooth: Fn(u32, u32, u32) -> u32,

    requires
        math.wf(),
        kernels@.len() <= old(smoothed)@.len(),
        kernels_fit(entries_of(kernels@), kernels@.len(), signal@.len()),
    ensures
        final(smoothed)@ == applied(
            math@,
            signal@,
            entries_of(kernels@),
            old(smoothed)@,
            fft_size,
            speed,
        ),
{
    let ghost all = entries_of(kernels@);
    let ghost before = smoothed@;
    let mut q: usize = 0;
    while q < kernels.len()
        invariant
            q <= kernels.len(),
            kernels@.len() <= smoothed@.len(),
            smoothed@.len() == before.len(),
            math.wf(),
            all == entries_of(kernels@),
            kernels_fit(all, kernels@.len(), signal@.len()),
            forall|p: int|
                0 <= p < q ==> #[trigger] smoothed@[p] == followed(
                    math@,
                    before[p],
                    bin_level(math@, signal@, all[p], fft_size),
                    speed,
                ),
            forall|p: int| q <= p < smoothed@.len() ==> #[trigger] smoothed@[p] == before[p],
        decreases kernels.len() - q,
    {
        let entries = &kernels[q].entries;
        let mut sum: C = math.zero;
        let mut e: usize = 0;
        while e < entries.len()
            invariant
                e <= entries.len(),
                q < kernels.len(),
                math.wf(),
                all == entries_of(kernels@),
                kernels_fit(all, kernels@.len(), signal@.len()),
                entries@ == all[q as int],
                sum == dot_product(math@, signal@, entries@.take(e as int)),
            decreases entries.len() - e,
        {
            let (k, coeff) = entries[e];
            assert(all[q as int][e as int].0 < signal@.len());
            assert(entries@.take(e + 1).drop_last() =~= entries@.take(e as int));
            sum = math.accumulated(sum, signal[k], coeff);
            e = e + 1;
        }
        assert(entries@.take(e as int) =~= entries@);
        let db: u32 = clamp(math.level_of(sum, fft_size), DB_FLOOR, DB_CEIL);
        let from: u32 = smoothed[q];
        let alpha: u32 = if is_below(from, db) {
            speed.up
        } else {
            speed.down
        };
        smoothed.set(q, math.smoothed(from, db, alpha));
        q = q + 1;
    }
    assert(smoothed@ =~= applied(math@, signal@, all, before, fft_size, speed));
}

/// A kernel names lines in ascending order, each once, and among the first `count` lines
/// exactly those that exceed the threshold, with their conjugates as weights.
pub proof fn significant_lines<C>(
    m: KernelArithmeticView<C>,
    lines: Seq<C>,
    threshold: u32,
    count: nat,
)
    requires
        count <= lines.len(),
        lines.len() <= usize::MAX,
    ensures
        forall|e: int|
            0 <= e < significant(m, lines, threshold, count).len() ==> {
                let (k, weight) = #[trigger] significant(m, lines, threshold, count)[e];
                &&& k < count
                &&& below(threshold, (m.norm)(lines[k as int]))
                &&& weight == (m.conjugate)(lines[k as int])
            },
        forall|e: int, f: int|
            0 <= e < f < significant(m, lines, threshold, count).len() ==> (
            #[trigger] significant(m, lines, threshold, count)[e]).0 < (#[trigger] significant(
                m,
                lines,
                threshold,
                count,
            )[f]).0,
        forall|k: int|
            0 <= k < count && below(threshold, (m.norm)(#[trigger] lines[k])) ==> significant(
                m,
                lines,
                threshold,
                count,
            ).contains((k as usize, (m.conjugate)(lines[k]))),
    decreases count,
{
    if count > 0 {
        let last = (count - 1) as nat;
        significant_lines(m, lines, threshold, last);
        let before = significant(m, lines, threshold, last);
        let after = significant(m, lines, threshold, count);
        assert forall|k: int|
            0 <= k < count && below(threshold, (m.norm)(#[trigger] lines[k])) implies after.contains(
        (k as usize, (m.conjugate)(lines[k]))) by {
            let entry = (k as usize, (m.conjugate)(lines[k]));
            if k < last {
                let i = choose|i: int| 0 <= i < before.len() && before[i] == entry;
                assert(after[i] == entry);
            } else {
                assert(after[after.len() - 1] == entry);
            }
        }
    }
}

/// A bin listens to the newest samples and to no others: the last items of its time kernel,
/// as many as its window takes, are the windowed tone from its first sample to its last, and
/// every earlier item is zero.
pub proof fn kernel_hears_the_newest_samples<C>(
    m: KernelArithmeticView<C>,
    freq: u32,
    fft_size: usize,
    window: usize,
)
    requires
        window == (if (m.window_len)(freq) <= fft_size {
            (m.window_len)(freq)
        } else {
            fft_size
        }),
    ensures
        time_kernel_of(m, freq, fft_size).len() == fft_size,
        forall|n: int|
            0 <= n < window ==> #[trigger] time_kernel_of(m, freq, fft_size)[fft_size - window + n]
                == (m.tone)(freq, n as usize, window),
        forall|i: int|
            0 <= i < fft_size - window ==> #[trigger] time_kernel_of(m, freq, fft_size)[i]
                == m.zero,
{
}

/// `x` is zero or the absolute value of a line, and no absolute value is above it.
pub open spec fn largest_norm<C>(m: KernelArithmeticView<C>, lines: Seq<C>, x: u32) -> bool {
    &&& x == ZERO || exists|k: int| 0 <= k < lines.len() && x == (m.norm)(#[trigger] lines[k])
    &&& at_most(ZERO, x)
    &&& forall|k: int|
        0 <= k < lines.len() ==> !below(x, (m.norm)(#[trigger] lines[k]))
}

/// The kernel of a bin is made from the lines of its transformed time kernel: it holds exactly
/// those above the threshold that goes with the largest line, in ascending order, each with
/// its conjugate.
pub proof fn kernel_keeps_what_counts<C>(
    m: KernelArithmeticView<C>,
    freq: u32,
    fft_size: usize,
    lines: Seq<C>,
) -> (largest: u32)
    requires
        lines == (m.transform)(time_kernel_of(m, freq, fft_size)),
        lines.len() <= usize::MAX,
    ensures
        largest_norm(m, lines, largest),
        forall|e: int|
            0 <= e < kernel_of(m, freq, fft_size).len() ==> {
                let (k, weight) = #[trigger] kernel_of(m, freq, fft_size)[e];
                k < lines.len() && weight == (m.conjugate)(lines[k as int])
            },
        forall|e: int, f: int|
            0 <= e < f < kernel_of(m, freq, fft_size).len() ==> (#[trigger] kernel_of(
                m,
                freq,
                fft_size,
            )[e]).0 < (#[trigger] kernel_of(m, freq, fft_size)[f]).0,
        forall|k: int|
            0 <= k < lines.len() ==> (below(
                (m.threshold)(largest),
                (m.norm)(#[trigger] lines[k]),
            ) <==> kernel_of(m, freq, fft_size).contains(
                (k as usize, (m.conjugate)(lines[k])),
            )),
{
    let all = norms(m, lines);
    let largest = greatest(ZERO, all);
    let threshold = (m.threshold)(largest);
    let kernel = kernel_of(m, freq, fft_size);
    greatest_is_an_upper_bound(ZERO, all);
    significant_lines(m, lines, threshold, lines.len());
    if largest != ZERO {
        let k = choose|k: int| 0 <= k < all.len() && all[k] == largest;
        assert(largest == (m.norm)(lines[k]));
    }
    assert forall|k: int| 0 <= k < lines.len() implies !below(
        largest,
        (m.norm)(#[trigger] lines[k]),
    ) by {
        assert(all[k] == (m.norm)(lines[k]));
    }
    assert forall|k: int| 0 <= k < lines.len() implies (below(
        threshold,
        (m.norm)(#[trigger] lines[k]),
    ) <==> kernel.contains((k as usize, (m.conjugate)(lines[k])))) by {
        if kernel.contains((k as usize, (m.conjugate)(lines[k]))) {
            let e = choose|e: int|
                0 <= e < kernel.len() && kernel[e] == (k as usize, (m.conjugate)(lines[k]));
            assert(kernel[e].0 == k);
        }
    }
    largest
}

/// There is one kernel for each frequency, in the order of the frequencies, and it depends on
/// that frequency alone.
pub proof fn kernels_go_with_their_bins<C>(
    m: KernelArithmeticView<C>,
    freqs: Seq<u32>,
    other: Seq<u32>,
    fft_size: usize,
    q: int,
    p: int,
)
    requires
        0 <= q < freqs.len(),
        0 <= p < other.len(),
        freqs[q] == other[p],
    ensures
        kernels_of(m, freqs, fft_size).len() == freqs.len(),
        kernels_of(m, freqs, fft_size)[q] == kernels_of(m, other, fft_size)[p],
        kernels_of(m, freqs, fft_size)[q] == kernel_of(m, freqs[q], fft_size),
{
}

/// A sum over no entries is zero, and one more entry adds the product of its line and its
/// weight to the sum over the others.
pub proof fn entries_add_up<C>(
    m: ArithmeticView<C>,
    signal: Seq<C>,
    entries: Seq<(usize, C)>,
    line: usize,
    weight: C,
)
    requires
        line < signal.len(),
    ensures
        dot_product(m, signal, Seq::empty()) == m.zero,
        dot_product(m, signal, entries.push((line, weight))) == (m.accumulate)(
            dot_product(m, signal, entries),
            signal[line as int],
            weight,
        ),
{
    assert(entries.push((line, weight)).drop_last() =~= entries);
}

/// What a bin hears is the level of its sum, cut off at the floor and at the ceiling; it then
/// moves from its old level by the upward fraction if that is louder, and by the downward one
/// if not. Other bins, and other old levels, play no part.
pub proof fn bin_follows_its_own_sum<C>(
    m: ArithmeticView<C>,
    signal: Seq<C>,
    kernels: Seq<Seq<(usize, C)>>,
    levels: Seq<u32>,
    fft_size: usize,
    speed: Smoothing,
    q: int,
    target: u32,
)
    requires
        0 <= q < levels.len(),
        q < kernels.len(),
        ({
            let heard = (m.level)(dot_product(m, signal, kernels[q]), fft_size);
            &&& below(heard, DB_FLOOR) ==> target == DB_FLOOR
            &&& below(DB_CEIL, heard) ==> target == DB_CEIL
            &&& !below(heard, DB_FLOOR) && !below(DB_CEIL, heard) ==> target == heard
        }),
    ensures
        applied(m, signal, kernels, levels, fft_size, speed).len() == levels.len(),
        below(levels[q], target) ==> applied(m, signal, kernels, levels, fft_size, speed)[q]
            == (m.smooth)(levels[q], target, speed.up),
        !below(levels[q], target) ==> applied(m, signal, kernels, levels, fft_size, speed)[q]
            == (m.smooth)(levels[q], target, speed.down),
{
}

/// A level without a kernel stays.
pub proof fn levels_without_kernels_stay<C>(
    m: ArithmeticView<C>,
    signal: Seq<C>,
    kernels: Seq<Seq<(usize, C)>>,
    levels: Seq<u32>,
    fft_size: usize,
    speed: Smoothing,
    q: int,
)
    requires
        kernels.len() <= q < levels.len(),
    ensures
        applied(m, signal, kernels, levels, fft_size, speed)[q] == levels[q],
{
}

/// Kernels fit exactly when there are as many as bins and every line that one names exists.
pub proof fn fitting_kernels_name_lines_that_exist<C>(
    kernels: Seq<Seq<(usize, C)>>,
    num_bins: nat,
    fft_size: nat,
    q: int,
    e: int,
)
    requires
        kernels_fit(kernels, num_bins, fft_size),
        0 <= q < kernels.len(),
        0 <= e < kernels[q].len(),
    ensures
        kernels.len() == num_bins,
        kernels[q][e].0 < fft_size,
{
}

/// As many kernels as bins, none of which names a line that does not exist, fit.
pub proof fn kernels_that_name_lines_fit<C>(
    kernels: Seq<Seq<(usize, C)>>,
    num_bins: nat,
    fft_size: nat,
)
    requires
        kernels.len() == num_bins,
        forall|q: int, e: int|
            0 <= q < kernels.len() && 0 <= e < kernels[q].len() ==> (#[trigger] kernels[q][e]).0
                < fft_size,
    ensures
        kernels_fit(kernels, num_bins, fft_size),
{
}

/// The entries of each kernel are its own, in its place.
pub proof fn entries_go_with_their_kernels<C>(kernels: Seq<SparseKernel<C>>, q: int)
    requires
        0 <= q < kernels.len(),
    ensures
        entries_of(kernels).len() == kernels.len(),
        entries_of(kernels)[q] == kernels[q].entries@,
{
}

} // verus!
