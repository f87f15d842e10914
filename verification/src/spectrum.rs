//! The spectrum that an analyzer fills and a display reads.
//!
//! Levels (decibels), frequencies (hertz) and sample rates are held as the bit
//! patterns of single-precision numbers; see [`crate::level`].

use vstd::prelude::*;

use crate::arithmetic::{functional1, image1};
use crate::level::{at_most, is_at_most, is_nan, not_a_number, INFINITY};

verus! {

/// Bins per octave of the transform.
pub const BINS_PER_OCTAVE: usize = 96;

/// 27.5 Hz, the center of the lowest bin.
pub const CQT_F_MIN: u32 = 0x41DC_0000;

/// 20480 Hz, where the bins end.
pub const CQT_F_MAX: u32 = 0x46A0_0000;

/// -90 dB, the lowest level shown and the level of a silent bin.
pub const DB_FLOOR: u32 = 0xC2B4_0000;

/// 0 dB, the highest level shown.
pub const DB_CEIL: u32 = 0x0000_0000;

/// 20 Hz, the lowest frequency shown.
pub const FREQ_MIN: u32 = 0x41A0_0000;

/// 20000 Hz, the highest frequency shown.
pub const FREQ_MAX: u32 = 0x469C_4000;

/// 44100 Hz, the sample rate before one is set.
pub const INITIAL_SAMPLE_RATE: u32 = 0x472C_4400;

/// Analyze the mean of both channels.
pub const MODE_SUM: u8 = 0;

/// Analyze both channels, each for itself.
pub const MODE_BOTH: u8 = 1;

/// Analyze the left channel.
pub const MODE_LEFT: u8 = 2;

/// Analyze the right channel.
pub const MODE_RIGHT: u8 = 3;

/// Analyze half the difference of the channels.
pub const MODE_DIFF: u8 = 4;

/// What a spectrum holds.
#[verifier::ext_equal]
pub struct SpectrumView {
    pub bins_a: Seq<u32>,
    pub bins_b: Seq<u32>,
    pub center_freqs: Seq<u32>,
    pub sample_rate: u32,
    pub mode: u8,
    pub version: u32,
    pub has_remotes: bool,
}

/// `count` bins at the floor.
pub open spec fn silent(count: nat) -> Seq<u32> {
    Seq::new(count, |i: int| DB_FLOOR)
}

/// `out` with its leading items replaced by those of `source`, as far as both reach.
pub open spec fn overwritten(out: Seq<u32>, source: Seq<u32>) -> Seq<u32> {
    Seq::new(
        out.len(),
        |i: int|
            if i < source.len() {
                source[i]
            } else {
                out[i]
            },
    )
}

/// The bin for a frequency whose place on the scale of bins rounds to `position`. What is not
/// a number has the first bin, infinity the last.
pub open spec fn nearest_bin_of(num_bins: nat, freq: u32, position: nat) -> nat {
    if at_most(freq, CQT_F_MIN) || is_nan(freq) || num_bins == 0 {
        0
    } else if freq != INFINITY && position < num_bins {
        position
    } else {
        (num_bins - 1) as nat
    }
}

/// The version that follows `version`. It starts over at 0 after the last one.
pub open spec fn next_version(version: u32) -> u32 {
    if version == u32::MAX {
        0
    } else {
        (version + 1) as u32
    }
}

/// Copies the leading items of `source` over those of `out`, as far as both reach.
pub fn overwrite(source: &Vec<u32>, out: &mut [u32])
    ensures
        final(out)@ == overwritten(old(out)@, source@),
{
    let n: usize = if source.len() < out.len() {
        source.len()
    } else {
        out.len()
    };
    let mut i: usize = 0;
    while i < n
        invariant
            i <= n,
            n <= source.len(),
            n <= out.len(),
            n == source.len() || n == out.len(),
            out.len() == old(out).len(),
            forall|j: int| 0 <= j < i ==> out@[j] == source@[j],
            forall|j: int| i <= j < out.len() ==> out@[j] == old(out)@[j],
        decreases n - i,
    {
        out[i] = source[i];
        i = i + 1;
    }
    assert(out@ =~= overwritten(old(out)@, source@));
}

/// The center frequencies of `num_bins` bins.
pub open spec fn centers_of(center: spec_fn(usize) -> u32, num_bins: nat) -> Seq<u32> {
    Seq::new(num_bins, |k: int| center(k as usize))
}

/// The center frequencies of `num_bins` bins, where `center` gives that of a bin.
pub fn cqt_center_frequencies<Center: Fn(usize) -> u32>(num_bins: usize, center: &Center) -> (freqs:
    Vec<u32>)
    requires
        functional1(*center),
    ensures
        freqs@ == centers_of(|k: usize| image1(*center, k), num_bins as nat),
{
    let ghost of = |k: usize| image1(*center, k);
    let mut freqs: Vec<u32> = Vec::new();
    let mut k: usize = 0;
    while k < num_bins
        invariant
            k <= num_bins,
            functional1(*center),
            of == (|k: usize| image1(*center, k)),
            freqs@ == centers_of(of, k as nat),
        decreases num_bins - k,
    {
        freqs.push(center(k));
        k = k + 1;
        assert(freqs@ =~= centers_of(of, k as nat));
    }
    freqs
}

/// Picks the bin for a frequency, given where its logarithm puts it on the scale of bins.
pub fn pick_bin(num_bins: usize, freq: u32, position: usize) -> (bin: usize)
    ensures
        bin == nearest_bin_of(num_bins as nat, freq, position as nat),
{
    if is_at_most(freq, CQT_F_MIN) || not_a_number(freq) {
        return 0;
    }
    let last: usize = if num_bins == 0 {
        0
    } else {
        num_bins - 1
    };
    if freq != INFINITY && position < last {
        position
    } else {
        last
    }
}

/// `n` bins at the floor.
pub fn make_bins(n: usize) -> (bins: Vec<u32>)
    ensures
        bins@ == silent(n as nat),
{
    let mut bins: Vec<u32> = Vec::new();
    let mut i: usize = 0;
    while i < n
        invariant
            i <= n,
            bins@ == silent(i as nat),
        decreases n - i,
    {
        bins.push(DB_FLOOR);
        i = i + 1;
        assert(bins@ =~= silent(i as nat));
    }
    bins
}

/// A spectrum that can be read, held here or by another process.
pub trait SpectrumSource: Send + Sync {
    spec fn source_wf(&self) -> bool;

    spec fn levels_a(&self) -> Seq<u32>;

    spec fn levels_b(&self) -> Seq<u32>;

    spec fn centers(&self) -> Seq<u32>;

    spec fn source_mode(&self) -> u8;

    spec fn source_version(&self) -> u32;

    /// The number of bins.
    fn num_bins(&self) -> (n: usize)
        requires
            self.source_wf(),
        ensures
            n == self.levels_a().len(),
            n == self.levels_b().len(),
            n == self.centers().len(),
    ;

    /// The center frequency of a bin.
    fn center_freq(&self, bin: usize) -> (freq: u32)
        requires
            self.source_wf(),
            bin < self.centers().len(),
        ensures
            freq == self.centers()[bin as int],
    ;

    /// All center frequencies.
    fn center_freqs_slice(&self) -> (freqs: &[u32])
        requires
            self.source_wf(),
        ensures
            freqs@ == self.centers(),
    ;

    /// Reads the primary levels, as many as `out` has room for.
    fn read_all(&self, out: &mut [u32])
        requires
            self.source_wf(),
        ensures
            final(out)@ == overwritten(old(out)@, self.levels_a()),
    ;

    /// Reads the secondary levels, as many as `out` has room for.
    fn read_all_b(&self, out: &mut [u32])
        requires
            self.source_wf(),
        ensures
            final(out)@ == overwritten(old(out)@, self.levels_b()),
    ;

    /// The channel mode.
    fn mode(&self) -> (mode: u8)
        requires
            self.source_wf(),
        ensures
            mode == self.source_mode(),
    ;

    /// The number of the last update.
    fn version(&self) -> (version: u32)
        requires
            self.source_wf(),
        ensures
            version == self.source_version(),
    ;

    /// Does the secondary spectrum count?
    fn is_both(&self) -> (both: bool)
        requires
            self.source_wf(),
        ensures
            both == (self.source_mode() == MODE_BOTH),
    ;

    /// The bin for a frequency whose place on the scale of bins rounds to `position`.
    fn nearest_bin(&self, freq: u32, position: usize) -> (bin: usize)
        requires
            self.source_wf(),
        ensures
            bin == nearest_bin_of(self.levels_a().len(), freq, position as nat),
    ;
}

/// A spectrum: two rows of levels over one row of center frequencies.
pub struct SpectrumData {
    bins_a: Vec<u32>,
    bins_b: Vec<u32>,
    center_freqs: Vec<u32>,
    sample_rate: u32,
    mode: u8,
    version: u32,
    has_remotes: bool,
}

impl View for SpectrumData {
    type V = SpectrumView;

    closed spec fn view(&self) -> SpectrumView {
        SpectrumView {
            bins_a: self.bins_a@,
            bins_b: self.bins_b@,
            center_freqs: self.center_freqs@,
            sample_rate: self.sample_rate,
            mode: self.mode,
            version: self.version,
            has_remotes: self.has_remotes,
        }
    }
}

impl SpectrumData {
    /// Every bin has a level in both rows and a center frequency, and bins can be counted.
    pub open spec fn wf(&self) -> bool {
        &&& self@.bins_a.len() == self@.center_freqs.len()
        &&& self@.bins_b.len() == self@.center_freqs.len()
        &&& self@.center_freqs.len() <= usize::MAX
    }

    /// A silent spectrum over the given center frequencies.
    pub fn new(center_freqs: Vec<u32>) -> (spectrum: Self)
        ensures
            spectrum.wf(),
            spectrum@ == (SpectrumView {
                bins_a: silent(center_freqs@.len()),
                bins_b: silent(center_freqs@.len()),
                center_freqs: center_freqs@,
                sample_rate: INITIAL_SAMPLE_RATE,
                mode: MODE_SUM,
                version: 0,
                has_remotes: false,
            }),
    {
        let n: usize = center_freqs.len();
        SpectrumData {
            bins_a: make_bins(n),
            bins_b: make_bins(n),
            center_freqs,
            sample_rate: INITIAL_SAMPLE_RATE,
            mode: MODE_SUM,
            version: 0,
            has_remotes: false,
        }
    }

    /// The number of bins.
    pub fn num_bins(&self) -> (n: usize)
        ensures
            n == self@.center_freqs.len(),
    {
        self.center_freqs.len()
    }

    /// The center frequency of a bin.
    pub fn center_freq(&self, bin: usize) -> (freq: u32)
        requires
            bin < self@.center_freqs.len(),
        ensures
            freq == self@.center_freqs[bin as int],
    {
        self.center_freqs[bin]
    }

    /// All center frequencies.
    pub fn center_freqs_slice(&self) -> (freqs: &[u32])
        ensures
            freqs@ == self@.center_freqs,
    {
        self.center_freqs.as_slice()
    }

    /// Sets a primary level.
    pub fn write_bin(&mut self, index: usize, db: u32)
        requires
            index < old(self)@.bins_a.len(),
        ensures
            final(self)@ == (SpectrumView {
                bins_a: old(self)@.bins_a.update(index as int, db),
                ..old(self)@
            }),
    {
        self.bins_a.set(index, db);
    }

    /// The primary level of a bin.
    pub fn read_bin(&self, index: usize) -> (db: u32)
        requires
            index < self@.bins_a.len(),
        ensures
            db == self@.bins_a[index as int],
    {
        self.bins_a[index]
    }

    /// Sets a secondary level.
    pub fn write_bin_b(&mut self, index: usize, db: u32)
        requires
            index < old(self)@.bins_b.len(),
        ensures
            final(self)@ == (SpectrumView {
                bins_b: old(self)@.bins_b.update(index as int, db),
                ..old(self)@
            }),
    {
        self.bins_b.set(index, db);
    }

    /// The secondary level of a bin.
    pub fn read_bin_b(&self, index: usize) -> (db: u32)
        requires
            index < self@.bins_b.len(),
        ensures
            db == self@.bins_b[index as int],
    {
        self.bins_b[index]
    }

    /// Sets the sample rate.
    pub fn set_sample_rate(&mut self, sr: u32)
        ensures
            final(self)@ == (SpectrumView { sample_rate: sr, ..old(self)@ }),
    {
        self.sample_rate = sr;
    }

    /// The sample rate.
    pub fn sample_rate_bits(&self) -> (sr: u32)
        ensures
            sr == self@.sample_rate,
    {
        self.sample_rate
    }

    /// The primary level of a bin, for the shared region.
    pub fn read_bin_bits(&self, index: usize) -> (bits: u32)
        requires
            index < self@.bins_a.len(),
        ensures
            bits == self@.bins_a[index as int],
    {
        self.bins_a[index]
    }

    /// The secondary level of a bin, for the shared region.
    pub fn read_bin_b_bits(&self, index: usize) -> (bits: u32)
        requires
            index < self@.bins_b.len(),
        ensures
            bits == self@.bins_b[index as int],
    {
        self.bins_b[index]
    }

    /// Reads the primary levels, as many as `out` has room for.
    pub fn read_all(&self, out: &mut [u32])
        ensures
            final(out)@ == overwritten(old(out)@, self@.bins_a),
    {
        overwrite(&self.bins_a, out);
    }

    /// Reads the secondary levels, as many as `out` has room for.
    pub fn read_all_b(&self, out: &mut [u32])
        ensures
            final(out)@ == overwritten(old(out)@, self@.bins_b),
    {
        overwrite(&self.bins_b, out);
    }

    /// Sets the channel mode.
    pub fn set_mode(&mut self, mode: u8)
        ensures
            final(self)@ == (SpectrumView { mode, ..old(self)@ }),
    {
        self.mode = mode;
    }

    /// The channel mode.
    pub fn mode(&self) -> (mode: u8)
        ensures
            mode == self@.mode,
    {
        self.mode
    }

    /// Does the secondary row count?
    pub fn is_both(&self) -> (both: bool)
        ensures
            both == (self@.mode == MODE_BOTH),
    {
        self.mode == MODE_BOTH
    }

    /// Says whether other instances are being compared with this one.
    pub fn set_has_remotes(&mut self, v: bool)
        ensures
            final(self)@ == (SpectrumView { has_remotes: v, ..old(self)@ }),
    {
        self.has_remotes = v;
    }

    /// Are other instances being compared with this one?
    pub fn has_remotes(&self) -> (v: bool)
        ensures
            v == self@.has_remotes,
    {
        self.has_remotes
    }

    /// The number of the last update.
    pub fn version(&self) -> (version: u32)
        ensures
            version == self@.version,
    {
        self.version
    }

    /// Sets the number of the last update, in a copy of another spectrum.
    pub fn set_version(&mut self, version: u32)
        ensures
            final(self)@ == (SpectrumView { version, ..old(self)@ }),
    {
        self.version = version;
    }

    /// Counts an update.
    pub fn bump_version(&mut self)
        ensures
            final(self)@ == (SpectrumView {
                version: next_version(old(self)@.version),
                ..old(self)@
            }),
    {
        self.version = self.version.wrapping_add(1);
    }

    /// The bin for a frequency whose place on the scale of bins rounds to `position`.
    pub fn nearest_bin(&self, freq: u32, position: usize) -> (bin: usize)
        ensures
            bin == nearest_bin_of(self@.center_freqs.len(), freq, position as nat),
    {
        pick_bin(self.num_bins(), freq, position)
    }
}

impl SpectrumSource for SpectrumData {
    open spec fn source_wf(&self) -> bool {
        self.wf()
    }

    open spec fn levels_a(&self) -> Seq<u32> {
        self@.bins_a
    }

    open spec fn levels_b(&self) -> Seq<u32> {
        self@.bins_b
    }

    open spec fn centers(&self) -> Seq<u32> {
        self@.center_freqs
    }

    open spec fn source_mode(&self) -> u8 {
        self@.mode
    }

    open spec fn source_version(&self) -> u32 {
        self@.version
    }

    fn num_bins(&self) -> (n: usize) {
        self.num_bins()
    }

    fn center_freq(&self, bin: usize) -> (freq: u32) {
        self.center_freq(bin)
    }

    fn center_freqs_slice(&self) -> (freqs: &[u32]) {
        self.center_freqs_slice()
    }

    fn read_all(&self, out: &mut [u32]) {
        self.read_all(out);
    }

    fn read_all_b(&self, out: &mut [u32]) {
        self.read_all_b(out);
    }

    fn mode(&self) -> (mode: u8) {
        self.mode()
    }

    fn version(&self) -> (version: u32) {
        self.version()
    }

    fn is_both(&self) -> (both: bool) {
        self.is_both()
    }

    fn nearest_bin(&self, freq: u32, position: usize) -> (bin: usize) {
        self.nearest_bin(freq, position)
    }
}

/// Every update gets another version, so a reader that remembers one sees the next.
pub proof fn versions_differ(version: u32)
    ensures
        next_version(version) != version,
{
}

/// With at least one bin, the bin for a frequency exists, whatever the frequency. It is the
/// first one up to the lowest center and for what is not a number, and the last for infinity.
pub proof fn nearest_bin_exists(num_bins: nat, freq: u32, position: nat)
    requires
        num_bins > 0,
    ensures
        nearest_bin_of(num_bins, freq, position) < num_bins,
        at_most(freq, CQT_F_MIN) || is_nan(freq) ==> nearest_bin_of(num_bins, freq, position) == 0,
        freq == INFINITY ==> nearest_bin_of(num_bins, freq, position) == num_bins - 1,
{
}

/// How far bin `k` is from the place `x` on a scale where bins are `unit` apart.
pub open spec fn distance(x: int, unit: int, k: int) -> int {
    if x <= unit * k {
        unit * k - x
    } else {
        x - unit * k
    }
}

/// Where `x` is the place of a frequency on a scale with bin `k` at `unit * k`, and `position`
/// is the place rounded to a bin, no bin is nearer than the one that is picked.
pub proof fn nearest_bin_is_nearest(
    num_bins: nat,
    freq: u32,
    position: nat,
    x: int,
    unit: int,
    k: nat,
)
    requires
        unit > 0,
        k < num_bins,
        !is_nan(freq),
        freq != INFINITY,
        at_most(freq, CQT_F_MIN) ==> x <= 0,
        !at_most(freq, CQT_F_MIN) ==> forall|j: nat|
            distance(x, unit, position as int) <= #[trigger] distance(x, unit, j as int),
    ensures
        distance(x, unit, nearest_bin_of(num_bins, freq, position) as int) <= distance(
            x,
            unit,
            k as int,
        ),
{
    let bin = nearest_bin_of(num_bins, freq, position);
    if at_most(freq, CQT_F_MIN) {
        assert(unit * k >= 0) by (nonlinear_arith)
            requires
                unit > 0,
                k >= 0,
        ;
    } else if position < num_bins {
        assert(distance(x, unit, position as int) <= distance(x, unit, k as int));
    } else {
        assert(distance(x, unit, position as int) <= distance(x, unit, bin as int));
        assert(distance(x, unit, position as int) <= distance(x, unit, k as int));
        assert(unit * k <= unit * bin && unit * bin < unit * position) by (nonlinear_arith)
            requires
                unit > 0,
                k <= bin,
                bin < position,
        ;
    }
}

/// A frequency that rounds to a bin has that bin; the center of every bin is such a frequency
/// where rounding is exact there.
pub proof fn center_has_its_bin(num_bins: nat, freq: u32, k: nat)
    requires
        k < num_bins,
        at_most(freq, CQT_F_MIN) <==> k == 0,
        !is_nan(freq),
        freq != INFINITY,
    ensures
        nearest_bin_of(num_bins, freq, k) == k,
{
}

/// A buffer with room for exactly one row holds that row after it was read.
pub proof fn overwriting_a_full_buffer(out: Seq<u32>, source: Seq<u32>)
    requires
        out.len() == source.len(),
    ensures
        overwritten(out, source) == source,
{
    assert(overwritten(out, source) =~= source);
}

/// Reading fills a buffer from its start, as far as both reach, and leaves its rest alone.
pub proof fn reading_fills_from_the_start(out: Seq<u32>, source: Seq<u32>, i: int)
    requires
        0 <= i < out.len(),
    ensures
        overwritten(out, source).len() == out.len(),
        i < source.len() ==> overwritten(out, source)[i] == source[i],
        i >= source.len() ==> overwritten(out, source)[i] == out[i],
{
}

/// Versions count up by one, and start over at 0 after the last.
pub proof fn versions_count_up(version: u32)
    ensures
        next_version(version) == (version + 1) % 0x1_0000_0000,
{
}

/// A silent row has a level for every bin, and each is -90 dB.
pub proof fn silence_is_the_floor(count: nat, i: int)
    requires
        0 <= i < count,
    ensures
        silent(count).len() == count,
        silent(count)[i] == 0xC2B4_0000u32,
{
}

/// Every bin has the center frequency of its place.
pub proof fn centers_go_with_their_bins(center: spec_fn(usize) -> u32, num_bins: nat, k: usize)
    requires
        k < num_bins,
    ensures
        centers_of(center, num_bins).len() == num_bins,
        centers_of(center, num_bins)[k as int] == center(k),
{
}

/// A place among the bins is the bin, from the lowest center on; a place beyond them is the
/// last bin.
pub proof fn places_are_bins(num_bins: nat, freq: u32, position: nat)
    requires
        num_bins > 0,
        !at_most(freq, CQT_F_MIN),
        !is_nan(freq),
        freq != INFINITY,
    ensures
        position < num_bins ==> nearest_bin_of(num_bins, freq, position) == position,
        position >= num_bins ==> nearest_bin_of(num_bins, freq, position) == num_bins - 1,
{
}

/// As a source, a spectrum shows its own rows, centers, mode and version.
pub proof fn spectrum_shows_itself(spectrum: SpectrumData)
    ensures
        spectrum.levels_a() == spectrum@.bins_a,
        spectrum.levels_b() == spectrum@.bins_b,
        spectrum.centers() == spectrum@.center_freqs,
        spectrum.source_mode() == spectrum@.mode,
        spectrum.source_version() == spectrum@.version,
{
}

} // verus!
