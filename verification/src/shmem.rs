//! Writing a spectrum to a shared region, and reading one from it.

use vstd::prelude::*;
use vstd::utf8::encode_utf8;

use crate::arithmetic::{functional1, image1};
use crate::region::{bytes_make_the_word, read_u32, region_of, total_size, word_after_write};
use crate::region::{shm_total_size, size_fits, word_at, words_at, write_u32};
use crate::region::{RegionView, AT_DATA_VERSION, AT_LAYOUT_VERSION, AT_MAGIC, AT_MODE};
use crate::region::{AT_NAME, AT_NAME_LEN, AT_NUM_BINS, AT_SAMPLE_RATE, SHM_HEADER_SIZE};
use crate::region::{SHM_MAGIC, SHM_NAME_MAX, SHM_VERSION};
use crate::spectrum::{centers_of, cqt_center_frequencies, overwritten, pick_bin};
use crate::spectrum::{SpectrumData, SpectrumSource, SpectrumView, MODE_BOTH};
use crate::text::{decimal_chars, decimal_is_digits, labelled, labels_are_distinct};

verus! {

/// The name of the shared object of an instance.
pub open spec fn object_name(id: u32) -> Seq<char> {
    "/truce-analyzer-"@ + decimal_chars(id as nat)
}

/// The name of the shared object of an instance.
pub fn shm_name_for_id(id: u32) -> (name: String)
    ensures
        name@ == object_name(id),
{
    labelled("/truce-analyzer-", id)
}

/// How many of `count` bytes of a name are kept.
pub open spec fn kept_name_len(count: nat) -> nat {
    if count < SHM_NAME_MAX {
        count
    } else {
        SHM_NAME_MAX as nat
    }
}

/// The name's place with the leading bytes of `name` in front of what `rest` has behind them.
pub open spec fn name_over(name: Seq<u8>, rest: Seq<u8>) -> Seq<u8> {
    Seq::new(
        SHM_NAME_MAX as nat,
        |i: int|
            if i < name.len() {
                name[i]
            } else {
                rest[i]
            },
    )
}

/// A new region, made out of one with the fields `before`.
pub open spec fn created(before: RegionView, name: Seq<u8>, num_bins: usize) -> RegionView {
    RegionView {
        magic: SHM_MAGIC,
        layout_version: SHM_VERSION,
        num_bins: num_bins as u32,
        mode: 0,
        data_version: 0,
        name_len: kept_name_len(name.len()) as u32,
        name: name_over(name, before.name),
        ..before
    }
}

/// A region after a spectrum was written to it.
pub open spec fn updated(before: RegionView, spectrum: SpectrumView) -> RegionView {
    RegionView {
        sample_rate: spectrum.sample_rate,
        mode: spectrum.mode as u32,
        data_version: spectrum.version,
        bins_a: spectrum.bins_a.take(before.bins_a.len() as int),
        bins_b: spectrum.bins_b.take(before.bins_b.len() as int),
        ..before
    }
}

/// A region after a name was written to it.
pub open spec fn renamed(before: RegionView, name: Seq<u8>) -> RegionView {
    RegionView {
        name_len: kept_name_len(name.len()) as u32,
        name: name_over(name, Seq::new(SHM_NAME_MAX as nat, |i: int| 0u8)),
        ..before
    }
}

/// What a writer holds.
#[verifier::ext_equal]
pub struct WriterView {
    pub fields: RegionView,
    pub num_bins: nat,
    pub shm_name: Seq<char>,
}

/// The side that owns the region and writes to it.
pub struct SharedMemoryWriter {
    bytes: Vec<u8>,
    num_bins: usize,
    shm_name: String,
}

impl View for SharedMemoryWriter {
    type V = WriterView;

    closed spec fn view(&self) -> WriterView {
        WriterView {
            fields: region_of(self.bytes@, self.num_bins as nat),
            num_bins: self.num_bins as nat,
            shm_name: self.shm_name@,
        }
    }
}

/// The primary or the secondary levels of a spectrum.
pub open spec fn row(spectrum: SpectrumView, secondary: bool) -> Seq<u32> {
    if secondary {
        spectrum.bins_b
    } else {
        spectrum.bins_a
    }
}

/// Writes the leading `count` levels of a row of `spectrum` from `offset` on.
fn write_row(
    bytes: &mut Vec<u8>,
    offset: usize,
    count: usize,
    spectrum: &SpectrumData,
    secondary: bool,
)
    requires
        offset + 4 * count <= old(bytes).len(),
        count <= row(spectrum@, secondary).len(),
    ensures
        final(bytes)@.len() == old(bytes)@.len(),
        words_at(final(bytes)@, offset as int, count as nat) == row(spectrum@, secondary).take(
            count as int,
        ),
        forall|i: int|
            0 <= i < old(bytes)@.len() && !(offset <= i < offset + 4 * count)
                ==> #[trigger] final(bytes)@[i] == old(bytes)@[i],
{
    let mut i: usize = 0;
    while i < count
        invariant
            i <= count,
            count <= row(spectrum@, secondary).len(),
            offset + 4 * count <= bytes.len(),
            bytes@.len() == old(bytes)@.len(),
            forall|j: int|
                0 <= j < i ==> #[trigger] word_at(bytes@, offset + 4 * j) == row(
                    spectrum@,
                    secondary,
                )[j],
            forall|j: int|
                0 <= j < bytes@.len() && !(offset <= j < offset + 4 * count)
                    ==> #[trigger] bytes@[j] == old(bytes)@[j],
        decreases count - i,
    {
        let ghost before = bytes@;
        let level: u32 = if secondary {
            spectrum.read_bin_b_bits(i)
        } else {
            spectrum.read_bin_bits(i)
        };
        write_u32(bytes, offset + i * 4, level);
        proof {
            assert forall|j: int| 0 <= j < i + 1 implies #[trigger] word_at(
                bytes@,
                offset + 4 * j,
            ) == row(spectrum@, secondary)[j] by {
                word_after_write(before, offset + 4 * i, level, offset + 4 * j);
            }
        }
        i = i + 1;
    }
    assert(words_at(bytes@, offset as int, count as nat) =~= row(spectrum@, secondary).take(
        count as int,
    ));
}

/// Copies the leading `count` bytes of `name` to `offset`.
fn write_name(bytes: &mut Vec<u8>, offset: usize, count: usize, name: &[u8])
    requires
        offset + count <= old(bytes).len(),
        count <= name@.len(),
    ensures
        final(bytes)@.len() == old(bytes)@.len(),
        forall|i: int|
            0 <= i < old(bytes)@.len() ==> #[trigger] final(bytes)@[i] == (if offset <= i < offset
                + count {
                name@[i - offset]
            } else {
                old(bytes)@[i]
            }),
{
    let mut i: usize = 0;
    while i < count
        invariant
            i <= count,
            count <= name@.len(),
            offset + count <= bytes.len(),
            bytes@.len() == old(bytes)@.len(),
            forall|j: int|
                0 <= j < bytes@.len() ==> #[trigger] bytes@[j] == (if offset <= j < offset + i {
                    name@[j - offset]
                } else {
                    old(bytes)@[j]
                }),
        decreases count - i,
    {
        bytes.set(offset + i, name[i]);
        i = i + 1;
    }
}

/// Sets `count` bytes from `offset` on to zero.
fn write_zeros(bytes: &mut Vec<u8>, offset: usize, count: usize)
    requires
        offset + count <= old(bytes).len(),
    ensures
        final(bytes)@.len() == old(bytes)@.len(),
        forall|i: int|
            0 <= i < old(bytes)@.len() ==> #[trigger] final(bytes)@[i] == (if offset <= i < offset
                + count {
                0u8
            } else {
                old(bytes)@[i]
            }),
{
    let mut i: usize = 0;
    while i < count
        invariant
            i <= count,
            offset + count <= bytes.len(),
            bytes@.len() == old(bytes)@.len(),
            forall|j: int|
                0 <= j < bytes@.len() ==> #[trigger] bytes@[j] == (if offset <= j < offset + i {
                    0u8
                } else {
                    old(bytes)@[j]
                }),
        decreases count - i,
    {
        bytes.set(offset + i, 0);
        i = i + 1;
    }
}

impl SharedMemoryWriter {
    /// The region is as long as its bins need.
    pub closed spec fn sized(&self) -> bool {
        &&& self.bytes@.len() == total_size(self.num_bins as nat)
        &&& total_size(self.num_bins as nat) <= usize::MAX
    }

    /// The region has a level in both rows for each of its bins.
    pub open spec fn wf(&self) -> bool {
        &&& self.sized()
        &&& self@.fields.bins_a.len() == self@.num_bins
        &&& self@.fields.bins_b.len() == self@.num_bins
        &&& self@.fields.name.len() == SHM_NAME_MAX
    }

    /// Sets up the region of an instance, if the system granted one. What the region held
    /// in the places that are not set up stays.
    pub fn create(
        instance_id: u32,
        name: &str,
        num_bins: usize,
        region: Option<Vec<u8>>,
    ) -> (writer: Option<Self>)
        requires
            total_size(num_bins as nat) <= usize::MAX,
            region matches Some(bytes) ==> bytes@.len() == total_size(num_bins as nat),
        ensures
            writer is Some <==> region is Some,
            writer matches Some(w) ==> {
                &&& w.wf()
                &&& w@ == (WriterView {
                    fields: created(
                        region_of(region->0@, num_bins as nat),
                        encode_utf8(name@),
                        num_bins,
                    ),
                    num_bins: num_bins as nat,
                    shm_name: object_name(instance_id),
                })
            },
    {
        let mut bytes: Vec<u8> = match region {
            Some(bytes) => bytes,
            None => {
                return None;
            },
        };
        let ghost before = bytes@;
        write_u32(&mut bytes, AT_MAGIC, SHM_MAGIC);
        write_u32(&mut bytes, AT_LAYOUT_VERSION, SHM_VERSION);
        write_u32(&mut bytes, AT_NUM_BINS, low_word(num_bins));
        write_u32(&mut bytes, AT_MODE, 0);
        write_u32(&mut bytes, AT_DATA_VERSION, 0);
        let name_bytes = name.as_bytes();
        let name_len: usize = if name_bytes.len() < SHM_NAME_MAX {
            name_bytes.len()
        } else {
            SHM_NAME_MAX
        };
        write_u32(&mut bytes, AT_NAME_LEN, name_len as u32);
        write_name(&mut bytes, AT_NAME, name_len, name_bytes);
        proof {
            let n = num_bins as nat;
            let after = bytes@;
            let wanted = created(region_of(before, n), encode_utf8(name@), num_bins);
            bytes_make_the_word(SHM_MAGIC);
            bytes_make_the_word(SHM_VERSION);
            bytes_make_the_word(num_bins as u32);
            bytes_make_the_word(0);
            bytes_make_the_word(name_len as u32);
            assert(region_of(after, n).name =~= wanted.name);
            assert(region_of(after, n).bins_a =~= wanted.bins_a);
            assert(region_of(after, n).bins_b =~= wanted.bins_b);
        }
        Some(SharedMemoryWriter { bytes, num_bins, shm_name: shm_name_for_id(instance_id) })
    }

    /// Writes a spectrum to the region.
    pub fn update(&mut self, spectrum: &SpectrumData)
        requires
            old(self).wf(),
            old(self)@.num_bins <= spectrum@.bins_a.len(),
            old(self)@.num_bins <= spectrum@.bins_b.len(),
        ensures
            final(self).wf(),
            final(self)@ == (WriterView { fields: updated(old(self)@.fields, spectrum@), ..old(self)@ }),
    {
        let ghost before = self.bytes@;
        write_u32(&mut self.bytes, AT_SAMPLE_RATE, spectrum.sample_rate_bits());
        write_u32(&mut self.bytes, AT_MODE, spectrum.mode() as u32);
        write_u32(&mut self.bytes, AT_DATA_VERSION, spectrum.version());
        write_row(&mut self.bytes, SHM_HEADER_SIZE, self.num_bins, spectrum, false);
        let ghost half = self.bytes@;
        write_row(
            &mut self.bytes,
            SHM_HEADER_SIZE + self.num_bins * 4,
            self.num_bins,
            spectrum,
            true,
        );
        proof {
            let n = self.num_bins as nat;
            let after = self.bytes@;
            let wanted = updated(region_of(before, n), spectrum@);
            bytes_make_the_word(spectrum@.sample_rate);
            bytes_make_the_word(spectrum@.mode as u32);
            bytes_make_the_word(spectrum@.version);
            assert(region_of(after, n).name =~= wanted.name);
            assert(words_at(after, SHM_HEADER_SIZE as int, n) =~= words_at(
                half,
                SHM_HEADER_SIZE as int,
                n,
            ));
            assert(region_of(after, n).bins_a =~= wanted.bins_a);
            assert(region_of(after, n).bins_b =~= wanted.bins_b);
        }
    }

    /// Writes a name to the region. Bytes beyond its place are cut off.
    pub fn update_name(&mut self, name: &str)
        requires
            old(self).wf(),
        ensures
            final(self).wf(),
            final(self)@ == (WriterView { fields: renamed(old(self)@.fields, encode_utf8(name@)), ..old(self)@ }),
    {
        let ghost before = self.bytes@;
        let name_bytes = name.as_bytes();
        let name_len: usize = if name_bytes.len() < SHM_NAME_MAX {
            name_bytes.len()
        } else {
            SHM_NAME_MAX
        };
        write_u32(&mut self.bytes, AT_NAME_LEN, name_len as u32);
        write_zeros(&mut self.bytes, AT_NAME, SHM_NAME_MAX);
        write_name(&mut self.bytes, AT_NAME, name_len, name_bytes);
        proof {
            let n = self.num_bins as nat;
            let after = self.bytes@;
            let wanted = renamed(region_of(before, n), encode_utf8(name@));
            bytes_make_the_word(name_len as u32);
            assert(region_of(after, n).name =~= wanted.name);
            assert(region_of(after, n).bins_a =~= wanted.bins_a);
            assert(region_of(after, n).bins_b =~= wanted.bins_b);
        }
    }

    /// The bytes of the region.
    pub fn region(&self) -> (bytes: &[u8])
        requires
            self.wf(),
        ensures
            bytes@.len() == total_size(self@.num_bins),
            region_of(bytes@, self@.num_bins) == self@.fields,
    {
        self.bytes.as_slice()
    }

    /// The number of bins that the region has room for.
    pub fn num_bins(&self) -> (n: usize)
        ensures
            n == self@.num_bins,
    {
        self.num_bins
    }

    /// The name of the shared object, which goes with the writer.
    pub fn shm_name(&self) -> (name: &str)
        ensures
            name@ == self@.shm_name,
    {
        self.shm_name.as_str()
    }
}

/// `n` as a word, without what a word has no room for.
#[verifier::truncate]
fn low_word(n: usize) -> (word: u32)
    ensures
        word == n as u32,
{
    n as u32
}

/// The number of bins that a header announces.
pub open spec fn announced_bins(header: Seq<u8>) -> u32 {
    word_at(header, AT_NUM_BINS as int)
}

/// The number of bins that a header announces.
pub fn read_announced_bins(header: &Vec<u8>) -> (num_bins: u32)
    requires
        header@.len() >= SHM_HEADER_SIZE,
    ensures
        num_bins == announced_bins(header@),
{
    read_u32(header, AT_NUM_BINS)
}

/// Is a region as long as its header announces?
pub fn is_whole(bytes: &Vec<u8>) -> (whole: bool)
    ensures
        whole == (bytes@.len() >= SHM_HEADER_SIZE && bytes@.len() == total_size(
            announced_bins(bytes@) as nat,
        )),
{
    if bytes.len() < SHM_HEADER_SIZE {
        return false;
    }
    let num_bins: u32 = read_u32(bytes, AT_NUM_BINS);
    size_fits(num_bins) && bytes.len() == shm_total_size(num_bins as usize)
}

/// What a reader holds.
#[verifier::ext_equal]
pub struct ReaderView {
    pub bytes: Seq<u8>,
    pub num_bins: nat,
    pub center_freqs: Seq<u32>,
}

impl ReaderView {
    /// The fields of the region.
    pub open spec fn fields(self) -> RegionView {
        region_of(self.bytes, self.num_bins)
    }
}

/// The side that reads a region that another process owns.
pub struct SharedMemorySpectrum {
    bytes: Vec<u8>,
    num_bins: usize,
    center_freqs: Vec<u32>,
}

impl View for SharedMemorySpectrum {
    type V = ReaderView;

    closed spec fn view(&self) -> ReaderView {
        ReaderView {
            bytes: self.bytes@,
            num_bins: self.num_bins as nat,
            center_freqs: self.center_freqs@,
        }
    }
}

/// Opens a region that was mapped, if the system granted it and it bears the mark.
/// `center` gives the center frequency of a bin.
pub fn open_shared_spectrum<Center: Fn(usize) -> u32>(
    region: Option<Vec<u8>>,
    center: Center,
) -> (spectrum: Option<SharedMemorySpectrum>)
    requires
        functional1(center),
        region matches Some(bytes) ==> {
            &&& bytes@.len() >= SHM_HEADER_SIZE
            &&& word_at(bytes@, AT_MAGIC as int) == SHM_MAGIC ==> bytes@.len() == total_size(
                announced_bins(bytes@) as nat,
            )
        },
    ensures
        spectrum is Some <==> region is Some && word_at(region->0@, AT_MAGIC as int) == SHM_MAGIC,
        spectrum matches Some(s) ==> {
            &&& s.wf()
            &&& s@ == (ReaderView {
                bytes: region->0@,
                num_bins: announced_bins(region->0@) as nat,
                center_freqs: centers_of(
                    |k: usize| image1(center, k),
                    announced_bins(region->0@) as nat,
                ),
            })
        },
{
    let bytes: Vec<u8> = match region {
        Some(bytes) => bytes,
        None => {
            return None;
        },
    };
    if read_u32(&bytes, AT_MAGIC) != SHM_MAGIC {
        return None;
    }
    assert(bytes.len() <= usize::MAX);
    let num_bins: usize = read_u32(&bytes, AT_NUM_BINS) as usize;
    let center_freqs = cqt_center_frequencies(num_bins, &center);
    Some(SharedMemorySpectrum { bytes, num_bins, center_freqs })
}

impl SharedMemorySpectrum {
    /// The region is as long as its bins need, and every bin has a center frequency.
    pub open spec fn wf(&self) -> bool {
        &&& self@.bytes.len() == total_size(self@.num_bins)
        &&& total_size(self@.num_bins) <= usize::MAX
        &&& self@.center_freqs.len() == self@.num_bins
    }

    fn read_bin_at(&self, base_offset: usize, index: usize) -> (level: u32)
        requires
            base_offset + 4 * index + 4 <= self@.bytes.len(),
            self.wf(),
        ensures
            level == word_at(self@.bytes, base_offset + 4 * index),
    {
        read_u32(&self.bytes, base_offset + index * 4)
    }

    /// Reads levels from `base` on, as many as there are bins and `out` has room for.
    fn read_row(&self, base: usize, out: &mut [u32])
        requires
            self.wf(),
            base + 4 * self@.num_bins <= self@.bytes.len(),
        ensures
            final(out)@ == overwritten(
                old(out)@,
                words_at(self@.bytes, base as int, self@.num_bins),
            ),
    {
        let count: usize = if self.num_bins < out.len() {
            self.num_bins
        } else {
            out.len()
        };
        let mut i: usize = 0;
        while i < count
            invariant
                i <= count,
                count <= self@.num_bins,
                count <= out.len(),
                self.wf(),
                base + 4 * self@.num_bins <= self@.bytes.len(),
                out.len() == old(out).len(),
                forall|j: int|
                    0 <= j < i ==> #[trigger] out@[j] == word_at(self@.bytes, base + 4 * j),
                forall|j: int| i <= j < out.len() ==> #[trigger] out@[j] == old(out)@[j],
            decreases count - i,
        {
            out[i] = self.read_bin_at(base, i);
            i = i + 1;
        }
        assert(out@ =~= overwritten(
            old(out)@,
            words_at(self@.bytes, base as int, self@.num_bins),
        ));
    }
}

impl SpectrumSource for SharedMemorySpectrum {
    open spec fn source_wf(&self) -> bool {
        self.wf()
    }

    open spec fn levels_a(&self) -> Seq<u32> {
        self@.fields().bins_a
    }

    open spec fn levels_b(&self) -> Seq<u32> {
        self@.fields().bins_b
    }

    open spec fn centers(&self) -> Seq<u32> {
        self@.center_freqs
    }

    open spec fn source_mode(&self) -> u8 {
        (self@.fields().mode % 0x100) as u8
    }

    open spec fn source_version(&self) -> u32 {
        self@.fields().data_version
    }

    fn num_bins(&self) -> (n: usize) {
        self.num_bins
    }

    fn center_freq(&self, bin: usize) -> (freq: u32) {
        self.center_freqs[bin]
    }

    fn center_freqs_slice(&self) -> (freqs: &[u32]) {
        self.center_freqs.as_slice()
    }

    fn read_all(&self, out: &mut [u32]) {
        self.read_row(SHM_HEADER_SIZE, out);
    }

    fn read_all_b(&self, out: &mut [u32]) {
        self.read_row(SHM_HEADER_SIZE + self.num_bins * 4, out);
    }

    fn mode(&self) -> (mode: u8) {
        (read_u32(&self.bytes, AT_MODE) % 0x100) as u8
    }

    fn version(&self) -> (version: u32) {
        read_u32(&self.bytes, AT_DATA_VERSION)
    }

    fn is_both(&self) -> (both: bool) {
        self.mode() == MODE_BOTH
    }

    fn nearest_bin(&self, freq: u32, position: usize) -> (bin: usize) {
        pick_bin(self.num_bins, freq, position)
    }
}

/// A reader of a region gives back the spectrum that was written to it last.
pub proof fn reader_gives_back_what_was_written(
    reader: SharedMemorySpectrum,
    before: RegionView,
    spectrum: SpectrumView,
)
    requires
        reader@.num_bins == spectrum.bins_a.len(),
        spectrum.bins_b.len() == spectrum.bins_a.len(),
        before.bins_a.len() == reader@.num_bins,
        before.bins_b.len() == reader@.num_bins,
        reader@.fields() == updated(before, spectrum),
    ensures
        reader.levels_a() == spectrum.bins_a,
        reader.levels_b() == spectrum.bins_b,
        reader.source_mode() == spectrum.mode,
        reader.source_version() == spectrum.version,
        reader@.fields().sample_rate == spectrum.sample_rate,
{
    assert(spectrum.bins_a.take(before.bins_a.len() as int) =~= spectrum.bins_a);
    assert(spectrum.bins_b.take(before.bins_b.len() as int) =~= spectrum.bins_b);
}

/// A region that was set up and then written to is opened with its bins, and holds the
/// spectrum that was written.
pub proof fn open_after_update(
    bytes: Seq<u8>,
    before: RegionView,
    name: Seq<u8>,
    num_bins: usize,
    spectrum: SpectrumView,
)
    requires
        num_bins <= u32::MAX,
        before.bins_a.len() == num_bins,
        before.bins_b.len() == num_bins,
        spectrum.bins_a.len() == num_bins,
        spectrum.bins_b.len() == num_bins,
        region_of(bytes, num_bins as nat) == updated(created(before, name, num_bins), spectrum),
    ensures
        word_at(bytes, AT_MAGIC as int) == SHM_MAGIC,
        announced_bins(bytes) == num_bins,
        region_of(bytes, announced_bins(bytes) as nat).bins_a == spectrum.bins_a,
        region_of(bytes, announced_bins(bytes) as nat).bins_b == spectrum.bins_b,
        region_of(bytes, announced_bins(bytes) as nat).mode == spectrum.mode,
        region_of(bytes, announced_bins(bytes) as nat).data_version == spectrum.version,
{
    let fields = region_of(bytes, num_bins as nat);
    assert(fields.magic == SHM_MAGIC);
    assert(fields.num_bins == num_bins as u32);
    assert(spectrum.bins_a.take(num_bins as int) =~= spectrum.bins_a);
    assert(spectrum.bins_b.take(num_bins as int) =~= spectrum.bins_b);
}

/// A region that was set up can be opened, with the number of bins that it was set up for,
/// and neither an update nor a new name changes that.
pub proof fn region_stays_open(
    before: RegionView,
    name: Seq<u8>,
    num_bins: usize,
    fields: RegionView,
    spectrum: SpectrumView,
)
    requires
        num_bins <= u32::MAX,
    ensures
        created(before, name, num_bins).magic == SHM_MAGIC,
        created(before, name, num_bins).num_bins == num_bins,
        updated(fields, spectrum).magic == fields.magic,
        updated(fields, spectrum).num_bins == fields.num_bins,
        renamed(fields, name).magic == fields.magic,
        renamed(fields, name).num_bins == fields.num_bins,
{
}

/// An update leaves the name alone and a new name leaves the spectrum alone, so the two can
/// be done in either order.
pub proof fn update_and_rename_commute(fields: RegionView, spectrum: SpectrumView, name: Seq<u8>)
    ensures
        updated(fields, spectrum).name == fields.name,
        updated(fields, spectrum).name_len == fields.name_len,
        renamed(fields, name).bins_a == fields.bins_a,
        renamed(fields, name).bins_b == fields.bins_b,
        renamed(updated(fields, spectrum), name) == updated(renamed(fields, name), spectrum),
{
}

/// A name that fits is kept whole, and the rest of its place is zero.
pub proof fn short_name_is_kept(fields: RegionView, name: Seq<u8>)
    requires
        name.len() <= SHM_NAME_MAX,
    ensures
        renamed(fields, name).name_len == name.len(),
        renamed(fields, name).name.take(name.len() as int) == name,
        forall|i: int|
            name.len() <= i < SHM_NAME_MAX ==> #[trigger] renamed(fields, name).name[i] == 0,
{
    assert(renamed(fields, name).name.take(name.len() as int) =~= name);
}

/// The last of several updates is the one that counts.
pub proof fn last_update_counts(fields: RegionView, first: SpectrumView, second: SpectrumView)
    requires
        fields.bins_a.len() <= first.bins_a.len(),
        fields.bins_b.len() <= first.bins_b.len(),
    ensures
        updated(updated(fields, first), second) == updated(fields, second),
{
}

/// Different instances have different shared objects.
pub proof fn object_names_differ(a: u32, b: u32)
    requires
        a != b,
    ensures
        object_name(a) != object_name(b),
{
    if object_name(a) == object_name(b) {
        labels_are_distinct("/truce-analyzer-"@, a as nat, b as nat);
    }
}

/// The name of a shared object has no NUL in it, and is short enough for every system.
pub proof fn object_name_is_sound(id: u32)
    ensures
        forall|i: int|
            0 <= i < object_name(id).len() ==> #[trigger] object_name(id)[i] != '\0',
        object_name(id).len() <= 26,
{
    reveal_strlit("/truce-analyzer-");
    decimal_is_digits(id as nat);
}

/// A region that is set up bears the mark, the version of the layout, its number of bins, no
/// mode and no update, and the leading bytes of the name with their number. Everything else
/// stays as it was.
pub proof fn setting_up_writes_the_header(
    before: RegionView,
    name: Seq<u8>,
    num_bins: usize,
    i: int,
)
    requires
        0 <= i < 64,
        num_bins <= u32::MAX,
    ensures
        ({
            let after = created(before, name, num_bins);
            &&& after.magic == 0x5441_5A52u32
            &&& after.layout_version == 1
            &&& after.num_bins == num_bins
            &&& after.mode == 0
            &&& after.data_version == 0
            &&& name.len() <= 64 ==> after.name_len == name.len()
            &&& name.len() > 64 ==> after.name_len == 64
            &&& after.name.len() == 64
            &&& i < name.len() ==> after.name[i] == name[i]
            &&& i >= name.len() ==> after.name[i] == before.name[i]
            &&& after.sample_rate == before.sample_rate
            &&& after.reserved == before.reserved
            &&& after.bins_a == before.bins_a
            &&& after.bins_b == before.bins_b
        }),
{
}

/// An update writes the rate, the mode, the version and both rows of levels, bin by bin, the
/// primary row first; nothing else.
pub proof fn update_writes_the_spectrum(before: RegionView, spectrum: SpectrumView, k: int)
    requires
        before.bins_a.len() <= spectrum.bins_a.len(),
        before.bins_b.len() <= spectrum.bins_b.len(),
    ensures
        ({
            let after = updated(before, spectrum);
            &&& after.sample_rate == spectrum.sample_rate
            &&& after.mode == spectrum.mode
            &&& after.data_version == spectrum.version
            &&& after.bins_a.len() == before.bins_a.len()
            &&& after.bins_b.len() == before.bins_b.len()
            &&& 0 <= k < before.bins_a.len() ==> after.bins_a[k] == spectrum.bins_a[k]
            &&& 0 <= k < before.bins_b.len() ==> after.bins_b[k] == spectrum.bins_b[k]
            &&& after.magic == before.magic
            &&& after.layout_version == before.layout_version
            &&& after.num_bins == before.num_bins
            &&& after.name_len == before.name_len
            &&& after.name == before.name
            &&& after.reserved == before.reserved
        }),
{
}

/// A new name replaces the old one entirely: its leading bytes, at most 64, then zeros.
/// Nothing but the name and its length changes.
pub proof fn new_name_replaces_the_old(before: RegionView, name: Seq<u8>, i: int)
    requires
        0 <= i < 64,
    ensures
        ({
            let after = renamed(before, name);
            &&& after.name.len() == 64
            &&& i < name.len() ==> after.name[i] == name[i]
            &&& i >= name.len() ==> after.name[i] == 0
            &&& name.len() <= 64 ==> after.name_len == name.len()
            &&& name.len() > 64 ==> after.name_len == 64
            &&& after == (RegionView { name: after.name, name_len: after.name_len, ..before })
        }),
{
}

/// The number of bins that a header announces is its third word.
pub proof fn bins_are_announced_in_the_header(bytes: Seq<u8>)
    ensures
        announced_bins(bytes) == word_at(bytes, 8),
{
}

/// A reader reads the region word by word where a writer writes it: levels behind the header,
/// the secondary ones behind the primary ones, the mode in the low byte of its word.
pub proof fn reader_reads_the_region(reader: SharedMemorySpectrum, k: int)
    requires
        reader.wf(),
    ensures
        reader.levels_a().len() == reader@.num_bins,
        reader.levels_b().len() == reader@.num_bins,
        0 <= k < reader@.num_bins ==> reader.levels_a()[k] == word_at(reader@.bytes, 96 + 4 * k),
        0 <= k < reader@.num_bins ==> reader.levels_b()[k] == word_at(
            reader@.bytes,
            96 + 4 * reader@.num_bins + 4 * k,
        ),
        reader.source_mode() == word_at(reader@.bytes, 16) % 256,
        reader.source_version() == word_at(reader@.bytes, 20),
        reader.centers() == reader@.center_freqs,
{
}

/// An object is named by what all have in common, and the number of its instance in decimal.
pub proof fn objects_are_named_by_number(id: u32)
    ensures
        object_name(id) == "/truce-analyzer-"@ + decimal_chars(id as nat),
{
}

} // verus!
