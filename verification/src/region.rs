//! The layout of the shared region through which one process shows its spectrum to others.
//!
//! A header of words and a name is followed by the primary levels and the secondary
//! levels, one word each. Words are little-endian.

use vstd::prelude::*;

verus! {

/// Marks a region as one of ours.
pub const SHM_MAGIC: u32 = 0x5441_5A52;

/// The version of the layout.
pub const SHM_VERSION: u32 = 1;

/// The bytes set aside for the name.
pub const SHM_NAME_MAX: usize = 64;

/// The bytes before the levels.
pub const SHM_HEADER_SIZE: usize = 96;

/// Where the mark is.
pub const AT_MAGIC: usize = 0;

/// Where the version of the layout is.
pub const AT_LAYOUT_VERSION: usize = 4;

/// Where the number of bins is.
pub const AT_NUM_BINS: usize = 8;

/// Where the sample rate is.
pub const AT_SAMPLE_RATE: usize = 12;

/// Where the channel mode is.
pub const AT_MODE: usize = 16;

/// Where the number of the last update is.
pub const AT_DATA_VERSION: usize = 20;

/// Where the length of the name is.
pub const AT_NAME_LEN: usize = 24;

/// Where the name is.
pub const AT_NAME: usize = 28;

/// Where the unused word of the header is.
pub const AT_RESERVED: usize = 92;

/// The bytes of a region for `num_bins` bins.
pub open spec fn total_size(num_bins: nat) -> nat {
    SHM_HEADER_SIZE as nat + 8 * num_bins
}

/// The bytes of a region for `num_bins` bins.
pub fn shm_total_size(num_bins: usize) -> (size: usize)
    requires
        total_size(num_bins as nat) <= usize::MAX,
    ensures
        size == total_size(num_bins as nat),
{
    SHM_HEADER_SIZE + num_bins * 4 * 2
}

/// Can a region for `num_bins` bins be addressed?
pub fn size_fits(num_bins: u32) -> (fits: bool)
    ensures
        fits == (total_size(num_bins as nat) <= usize::MAX),
{
    num_bins as usize <= (usize::MAX - SHM_HEADER_SIZE) / 8
}

/// The byte of `value` at place `i`, the least significant one first.
pub open spec fn byte_of(value: u32, i: int) -> u8 {
    if i == 0 {
        (value % 0x100) as u8
    } else if i == 1 {
        (value / 0x100 % 0x100) as u8
    } else if i == 2 {
        (value / 0x1_0000 % 0x100) as u8
    } else {
        (value / 0x100_0000) as u8
    }
}

/// The word that starts at `offset`.
pub open spec fn word_at(bytes: Seq<u8>, offset: int) -> u32 {
    (bytes[offset] + 0x100 * bytes[offset + 1] + 0x1_0000 * bytes[offset + 2] + 0x100_0000
        * bytes[offset + 3]) as u32
}

/// `count` words in a row, the first of which starts at `offset`.
pub open spec fn words_at(bytes: Seq<u8>, offset: int, count: nat) -> Seq<u32> {
    Seq::new(count, |i: int| word_at(bytes, offset + 4 * i))
}

/// `bytes` with `value` written at `offset`.
pub open spec fn with_word(bytes: Seq<u8>, offset: int, value: u32) -> Seq<u8> {
    Seq::new(
        bytes.len(),
        |i: int|
            if offset <= i < offset + 4 {
                byte_of(value, i - offset)
            } else {
                bytes[i]
            },
    )
}

/// What a region holds, field by field.
#[verifier::ext_equal]
pub struct RegionView {
    pub magic: u32,
    pub layout_version: u32,
    pub num_bins: u32,
    pub sample_rate: u32,
    pub mode: u32,
    pub data_version: u32,
    pub name_len: u32,
    pub name: Seq<u8>,
    pub reserved: u32,
    pub bins_a: Seq<u32>,
    pub bins_b: Seq<u32>,
}

/// The fields of a region that was laid out for `n` bins.
pub open spec fn region_of(bytes: Seq<u8>, n: nat) -> RegionView {
    RegionView {
        magic: word_at(bytes, AT_MAGIC as int),
        layout_version: word_at(bytes, AT_LAYOUT_VERSION as int),
        num_bins: word_at(bytes, AT_NUM_BINS as int),
        sample_rate: word_at(bytes, AT_SAMPLE_RATE as int),
        mode: word_at(bytes, AT_MODE as int),
        data_version: word_at(bytes, AT_DATA_VERSION as int),
        name_len: word_at(bytes, AT_NAME_LEN as int),
        name: bytes.subrange(AT_NAME as int, AT_NAME + SHM_NAME_MAX),
        reserved: word_at(bytes, AT_RESERVED as int),
        bins_a: words_at(bytes, SHM_HEADER_SIZE as int, n),
        bins_b: words_at(bytes, SHM_HEADER_SIZE + 4 * n, n),
    }
}

/// The word that starts at `offset`.
pub(crate) fn read_u32(bytes: &Vec<u8>, offset: usize) -> (value: u32)
    requires
        offset + 4 <= bytes.len(),
    ensures
        value == word_at(bytes@, offset as int),
{
    let b0: u32 = bytes[offset] as u32;
    let b1: u32 = bytes[offset + 1] as u32;
    let b2: u32 = bytes[offset + 2] as u32;
    let b3: u32 = bytes[offset + 3] as u32;
    b0 + 0x100 * b1 + 0x1_0000 * b2 + 0x100_0000 * b3
}

/// Writes a word at `offset`.
pub(crate) fn write_u32(bytes: &mut Vec<u8>, offset: usize, value: u32)
    requires
        offset + 4 <= old(bytes).len(),
    ensures
        final(bytes)@ == with_word(old(bytes)@, offset as int, value),
{
    bytes.set(offset, (value % 0x100) as u8);
    bytes.set(offset + 1, (value / 0x100 % 0x100) as u8);
    bytes.set(offset + 2, (value / 0x1_0000 % 0x100) as u8);
    bytes.set(offset + 3, (value / 0x100_0000) as u8);
    assert(bytes@ =~= with_word(old(bytes)@, offset as int, value));
}

/// The four bytes of a word make up the word.
pub proof fn bytes_make_the_word(value: u32)
    ensures
        byte_of(value, 0) + 0x100 * byte_of(value, 1) + 0x1_0000 * byte_of(value, 2) + 0x100_0000
            * byte_of(value, 3) == value,
{
}

/// A word that was written is read back, and no word beside it changes.
pub proof fn word_after_write(bytes: Seq<u8>, offset: int, value: u32, other: int)
    requires
        0 <= offset,
        offset + 4 <= bytes.len(),
        0 <= other,
        other + 4 <= bytes.len(),
    ensures
        word_at(with_word(bytes, offset, value), offset) == value,
        other + 4 <= offset || offset + 4 <= other ==> word_at(
            with_word(bytes, offset, value),
            other,
        ) == word_at(bytes, other),
{
    bytes_make_the_word(value);
}

/// The bytes of a word, by division and remainder.
#[verifier::spinoff_prover]
proof fn bytes_by_division(b0: int, b1: int, b2: int, b3: int)
    requires
        0 <= b0 < 0x100,
        0 <= b1 < 0x100,
        0 <= b2 < 0x100,
        0 <= b3 < 0x100,
    ensures
        ({
            let word = b0 + 0x100 * b1 + 0x1_0000 * b2 + 0x100_0000 * b3;
            &&& 0 <= word <= u32::MAX
            &&& b0 == word % 0x100
            &&& b1 == word / 0x100 % 0x100
            &&& b2 == word / 0x100 / 0x100 % 0x100
            &&& b3 == word / 0x100 / 0x100 / 0x100
        }),
{
    let upper2 = b2 + 0x100 * b3;
    let upper1 = b1 + 0x100 * upper2;
    let word = b0 + 0x100 * upper1;
    assert(word % 0x100 == b0);
    assert(word / 0x100 == upper1);
    assert(upper1 % 0x100 == b1);
    assert(upper1 / 0x100 == upper2);
    assert(upper2 % 0x100 == b2);
    assert(upper2 / 0x100 == b3);
}

/// Four bytes can be told from their word.
#[verifier::spinoff_prover]
pub proof fn word_determines_bytes(a: Seq<u8>, b: Seq<u8>, offset: int)
    requires
        word_at(a, offset) == word_at(b, offset),
    ensures
        a[offset] == b[offset],
        a[offset + 1] == b[offset + 1],
        a[offset + 2] == b[offset + 2],
        a[offset + 3] == b[offset + 3],
{
    bytes_by_division(
        a[offset] as int,
        a[offset + 1] as int,
        a[offset + 2] as int,
        a[offset + 3] as int,
    );
    bytes_by_division(
        b[offset] as int,
        b[offset + 1] as int,
        b[offset + 2] as int,
        b[offset + 3] as int,
    );
}

/// The fields cover the region: two regions with the same fields are the same byte for byte.
pub proof fn fields_determine_region(a: Seq<u8>, b: Seq<u8>, n: nat)
    requires
        a.len() == total_size(n),
        b.len() == total_size(n),
        region_of(a, n) == region_of(b, n),
    ensures
        a == b,
{
    assert forall|i: int| 0 <= i < a.len() implies a[i] == b[i] by {
        if AT_NAME <= i < AT_RESERVED {
            assert(region_of(a, n).name[i - AT_NAME] == a[i]);
            assert(region_of(b, n).name[i - AT_NAME] == b[i]);
        } else if i < SHM_HEADER_SIZE {
            let k = i / 4;
            assert(k < 7 || k == 23);
            assert(word_at(a, 4 * k) == word_at(b, 4 * k));
            word_determines_bytes(a, b, 4 * k);
        } else if i < SHM_HEADER_SIZE + 4 * n {
            let k = (i - SHM_HEADER_SIZE) / 4;
            assert(0 <= k < n);
            assert(region_of(a, n).bins_a[k] == word_at(a, SHM_HEADER_SIZE + 4 * k));
            assert(region_of(b, n).bins_a[k] == word_at(b, SHM_HEADER_SIZE + 4 * k));
            word_determines_bytes(a, b, SHM_HEADER_SIZE + 4 * k);
        } else {
            let k = (i - SHM_HEADER_SIZE - 4 * n) / 4;
            assert(0 <= k < n);
            assert(region_of(a, n).bins_b[k] == word_at(a, SHM_HEADER_SIZE + 4 * n + 4 * k));
            assert(region_of(b, n).bins_b[k] == word_at(b, SHM_HEADER_SIZE + 4 * n + 4 * k));
            word_determines_bytes(a, b, SHM_HEADER_SIZE + 4 * n + 4 * k);
        }
    }
    assert(a =~= b);
}

/// Where everything stands in a region, byte by byte: seven words, a name of 64 bytes, a spare
/// word, then the primary levels and behind them the secondary levels. Words start with their
/// least significant byte.
pub proof fn fields_have_their_places(bytes: Seq<u8>, n: nat, k: int)
    requires
        bytes.len() == 96 + 8 * n,
    ensures
        total_size(n) == bytes.len(),
        forall|o: int|
            0 <= o <= bytes.len() - 4 ==> #[trigger] word_at(bytes, o) == bytes[o] + 256 * bytes[o
                + 1] + 65536 * bytes[o + 2] + 16777216 * bytes[o + 3],
        region_of(bytes, n).magic == word_at(bytes, 0),
        region_of(bytes, n).layout_version == word_at(bytes, 4),
        region_of(bytes, n).num_bins == word_at(bytes, 8),
        region_of(bytes, n).sample_rate == word_at(bytes, 12),
        region_of(bytes, n).mode == word_at(bytes, 16),
        region_of(bytes, n).data_version == word_at(bytes, 20),
        region_of(bytes, n).name_len == word_at(bytes, 24),
        region_of(bytes, n).name == bytes.subrange(28, 92),
        region_of(bytes, n).reserved == word_at(bytes, 92),
        region_of(bytes, n).bins_a.len() == n,
        0 <= k < n ==> region_of(bytes, n).bins_a[k] == word_at(bytes, 96 + 4 * k),
        region_of(bytes, n).bins_b.len() == n,
        0 <= k < n ==> region_of(bytes, n).bins_b[k] == word_at(bytes, 96 + 4 * n + 4 * k),
{
}

/// Writing a word changes its four bytes and no others.
pub proof fn writing_a_word_leaves_other_bytes(bytes: Seq<u8>, offset: int, value: u32, i: int)
    requires
        0 <= i < bytes.len(),
        i < offset || i >= offset + 4,
    ensures
        with_word(bytes, offset, value).len() == bytes.len(),
        with_word(bytes, offset, value)[i] == bytes[i],
{
}

} // verus!
