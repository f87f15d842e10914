//! The layers of the plot, the curves in it and its axes.

use vstd::prelude::*;
use vstd::string::StringExecFns;

use crate::arithmetic::{functional1, image1};
use crate::level::{at_most, below, clamp, clamped, is_at_most, is_below};
use crate::spectrum::{FREQ_MAX, FREQ_MIN, MODE_BOTH};
use crate::text::{decimal, decimal_chars};
use crate::ui_state::{UiState, UiView, ViewMode};

verus! {

/// The colors that the other instances take turns in.
pub const PALETTE_SIZE: usize = 4;

/// 45 dB, the largest difference that is shown.
pub const DIFF_RANGE: u32 = 0x4234_0000;

/// -45 dB, the smallest difference that is shown.
pub const DIFF_RANGE_BELOW: u32 = 0xC234_0000;

/// A layer of the plot.
#[derive(Clone, Copy, PartialEq, Eq, Structural)]
pub enum Layer {
    /// The spectrum of another instance, by its place, in this color of the palette.
    Remote(usize, usize),
    /// The secondary levels.
    Secondary,
    /// The primary levels.
    Primary,
    /// The difference to another instance, by its place.
    Difference(usize),
}

/// The spectra of `count` other instances.
pub open spec fn remote_layers(count: nat) -> Seq<Layer> {
    Seq::new(count, |i: int| Layer::Remote(i as usize, (i % PALETTE_SIZE as int) as usize))
}

/// The differences to `count` other instances.
pub open spec fn difference_layers(count: nat) -> Seq<Layer> {
    Seq::new(count, |i: int| Layer::Difference(i as usize))
}

/// The levels of the instance itself: of both channels, where each is analyzed for itself.
pub open spec fn own_layers(mode: u8) -> Seq<Layer> {
    if mode == MODE_BOTH {
        seq![Layer::Secondary, Layer::Primary]
    } else {
        seq![Layer::Primary]
    }
}

/// The layers of the plot, the lowest first. Without other instances every view shows the
/// instance itself.
pub open spec fn layers_of(ui: UiView) -> Seq<Layer> {
    let count = ui.remotes.len();
    match ui.view_mode {
        ViewMode::Normal => remote_layers(count) + own_layers(ui.spectrum.mode),
        ViewMode::Diff => if count > 0 {
            difference_layers(count)
        } else {
            own_layers(ui.spectrum.mode)
        },
        ViewMode::Both => remote_layers(count) + own_layers(ui.spectrum.mode)
            + difference_layers(count),
    }
}

/// Adds the levels of the instance itself.
fn push_own_layers(layers: &mut Vec<Layer>, ui: &UiState)
    ensures
        final(layers)@ == old(layers)@ + own_layers(ui@.spectrum.mode),
{
    if ui.spectrum.is_both() {
        layers.push(Layer::Secondary);
    }
    layers.push(Layer::Primary);
    assert(layers@ =~= old(layers)@ + own_layers(ui@.spectrum.mode));
}

fn push_remote_layers(layers: &mut Vec<Layer>, count: usize)
    ensures
        final(layers)@ == old(layers)@ + remote_layers(count as nat),
{
    let mut i: usize = 0;
    assert(layers@ =~= old(layers)@ + remote_layers(0));
    while i < count
        invariant
            i <= count,
            layers@ == old(layers)@ + remote_layers(i as nat),
        decreases count - i,
    {
        layers.push(Layer::Remote(i, i % PALETTE_SIZE));
        i = i + 1;
        assert(layers@ =~= old(layers)@ + remote_layers(i as nat));
    }
}

fn push_difference_layers(layers: &mut Vec<Layer>, count: usize)
    ensures
        final(layers)@ == old(layers)@ + difference_layers(count as nat),
{
    let mut i: usize = 0;
    assert(layers@ =~= old(layers)@ + difference_layers(0));
    while i < count
        invariant
            i <= count,
            layers@ == old(layers)@ + difference_layers(i as nat),
        decreases count - i,
    {
        layers.push(Layer::Difference(i));
        i = i + 1;
        assert(layers@ =~= old(layers)@ + difference_layers(i as nat));
    }
}

/// The layers of the plot, the lowest first.
pub fn layers(ui: &UiState) -> (layers: Vec<Layer>)
    ensures
        layers@ == layers_of(ui@),
{
    let count: usize = ui.remotes.len();
    let mut layers: Vec<Layer> = Vec::new();
    match ui.view_mode {
        ViewMode::Normal => {
            push_remote_layers(&mut layers, count);
            push_own_layers(&mut layers, ui);
        },
        ViewMode::Diff => {
            if count > 0 {
                push_difference_layers(&mut layers, count);
            } else {
                push_own_layers(&mut layers, ui);
            }
        },
        ViewMode::Both => {
            push_remote_layers(&mut layers, count);
            push_own_layers(&mut layers, ui);
            push_difference_layers(&mut layers, count);
        },
    }
    assert(layers@ =~= layers_of(ui@));
    layers
}

/// Is a frequency on the scale of the plot?
pub open spec fn in_plot(freq: u32) -> bool {
    !below(freq, FREQ_MIN) && !below(FREQ_MAX, freq)
}

/// The column of the last of these bins; -1 before there is one.
pub open spec fn last_column(
    column: spec_fn(u32) -> i32,
    freqs: Seq<u32>,
    bins: Seq<usize>,
) -> i32 {
    if bins.len() == 0 {
        (-1) as i32
    } else {
        column(freqs[bins.last() as int])
    }
}

/// The bins among the first `count` that a curve goes through: those on the scale, and of
/// those that follow each other in one column of pixels only the first.
pub open spec fn curve_bins(
    column: spec_fn(u32) -> i32,
    freqs: Seq<u32>,
    count: nat,
) -> Seq<usize>
    decreases count,
{
    if count == 0 {
        seq![]
    } else {
        let i = (count - 1) as nat;
        let before = curve_bins(column, freqs, i);
        let freq = freqs[i as int];
        if in_plot(freq) && column(freq) != last_column(column, freqs, before) {
            before.push(i as usize)
        } else {
            before
        }
    }
}

/// The triangles between a curve through `points` points and the line below it. The corners
/// are numbered along the curve, each point followed by its foot.
pub open spec fn strip(points: nat) -> Seq<(u32, u32, u32)> {
    Seq::new(
        if points == 0 {
            0
        } else {
            (2 * (points - 1)) as nat
        },
        |t: int|
            {
                let i = 2 * (t / 2 + 1);
                if t % 2 == 0 {
                    ((i - 2) as u32, (i - 1) as u32, i as u32)
                } else {
                    ((i - 1) as u32, (i + 1) as u32, i as u32)
                }
            },
    )
}

/// The triangles between a curve and the line below it.
pub fn strip_triangles(points: usize) -> (triangles: Vec<(u32, u32, u32)>)
    requires
        2 * points <= u32::MAX,
    ensures
        triangles@ == strip(points as nat),
{
    let mut triangles: Vec<(u32, u32, u32)> = Vec::new();
    let mut idx: usize = 1;
    while idx < points
        invariant
            1 <= idx,
            idx <= points || points == 0,
            2 * points <= u32::MAX,
            triangles@ == strip(if points == 0 {
                0
            } else {
                idx as nat
            }),
        decreases points - idx,
    {
        let i: u32 = (idx * 2) as u32;
        triangles.push((i - 2, i - 1, i));
        triangles.push((i - 1, i + 1, i));
        idx = idx + 1;
        assert(triangles@ =~= strip(idx as nat));
    }
    triangles
}

/// A curve through bins, with the area below it.
pub struct Curve {
    pub bins: Vec<usize>,
    pub triangles: Vec<(u32, u32, u32)>,
}

/// The curve through `num_levels` levels over the frequencies `center_freqs`, where `column`
/// gives the column of pixels of a frequency. With less than two points there is none.
pub fn curve<Column: Fn(u32) -> i32>(
    center_freqs: &[u32],
    num_levels: usize,
    column: Column,
) -> (curve: Option<Curve>)
    requires
        functional1(column),
        2 * center_freqs@.len() <= u32::MAX,
    ensures
        ({
            let count = if num_levels < center_freqs@.len() {
                num_levels as nat
            } else {
                center_freqs@.len()
            };
            let bins = curve_bins(|freq: u32| image1(column, freq), center_freqs@, count);
            match curve {
                Some(c) => bins.len() >= 2 && c.bins@ == bins && c.triangles@ == strip(bins.len()),
                None => bins.len() < 2,
            }
        }),
{
    let ghost place = |freq: u32| image1(column, freq);
    let count: usize = if num_levels < center_freqs.len() {
        num_levels
    } else {
        center_freqs.len()
    };
    let mut bins: Vec<usize> = Vec::new();
    let mut last_px: i32 = -1;
    let mut i: usize = 0;
    while i < count
        invariant
            i <= count,
            count <= center_freqs@.len(),
            functional1(column),
            place == (|freq: u32| image1(column, freq)),
            bins@ == curve_bins(place, center_freqs@, i as nat),
            bins@.len() <= i,
            last_px == last_column(place, center_freqs@, bins@),
        decreases count - i,
    {
        let freq: u32 = center_freqs[i];
        if !is_below(freq, FREQ_MIN) && !is_below(FREQ_MAX, freq) {
            let px: i32 = column(freq);
            if px != last_px {
                last_px = px;
                bins.push(i);
            }
        }
        i = i + 1;
    }
    if bins.len() < 2 {
        return None;
    }
    let triangles = strip_triangles(bins.len());
    Some(Curve { bins, triangles })
}

/// A difference held to the range that is shown.
pub fn shown_difference(diff: u32) -> (shown: u32)
    ensures
        shown == clamped(diff, DIFF_RANGE_BELOW, DIFF_RANGE),
{
    clamp(diff, DIFF_RANGE_BELOW, DIFF_RANGE)
}

/// Is a point of a difference curve drawn as a boost? It is, on or above the center line.
pub fn is_boost(y: u32, center_y: u32) -> (boost: bool)
    ensures
        boost == at_most(y, center_y),
{
    is_at_most(y, center_y)
}

/// The levels that the grid marks, in decibels.
pub const DB_GRID: [i32; 8] = [0, -12, -24, -36, -48, -60, -72, -84];

/// The frequencies that the grid marks, in hertz.
pub const FREQ_GRID: [u32; 9] = [50, 100, 200, 500, 1000, 2000, 5000, 10000, 20000];

/// The label of a frequency in whole hertz.
pub open spec fn freq_label(freq: u32) -> Seq<char> {
    if freq >= 1000 {
        decimal_chars((freq / 1000) as nat).push('k')
    } else {
        decimal_chars(freq as nat)
    }
}

/// The label of a frequency in whole hertz: from a thousand on, in thousands.
pub fn format_freq(freq: u32) -> (label: String)
    ensures
        label@ == freq_label(freq),
{
    if freq >= 1000 {
        let mut label: String = decimal((freq / 1000) as u64);
        label.append("k");
        proof {
            reveal_strlit("k");
            assert(label@ =~= freq_label(freq));
        }
        label
    } else {
        decimal(freq as u64)
    }
}

/// The label of a level in whole decibels.
pub open spec fn db_label_of(db: i32) -> Seq<char> {
    if db < 0 {
        seq!['-'] + decimal_chars((-db) as nat)
    } else {
        decimal_chars(db as nat)
    }
}

/// The label of a level in whole decibels.
pub fn db_label(db: i32) -> (label: String)
    ensures
        label@ == db_label_of(db),
{
    if db < 0 {
        let mut label: String = "-".to_owned();
        label.append(decimal((-(db as i64)) as u64).as_str());
        proof {
            reveal_strlit("-");
            assert(label@ =~= db_label_of(db));
        }
        label
    } else {
        decimal(db as u64)
    }
}

/// The plot is never empty, its layers speak of instances that are there, and their colors
/// are in the palette.
pub proof fn layers_are_there(ui: UiView)
    requires
        ui.remotes.len() <= usize::MAX,
    ensures
        layers_of(ui).len() > 0,
        forall|i: int|
            0 <= i < layers_of(ui).len() ==> match #[trigger] layers_of(ui)[i] {
                Layer::Remote(place, color) => place < ui.remotes.len() && color < PALETTE_SIZE,
                Layer::Difference(place) => place < ui.remotes.len(),
                _ => true,
            },
{
}

/// Where both channels are analyzed, both are drawn, in every view that draws the instance
/// itself: whenever no other instance is compared with, and in each view but Diff.
pub proof fn both_channels_are_drawn(ui: UiView)
    requires
        ui.spectrum.mode == MODE_BOTH,
        ui.remotes.len() == 0 || ui.view_mode != ViewMode::Diff,
    ensures
        layers_of(ui).contains(Layer::Primary),
        layers_of(ui).contains(Layer::Secondary),
{
    let count = ui.remotes.len();
    let at: int = if ui.view_mode == ViewMode::Diff {
        0
    } else {
        count as int
    };
    assert(layers_of(ui)[at] == Layer::Secondary);
    assert(layers_of(ui)[at + 1] == Layer::Primary);
}

/// A curve goes through bins on the scale, from left to right, and neighboring points stand
/// in different columns.
pub proof fn curve_goes_right(column: spec_fn(u32) -> i32, freqs: Seq<u32>, count: nat)
    requires
        count <= freqs.len(),
        count <= usize::MAX,
    ensures
        curve_bins(column, freqs, count).len() <= count,
        forall|i: int|
            0 <= i < curve_bins(column, freqs, count).len() ==> {
                let bin = #[trigger] curve_bins(column, freqs, count)[i];
                bin < count && in_plot(freqs[bin as int])
            },
        forall|i: int|
            0 < i < curve_bins(column, freqs, count).len() ==> {
                let before = curve_bins(column, freqs, count)[i - 1];
                let bin = #[trigger] curve_bins(column, freqs, count)[i];
                before < bin && column(freqs[before as int]) != column(freqs[bin as int])
            },
    decreases count,
{
    if count > 0 {
        curve_goes_right(column, freqs, (count - 1) as nat);
    }
}

/// The corners of the triangles under a curve are the points of the curve and their feet.
pub proof fn triangles_have_corners(points: nat)
    requires
        2 * points <= u32::MAX,
    ensures
        forall|t: int|
            0 <= t < strip(points).len() ==> {
                let (a, b, c) = #[trigger] strip(points)[t];
                a < 2 * points && b < 2 * points && c < 2 * points && a != b && b != c && a != c
            },
{
}

/// The layers of each view, place by place. Normal and Both begin with the other instances,
/// in the colors of their places, followed by the instance itself, the secondary levels below
/// the primary ones; Both ends with the differences. Diff has nothing but the differences, or
/// the instance itself where there are none.
pub proof fn layers_stand_in_order(ui: UiView, i: int)
    ensures
        ({
            let layers = layers_of(ui);
            let n = ui.remotes.len() as int;
            let own: int = if ui.spectrum.mode == 1 {
                2
            } else {
                1
            };
            let behind: int = if ui.view_mode == ViewMode::Diff {
                0
            } else {
                n
            };
            let has_own = ui.view_mode != ViewMode::Diff || n == 0;
            &&& ui.view_mode == ViewMode::Normal ==> layers.len() == n + own
            &&& ui.view_mode == ViewMode::Both ==> layers.len() == n + own + n
            &&& ui.view_mode == ViewMode::Diff && n > 0 ==> layers.len() == n
            &&& ui.view_mode == ViewMode::Diff && n == 0 ==> layers.len() == own
            &&& ui.view_mode != ViewMode::Diff && 0 <= i < n ==> layers[i] == Layer::Remote(
                i as usize,
                (i % 4) as usize,
            )
            &&& has_own ==> layers[behind + own - 1] == Layer::Primary
            &&& has_own && own == 2 ==> layers[behind] == Layer::Secondary
            &&& ui.view_mode == ViewMode::Both && 0 <= i < n ==> layers[n + own + i]
                == Layer::Difference(i as usize)
            &&& ui.view_mode == ViewMode::Diff && 0 <= i < n ==> layers[i] == Layer::Difference(
                i as usize,
            )
        }),
{
}

/// The scale of the plot is from 20 Hz to 20 kHz, both included.
pub proof fn plot_has_its_scale(freq: u32)
    ensures
        at_most(0x41A0_0000, freq) && at_most(freq, 0x469C_4000) ==> in_plot(freq),
        below(freq, 0x41A0_0000) || below(0x469C_4000, freq) ==> !in_plot(freq),
{
}

/// Bins are taken into a curve one after the other: one off the scale is passed over, and so
/// is one in the column of the point before; any other becomes the next point. The column
/// before the first counts as taken.
pub proof fn bins_are_taken_by_column(column: spec_fn(u32) -> i32, freqs: Seq<u32>, k: nat)
    requires
        k < freqs.len(),
        k <= usize::MAX,
    ensures
        curve_bins(column, freqs, 0).len() == 0,
        ({
            let before = curve_bins(column, freqs, k);
            let after = curve_bins(column, freqs, k + 1);
            let same = if before.len() == 0 {
                column(freqs[k as int]) == -1
            } else {
                column(freqs[k as int]) == column(freqs[before.last() as int])
            };
            if in_plot(freqs[k as int]) && !same {
                after == before.push(k as usize)
            } else {
                after == before
            }
        }),
{
}

/// Between two neighboring points of a curve stand two triangles that share the slanting side
/// from the foot of the first to the second.
pub proof fn triangles_fill_the_strip(points: nat, p: int)
    requires
        2 * points <= u32::MAX,
        1 <= p < points,
    ensures
        strip(points).len() == 2 * (points - 1),
        strip(points)[2 * (p - 1)] == ((2 * p - 2) as u32, (2 * p - 1) as u32, (2 * p) as u32),
        strip(points)[2 * (p - 1) + 1] == ((2 * p - 1) as u32, (2 * p + 1) as u32, (2 * p) as u32),
{
}

/// No area stands under fewer than two points.
pub proof fn points_alone_have_no_area()
    ensures
        strip(0).len() == 0,
        strip(1).len() == 0,
{
}

/// A frequency is labelled in whole hertz below a thousand, and from there on in whole
/// thousands with a k behind them.
pub proof fn frequencies_are_labelled(freq: u32)
    ensures
        freq < 1000 ==> freq_label(freq) == decimal_chars(freq as nat),
        freq >= 1000 ==> freq_label(freq).last() == 'k' && freq_label(freq).drop_last()
            == decimal_chars((freq / 1000) as nat),
{
    if freq >= 1000 {
        assert(freq_label(freq).drop_last() =~= decimal_chars((freq / 1000) as nat));
    }
}

/// A level is labelled by its distance from zero, with a minus in front if it is negative.
pub proof fn levels_are_labelled(db: i32)
    ensures
        db >= 0 ==> db_label_of(db) == decimal_chars(db as nat),
        db < 0 ==> db_label_of(db)[0] == '-' && db_label_of(db).drop_first() == decimal_chars(
            (0 - db) as nat,
        ),
{
    if db < 0 {
        assert(db_label_of(db).drop_first() =~= decimal_chars((0 - db) as nat));
    }
}

} // verus!
