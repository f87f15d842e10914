//! The legend of the plot, and the readout at the pointer.

use vstd::prelude::*;

use crate::level::{at_most, below, is_at_most, is_below, ZERO};
use crate::plot::{layers_of, Layer, PALETTE_SIZE};
use crate::registry::{name_in, name_of, InstanceId, RegistryInner, RegistryView};
use crate::spectrum::{DB_FLOOR, MODE_BOTH};
use crate::text::{decimal_chars, labelled};
use crate::ui_state::{RemoteView, UiState, UiView, ViewMode};

verus! {

/// 1000 Hz, from which on frequencies are read out in kilohertz.
pub const ONE_KILOHERTZ: u32 = 0x447A_0000;

/// The color of an entry in the legend.
#[derive(Clone, Copy, PartialEq, Eq, Structural)]
pub enum Swatch {
    Primary,
    Secondary,
    Boost,
    Cut,
    /// A color of the palette.
    Remote(usize),
}

/// An entry of the legend.
pub struct LegendEntry {
    pub label: String,
    pub swatch: Swatch,
}

/// The labels and colors of a row of entries.
pub open spec fn entries_shown(entries: Seq<LegendEntry>) -> Seq<(Seq<char>, Swatch)> {
    Seq::new(entries.len(), |i: int| (entries[i].label@, entries[i].swatch))
}

/// The name of an instance, or its number where it has none.
pub open spec fn name_or_number<S>(reg: RegistryView<S>, id: InstanceId) -> Seq<char> {
    match name_in(reg, id.0) {
        Some(name) => name,
        None => "#"@ + decimal_chars(id.0 as nat),
    }
}

/// The entries for the differences, where there are any.
pub open spec fn difference_entries(remotes: nat) -> Seq<(Seq<char>, Swatch)> {
    if remotes > 0 {
        seq![("Boost"@, Swatch::Boost), ("Cut"@, Swatch::Cut)]
    } else {
        seq![]
    }
}

/// The entries for the other instances.
pub open spec fn remote_entries<S>(
    remotes: Seq<RemoteView>,
    reg: RegistryView<S>,
) -> Seq<(Seq<char>, Swatch)> {
    Seq::new(
        remotes.len(),
        |i: int|
            (
                name_or_number(reg, remotes[i].id),
                Swatch::Remote((i % PALETTE_SIZE as int) as usize),
            ),
    )
}

/// The entries of the legend, from the top.
pub open spec fn legend_of<S>(ui: UiView, reg: RegistryView<S>) -> Seq<(Seq<char>, Swatch)> {
    let remotes = remote_entries(ui.remotes, reg);
    match ui.view_mode {
        ViewMode::Diff => difference_entries(ui.remotes.len()),
        ViewMode::Normal => (if ui.spectrum.mode == MODE_BOTH {
            seq![("L"@, Swatch::Primary), ("R"@, Swatch::Secondary)]
        } else {
            seq![(ui.instance_name, Swatch::Primary)]
        }) + remotes,
        ViewMode::Both => seq![(ui.instance_name, Swatch::Primary)] + difference_entries(
            ui.remotes.len(),
        ) + remotes,
    }
}

/// The name of an instance, or its number where it has none.
pub fn display_name<S>(reg: &RegistryInner<S>, id: InstanceId) -> (name: String)
    ensures
        name@ == name_or_number(reg@, id),
{
    match name_of(reg, id) {
        Some(name) => name,
        None => labelled("#", id.0),
    }
}

fn push_entry(entries: &mut Vec<LegendEntry>, label: &str, swatch: Swatch)
    ensures
        entries_shown(final(entries)@) == entries_shown(old(entries)@).push((label@, swatch)),
{
    entries.push(LegendEntry { label: label.to_owned(), swatch });
    assert(entries_shown(entries@) =~= entries_shown(old(entries)@).push((label@, swatch)));
}

/// The entries of the legend, from the top.
pub fn legend<S>(ui: &UiState, reg: &RegistryInner<S>) -> (entries: Vec<LegendEntry>)
    ensures
        entries_shown(entries@) == legend_of(ui@, reg@),
{
    let mut entries: Vec<LegendEntry> = Vec::new();
    match ui.view_mode {
        ViewMode::Diff => {
            if ui.remotes.len() > 0 {
                push_entry(&mut entries, "Boost", Swatch::Boost);
                push_entry(&mut entries, "Cut", Swatch::Cut);
            }
            assert(entries_shown(entries@) =~= legend_of(ui@, reg@));
            return entries;
        },
        ViewMode::Normal => {
            if ui.spectrum.is_both() {
                push_entry(&mut entries, "L", Swatch::Primary);
                push_entry(&mut entries, "R", Swatch::Secondary);
            } else {
                push_entry(&mut entries, ui.instance_name.as_str(), Swatch::Primary);
            }
        },
        ViewMode::Both => {
            push_entry(&mut entries, ui.instance_name.as_str(), Swatch::Primary);
            if ui.remotes.len() > 0 {
                push_entry(&mut entries, "Boost", Swatch::Boost);
                push_entry(&mut entries, "Cut", Swatch::Cut);
            }
        },
    }
    let ghost head = entries_shown(entries@);
    let ghost remotes = remote_entries(ui@.remotes, reg@);
    let mut i: usize = 0;
    assert(head =~= head + remotes.take(0));
    while i < ui.remotes.len()
        invariant
            i <= ui.remotes.len(),
            remotes == remote_entries(ui@.remotes, reg@),
            entries_shown(entries@) == head + remotes.take(i as int),
        decreases ui.remotes.len() - i,
    {
        let name: String = display_name(reg, ui.remotes[i].id);
        push_entry(&mut entries, name.as_str(), Swatch::Remote(i % PALETTE_SIZE));
        assert(ui@.remotes[i as int].id == ui.remotes@[i as int].id);
        i = i + 1;
        assert(entries_shown(entries@) =~= head + remotes.take(i as int));
    }
    assert(remotes.take(i as int) =~= remotes);
    assert(entries_shown(entries@) =~= legend_of(ui@, reg@));
    entries
}

/// A line of the readout below the frequency.
pub enum ReadoutLine {
    /// The levels of both channels.
    Channels { left: u32, right: u32 },
    /// The level of an instance.
    Named { name: String, db: u32 },
    /// The level of an instance and the difference to it.
    Compared { name: String, db: u32, diff: u32 },
}

/// A line of the readout, with its name as text.
pub enum LineView {
    Channels { left: u32, right: u32 },
    Named { name: Seq<char>, db: u32 },
    Compared { name: Seq<char>, db: u32, diff: u32 },
}

impl View for ReadoutLine {
    type V = LineView;

    open spec fn view(&self) -> LineView {
        match self {
            ReadoutLine::Channels { left, right } => LineView::Channels {
                left: *left,
                right: *right,
            },
            ReadoutLine::Named { name, db } => LineView::Named { name: name@, db: *db },
            ReadoutLine::Compared { name, db, diff } => LineView::Compared {
                name: name@,
                db: *db,
                diff: *diff,
            },
        }
    }
}

/// The lines of a readout.
pub open spec fn line_views(lines: Seq<ReadoutLine>) -> Seq<LineView> {
    Seq::new(lines.len(), |i: int| lines[i]@)
}

/// The item at `bin`, or `fallback` beyond the end.
pub open spec fn item_or(items: Seq<u32>, bin: usize, fallback: u32) -> u32 {
    if bin < items.len() {
        items[bin as int]
    } else {
        fallback
    }
}

/// Does the plot show both channels of the instance itself?
pub open spec fn shows_channels(ui: UiView) -> bool {
    ui.spectrum.mode == MODE_BOTH && (ui.remotes.len() == 0 || ui.view_mode != ViewMode::Diff)
}

/// The line of the instance itself.
pub open spec fn own_line(ui: UiView, bin: usize) -> LineView {
    if shows_channels(ui) {
        LineView::Channels { left: ui.bins_a[bin as int], right: ui.bins_b[bin as int] }
    } else {
        LineView::Named { name: ui.instance_name, db: ui.bins_a[bin as int] }
    }
}

/// The line of another instance.
pub open spec fn remote_line<S>(
    ui: UiView,
    reg: RegistryView<S>,
    remote: RemoteView,
    bin: usize,
) -> LineView {
    let name = name_or_number(reg, remote.id);
    let db = item_or(remote.bins, bin, DB_FLOOR);
    if ui.view_mode == ViewMode::Normal {
        LineView::Named { name, db }
    } else {
        LineView::Compared { name, db, diff: item_or(remote.diff_bins, bin, ZERO) }
    }
}

/// The lines of the readout at a bin, below the frequency.
pub open spec fn readout_of<S>(ui: UiView, reg: RegistryView<S>, bin: usize) -> Seq<LineView> {
    seq![own_line(ui, bin)] + Seq::new(
        ui.remotes.len(),
        |i: int| remote_line(ui, reg, ui.remotes[i], bin),
    )
}

fn get_or(items: &Vec<u32>, bin: usize, fallback: u32) -> (item: u32)
    ensures
        item == item_or(items@, bin, fallback),
{
    if bin < items.len() {
        items[bin]
    } else {
        fallback
    }
}

/// The lines of the readout at a bin, below the frequency.
pub fn readout<S>(ui: &UiState, reg: &RegistryInner<S>, bin: usize) -> (lines: Vec<ReadoutLine>)
    requires
        bin < ui@.bins_a.len(),
        shows_channels(ui@) ==> bin < ui@.bins_b.len(),
    ensures
        line_views(lines@) == readout_of(ui@, reg@, bin),
{
    let mut lines: Vec<ReadoutLine> = Vec::new();
    if ui.spectrum.is_both() && (ui.remotes.len() == 0 || ui.view_mode != ViewMode::Diff) {
        lines.push(ReadoutLine::Channels { left: ui.bins_a[bin], right: ui.bins_b[bin] });
    } else {
        lines.push(ReadoutLine::Named { name: ui.instance_name.clone(), db: ui.bins_a[bin] });
    }
    let ghost whole = readout_of(ui@, reg@, bin);
    let mut i: usize = 0;
    assert(line_views(lines@) =~= whole.take(1));
    while i < ui.remotes.len()
        invariant
            i <= ui.remotes.len(),
            whole == readout_of(ui@, reg@, bin),
            line_views(lines@) == whole.take(i + 1),
        decreases ui.remotes.len() - i,
    {
        let ghost before = line_views(lines@);
        let name: String = display_name(reg, ui.remotes[i].id);
        let db: u32 = get_or(&ui.remotes[i].bins, bin, DB_FLOOR);
        let line = if ui.view_mode == ViewMode::Normal {
            ReadoutLine::Named { name, db }
        } else {
            let diff: u32 = get_or(&ui.remotes[i].diff_bins, bin, ZERO);
            ReadoutLine::Compared { name, db, diff }
        };
        let ghost added = line@;
        lines.push(line);
        proof {
            assert(ui@.remotes[i as int] == ui.remotes@[i as int]@);
            assert(whole[i + 1] == remote_line(ui@, reg@, ui@.remotes[i as int], bin));
            assert(added == whole[i + 1]);
            assert(line_views(lines@) =~= before.push(added));
            assert(whole.take(i + 2) =~= whole.take(i + 1).push(whole[i + 1]));
        }
        i = i + 1;
    }
    assert(whole.take(i + 1) =~= whole);
    lines
}

/// Is a frequency read out in kilohertz?
pub fn in_kilohertz(freq: u32) -> (kilo: bool)
    ensures
        kilo == at_most(ONE_KILOHERTZ, freq),
{
    is_at_most(ONE_KILOHERTZ, freq)
}

/// Where the readout stands beside the pointer.
#[derive(Clone, Copy, PartialEq, Eq, Structural)]
pub struct Placement {
    /// To the right of the pointer, or else to the left.
    pub right: bool,
    /// Below the pointer, or else above.
    pub below: bool,
}

/// Places the readout. It goes to the right of the pointer if its far end `text_end` would
/// then lie before the right edge, and below the pointer if its top `text_top` would
/// otherwise lie above the top edge.
pub fn placement(text_end: u32, right_edge: u32, text_top: u32, top_edge: u32) -> (place:
    Placement)
    ensures
        place.right == below(text_end, right_edge),
        place.below == below(text_top, top_edge),
{
    Placement { right: is_below(text_end, right_edge), below: is_below(text_top, top_edge) }
}

/// The legend names the other instances last, one after the other, wherever their spectra
/// are shown.
pub proof fn legend_names_the_others<S>(ui: UiView, reg: RegistryView<S>, i: int)
    requires
        ui.view_mode != ViewMode::Diff,
        0 <= i < ui.remotes.len(),
    ensures
        ({
            let entries = legend_of(ui, reg);
            &&& entries.len() >= ui.remotes.len()
            &&& entries[entries.len() - ui.remotes.len() + i].0 == name_or_number(
                reg,
                ui.remotes[i].id,
            )
        }),
{
}

/// Where the plot shows both channels, the readout gives the level of each.
pub proof fn both_channels_are_read_out<S>(ui: UiView, reg: RegistryView<S>, bin: usize)
    requires
        shows_channels(ui),
    ensures
        readout_of(ui, reg, bin)[0] == (LineView::Channels {
            left: ui.bins_a[bin as int],
            right: ui.bins_b[bin as int],
        }),
{
}

/// The readout has a line for the instance itself and one for each other instance.
pub proof fn readout_has_a_line_each<S>(ui: UiView, reg: RegistryView<S>, bin: usize)
    ensures
        readout_of(ui, reg, bin).len() == 1 + ui.remotes.len(),
{
}

/// In every view that draws differences the line of another instance compares: it carries the
/// name, the level and the difference at the bin. In view Normal it carries the name and the
/// level. Beyond the end of a row the level is the floor and the difference zero.
pub proof fn other_instances_are_read_out<S>(
    ui: UiView,
    reg: RegistryView<S>,
    bin: usize,
    i: int,
    db: u32,
    diff: u32,
)
    requires
        0 <= i < ui.remotes.len(),
        bin < ui.remotes[i].bins.len() ==> db == ui.remotes[i].bins[bin as int],
        bin >= ui.remotes[i].bins.len() ==> db == 0xC2B4_0000u32,
        bin < ui.remotes[i].diff_bins.len() ==> diff == ui.remotes[i].diff_bins[bin as int],
        bin >= ui.remotes[i].diff_bins.len() ==> diff == 0,
    ensures
        ui.view_mode == ViewMode::Diff || ui.view_mode == ViewMode::Both ==> readout_of(
            ui,
            reg,
            bin,
        )[1 + i] == (LineView::Compared { name: name_or_number(reg, ui.remotes[i].id), db, diff }),
        ui.view_mode == ViewMode::Normal ==> readout_of(ui, reg, bin)[1 + i] == (LineView::Named {
            name: name_or_number(reg, ui.remotes[i].id),
            db,
        }),
{
}

/// Wherever the plot draws the difference to an instance, the readout gives it.
pub proof fn drawn_differences_are_read_out<S>(
    ui: UiView,
    reg: RegistryView<S>,
    bin: usize,
    place: usize,
)
    requires
        place < ui.remotes.len(),
        ui.remotes.len() <= usize::MAX,
        layers_of(ui).contains(Layer::Difference(place)),
        bin < ui.remotes[place as int].diff_bins.len(),
    ensures
        readout_of(ui, reg, bin)[1 + place] matches LineView::Compared { name, db, diff } && diff
            == ui.remotes[place as int].diff_bins[bin as int],
{
    assert(ui.view_mode != ViewMode::Normal) by {
        if ui.view_mode == ViewMode::Normal {
            let i = choose|i: int|
                0 <= i < layers_of(ui).len() && layers_of(ui)[i] == Layer::Difference(place);
            assert(layers_of(ui)[i] == Layer::Difference(place));
        }
    }
}

/// Unless the plot shows both channels, the first line of the readout is the name of the
/// instance itself with its primary level.
pub proof fn own_level_is_read_out<S>(ui: UiView, reg: RegistryView<S>, bin: usize)
    ensures
        ui.spectrum.mode != 1 || (ui.view_mode == ViewMode::Diff && ui.remotes.len() > 0)
            ==> readout_of(ui, reg, bin)[0] == (LineView::Named {
            name: ui.instance_name,
            db: ui.bins_a[bin as int],
        }),
        ui.spectrum.mode == 1 && (ui.view_mode != ViewMode::Diff || ui.remotes.len() == 0)
            ==> readout_of(ui, reg, bin)[0] == (LineView::Channels {
            left: ui.bins_a[bin as int],
            right: ui.bins_b[bin as int],
        }),
{
}

/// A registered instance is shown by its name, another by its number.
pub proof fn instances_are_shown_by_name<S>(reg: RegistryView<S>, id: InstanceId)
    ensures
        reg.instances.contains_key(id.0) ==> name_or_number(reg, id) == reg.instances[id.0].name,
        !reg.instances.contains_key(id.0) ==> name_or_number(reg, id) == seq!['#']
            + decimal_chars(id.0 as nat),
{
    reveal_strlit("#");
    assert("#"@ =~= seq!['#']);
}

/// The legend begins with the instance itself, except in view Diff; boost and cut are named
/// wherever differences are drawn; and every other instance is named wherever its spectrum is,
/// in the color of its place. Nothing else is in it.
pub proof fn legend_goes_with_the_plot<S>(ui: UiView, reg: RegistryView<S>, i: int)
    ensures
        ({
            let entries = legend_of(ui, reg);
            let own: int = if ui.view_mode == ViewMode::Diff {
                0
            } else if ui.view_mode == ViewMode::Normal && ui.spectrum.mode == 1 {
                2
            } else {
                1
            };
            let pair: int = if ui.view_mode != ViewMode::Normal && ui.remotes.len() > 0 {
                2
            } else {
                0
            };
            let others: int = if ui.view_mode == ViewMode::Diff {
                0
            } else {
                ui.remotes.len() as int
            };
            &&& entries.len() == own + pair + others
            &&& own == 1 ==> entries[0] == (ui.instance_name, Swatch::Primary)
            &&& own == 2 ==> entries[0] == ("L"@, Swatch::Primary) && entries[1] == (
                "R"@,
                Swatch::Secondary,
            )
            &&& pair == 2 ==> entries[own] == ("Boost"@, Swatch::Boost) && entries[own + 1]
                == ("Cut"@, Swatch::Cut)
            &&& 0 <= i < others ==> entries[own + pair + i] == (
                name_or_number(reg, ui.remotes[i].id),
                Swatch::Remote((i % 4) as usize),
            )
        }),
{
}

/// Entries and lines are shown in the places where they stand, with what they hold.
pub proof fn entries_and_lines_are_shown(
    entries: Seq<LegendEntry>,
    lines: Seq<ReadoutLine>,
    i: int,
)
    ensures
        entries_shown(entries).len() == entries.len(),
        0 <= i < entries.len() ==> entries_shown(entries)[i] == (
            entries[i].label@,
            entries[i].swatch,
        ),
        line_views(lines).len() == lines.len(),
        0 <= i < lines.len() ==> match lines[i] {
            ReadoutLine::Channels { left, right } => line_views(lines)[i] == (LineView::Channels {
                left,
                right,
            }),
            ReadoutLine::Named { name, db } => line_views(lines)[i] == (LineView::Named {
                name: name@,
                db,
            }),
            ReadoutLine::Compared { name, db, diff } => line_views(lines)[i] == (
            LineView::Compared { name: name@, db, diff }),
        },
{
}

} // verus!
