//! The state of the display: what it shows, of which instances, and what is saved of it.

use vstd::prelude::*;

use crate::analyzer::{make_silence, silence};
use crate::arithmetic::{functional2, image2};
use crate::registry::{find_by_name, name_in, name_of, InstanceId, RegistryInner, RegistryView};
use crate::shmem::SharedMemorySpectrum;
use crate::spectrum::{make_bins, overwritten, silent, SpectrumData, SpectrumSource};
use crate::spectrum::{SpectrumView, MODE_BOTH};

verus! {

/// What is shown when instances are compared.
#[derive(Clone, Copy, PartialEq, Eq, Structural)]
pub enum ViewMode {
    /// The spectra and their differences.
    Both,
    /// The spectra.
    Normal,
    /// The differences.
    Diff,
}

impl ViewMode {
    /// The number of a mode.
    pub open spec fn number(self) -> u8 {
        match self {
            ViewMode::Both => 0,
            ViewMode::Normal => 1,
            ViewMode::Diff => 2,
        }
    }

    /// The mode with this number; a number of no mode stands for the first one.
    pub open spec fn with_number(v: u8) -> ViewMode {
        if v == 1 {
            ViewMode::Normal
        } else if v == 2 {
            ViewMode::Diff
        } else {
            ViewMode::Both
        }
    }

    /// The mode with this number; a number of no mode stands for the first one.
    pub fn from_u8(v: u8) -> (mode: Self)
        ensures
            mode == ViewMode::with_number(v),
    {
        match v {
            1 => ViewMode::Normal,
            2 => ViewMode::Diff,
            _ => ViewMode::Both,
        }
    }

    /// The number of the mode.
    pub fn as_u8(self) -> (v: u8)
        ensures
            v == self.number(),
    {
        match self {
            ViewMode::Both => 0,
            ViewMode::Normal => 1,
            ViewMode::Diff => 2,
        }
    }
}

/// The spectrum of another instance: of this process or of another one.
pub enum Source {
    Local(SpectrumData),
    Shared(SharedMemorySpectrum),
}

/// Where the spectrum of an instance is taken from: from this process if it is here, else
/// from the region that it shares.
pub fn pick_source(
    local: Option<SpectrumData>,
    shared: Option<SharedMemorySpectrum>,
) -> (source: Option<Source>)
    ensures
        source == (match local {
            Some(spectrum) => Some(Source::Local(spectrum)),
            None => match shared {
                Some(spectrum) => Some(Source::Shared(spectrum)),
                None => None,
            },
        }),
{
    match local {
        Some(spectrum) => Some(Source::Local(spectrum)),
        None => match shared {
            Some(spectrum) => Some(Source::Shared(spectrum)),
            None => None,
        },
    }
}

impl SpectrumSource for Source {
    open spec fn source_wf(&self) -> bool {
        match self {
            Source::Local(s) => s.source_wf(),
            Source::Shared(s) => s.source_wf(),
        }
    }

    open spec fn levels_a(&self) -> Seq<u32> {
        match self {
            Source::Local(s) => s.levels_a(),
            Source::Shared(s) => s.levels_a(),
        }
    }

    open spec fn levels_b(&self) -> Seq<u32> {
        match self {
            Source::Local(s) => s.levels_b(),
            Source::Shared(s) => s.levels_b(),
        }
    }

    open spec fn centers(&self) -> Seq<u32> {
        match self {
            Source::Local(s) => s.centers(),
            Source::Shared(s) => s.centers(),
        }
    }

    open spec fn source_mode(&self) -> u8 {
        match self {
            Source::Local(s) => s.source_mode(),
            Source::Shared(s) => s.source_mode(),
        }
    }

    open spec fn source_version(&self) -> u32 {
        match self {
            Source::Local(s) => s.source_version(),
            Source::Shared(s) => s.source_version(),
        }
    }

    fn num_bins(&self) -> (n: usize) {
        match self {
            Source::Local(s) => s.num_bins(),
            Source::Shared(s) => s.num_bins(),
        }
    }

    fn center_freq(&self, bin: usize) -> (freq: u32) {
        match self {
            Source::Local(s) => s.center_freq(bin),
            Source::Shared(s) => s.center_freq(bin),
        }
    }

    fn center_freqs_slice(&self) -> (freqs: &[u32]) {
        match self {
            Source::Local(s) => s.center_freqs_slice(),
            Source::Shared(s) => s.center_freqs_slice(),
        }
    }

    fn read_all(&self, out: &mut [u32]) {
        match self {
            Source::Local(s) => s.read_all(out),
            Source::Shared(s) => s.read_all(out),
        }
    }

    fn read_all_b(&self, out: &mut [u32]) {
        match self {
            Source::Local(s) => s.read_all_b(out),
            Source::Shared(s) => s.read_all_b(out),
        }
    }

    fn mode(&self) -> (mode: u8) {
        match self {
            Source::Local(s) => s.mode(),
            Source::Shared(s) => s.mode(),
        }
    }

    fn version(&self) -> (version: u32) {
        match self {
            Source::Local(s) => s.version(),
            Source::Shared(s) => s.version(),
        }
    }

    fn is_both(&self) -> (both: bool) {
        match self {
            Source::Local(s) => s.is_both(),
            Source::Shared(s) => s.is_both(),
        }
    }

    fn nearest_bin(&self, freq: u32, position: usize) -> (bin: usize) {
        match self {
            Source::Local(s) => s.nearest_bin(freq, position),
            Source::Shared(s) => s.nearest_bin(freq, position),
        }
    }
}

/// What is kept of another instance.
#[verifier::ext_equal]
pub struct RemoteView {
    pub id: InstanceId,
    pub bins: Seq<u32>,
    pub last_version: u32,
    pub diff_bins: Seq<u32>,
    pub diff_local_version: u32,
    pub diff_remote_version: u32,
}

/// What is kept of another instance.
pub struct RemoteCache {
    pub id: InstanceId,
    pub bins: Vec<u32>,
    pub last_version: u32,
    pub diff_bins: Vec<u32>,
    pub diff_local_version: u32,
    pub diff_remote_version: u32,
}

impl View for RemoteCache {
    type V = RemoteView;

    open spec fn view(&self) -> RemoteView {
        RemoteView {
            id: self.id,
            bins: self.bins@,
            last_version: self.last_version,
            diff_bins: self.diff_bins@,
            diff_local_version: self.diff_local_version,
            diff_remote_version: self.diff_remote_version,
        }
    }
}

/// What is saved of the display.
#[verifier::ext_equal]
pub struct PersistentView {
    pub instance_name: Seq<char>,
    pub selected_remote_names: Seq<Seq<char>>,
    pub view_mode: u8,
}

/// What is saved of the display.
pub struct PersistentState {
    pub instance_name: String,
    pub selected_remote_names: Vec<String>,
    pub view_mode: u8,
}

/// The texts of a row of strings.
pub open spec fn texts(strings: Seq<String>) -> Seq<Seq<char>> {
    Seq::new(strings.len(), |i: int| strings[i]@)
}

impl View for PersistentState {
    type V = PersistentView;

    open spec fn view(&self) -> PersistentView {
        PersistentView {
            instance_name: self.instance_name@,
            selected_remote_names: texts(self.selected_remote_names@),
            view_mode: self.view_mode,
        }
    }
}

impl Default for PersistentState {
    /// No name, nothing selected, the first view mode.
    fn default() -> (state: Self)
        ensures
            state@ == (PersistentView {
                instance_name: Seq::empty(),
                selected_remote_names: Seq::empty(),
                view_mode: 0,
            }),
    {
        let instance_name: String = "".to_owned();
        let state = PersistentState {
            instance_name,
            selected_remote_names: Vec::new(),
            view_mode: 0,
        };
        proof {
            reveal_strlit("");
            assert(state@.instance_name =~= Seq::empty());
            assert(state@.selected_remote_names =~= Seq::empty());
        }
        state
    }
}

/// What the display holds.
#[verifier::ext_equal]
pub struct UiView {
    pub spectrum: SpectrumView,
    pub bins_a: Seq<u32>,
    pub bins_b: Seq<u32>,
    pub last_version: u32,
    pub selected_ids: Seq<InstanceId>,
    pub remotes: Seq<RemoteView>,
    pub view_mode: ViewMode,
    pub instance_id: InstanceId,
    pub instance_name: Seq<char>,
    pub editing_name: bool,
}

/// The display.
pub struct UiState {
    pub spectrum: SpectrumData,
    pub bins_a: Vec<u32>,
    pub bins_b: Vec<u32>,
    pub last_version: u32,
    pub selected_ids: Vec<InstanceId>,
    pub remotes: Vec<RemoteCache>,
    pub view_mode: ViewMode,
    pub instance_id: InstanceId,
    pub instance_name: String,
    pub editing_name: bool,
}

/// What is kept of each of a row of instances.
pub open spec fn remote_views(remotes: Seq<RemoteCache>) -> Seq<RemoteView> {
    Seq::new(remotes.len(), |i: int| remotes[i]@)
}

impl View for UiState {
    type V = UiView;

    open spec fn view(&self) -> UiView {
        UiView {
            spectrum: self.spectrum@,
            bins_a: self.bins_a@,
            bins_b: self.bins_b@,
            last_version: self.last_version,
            selected_ids: self.selected_ids@,
            remotes: remote_views(self.remotes@),
            view_mode: self.view_mode,
            instance_id: self.instance_id,
            instance_name: self.instance_name@,
            editing_name: self.editing_name,
        }
    }
}

/// The display after the spectrum was read, which happens if its version is new. The
/// secondary levels are read only where they count.
pub open spec fn local_read(ui: UiView) -> UiView {
    if ui.spectrum.version == ui.last_version {
        ui
    } else {
        UiView {
            last_version: ui.spectrum.version,
            bins_a: overwritten(ui.bins_a, ui.spectrum.bins_a),
            bins_b: if ui.spectrum.mode == MODE_BOTH {
                overwritten(ui.bins_b, ui.spectrum.bins_b)
            } else {
                ui.bins_b
            },
            ..ui
        }
    }
}

/// Is something kept of the instance `id`?
pub open spec fn has_remote(remotes: Seq<RemoteView>, id: InstanceId) -> bool {
    exists|i: int| 0 <= i < remotes.len() && (#[trigger] remotes[i]).id == id
}

/// The spectrum of an instance, if it is at hand.
pub open spec fn source_of<R>(sources: Seq<(InstanceId, R)>, id: InstanceId) -> Option<R>
    decreases sources.len(),
{
    if sources.len() == 0 {
        None
    } else if sources[0].0 == id {
        Some(sources[0].1)
    } else {
        source_of(sources.drop_first(), id)
    }
}

/// Those of the instances that are selected, in their order.
pub open spec fn still_selected(
    remotes: Seq<RemoteView>,
    selected: Seq<InstanceId>,
) -> Seq<RemoteView>
    decreases remotes.len(),
{
    if remotes.len() == 0 {
        seq![]
    } else {
        let before = still_selected(remotes.drop_last(), selected);
        if selected.contains(remotes.last().id) {
            before.push(remotes.last())
        } else {
            before
        }
    }
}

/// What is kept of an instance at first.
pub open spec fn new_remote(id: InstanceId, num_bins: nat) -> RemoteView {
    RemoteView {
        id,
        bins: silent(num_bins),
        last_version: 0,
        diff_bins: silence(num_bins),
        diff_local_version: 0,
        diff_remote_version: 0,
    }
}

/// The instances, joined by the selected ones that are missing and whose spectrum is at hand.
pub open spec fn joined<R: SpectrumSource>(
    remotes: Seq<RemoteView>,
    selected: Seq<InstanceId>,
    sources: Seq<(InstanceId, R)>,
) -> Seq<RemoteView>
    decreases selected.len(),
{
    if selected.len() == 0 {
        remotes
    } else {
        let before = joined(remotes, selected.drop_last(), sources);
        let id = selected.last();
        match source_of(sources, id) {
            Some(source) => if has_remote(before, id) {
                before
            } else {
                before.push(new_remote(id, source.levels_a().len()))
            },
            None => before,
        }
    }
}

/// What is kept of an instance after its spectrum was read, which happens if it is at hand
/// and its version is new.
pub open spec fn remote_read<R: SpectrumSource>(
    remote: RemoteView,
    sources: Seq<(InstanceId, R)>,
) -> RemoteView {
    match source_of(sources, remote.id) {
        Some(source) => if source.source_version() == remote.last_version {
            remote
        } else {
            RemoteView {
                last_version: source.source_version(),
                bins: overwritten(remote.bins, source.levels_a()),
                ..remote
            }
        },
        None => remote,
    }
}

/// The instances after those that are no longer selected have left, those that are newly
/// selected have joined, and all have been read.
pub open spec fn remotes_updated<R: SpectrumSource>(
    remotes: Seq<RemoteView>,
    selected: Seq<InstanceId>,
    sources: Seq<(InstanceId, R)>,
) -> Seq<RemoteView> {
    let present = joined(still_selected(remotes, selected), selected, sources);
    Seq::new(present.len(), |i: int| remote_read(present[i], sources))
}

/// Differences of two rows of levels, as far as both and the old differences reach.
pub open spec fn differences(
    subtract: spec_fn(u32, u32) -> u32,
    local: Seq<u32>,
    remote: Seq<u32>,
    old_differences: Seq<u32>,
) -> Seq<u32> {
    Seq::new(
        old_differences.len(),
        |i: int|
            if i < local.len() && i < remote.len() {
                subtract(local[i], remote[i])
            } else {
                old_differences[i]
            },
    )
}

/// What is kept of an instance after its differences were brought up to date, which happens
/// once both sides have a newer version than the last differences had.
pub open spec fn diff_read(
    subtract: spec_fn(u32, u32) -> u32,
    bins_a: Seq<u32>,
    local_version: u32,
    remote: RemoteView,
) -> RemoteView {
    if local_version > remote.diff_local_version && remote.last_version
        > remote.diff_remote_version {
        RemoteView {
            diff_local_version: local_version,
            diff_remote_version: remote.last_version,
            diff_bins: differences(subtract, bins_a, remote.bins, remote.diff_bins),
            ..remote
        }
    } else {
        remote
    }
}

/// Is there an instance of this name?
pub open spec fn name_taken<S>(reg: RegistryView<S>, name: Seq<char>) -> bool {
    exists|id: u32| #[trigger] name_in(reg, id) == Some(name)
}

/// `ids` are instances with these names, in the order of the names; names of no instance are
/// passed over.
pub open spec fn resolved<S>(
    reg: RegistryView<S>,
    names: Seq<Seq<char>>,
    ids: Seq<InstanceId>,
) -> bool
    decreases names.len(),
{
    if names.len() == 0 {
        ids.len() == 0
    } else if name_taken(reg, names.last()) {
        &&& ids.len() > 0
        &&& name_in(reg, ids.last().0) == Some(names.last())
        &&& resolved(reg, names.drop_last(), ids.drop_last())
    } else {
        resolved(reg, names.drop_last(), ids)
    }
}

/// The names of instances, in their order; those that are not registered are passed over.
pub open spec fn names_of<S>(reg: RegistryView<S>, ids: Seq<InstanceId>) -> Seq<Seq<char>>
    decreases ids.len(),
{
    if ids.len() == 0 {
        seq![]
    } else {
        let before = names_of(reg, ids.drop_last());
        match name_in(reg, ids.last().0) {
            Some(name) => before.push(name),
            None => before,
        }
    }
}

/// What is to be saved of the display.
pub open spec fn saved<S>(ui: UiView, reg: RegistryView<S>) -> PersistentView {
    PersistentView {
        instance_name: ui.instance_name,
        selected_remote_names: names_of(reg, ui.selected_ids),
        view_mode: ui.view_mode.number(),
    }
}

/// The display after its spectrum was told whether instances are being compared.
pub open spec fn flagged(ui: UiView) -> UiView {
    UiView {
        spectrum: SpectrumView { has_remotes: ui.selected_ids.len() > 0, ..ui.spectrum },
        ..ui
    }
}

/// The display after a saved state was taken over, by which `ids` became selected. A name
/// that is being edited is not replaced, nor any by an empty one.
pub open spec fn restored(ui: UiView, state: PersistentView, ids: Seq<InstanceId>) -> UiView {
    flagged(
        UiView {
            instance_name: if state.instance_name.len() > 0 && !ui.editing_name {
                state.instance_name
            } else {
                ui.instance_name
            },
            view_mode: ViewMode::with_number(state.view_mode),
            selected_ids: ids,
            ..ui
        },
    )
}

/// Where an instance stands first in a row of instances; at the end, if it is not in it.
pub open spec fn first_place(ids: Seq<InstanceId>, id: InstanceId) -> int
    decreases ids.len(),
{
    if ids.len() == 0 || ids[0] == id {
        0
    } else {
        1 + first_place(ids.drop_first(), id)
    }
}

/// The selection after an instance was switched on or off.
pub open spec fn toggled(selected: Seq<InstanceId>, id: InstanceId) -> Seq<InstanceId> {
    if selected.contains(id) {
        selected.remove(first_place(selected, id))
    } else {
        selected.push(id)
    }
}

/// Where an instance stands in a row of instances.
fn position(ids: &Vec<InstanceId>, id: InstanceId) -> (found: Option<usize>)
    ensures
        match found {
            Some(i) => i < ids@.len() && ids@[i as int] == id && i == first_place(ids@, id),
            None => !ids@.contains(id),
        },
{
    let mut i: usize = 0;
    assert(ids@.skip(0) =~= ids@);
    while i < ids.len()
        invariant
            i <= ids.len(),
            forall|j: int| 0 <= j < i ==> ids@[j] != id,
            first_place(ids@, id) == i + first_place(ids@.skip(i as int), id),
        decreases ids.len() - i,
    {
        assert(ids@.skip(i as int).drop_first() =~= ids@.skip(i + 1));
        if ids[i] == id {
            return Some(i);
        }
        i = i + 1;
    }
    None
}

/// The spectrum of an instance, if it is at hand.
fn find_source<R: SpectrumSource>(sources: &Vec<(InstanceId, R)>, id: InstanceId) -> (found:
    Option<&R>)
    ensures
        match found {
            Some(r) => source_of(sources@, id) == Some(*r) && exists|i: int|
                0 <= i < sources@.len() && #[trigger] sources@[i].1 == *r,
            None => source_of(sources@, id) is None,
        },
{
    let mut i: usize = 0;
    assert(sources@.skip(0) =~= sources@);
    while i < sources.len()
        invariant
            i <= sources.len(),
            source_of(sources@, id) == source_of(sources@.skip(i as int), id),
        decreases sources.len() - i,
    {
        assert(sources@.skip(i as int).drop_first() =~= sources@.skip(i + 1));
        if sources[i].0 == id {
            assert(sources@[i as int].1 == sources@.skip(i as int)[0].1);
            return Some(&sources[i].1);
        }
        i = i + 1;
    }
    None
}

/// Writes the differences of two rows of levels, as far as all three rows reach.
fn write_differences<Subtract: Fn(u32, u32) -> u32>(
    subtract: &Subtract,
    local: &Vec<u32>,
    remote: &Vec<u32>,
    out: &mut Vec<u32>,
)
    requires
        functional2(*subtract),
    ensures
        final(out)@ == differences(
            |x: u32, y: u32| image2(*subtract, x, y),
            local@,
            remote@,
            old(out)@,
        ),
{
    let mut i: usize = 0;
    while i < local.len() && i < remote.len() && i < out.len()
        invariant
            i <= local.len(),
            i <= remote.len(),
            i <= out.len(),
            out@.len() == old(out)@.len(),
            functional2(*subtract),
            forall|j: int|
                0 <= j < i ==> #[trigger] out@[j] == image2(*subtract, local@[j], remote@[j]),
            forall|j: int| i <= j < out@.len() ==> #[trigger] out@[j] == old(out)@[j],
        decreases out.len() - i,
    {
        out.set(i, subtract(local[i], remote[i]));
        i = i + 1;
    }
    assert(out@ =~= differences(
        |x: u32, y: u32| image2(*subtract, x, y),
        local@,
        remote@,
        old(out)@,
    ));
}

impl UiState {
    /// A display of `spectrum` that has not read it yet.
    pub fn new<S>(
        spectrum: SpectrumData,
        instance_id: InstanceId,
        reg: &RegistryInner<S>,
    ) -> (ui: Self)
        ensures
            ui@ == (UiView {
                spectrum: spectrum@,
                bins_a: silent(spectrum@.center_freqs.len()),
                bins_b: silent(spectrum@.center_freqs.len()),
                last_version: 0,
                selected_ids: Seq::empty(),
                remotes: Seq::empty(),
                view_mode: ViewMode::Both,
                instance_id,
                instance_name: match name_in(reg@, instance_id.0) {
                    Some(name) => name,
                    None => Seq::empty(),
                },
                editing_name: false,
            }),
    {
        let num_bins: usize = spectrum.num_bins();
        let instance_name: String = match name_of(reg, instance_id) {
            Some(name) => name,
            None => "".to_owned(),
        };
        let ui = UiState {
            spectrum,
            bins_a: make_bins(num_bins),
            bins_b: make_bins(num_bins),
            last_version: 0,
            selected_ids: Vec::new(),
            remotes: Vec::new(),
            view_mode: ViewMode::Both,
            instance_id,
            instance_name,
            editing_name: false,
        };
        proof {
            reveal_strlit("");
            assert(""@ =~= Seq::empty());
            assert(ui@.remotes =~= Seq::empty());
            assert(ui@.selected_ids =~= Seq::empty());
        }
        ui
    }

    /// Takes over what the spectrum is now.
    pub fn set_spectrum(&mut self, spectrum: SpectrumData)
        ensures
            final(self)@ == (UiView { spectrum: spectrum@, ..old(self)@ }),
    {
        self.spectrum = spectrum;
    }

    /// Takes over a saved state, if there is one.
    pub fn apply_state<S>(&mut self, state: Option<PersistentState>, reg: &RegistryInner<S>)
        ensures
            match state {
                Some(ps) => {
                    &&& resolved(
                        reg@,
                        ps@.selected_remote_names,
                        final(self)@.selected_ids,
                    )
                    &&& final(self)@ == restored(old(self)@, ps@, final(self)@.selected_ids)
                },
                None => final(self)@ == old(self)@,
            },
    {
        let ps = match state {
            Some(ps) => ps,
            None => {
                return;
            },
        };
        if !ps.instance_name.as_str().is_empty() && !self.editing_name {
            self.instance_name = ps.instance_name.clone();
        }
        self.view_mode = ViewMode::from_u8(ps.view_mode);
        let mut ids: Vec<InstanceId> = Vec::new();
        let mut i: usize = 0;
        let ghost names = texts(ps.selected_remote_names@);
        while i < ps.selected_remote_names.len()
            invariant
                i <= ps.selected_remote_names.len(),
                names == texts(ps.selected_remote_names@),
                resolved(reg@, names.take(i as int), ids@),
            decreases ps.selected_remote_names.len() - i,
        {
            let ghost before = ids@;
            assert(names.take(i + 1).drop_last() =~= names.take(i as int));
            match find_by_name(reg, ps.selected_remote_names[i].as_str()) {
                Some(id) => {
                    ids.push(id);
                    assert(ids@.drop_last() =~= before);
                },
                None => {},
            }
            i = i + 1;
        }
        assert(names.take(i as int) =~= names);
        self.selected_ids = ids;
        self.spectrum.set_has_remotes(self.selected_ids.len() > 0);
    }

    /// Tells the spectrum whether instances are being compared, and gives what is to be saved.
    pub fn sync_to_plugin<S>(&mut self, reg: &RegistryInner<S>) -> (state: PersistentState)
        ensures
            final(self)@ == flagged(old(self)@),
            state@ == saved(old(self)@, reg@),
    {
        self.spectrum.set_has_remotes(self.selected_ids.len() > 0);
        let mut names: Vec<String> = Vec::new();
        let mut i: usize = 0;
        while i < self.selected_ids.len()
            invariant
                i <= self.selected_ids.len(),
                texts(names@) == names_of(reg@, self.selected_ids@.take(i as int)),
            decreases self.selected_ids.len() - i,
        {
            let ghost before = names@;
            assert(self.selected_ids@.take(i + 1).drop_last() =~= self.selected_ids@.take(
                i as int,
            ));
            match name_of(reg, self.selected_ids[i]) {
                Some(name) => {
                    names.push(name);
                    assert(texts(names@) =~= texts(before).push(name@));
                },
                None => {},
            }
            i = i + 1;
        }
        assert(self.selected_ids@.take(i as int) =~= self.selected_ids@);
        PersistentState {
            instance_name: self.instance_name.clone(),
            selected_remote_names: names,
            view_mode: self.view_mode.as_u8(),
        }
    }

    /// Reads the spectrum, if its version is new.
    pub fn update_local(&mut self)
        ensures
            final(self)@ == local_read(old(self)@),
    {
        let version: u32 = self.spectrum.version();
        if version != self.last_version {
            self.last_version = version;
            self.spectrum.read_all(self.bins_a.as_mut_slice());
            if self.spectrum.is_both() {
                self.spectrum.read_all_b(self.bins_b.as_mut_slice());
            }
        }
    }

    /// Drops what is kept of instances that are no longer selected.
    fn drop_deselected(&mut self)
        ensures
            final(self)@ == (UiView {
                remotes: still_selected(old(self)@.remotes, old(self)@.selected_ids),
                ..old(self)@
            }),
    {
        let ghost all = remote_views(self.remotes@);
        let ghost selected = self.selected_ids@;
        let ghost mut passed: int = 0;
        let mut i: usize = 0;
        assert(all.take(0) =~= seq![]);
        while i < self.remotes.len()
            invariant
                0 <= passed <= all.len(),
                selected == self.selected_ids@,
                self@ == (UiView { remotes: self@.remotes, ..old(self)@ }),
                i == still_selected(all.take(passed), selected).len(),
                remote_views(self.remotes@) == still_selected(all.take(passed), selected)
                    + all.skip(passed),
            decreases self.remotes.len() - i,
        {
            let ghost before = remote_views(self.remotes@);
            proof {
                assert(before.len() == i + (all.len() - passed));
                assert(before[i as int] == all[passed]);
                assert(before[i as int].id == self.remotes@[i as int].id);
                assert(all.take(passed + 1).drop_last() =~= all.take(passed));
            }
            match position(&self.selected_ids, self.remotes[i].id) {
                Some(_) => {
                    i = i + 1;
                },
                None => {
                    self.remotes.remove(i);
                    assert(remote_views(self.remotes@) =~= before.remove(i as int));
                },
            }
            proof {
                passed = passed + 1;
                assert(remote_views(self.remotes@) =~= still_selected(all.take(passed), selected)
                    + all.skip(passed));
            }
        }
        assert(all.skip(passed).len() == 0);
        assert(all.take(passed) =~= all);
        assert(remote_views(self.remotes@) =~= still_selected(all, selected));
    }

    /// Is something kept of an instance?
    fn keeps(&self, id: InstanceId) -> (r: bool)
        ensures
            r == has_remote(self@.remotes, id),
    {
        let mut i: usize = 0;
        while i < self.remotes.len()
            invariant
                i <= self.remotes.len(),
                forall|j: int| 0 <= j < i ==> (#[trigger] self@.remotes[j]).id != id,
            decreases self.remotes.len() - i,
        {
            if self.remotes[i].id == id {
                assert(self@.remotes[i as int].id == id);
                return true;
            }
            i = i + 1;
        }
        false
    }

    /// Starts to keep the selected instances that are missing, if their spectrum is at hand.
    fn join_selected<R: SpectrumSource>(&mut self, sources: &Vec<(InstanceId, R)>)
        requires
            forall|i: int| 0 <= i < sources@.len() ==> (#[trigger] sources@[i]).1.source_wf(),
        ensures
            final(self)@ == (UiView {
                remotes: joined(old(self)@.remotes, old(self)@.selected_ids, sources@),
                ..old(self)@
            }),
    {
        let ghost start = self@.remotes;
        let ghost selected = self.selected_ids@;
        let mut i: usize = 0;
        while i < self.selected_ids.len()
            invariant
                i <= self.selected_ids.len(),
                selected == self.selected_ids@,
                self@ == (UiView { remotes: self@.remotes, ..old(self)@ }),
                self@.remotes == joined(start, selected.take(i as int), sources@),
                forall|j: int| 0 <= j < sources@.len() ==> (#[trigger] sources@[j]).1.source_wf(),
            decreases self.selected_ids.len() - i,
        {
            assert(selected.take(i + 1).drop_last() =~= selected.take(i as int));
            let id: InstanceId = self.selected_ids[i];
            if !self.keeps(id) {
                match find_source(sources, id) {
                    Some(source) => {
                        let num_bins: usize = source.num_bins();
                        let ghost before = self@.remotes;
                        let remote = RemoteCache {
                            id,
                            bins: make_bins(num_bins),
                            last_version: 0,
                            diff_bins: make_silence(num_bins),
                            diff_local_version: 0,
                            diff_remote_version: 0,
                        };
                        let ghost added = remote@;
                        self.remotes.push(remote);
                        assert(self@.remotes =~= before.push(added));
                    },
                    None => {},
                }
            }
            i = i + 1;
        }
        assert(selected.take(i as int) =~= selected);
    }

    /// Reads the instances whose spectrum is at hand and has a new version.
    fn read_remotes<R: SpectrumSource>(&mut self, sources: &Vec<(InstanceId, R)>)
        requires
            forall|i: int| 0 <= i < sources@.len() ==> (#[trigger] sources@[i]).1.source_wf(),
        ensures
            final(self)@ == (UiView {
                remotes: Seq::new(
                    old(self)@.remotes.len(),
                    |i: int| remote_read(old(self)@.remotes[i], sources@),
                ),
                ..old(self)@
            }),
    {
        let ghost start = self@.remotes;
        let mut i: usize = 0;
        while i < self.remotes.len()
            invariant
                i <= self.remotes.len(),
                self@ == (UiView { remotes: self@.remotes, ..old(self)@ }),
                self@.remotes.len() == start.len(),
                forall|j: int|
                    0 <= j < i ==> #[trigger] self@.remotes[j] == remote_read(start[j], sources@),
                forall|j: int| i <= j < start.len() ==> #[trigger] self@.remotes[j] == start[j],
                forall|j: int| 0 <= j < sources@.len() ==> (#[trigger] sources@[j]).1.source_wf(),
            decreases self.remotes.len() - i,
        {
            let ghost before = self@.remotes;
            assert(before[i as int] == start[i as int]);
            match find_source(sources, self.remotes[i].id) {
                Some(source) => {
                    let version: u32 = source.version();
                    if version != self.remotes[i].last_version {
                        let remote = &mut self.remotes[i];
                        remote.last_version = version;
                        source.read_all(remote.bins.as_mut_slice());
                    }
                },
                None => {},
            }
            assert(self@.remotes =~= before.update(
                i as int,
                remote_read(start[i as int], sources@),
            ));
            i = i + 1;
        }
        assert(self@.remotes =~= Seq::new(
            start.len(),
            |j: int| remote_read(start[j], sources@),
        ));
    }

    /// Brings what is kept of other instances up to date. `sources` holds the spectra of the
    /// instances that can be reached.
    pub fn update_remotes<R: SpectrumSource>(&mut self, sources: &Vec<(InstanceId, R)>)
        requires
            forall|i: int| 0 <= i < sources@.len() ==> (#[trigger] sources@[i]).1.source_wf(),
        ensures
            final(self)@ == (UiView {
                remotes: remotes_updated(
                    old(self)@.remotes,
                    old(self)@.selected_ids,
                    sources@,
                ),
                ..old(self)@
            }),
    {
        self.drop_deselected();
        self.join_selected(sources);
        self.read_remotes(sources);
    }

    /// Brings the differences to the other instances up to date. `subtract` takes the second
    /// level from the first.
    pub fn update_diff<Subtract: Fn(u32, u32) -> u32>(&mut self, subtract: Subtract)
        requires
            functional2(subtract),
        ensures
            final(self)@ == (UiView {
                remotes: Seq::new(
                    old(self)@.remotes.len(),
                    |i: int|
                        diff_read(
                            |x: u32, y: u32| image2(subtract, x, y),
                            old(self)@.bins_a,
                            old(self)@.last_version,
                            old(self)@.remotes[i],
                        ),
                ),
                ..old(self)@
            }),
    {
        let ghost start = self@.remotes;
        let ghost minus = |x: u32, y: u32| image2(subtract, x, y);
        let local_version: u32 = self.last_version;
        let mut i: usize = 0;
        while i < self.remotes.len()
            invariant
                i <= self.remotes.len(),
                functional2(subtract),
                minus == (|x: u32, y: u32| image2(subtract, x, y)),
                local_version == self.last_version,
                self@ == (UiView { remotes: self@.remotes, ..old(self)@ }),
                self@.remotes.len() == start.len(),
                forall|j: int|
                    0 <= j < i ==> #[trigger] self@.remotes[j] == diff_read(
                        minus,
                        self@.bins_a,
                        local_version,
                        start[j],
                    ),
                forall|j: int| i <= j < start.len() ==> #[trigger] self@.remotes[j] == start[j],
            decreases self.remotes.len() - i,
        {
            let ghost before = self@.remotes;
            assert(before[i as int] == start[i as int]);
            let remote = &mut self.remotes[i];
            if local_version > remote.diff_local_version && remote.last_version
                > remote.diff_remote_version {
                remote.diff_local_version = local_version;
                remote.diff_remote_version = remote.last_version;
                write_differences(&subtract, &self.bins_a, &remote.bins, &mut remote.diff_bins);
            }
            assert(self@.remotes =~= before.update(
                i as int,
                diff_read(minus, self@.bins_a, local_version, start[i as int]),
            ));
            i = i + 1;
        }
        assert(self@.remotes =~= Seq::new(
            start.len(),
            |j: int| diff_read(minus, self@.bins_a, local_version, start[j]),
        ));
    }

    /// Switches an instance on or off, and gives what is to be saved.
    pub fn toggle_source<S>(&mut self, id: InstanceId, reg: &RegistryInner<S>) -> (state:
        PersistentState)
        ensures
            final(self)@ == flagged(
                UiView { selected_ids: toggled(old(self)@.selected_ids, id), ..old(self)@ },
            ),
            state@ == saved(final(self)@, reg@),
    {
        match position(&self.selected_ids, id) {
            Some(pos) => {
                self.selected_ids.remove(pos);
            },
            None => {
                self.selected_ids.push(id);
            },
        }
        self.sync_to_plugin(reg)
    }

    /// Changes the view mode, and gives what is to be saved.
    pub fn set_view_mode<S>(&mut self, mode: ViewMode, reg: &RegistryInner<S>) -> (state:
        PersistentState)
        ensures
            final(self)@ == flagged(UiView { view_mode: mode, ..old(self)@ }),
            state@ == saved(final(self)@, reg@),
    {
        self.view_mode = mode;
        self.sync_to_plugin(reg)
    }
}

/// A view mode can be told from its number.
pub proof fn view_mode_from_its_number(mode: ViewMode)
    ensures
        ViewMode::with_number(mode.number()) == mode,
{
}

/// Taking over what was saved, with the same instances selected, changes nothing but the
/// note that instances are being compared.
pub proof fn saved_state_is_restored<S>(ui: UiView, reg: RegistryView<S>)
    ensures
        restored(ui, saved(ui, reg), ui.selected_ids) == flagged(ui),
{
}

/// Does no other instance bear the name of `id`?
pub open spec fn name_unique<S>(reg: RegistryView<S>, id: u32) -> bool {
    forall|other: u32| #[trigger] name_in(reg, other) == name_in(reg, id) ==> other == id
}

/// A selection of registered instances comes back from its names, if no other instance bears
/// the name of a selected one.
pub proof fn selection_is_restored<S>(
    reg: RegistryView<S>,
    ids: Seq<InstanceId>,
    found: Seq<InstanceId>,
)
    requires
        forall|i: int|
            0 <= i < ids.len() ==> name_in(reg, (#[trigger] ids[i]).0) is Some && name_unique(
                reg,
                ids[i].0,
            ),
        resolved(reg, names_of(reg, ids), found),
    ensures
        found == ids,
    decreases ids.len(),
{
    if ids.len() > 0 {
        let names = names_of(reg, ids);
        let rest = ids.drop_last();
        assert(ids.last() == ids[ids.len() - 1]);
        assert(name_in(reg, ids.last().0) == Some(names.last()));
        assert(name_taken(reg, names.last()));
        assert(names.drop_last() =~= names_of(reg, rest));
        assert forall|i: int| 0 <= i < rest.len() implies name_in(
            reg,
            (#[trigger] rest[i]).0,
        ) is Some && name_unique(reg, rest[i].0) by {
            assert(rest[i] == ids[i]);
        }
        selection_is_restored(reg, rest, found.drop_last());
        assert(name_unique(reg, ids.last().0));
        assert(found.last() == ids.last());
        assert(found.drop_last().push(found.last()) =~= found);
        assert(rest.push(ids.last()) =~= ids);
    } else {
        assert(found =~= ids);
    }
}

/// The first place of an instance is a place where it stands, and the end if there is none.
proof fn first_place_is_right(ids: Seq<InstanceId>, id: InstanceId)
    ensures
        0 <= first_place(ids, id) <= ids.len(),
        ids.contains(id) ==> first_place(ids, id) < ids.len() && ids[first_place(ids, id)] == id,
        forall|i: int| 0 <= i < first_place(ids, id) ==> ids[i] != id,
    decreases ids.len(),
{
    if ids.len() > 0 && ids[0] != id {
        let rest = ids.drop_first();
        first_place_is_right(rest, id);
        if ids.contains(id) {
            let i = choose|i: int| 0 <= i < ids.len() && ids[i] == id;
            assert(rest[i - 1] == id);
        }
        assert forall|i: int| 0 <= i < first_place(ids, id) implies ids[i] != id by {
            if i > 0 {
                assert(rest[i - 1] == ids[i]);
            }
        }
    }
}

/// Switching an instance on and off again leaves the selection as it was.
pub proof fn toggling_on_and_off(selected: Seq<InstanceId>, id: InstanceId)
    requires
        !selected.contains(id),
    ensures
        toggled(toggled(selected, id), id) == selected,
{
    let on = selected.push(id);
    assert(on[selected.len() as int] == id);
    first_place_is_right(on, id);
    assert(first_place(on, id) == selected.len()) by {
        if first_place(on, id) < selected.len() {
            assert(selected[first_place(on, id)] == id);
        }
    }
    assert(on.remove(selected.len() as int) =~= selected);
}

/// Switching an instance changes whether it is selected, leaves the others, and selects none
/// twice.
pub proof fn toggling_switches(selected: Seq<InstanceId>, id: InstanceId, other: InstanceId)
    requires
        selected.no_duplicates(),
        other != id,
    ensures
        toggled(selected, id).contains(id) <==> !selected.contains(id),
        toggled(selected, id).contains(other) <==> selected.contains(other),
        toggled(selected, id).no_duplicates(),
{
    first_place_is_right(selected, id);
    let after = toggled(selected, id);
    if selected.contains(id) {
        let p = first_place(selected, id);
        assert forall|i: int| 0 <= i < after.len() implies after[i] != id by {
            assert(after[i] == if i < p {
                selected[i]
            } else {
                selected[i + 1]
            });
        }
        if selected.contains(other) {
            let i = choose|i: int| 0 <= i < selected.len() && selected[i] == other;
            assert(after[if i < p {
                i
            } else {
                i - 1
            }] == other);
        }
        if after.contains(other) {
            let i = choose|i: int| 0 <= i < after.len() && after[i] == other;
            assert(selected[if i < p {
                i
            } else {
                i + 1
            }] == other);
        }
    } else {
        assert(after[selected.len() as int] == id);
        if selected.contains(other) {
            let i = choose|i: int| 0 <= i < selected.len() && selected[i] == other;
            assert(after[i] == other);
        }
        if after.contains(other) {
            let i = choose|i: int| 0 <= i < after.len() && after[i] == other;
            assert(selected[i] == other);
        }
    }
}

/// Once read, a spectrum is not read again until its version changes; and after a new
/// version was read, the display holds its levels.
pub proof fn local_is_read_once(ui: UiView)
    ensures
        local_read(local_read(ui)) == local_read(ui),
        ui.spectrum.version != ui.last_version && ui.bins_a.len() == ui.spectrum.bins_a.len()
            ==> local_read(ui).bins_a == ui.spectrum.bins_a,
        ui.spectrum.version != ui.last_version && ui.bins_b.len() == ui.spectrum.bins_b.len()
            && ui.spectrum.mode == MODE_BOTH ==> local_read(ui).bins_b == ui.spectrum.bins_b,
{
    assert(ui.bins_a.len() == ui.spectrum.bins_a.len() ==> overwritten(
        ui.bins_a,
        ui.spectrum.bins_a,
    ) =~= ui.spectrum.bins_a);
    assert(ui.bins_b.len() == ui.spectrum.bins_b.len() ==> overwritten(
        ui.bins_b,
        ui.spectrum.bins_b,
    ) =~= ui.spectrum.bins_b);
}

/// Differences are taken once for each pair of versions.
pub proof fn differences_are_taken_once(
    subtract: spec_fn(u32, u32) -> u32,
    bins_a: Seq<u32>,
    local_version: u32,
    remote: RemoteView,
)
    ensures
        ({
            let once = diff_read(subtract, bins_a, local_version, remote);
            diff_read(subtract, bins_a, local_version, once) == once
        }),
{
}

/// Is no instance kept twice?
pub open spec fn remotes_distinct(remotes: Seq<RemoteView>) -> bool {
    forall|i: int, j: int|
        0 <= i < j < remotes.len() ==> (#[trigger] remotes[i]).id != (#[trigger] remotes[j]).id
}

/// Is every instance that is kept selected?
pub open spec fn remotes_selected(remotes: Seq<RemoteView>, selected: Seq<InstanceId>) -> bool {
    forall|i: int| 0 <= i < remotes.len() ==> selected.contains((#[trigger] remotes[i]).id)
}

proof fn still_selected_is_selected(remotes: Seq<RemoteView>, selected: Seq<InstanceId>)
    ensures
        remotes_selected(still_selected(remotes, selected), selected),
        remotes_distinct(remotes) ==> remotes_distinct(still_selected(remotes, selected)),
        remotes_selected(remotes, selected) ==> still_selected(remotes, selected) == remotes,
        forall|i: int|
            0 <= i < still_selected(remotes, selected).len() ==> has_remote(
                remotes,
                (#[trigger] still_selected(remotes, selected)[i]).id,
            ),
    decreases remotes.len(),
{
    if remotes.len() > 0 {
        let rest = remotes.drop_last();
        let before = still_selected(rest, selected);
        let after = still_selected(remotes, selected);
        still_selected_is_selected(rest, selected);
        assert forall|i: int| 0 <= i < after.len() implies has_remote(
            remotes,
            (#[trigger] after[i]).id,
        ) by {
            if i < before.len() {
                assert(after[i] == before[i]);
                let k = choose|k: int|
                    0 <= k < rest.len() && (#[trigger] rest[k]).id == before[i].id;
                assert(remotes[k].id == after[i].id);
            } else {
                assert(remotes[remotes.len() - 1].id == after[i].id);
            }
        }
        assert forall|i: int| 0 <= i < after.len() implies selected.contains(
            (#[trigger] after[i]).id,
        ) by {
            if i < before.len() {
                assert(after[i] == before[i]);
            }
        }
        if remotes_distinct(remotes) {
            assert forall|i: int, j: int| 0 <= i < j < rest.len() implies (#[trigger] rest[i]).id
                != (#[trigger] rest[j]).id by {
                assert(remotes[i].id != remotes[j].id);
            }
            assert forall|i: int, j: int| 0 <= i < j < after.len() implies (
            #[trigger] after[i]).id != (#[trigger] after[j]).id by {
                assert(after[i] == before[i]);
                if j < before.len() {
                    assert(after[j] == before[j]);
                } else {
                    let k = choose|k: int|
                        0 <= k < rest.len() && (#[trigger] rest[k]).id == before[i].id;
                    assert(remotes[k].id != remotes[remotes.len() - 1].id);
                }
            }
        }
        if remotes_selected(remotes, selected) {
            assert(selected.contains(remotes[remotes.len() - 1].id));
            assert forall|i: int| 0 <= i < rest.len() implies selected.contains(
                (#[trigger] rest[i]).id,
            ) by {
                assert(remotes[i] == rest[i]);
            }
            assert(rest.push(remotes.last()) =~= remotes);
        }
    } else {
        assert(still_selected(remotes, selected) =~= remotes);
    }
}

proof fn joined_is_complete<R: SpectrumSource>(
    remotes: Seq<RemoteView>,
    selected: Seq<InstanceId>,
    sources: Seq<(InstanceId, R)>,
)
    ensures
        remotes_distinct(remotes) ==> remotes_distinct(joined(remotes, selected, sources)),
        forall|i: int|
            0 <= i < joined(remotes, selected, sources).len() ==> has_remote(
                remotes,
                (#[trigger] joined(remotes, selected, sources)[i]).id,
            ) || selected.contains(joined(remotes, selected, sources)[i].id),
        forall|id: InstanceId|
            has_remote(remotes, id) ==> #[trigger] has_remote(
                joined(remotes, selected, sources),
                id,
            ),
        forall|k: int|
            0 <= k < selected.len() && source_of(sources, #[trigger] selected[k]) is Some
                ==> has_remote(joined(remotes, selected, sources), selected[k]),
        (forall|k: int|
            0 <= k < selected.len() && source_of(sources, #[trigger] selected[k]) is Some
                ==> has_remote(remotes, selected[k])) ==> joined(remotes, selected, sources)
            == remotes,
    decreases selected.len(),
{
    if selected.len() > 0 {
        let rest = selected.drop_last();
        let id = selected.last();
        let before = joined(remotes, rest, sources);
        let after = joined(remotes, selected, sources);
        joined_is_complete(remotes, rest, sources);
        assert(after.len() >= before.len());
        assert forall|i: int| 0 <= i < before.len() implies #[trigger] after[i] == before[i] by {}
        assert forall|x: InstanceId| has_remote(before, x) implies #[trigger] has_remote(
            after,
            x,
        ) by {
            let i = choose|i: int| 0 <= i < before.len() && (#[trigger] before[i]).id == x;
            assert(after[i].id == x);
        }
        if after.len() > before.len() {
            assert(after[before.len() as int].id == id);
            assert(has_remote(after, id));
        }
        assert forall|i: int| 0 <= i < after.len() implies has_remote(
            remotes,
            (#[trigger] after[i]).id,
        ) || selected.contains(after[i].id) by {
            if i < before.len() {
                assert(after[i] == before[i]);
                if !has_remote(remotes, before[i].id) {
                    let k = choose|k: int| 0 <= k < rest.len() && rest[k] == before[i].id;
                    assert(selected[k] == after[i].id);
                }
            } else {
                assert(selected[selected.len() - 1] == after[i].id);
            }
        }
        assert forall|k: int|
            0 <= k < selected.len() && source_of(
                sources,
                #[trigger] selected[k],
            ) is Some implies has_remote(after, selected[k]) by {
            if k < rest.len() {
                assert(rest[k] == selected[k]);
                assert(has_remote(before, rest[k]));
            }
        }
        if remotes_distinct(remotes) {
            assert forall|i: int, j: int| 0 <= i < j < after.len() implies (
            #[trigger] after[i]).id != (#[trigger] after[j]).id by {
                assert(after[i] == before[i]);
                if j < before.len() {
                    assert(after[j] == before[j]);
                }
            }
        }
        if forall|k: int|
            0 <= k < selected.len() && source_of(sources, #[trigger] selected[k]) is Some
                ==> has_remote(remotes, selected[k]) {
            assert forall|k: int|
                0 <= k < rest.len() && source_of(
                    sources,
                    #[trigger] rest[k],
                ) is Some implies has_remote(remotes, rest[k]) by {
                assert(rest[k] == selected[k]);
            }
            assert(selected[selected.len() - 1] == id);
        }
    }
}

/// After an update, the instances that are kept are selected ones, and every selected one
/// whose spectrum is at hand is kept; none is kept twice, if none was before; each whose
/// spectrum is at hand has the version of that spectrum; and updating again from the same
/// spectra changes nothing.
pub proof fn remotes_follow_the_selection<R: SpectrumSource>(
    remotes: Seq<RemoteView>,
    selected: Seq<InstanceId>,
    sources: Seq<(InstanceId, R)>,
)
    ensures
        ({
            let after = remotes_updated(remotes, selected, sources);
            &&& remotes_selected(after, selected)
            &&& remotes_distinct(remotes) ==> remotes_distinct(after)
            &&& forall|k: int|
                0 <= k < selected.len() && source_of(sources, #[trigger] selected[k]) is Some
                    ==> has_remote(after, selected[k])
            &&& forall|i: int|
                0 <= i < after.len() && source_of(sources, (#[trigger] after[i]).id) is Some
                    ==> after[i].last_version == source_of(
                    sources,
                    after[i].id,
                )->0.source_version()
            &&& remotes_updated(after, selected, sources) == after
        }),
{
    let old_ones = still_selected(remotes, selected);
    let present = joined(old_ones, selected, sources);
    let after = remotes_updated(remotes, selected, sources);
    still_selected_is_selected(remotes, selected);
    joined_is_complete(old_ones, selected, sources);
    assert forall|i: int| 0 <= i < after.len() implies (#[trigger] after[i]).id == present[i].id
        && selected.contains(after[i].id) by {
        assert(after[i] == remote_read(present[i], sources));
        if has_remote(old_ones, present[i].id) {
            let k = choose|k: int|
                0 <= k < old_ones.len() && (#[trigger] old_ones[k]).id == present[i].id;
            assert(selected.contains(old_ones[k].id));
        }
    }
    assert forall|k: int|
        0 <= k < selected.len() && source_of(sources, #[trigger] selected[k]) is Some implies has_remote(
    after, selected[k]) by {
        let i = choose|i: int|
            0 <= i < present.len() && (#[trigger] present[i]).id == selected[k];
        assert(after[i].id == selected[k]);
    }
    if remotes_distinct(remotes) {
        assert forall|i: int, j: int| 0 <= i < j < after.len() implies (#[trigger] after[i]).id
            != (#[trigger] after[j]).id by {
            assert(present[i].id != present[j].id);
        }
    }
    still_selected_is_selected(after, selected);
    joined_is_complete(after, selected, sources);
    let again = remotes_updated(after, selected, sources);
    assert forall|i: int| 0 <= i < after.len() implies #[trigger] again[i] == after[i] by {
        assert(again[i] == remote_read(after[i], sources));
        assert(after[i] == remote_read(present[i], sources));
    }
    assert(again =~= after);
}

/// When both sides have a newer version than the last differences had, the differences become
/// those of the levels at hand, and remember the versions of both sides.
pub proof fn differences_match_both_sides(
    subtract: spec_fn(u32, u32) -> u32,
    bins_a: Seq<u32>,
    local_version: u32,
    remote: RemoteView,
)
    requires
        local_version > remote.diff_local_version,
        remote.last_version > remote.diff_remote_version,
    ensures
        ({
            let after = diff_read(subtract, bins_a, local_version, remote);
            &&& after.diff_local_version == local_version
            &&& after.diff_remote_version == remote.last_version
            &&& after.diff_bins.len() == remote.diff_bins.len()
            &&& forall|i: int|
                0 <= i < after.diff_bins.len() && i < bins_a.len() && i < remote.bins.len()
                    ==> #[trigger] after.diff_bins[i] == subtract(bins_a[i], remote.bins[i])
        }),
{
}

/// The spectrum that counts for an instance is the first one that is handed in under its
/// number; where there is none, none counts.
pub proof fn first_source_counts<R>(sources: Seq<(InstanceId, R)>, id: InstanceId, i: int)
    requires
        0 <= i < sources.len(),
        sources[i].0 == id,
        forall|j: int| 0 <= j < i ==> (#[trigger] sources[j]).0 != id,
    ensures
        source_of(sources, id) == Some(sources[i].1),
    decreases sources.len(),
{
    if i > 0 {
        let rest = sources.drop_first();
        assert(sources[0].0 != id);
        assert forall|j: int| 0 <= j < i - 1 implies (#[trigger] rest[j]).0 != id by {
            assert(rest[j] == sources[j + 1]);
        }
        first_source_counts(rest, id, i - 1);
    }
}

/// No spectrum counts for an instance under whose number none is handed in.
pub proof fn no_source_counts<R>(sources: Seq<(InstanceId, R)>, id: InstanceId)
    requires
        forall|j: int| 0 <= j < sources.len() ==> (#[trigger] sources[j]).0 != id,
    ensures
        source_of(sources, id) is None,
    decreases sources.len(),
{
    if sources.len() > 0 {
        let rest = sources.drop_first();
        assert(sources[0].0 != id);
        assert forall|j: int| 0 <= j < rest.len() implies (#[trigger] rest[j]).0 != id by {
            assert(rest[j] == sources[j + 1]);
        }
        no_source_counts(rest, id);
    }
}

/// A spectrum whose version is not the one last read is read: what is kept then holds its
/// primary levels, bin by bin as far as it has room, and its version. Whatever was read before
/// makes no difference. The differences are left alone.
pub proof fn newer_spectrum_is_read<R: SpectrumSource>(
    remote: RemoteView,
    sources: Seq<(InstanceId, R)>,
    source: R,
)
    requires
        source_of(sources, remote.id) == Some(source),
        source.source_version() != remote.last_version,
    ensures
        ({
            let after = remote_read(remote, sources);
            &&& after.bins.len() == remote.bins.len()
            &&& forall|k: int|
                0 <= k < after.bins.len() && k < source.levels_a().len()
                    ==> #[trigger] after.bins[k] == source.levels_a()[k]
            &&& forall|k: int|
                source.levels_a().len() <= k < after.bins.len() ==> #[trigger] after.bins[k]
                    == remote.bins[k]
            &&& remote.bins.len() == source.levels_a().len() ==> after.bins == source.levels_a()
            &&& after.last_version == source.source_version()
            &&& after.id == remote.id
            &&& after.diff_bins == remote.diff_bins
            &&& after.diff_local_version == remote.diff_local_version
            &&& after.diff_remote_version == remote.diff_remote_version
        }),
{
    if remote.bins.len() == source.levels_a().len() {
        assert(remote_read(remote, sources).bins =~= source.levels_a());
    }
}

/// A spectrum of the version last read, or one that is not at hand, changes nothing.
pub proof fn known_spectrum_is_not_read<R: SpectrumSource>(
    remote: RemoteView,
    sources: Seq<(InstanceId, R)>,
)
    requires
        source_of(sources, remote.id) matches Some(source) ==> source.source_version()
            == remote.last_version,
    ensures
        remote_read(remote, sources) == remote,
{
}

/// After an update, an instance that was kept before, is still selected and whose spectrum is
/// at hand in another version than the one last read holds exactly the levels of that
/// spectrum, if it has a place for each.
pub proof fn update_brings_the_levels<R: SpectrumSource>(
    remotes: Seq<RemoteView>,
    selected: Seq<InstanceId>,
    sources: Seq<(InstanceId, R)>,
    i: int,
    source: R,
)
    requires
        0 <= i < remotes.len(),
        remotes_selected(remotes, selected),
        source_of(sources, remotes[i].id) == Some(source),
        source.source_version() != remotes[i].last_version,
        remotes[i].bins.len() == source.levels_a().len(),
    ensures
        remotes_updated(remotes, selected, sources).len() >= remotes.len(),
        remotes_updated(remotes, selected, sources)[i].id == remotes[i].id,
        remotes_updated(remotes, selected, sources)[i].bins == source.levels_a(),
        remotes_updated(remotes, selected, sources)[i].last_version == source.source_version(),
{
    still_selected_is_selected(remotes, selected);
    joined_keeps_the_old_ones(remotes, selected, sources);
    let present = joined(remotes, selected, sources);
    assert(present[i] == remotes[i]);
    newer_spectrum_is_read(remotes[i], sources, source);
}

/// Instances that join do so behind those that are there, which stay as they are.
pub proof fn joined_keeps_the_old_ones<R: SpectrumSource>(
    remotes: Seq<RemoteView>,
    selected: Seq<InstanceId>,
    sources: Seq<(InstanceId, R)>,
)
    ensures
        joined(remotes, selected, sources).len() >= remotes.len(),
        forall|i: int|
            0 <= i < remotes.len() ==> #[trigger] joined(remotes, selected, sources)[i]
                == remotes[i],
    decreases selected.len(),
{
    if selected.len() > 0 {
        joined_keeps_the_old_ones(remotes, selected.drop_last(), sources);
    }
}

/// A newly selected instance is kept as one of which nothing was read: every level is the
/// floor, every difference zero, and no version is known. With its spectrum not at hand it
/// does not join, nor does it join twice.
pub proof fn joining_adds_a_silent_instance<R: SpectrumSource>(
    remotes: Seq<RemoteView>,
    selected: Seq<InstanceId>,
    sources: Seq<(InstanceId, R)>,
    id: InstanceId,
)
    ensures
        ({
            let before = joined(remotes, selected, sources);
            let after = joined(remotes, selected.push(id), sources);
            let known = exists|i: int| 0 <= i < before.len() && (#[trigger] before[i]).id == id;
            match source_of(sources, id) {
                Some(source) if !known => {
                    &&& after.len() == before.len() + 1
                    &&& after.drop_last() == before
                    &&& after.last().id == id
                    &&& after.last().last_version == 0
                    &&& after.last().diff_local_version == 0
                    &&& after.last().diff_remote_version == 0
                    &&& after.last().bins.len() == source.levels_a().len()
                    &&& after.last().diff_bins.len() == source.levels_a().len()
                    &&& forall|k: int|
                        0 <= k < after.last().bins.len() ==> #[trigger] after.last().bins[k]
                            == 0xC2B4_0000u32
                    &&& forall|k: int|
                        0 <= k < after.last().diff_bins.len()
                            ==> #[trigger] after.last().diff_bins[k] == 0
                },
                _ => after == before,
            }
        }),
{
    let before = joined(remotes, selected, sources);
    let longer = selected.push(id);
    assert(longer.drop_last() =~= selected);
    assert(longer.last() == id);
    let after = joined(remotes, longer, sources);
    if source_of(sources, id) is Some && !has_remote(before, id) {
        assert(after.drop_last() =~= before);
    }
}

/// Without a selection nobody joins.
pub proof fn nobody_joins_unselected<R: SpectrumSource>(
    remotes: Seq<RemoteView>,
    sources: Seq<(InstanceId, R)>,
)
    ensures
        joined(remotes, Seq::empty(), sources) == remotes,
{
}

/// Whether an instance stays depends on the selection alone, and those that stay keep their
/// order and what is kept of them: one after the other, each stays as it is or leaves.
pub proof fn staying_is_by_selection(
    remotes: Seq<RemoteView>,
    remote: RemoteView,
    selected: Seq<InstanceId>,
)
    ensures
        still_selected(Seq::empty(), selected) == Seq::<RemoteView>::empty(),
        selected.contains(remote.id) ==> still_selected(remotes.push(remote), selected)
            == still_selected(remotes, selected).push(remote),
        !selected.contains(remote.id) ==> still_selected(remotes.push(remote), selected)
            == still_selected(remotes, selected),
{
    assert(remotes.push(remote).drop_last() =~= remotes);
}

/// Differences are taken only when both sides are newer than the last differences: if either
/// is not, nothing that is kept of the other instance changes.
pub proof fn differences_wait_for_both_sides(
    subtract: spec_fn(u32, u32) -> u32,
    bins_a: Seq<u32>,
    local_version: u32,
    remote: RemoteView,
)
    requires
        local_version <= remote.diff_local_version || remote.last_version
            <= remote.diff_remote_version,
    ensures
        diff_read(subtract, bins_a, local_version, remote) == remote,
{
}

/// A difference, old or new, is never anything but the local level minus the other level, and
/// only differences and their versions change.
pub proof fn differences_are_local_minus_remote(
    subtract: spec_fn(u32, u32) -> u32,
    bins_a: Seq<u32>,
    local_version: u32,
    remote: RemoteView,
    i: int,
)
    ensures
        ({
            let after = diff_read(subtract, bins_a, local_version, remote);
            &&& after.diff_bins.len() == remote.diff_bins.len()
            &&& 0 <= i < remote.diff_bins.len() && after.diff_bins[i] != remote.diff_bins[i] ==> {
                &&& i < bins_a.len()
                &&& i < remote.bins.len()
                &&& after.diff_bins[i] == subtract(bins_a[i], remote.bins[i])
            }
            &&& after.id == remote.id
            &&& after.bins == remote.bins
            &&& after.last_version == remote.last_version
            &&& after.diff_local_version >= remote.diff_local_version
            &&& after.diff_remote_version >= remote.diff_remote_version
        }),
{
}

/// Where this instance and another show the same levels and a level minus itself is nothing,
/// the differences that are taken are nothing.
pub proof fn equal_levels_differ_by_nothing(
    subtract: spec_fn(u32, u32) -> u32,
    nothing: u32,
    bins_a: Seq<u32>,
    local_version: u32,
    remote: RemoteView,
    i: int,
)
    requires
        forall|x: u32| #[trigger] subtract(x, x) == nothing,
        local_version > remote.diff_local_version,
        remote.last_version > remote.diff_remote_version,
        0 <= i < remote.diff_bins.len(),
        i < bins_a.len(),
        i < remote.bins.len(),
        bins_a[i] == remote.bins[i],
    ensures
        diff_read(subtract, bins_a, local_version, remote).diff_bins[i] == nothing,
{
}

/// A spectrum of the version that is shown is not read again; one of another version is read,
/// bin by bin as far as there is room, the secondary row only in mode Both. Nothing else of the
/// display changes.
pub proof fn local_levels_are_read(ui: UiView)
    ensures
        ui.spectrum.version == ui.last_version ==> local_read(ui) == ui,
        ui.spectrum.version != ui.last_version ==> {
            let after = local_read(ui);
            &&& after.last_version == ui.spectrum.version
            &&& after.bins_a.len() == ui.bins_a.len()
            &&& after.bins_b.len() == ui.bins_b.len()
            &&& forall|k: int|
                0 <= k < ui.bins_a.len() ==> #[trigger] after.bins_a[k] == (if k
                    < ui.spectrum.bins_a.len() {
                    ui.spectrum.bins_a[k]
                } else {
                    ui.bins_a[k]
                })
            &&& ui.spectrum.mode != 1 ==> after.bins_b == ui.bins_b
            &&& ui.spectrum.mode == 1 ==> forall|k: int|
                0 <= k < ui.bins_b.len() ==> #[trigger] after.bins_b[k] == (if k
                    < ui.spectrum.bins_b.len() {
                    ui.spectrum.bins_b[k]
                } else {
                    ui.bins_b[k]
                })
            &&& after.spectrum == ui.spectrum
            &&& after.selected_ids == ui.selected_ids
            &&& after.remotes == ui.remotes
            &&& after.view_mode == ui.view_mode
            &&& after.instance_id == ui.instance_id
            &&& after.instance_name == ui.instance_name
            &&& after.editing_name == ui.editing_name
        },
{
}

/// Names are saved one after the other in the order of the selection; an instance that is not
/// registered has none to save.
pub proof fn names_are_saved_in_order<S>(
    reg: RegistryView<S>,
    ids: Seq<InstanceId>,
    id: InstanceId,
)
    ensures
        names_of(reg, Seq::empty()) == Seq::<Seq<char>>::empty(),
        reg.instances.contains_key(id.0) ==> names_of(reg, ids.push(id)) == names_of(
            reg,
            ids,
        ).push(reg.instances[id.0].name),
        !reg.instances.contains_key(id.0) ==> names_of(reg, ids.push(id)) == names_of(reg, ids),
{
    assert(ids.push(id).drop_last() =~= ids);
}

/// Selected names are looked up one after the other: a name that some instance bears gives one
/// instance that bears it, behind those of the names before; a name that none bears gives
/// nothing.
pub proof fn names_are_looked_up_in_order<S>(
    reg: RegistryView<S>,
    names: Seq<Seq<char>>,
    name: Seq<char>,
    ids: Seq<InstanceId>,
)
    ensures
        resolved(reg, Seq::empty(), ids) <==> ids.len() == 0,
        (forall|id: u32| reg.instances.contains_key(id) ==> #[trigger] reg.instances[id].name != name)
            ==> (resolved(reg, names.push(name), ids) <==> resolved(reg, names, ids)),
        (exists|id: u32| reg.instances.contains_key(id) && #[trigger] reg.instances[id].name == name)
            ==> (resolved(reg, names.push(name), ids) <==> {
            &&& ids.len() > 0
            &&& reg.instances.contains_key(ids.last().0)
            &&& reg.instances[ids.last().0].name == name
            &&& resolved(reg, names, ids.drop_last())
        }),
{
    let longer = names.push(name);
    assert(longer.drop_last() =~= names);
    assert(longer.last() == name);
    if exists|id: u32| reg.instances.contains_key(id) && #[trigger] reg.instances[id].name == name {
        let id = choose|id: u32|
            reg.instances.contains_key(id) && #[trigger] reg.instances[id].name == name;
        assert(name_in(reg, id) == Some(name));
        assert(name_taken(reg, name));
    } else if name_taken(reg, name) {
        let id = choose|id: u32| #[trigger] name_in(reg, id) == Some(name);
        assert(reg.instances[id].name == name);
    }
}

/// What is saved is the name, the names of the selected instances and the view mode.
pub proof fn saved_is_what_is_shown<S>(ui: UiView, reg: RegistryView<S>)
    ensures
        saved(ui, reg).instance_name == ui.instance_name,
        saved(ui, reg).selected_remote_names == names_of(reg, ui.selected_ids),
        ui.view_mode == ViewMode::Both ==> saved(ui, reg).view_mode == 0,
        ui.view_mode == ViewMode::Normal ==> saved(ui, reg).view_mode == 1,
        ui.view_mode == ViewMode::Diff ==> saved(ui, reg).view_mode == 2,
{
}

/// A saved state brings its view mode, its name and its selection, and whether instances are
/// compared follows from the selection. A name that is being edited stays, and so does any
/// name where the saved one is empty. Nothing else changes.
pub proof fn restoring_changes_what_was_saved(
    ui: UiView,
    state: PersistentView,
    ids: Seq<InstanceId>,
)
    ensures
        ({
            let after = restored(ui, state, ids);
            &&& after.selected_ids == ids
            &&& after.spectrum.has_remotes <==> ids.len() > 0
            &&& state.view_mode == 1 ==> after.view_mode == ViewMode::Normal
            &&& state.view_mode == 2 ==> after.view_mode == ViewMode::Diff
            &&& state.view_mode == 0 || state.view_mode > 2 ==> after.view_mode == ViewMode::Both
            &&& ui.editing_name || state.instance_name.len() == 0 ==> after.instance_name
                == ui.instance_name
            &&& !ui.editing_name && state.instance_name.len() > 0 ==> after.instance_name
                == state.instance_name
            &&& after.bins_a == ui.bins_a
            &&& after.bins_b == ui.bins_b
            &&& after.last_version == ui.last_version
            &&& after.remotes == ui.remotes
            &&& after.instance_id == ui.instance_id
            &&& after.editing_name == ui.editing_name
            &&& after.spectrum.bins_a == ui.spectrum.bins_a
            &&& after.spectrum.bins_b == ui.spectrum.bins_b
            &&& after.spectrum.center_freqs == ui.spectrum.center_freqs
            &&& after.spectrum.sample_rate == ui.spectrum.sample_rate
            &&& after.spectrum.mode == ui.spectrum.mode
            &&& after.spectrum.version == ui.spectrum.version
        }),
{
}

/// Noting whether instances are compared changes nothing else, and it is noted exactly when
/// one is selected.
pub proof fn comparing_is_noted(ui: UiView)
    ensures
        flagged(ui).spectrum.has_remotes <==> ui.selected_ids.len() > 0,
        flagged(ui) == (UiView {
            spectrum: SpectrumView {
                has_remotes: flagged(ui).spectrum.has_remotes,
                ..ui.spectrum
            },
            ..ui
        }),
{
}

/// Switching on adds at the end; switching off takes out one place and leaves the others in
/// their order.
pub proof fn toggling_keeps_the_order(selected: Seq<InstanceId>, id: InstanceId)
    ensures
        !selected.contains(id) ==> toggled(selected, id) == selected.push(id),
        selected.contains(id) ==> exists|i: int|
            0 <= i < selected.len() && #[trigger] selected[i] == id && (forall|j: int|
                0 <= j < i ==> selected[j] != id) && toggled(selected, id) == selected.take(i)
                + selected.skip(i + 1),
{
    first_place_is_right(selected, id);
    if selected.contains(id) {
        let p = first_place(selected, id);
        assert(selected[p] == id);
        assert(toggled(selected, id) =~= selected.take(p) + selected.skip(p + 1));
    }
}

/// Whoever is behind the old ones has newly joined, and nothing was read of it yet.
proof fn joined_adds_new_ones<R: SpectrumSource>(
    remotes: Seq<RemoteView>,
    selected: Seq<InstanceId>,
    sources: Seq<(InstanceId, R)>,
)
    ensures
        forall|i: int|
            remotes.len() <= i < joined(remotes, selected, sources).len() ==> {
                let new = #[trigger] joined(remotes, selected, sources)[i];
                &&& source_of(sources, new.id) is Some
                &&& new == new_remote(new.id, source_of(sources, new.id)->0.levels_a().len())
            },
    decreases selected.len(),
{
    joined_keeps_the_old_ones(remotes, selected, sources);
    if selected.len() > 0 {
        joined_adds_new_ones(remotes, selected.drop_last(), sources);
    }
}

/// A selected instance of which nothing was kept, and whose spectrum is at hand with a version
/// other than 0, is kept after an update with exactly the levels of that spectrum.
pub proof fn newcomers_are_read<R: SpectrumSource>(
    remotes: Seq<RemoteView>,
    selected: Seq<InstanceId>,
    sources: Seq<(InstanceId, R)>,
    id: InstanceId,
    source: R,
) -> (i: int)
    requires
        selected.contains(id),
        !has_remote(remotes, id),
        source_of(sources, id) == Some(source),
        source.source_version() != 0,
    ensures
        0 <= i < remotes_updated(remotes, selected, sources).len(),
        remotes_updated(remotes, selected, sources)[i].id == id,
        remotes_updated(remotes, selected, sources)[i].bins == source.levels_a(),
        remotes_updated(remotes, selected, sources)[i].last_version == source.source_version(),
{
    let old_ones = still_selected(remotes, selected);
    let present = joined(old_ones, selected, sources);
    still_selected_is_selected(remotes, selected);
    joined_is_complete(old_ones, selected, sources);
    joined_keeps_the_old_ones(old_ones, selected, sources);
    joined_adds_new_ones(old_ones, selected, sources);
    let k = choose|k: int| 0 <= k < selected.len() && selected[k] == id;
    assert(has_remote(present, selected[k]));
    let i = choose|i: int| 0 <= i < present.len() && (#[trigger] present[i]).id == id;
    if i < old_ones.len() {
        assert(has_remote(remotes, old_ones[i].id));
        assert(present[i] == old_ones[i]);
    }
    newer_spectrum_is_read(present[i], sources, source);
    i
}

/// Every instance that an update keeps was kept before or is new, and is then read, or left as
/// it is, for itself: no other instance and no other place plays a part.
pub proof fn instances_are_read_for_themselves<R: SpectrumSource>(
    remotes: Seq<RemoteView>,
    selected: Seq<InstanceId>,
    sources: Seq<(InstanceId, R)>,
    i: int,
)
    requires
        remotes_selected(remotes, selected),
        0 <= i < remotes.len(),
    ensures
        remotes_updated(remotes, selected, sources).len() >= remotes.len(),
        remotes_updated(remotes, selected, sources)[i] == remote_read(remotes[i], sources),
        source_of(sources, remotes[i].id) is None ==> remotes_updated(
            remotes,
            selected,
            sources,
        )[i] == remotes[i],
{
    still_selected_is_selected(remotes, selected);
    joined_keeps_the_old_ones(remotes, selected, sources);
}

/// A source shows the spectrum that it stands for, of this process or of another one.
pub proof fn source_shows_its_spectrum(local: SpectrumData, shared: SharedMemorySpectrum)
    ensures
        Source::Local(local).levels_a() == local@.bins_a,
        Source::Local(local).levels_b() == local@.bins_b,
        Source::Local(local).centers() == local@.center_freqs,
        Source::Local(local).source_mode() == local@.mode,
        Source::Local(local).source_version() == local@.version,
        Source::Shared(shared).levels_a() == shared.levels_a(),
        Source::Shared(shared).levels_b() == shared.levels_b(),
        Source::Shared(shared).centers() == shared.centers(),
        Source::Shared(shared).source_mode() == shared.source_mode(),
        Source::Shared(shared).source_version() == shared.source_version(),
{
}

/// Texts and instances are looked at in the places where they stand.
pub proof fn items_are_seen_in_their_places(
    strings: Seq<String>,
    remotes: Seq<RemoteCache>,
    i: int,
)
    ensures
        texts(strings).len() == strings.len(),
        0 <= i < strings.len() ==> texts(strings)[i] == strings[i]@,
        remote_views(remotes).len() == remotes.len(),
        0 <= i < remotes.len() ==> {
            let seen = remote_views(remotes)[i];
            &&& seen.id == remotes[i].id
            &&& seen.bins == remotes[i].bins@
            &&& seen.last_version == remotes[i].last_version
            &&& seen.diff_bins == remotes[i].diff_bins@
            &&& seen.diff_local_version == remotes[i].diff_local_version
            &&& seen.diff_remote_version == remotes[i].diff_remote_version
        },
{
}

} // verus!
