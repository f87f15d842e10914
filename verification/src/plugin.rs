//! The plugin: how it comes and goes, what it does with audio, and what it saves.

use vstd::prelude::*;
use vstd::utf8::encode_utf8;

use crate::analyzer::{needs_kernels, poll_fits, power_at_least, reset_to, stepped};
use crate::analyzer::{AnalyzerCore, AnalyzerView, KernelPoll};
use crate::arithmetic::{functional2, image2, Arithmetic};
use crate::file_registry::{kept, others, removed_instance_is_gone};
use crate::file_registry::{FileRegistry, FileRegistryEntry};
use crate::region::{region_of, total_size};
use crate::registry::{default_name, deregister, deregistered, name_in, name_of, register};
use crate::registry::{register_then_deregister, registered, rename, renamed};
use crate::registry::{InstanceId, RegistryInner, RegistryView};
use crate::shmem::{created, object_name, SharedMemoryWriter, WriterView};
use crate::spectrum::{silent, SpectrumData, SpectrumView};
use crate::spectrum::{MODE_BOTH, MODE_DIFF, MODE_LEFT, MODE_RIGHT, MODE_SUM};
use crate::ui_state::{flagged, restored, PersistentState, PersistentView, UiView};
use crate::worker::fed;

verus! {

/// Which channels are analyzed.
#[derive(Clone, Copy, PartialEq, Eq, Structural)]
pub enum ChannelMode {
    Sum,
    Both,
    Left,
    Right,
    Diff,
}

impl ChannelMode {
    /// The number of a mode.
    pub open spec fn number(self) -> u8 {
        match self {
            ChannelMode::Sum => MODE_SUM,
            ChannelMode::Both => MODE_BOTH,
            ChannelMode::Left => MODE_LEFT,
            ChannelMode::Right => MODE_RIGHT,
            ChannelMode::Diff => MODE_DIFF,
        }
    }

    /// The number of the mode.
    pub fn as_mode_u8(self) -> (mode: u8)
        ensures
            mode == self.number(),
    {
        match self {
            ChannelMode::Left => MODE_LEFT,
            ChannelMode::Right => MODE_RIGHT,
            ChannelMode::Sum => MODE_SUM,
            ChannelMode::Diff => MODE_DIFF,
            ChannelMode::Both => MODE_BOTH,
        }
    }

    /// The label of the mode.
    pub fn label(self) -> (label: &'static str)
        ensures
            label@ == (match self {
                ChannelMode::Sum => "Sum"@,
                ChannelMode::Both => "Both"@,
                ChannelMode::Left => "Left"@,
                ChannelMode::Right => "Right"@,
                ChannelMode::Diff => "Diff"@,
            }),
    {
        match self {
            ChannelMode::Sum => "Sum",
            ChannelMode::Both => "Both",
            ChannelMode::Left => "Left",
            ChannelMode::Right => "Right",
            ChannelMode::Diff => "Diff",
        }
    }
}

/// The mode that is analyzed. While instances are compared it is the mean of both channels,
/// whatever was chosen.
pub open spec fn mode_for(has_remotes: bool, channel: ChannelMode) -> u8 {
    if has_remotes {
        MODE_SUM
    } else {
        channel.number()
    }
}

/// Samples multiplied by a gain each.
pub open spec fn amplified(
    multiply: spec_fn(u32, u32) -> u32,
    samples: Seq<u32>,
    gains: Seq<u32>,
) -> Seq<u32> {
    Seq::new(gains.len(), |i: int| multiply(samples[i], gains[i]))
}

/// The samples of each channel.
pub open spec fn channel_samples(channels: Seq<Vec<u32>>) -> Seq<Seq<u32>> {
    Seq::new(channels.len(), |ch: int| channels[ch]@)
}

/// Each channel multiplied by the gains.
pub open spec fn all_amplified(
    multiply: spec_fn(u32, u32) -> u32,
    channels: Seq<Seq<u32>>,
    gains: Seq<u32>,
) -> Seq<Seq<u32>> {
    Seq::new(channels.len(), |ch: int| amplified(multiply, channels[ch], gains))
}

/// The frames that the analyzer gets: the first two channels, or the only one on both sides.
pub open spec fn analyzed(channels: Seq<Seq<u32>>, count: nat) -> Seq<(u32, u32)> {
    Seq::new(
        count,
        |i: int|
            (
                channels[0][i],
                channels[if channels.len() < 2 {
                    0
                } else {
                    1
                }][i],
            ),
    )
}

/// Multiplies each channel by the gains.
pub fn amplify<Multiply: Fn(u32, u32) -> u32>(
    inputs: &Vec<Vec<u32>>,
    gains: &Vec<u32>,
    multiply: &Multiply,
) -> (outputs: Vec<Vec<u32>>)
    requires
        functional2(*multiply),
        forall|ch: int| 0 <= ch < inputs@.len() ==> gains@.len() <= (#[trigger] inputs@[ch])@.len(),
    ensures
        channel_samples(outputs@) == all_amplified(
            |x: u32, g: u32| image2(*multiply, x, g),
            channel_samples(inputs@),
            gains@,
        ),
{
    let ghost times = |x: u32, g: u32| image2(*multiply, x, g);
    let mut outputs: Vec<Vec<u32>> = Vec::new();
    let mut ch: usize = 0;
    while ch < inputs.len()
        invariant
            ch <= inputs.len(),
            functional2(*multiply),
            times == (|x: u32, g: u32| image2(*multiply, x, g)),
            outputs@.len() == ch,
            forall|c: int|
                0 <= c < inputs@.len() ==> gains@.len() <= (#[trigger] inputs@[c])@.len(),
            forall|c: int|
                0 <= c < ch ==> (#[trigger] outputs@[c])@ == amplified(
                    times,
                    inputs@[c]@,
                    gains@,
                ),
        decreases inputs.len() - ch,
    {
        let input = &inputs[ch];
        let mut output: Vec<u32> = Vec::new();
        let mut i: usize = 0;
        while i < gains.len()
            invariant
                i <= gains.len(),
                gains@.len() <= input@.len(),
                functional2(*multiply),
                times == (|x: u32, g: u32| image2(*multiply, x, g)),
                output@ == amplified(times, input@, gains@).take(i as int),
            decreases gains.len() - i,
        {
            output.push(multiply(input[i], gains[i]));
            i = i + 1;
            assert(output@ =~= amplified(times, input@, gains@).take(i as int));
        }
        assert(output@ =~= amplified(times, input@, gains@));
        outputs.push(output);
        ch = ch + 1;
    }
    assert(channel_samples(outputs@) =~= all_amplified(times, channel_samples(inputs@), gains@));
    outputs
}

/// What the plugin holds.
#[verifier::ext_equal]
#[verifier::reject_recursive_types(C)]
pub struct PluginView<C> {
    pub core: AnalyzerView<C>,
    pub instance_id: InstanceId,
    pub state: PersistentView,
}

/// The plugin.
pub struct TruceAnalyzer<C> {
    core: AnalyzerCore<C>,
    instance_id: InstanceId,
    state: PersistentState,
}

impl<C> View for TruceAnalyzer<C> {
    type V = PluginView<C>;

    closed spec fn view(&self) -> PluginView<C> {
        PluginView { core: self.core@, instance_id: self.instance_id, state: self.state@ }
    }
}

/// The plugin after it took over a saved state.
pub open spec fn loaded<C>(plugin: PluginView<C>, state: PersistentView) -> PluginView<C> {
    PluginView { state, ..plugin }
}

/// The registry after an instance took over a saved state: a name in it becomes the
/// instance's name.
pub open spec fn name_loaded<S>(
    reg: RegistryView<S>,
    id: u32,
    state: PersistentView,
) -> RegistryView<S> {
    if state.instance_name.len() > 0 {
        renamed(reg, id, state.instance_name)
    } else {
        reg
    }
}

impl<C: Copy> TruceAnalyzer<C> {
    /// The analyzer is in order.
    pub closed spec fn wf(&self) -> bool {
        self.core.wf()
    }

    /// A new instance: it is registered, gets a name, sets up its shared region, if the
    /// system granted one, and enters the common list. `shared` is what others see of its
    /// spectrum, `region` the region for the number that comes next.
    pub fn new<S>(
        spectrum: SpectrumData,
        shared: S,
        region: Option<Vec<u8>>,
        reg: &mut RegistryInner<S>,
        file: &mut FileRegistry,
        pid: u32,
        alive: &Vec<bool>,
    ) -> (plugin: Self)
        requires
            spectrum.wf(),
            total_size(spectrum@.center_freqs.len()) <= usize::MAX,
            region matches Some(bytes) ==> bytes@.len() == total_size(
                spectrum@.center_freqs.len(),
            ),
            old(reg).wf(),
            old(reg)@.next_id < u32::MAX,
            alive@.len() == old(file).instances@.len(),
        ensures
            plugin.wf(),
            final(reg).wf(),
            final(reg)@ == registered(old(reg)@, None, shared),
            ({
                let id = (old(reg)@.next_id + 1) as u32;
                let n = spectrum@.center_freqs.len();
                let name = default_name(id);
                &&& plugin@ == (PluginView {
                    core: AnalyzerView::<C> {
                        spectrum: spectrum@,
                        fft_size: 0,
                        left: seq![],
                        right: seq![],
                        hop: 0,
                        smoothed_a: silent(n),
                        smoothed_b: silent(n),
                        kernels: seq![],
                        ready: false,
                        pending: false,
                        writer: match region {
                            Some(bytes) => Some(
                                WriterView {
                                    fields: created(
                                        region_of(bytes@, n),
                                        encode_utf8(name),
                                        n as usize,
                                    ),
                                    num_bins: n,
                                    shm_name: object_name(id),
                                },
                            ),
                            None => None,
                        },
                    },
                    instance_id: InstanceId(id),
                    state: PersistentView {
                        instance_name: name,
                        selected_remote_names: seq![],
                        view_mode: 0,
                    },
                })
                &&& final(file).instances@.len() == kept(old(file).instances@, alive@).len() + 1
                &&& final(file).instances@.drop_last() == kept(old(file).instances@, alive@)
                &&& final(file).instances@.last().id == id
                &&& final(file).instances@.last().name@ == name
                &&& final(file).instances@.last().shm_name@ == object_name(id)
                &&& final(file).instances@.last().pid == pid
            }),
    {
        let num_bins: usize = spectrum.num_bins();
        let instance_id = register(reg, None, shared);
        let instance_name: String = match name_of(reg, instance_id) {
            Some(name) => name,
            None => "".to_owned(),
        };
        let mut core: AnalyzerCore<C> = AnalyzerCore::new(spectrum);
        match SharedMemoryWriter::create(
            instance_id.0,
            instance_name.as_str(),
            num_bins,
            region,
        ) {
            Some(writer) => {
                core.set_shmem_writer(writer);
            },
            None => {},
        }
        file.add(instance_id.0, instance_name.as_str(), pid, alive);
        let state = PersistentState {
            instance_name,
            selected_remote_names: Vec::new(),
            view_mode: 0,
        };
        assert(state@.selected_remote_names =~= seq![]);
        TruceAnalyzer { core, instance_id, state }
    }

    /// Takes the instance out of the registry and of the common list.
    pub fn retire<S>(&self, reg: &mut RegistryInner<S>, file: &mut FileRegistry)
        requires
            old(reg).wf(),
        ensures
            final(reg).wf(),
            final(reg)@ == deregistered(old(reg)@, self@.instance_id.0),
            final(file).instances@ == kept(
                old(file).instances@,
                others(old(file).instances@, self@.instance_id.0),
            ),
    {
        deregister(reg, self.instance_id);
        file.remove(self.instance_id.0);
    }

    /// Processes a block: every channel is multiplied by the gains, and the analyzer gets the
    /// first two channels of what comes out. Without channels nothing happens.
    pub fn process<
        Multiply,
        Poll,
        HalfSum,
        HalfDifference,
        Transform,
        Accumulate,
        Level,
        Smooth,
    >(
        &mut self,
        inputs: &Vec<Vec<u32>>,
        gains: &Vec<u32>,
        channel: ChannelMode,
        multiply: &Multiply,
        poll: &Poll,
        math: &Arithmetic<C, HalfSum, HalfDifference, Transform, Accumulate, Level, Smooth>,
    ) -> (outputs: Vec<Vec<u32>>) where
        Multiply: Fn(u32, u32) -> u32,
        Poll: Fn() -> KernelPoll<C>,
        HalfSum: Fn(u32, u32) -> u32,
        HalfDifference: Fn(u32, u32) -> u32,
        Transform: Fn(Vec<u32>) -> Vec<C>,
        Accumulate: Fn(C, C, C) -> C,
        Level: Fn(C, usize) -> u32,
        Smooth: Fn(u32, u32, u32) -> u32,

        requires
            old(self).wf(),
            functional2(*multiply),
            math.wf(),
            poll.requires(()),
            forall|p: KernelPoll<C>| #[trigger]
                poll.ensures((), p) ==> poll_fits(old(self)@.core, p),
            forall|ch: int|
                0 <= ch < inputs@.len() ==> gains@.len() <= (#[trigger] inputs@[ch])@.len(),
        ensures
            final(self).wf(),
            final(self)@.instance_id == old(self)@.instance_id,
            final(self)@.state == old(self)@.state,
            channel_samples(outputs@) == all_amplified(
                |x: u32, g: u32| image2(*multiply, x, g),
                channel_samples(inputs@),
                gains@,
            ),
            inputs@.len() == 0 ==> final(self)@ == old(self)@,
            inputs@.len() > 0 ==> fed(
                math@,
                *poll,
                AnalyzerView {
                    spectrum: SpectrumView {
                        mode: mode_for(old(self)@.core.spectrum.has_remotes, channel),
                        ..old(self)@.core.spectrum
                    },
                    ..old(self)@.core
                },
                analyzed(channel_samples(outputs@), gains@.len()),
                final(self)@.core,
            ),
    {
        let outputs = amplify(inputs, gains, multiply);
        let ghost samples = channel_samples(outputs@);
        assert(samples.len() == inputs@.len());
        if outputs.len() == 0 {
            return outputs;
        }
        let mode: u8 = if self.core.spectrum().has_remotes() {
            MODE_SUM
        } else {
            channel.as_mode_u8()
        };
        self.core.set_mode(mode);
        let ghost start = self.core@;
        let right_channel: usize = if outputs.len() < 2 {
            0
        } else {
            1
        };
        let left_samples = &outputs[0];
        let right_samples = &outputs[right_channel];
        proof {
            assert(left_samples@ == samples[0]);
            assert(right_samples@ == samples[right_channel as int]);
        }
        let mut i: usize = 0;
        while i < gains.len()
            invariant
                i <= gains.len(),
                samples == channel_samples(outputs@),
                samples.len() > 0,
                right_channel == (if samples.len() < 2 {
                    0int
                } else {
                    1
                }),
                left_samples@ == samples[0],
                right_samples@ == samples[right_channel as int],
                left_samples@.len() == gains@.len(),
                right_samples@.len() == gains@.len(),
                self.core.wf(),
                self@.instance_id == old(self)@.instance_id,
                self@.state == old(self)@.state,
                math.wf(),
                poll.requires(()),
                forall|p: KernelPoll<C>| #[trigger] poll.ensures((), p) ==> poll_fits(start, p),
                self.core@.fft_size == start.fft_size,
                self.core@.spectrum.center_freqs == start.spectrum.center_freqs,
                fed(math@, *poll, start, analyzed(samples, i as nat), self.core@),
            decreases gains.len() - i,
        {
            let ghost mid = self.core@;
            self.core.process_stereo(left_samples[i], right_samples[i], poll, math);
            proof {
                let so_far = analyzed(samples, (i + 1) as nat);
                assert(so_far.drop_last() =~= analyzed(samples, i as nat));
                assert(stepped(math@, *poll, mid, so_far.last(), self.core@));
            }
            i = i + 1;
        }
        outputs
    }

    /// What is to be saved.
    pub fn save_state(&self) -> (state: &PersistentState)
        ensures
            state@ == self@.state,
    {
        &self.state
    }

    /// Takes over a saved state, if there is one. A name in it becomes the instance's name.
    pub fn load_state<S>(&mut self, state: Option<PersistentState>, reg: &mut RegistryInner<S>)
        requires
            old(self).wf(),
            old(reg).wf(),
        ensures
            final(self).wf(),
            final(reg).wf(),
            match state {
                Some(ps) => {
                    &&& final(self)@ == loaded(old(self)@, ps@)
                    &&& final(reg)@ == name_loaded(old(reg)@, old(self)@.instance_id.0, ps@)
                },
                None => final(self)@ == old(self)@ && final(reg)@ == old(reg)@,
            },
    {
        match state {
            Some(ps) => {
                if !ps.instance_name.as_str().is_empty() {
                    rename(reg, self.instance_id, ps.instance_name.as_str());
                }
                self.state = ps;
            },
            None => {},
        }
    }

    /// The number of the instance.
    pub fn instance_id(&self) -> (id: InstanceId)
        ensures
            id == self@.instance_id,
    {
        self.instance_id
    }

    /// The analyzer.
    pub fn analyzer(&self) -> (core: &AnalyzerCore<C>)
        requires
            self.wf(),
        ensures
            core@ == self@.core,
            core.wf(),
    {
        &self.core
    }

    /// Says whether other instances are being compared with this one.
    pub fn set_has_remotes(&mut self, v: bool)
        requires
            old(self).wf(),
        ensures
            final(self).wf(),
            final(self)@ == (PluginView {
                core: AnalyzerView {
                    spectrum: SpectrumView { has_remotes: v, ..old(self)@.core.spectrum },
                    ..old(self)@.core
                },
                ..old(self)@
            }),
    {
        self.core.set_has_remotes(v);
    }

    /// Sets the sample rate, at which the longest window takes `max_window` samples, and says
    /// whether kernels are to be made.
    pub fn reset(&mut self, sample_rate: u32, max_window: usize) -> (generate: bool)
        requires
            old(self).wf(),
            power_at_least(max_window as nat) <= usize::MAX,
        ensures
            final(self).wf(),
            final(self)@ == (PluginView {
                core: reset_to(old(self)@.core, sample_rate, max_window as nat),
                ..old(self)@
            }),
            generate == needs_kernels(old(self)@.core, sample_rate, max_window as nat),
    {
        self.core.reset(sample_rate, max_window)
    }
}

/// While instances are selected for comparison the mean of both channels is analyzed;
/// otherwise the chosen mode is.
pub proof fn comparison_uses_the_sum(ui: UiView, channel: ChannelMode)
    ensures
        ui.selected_ids.len() > 0 ==> mode_for(flagged(ui).spectrum.has_remotes, channel)
            == MODE_SUM,
        ui.selected_ids.len() == 0 ==> mode_for(flagged(ui).spectrum.has_remotes, channel)
            == channel.number(),
{
}

/// A name that was saved is, once loaded, the name in the registry and the one that the
/// display shows, unless it is being edited.
pub proof fn saved_name_comes_back<S>(
    reg: RegistryView<S>,
    ui: UiView,
    state: PersistentView,
    ids: Seq<InstanceId>,
)
    requires
        reg.instances.contains_key(ui.instance_id.0),
        state.instance_name.len() > 0,
        !ui.editing_name,
    ensures
        name_in(name_loaded(reg, ui.instance_id.0, state), ui.instance_id.0) == Some(
            state.instance_name,
        ),
        restored(ui, state, ids).instance_name == state.instance_name,
{
}

/// Loading what one instance saved makes another save the same; that instance gets the saved
/// name, unless it is empty, and no other instance is renamed.
pub proof fn loaded_state_is_saved<C, S>(
    from: PluginView<C>,
    to: PluginView<C>,
    reg: RegistryView<S>,
    other: u32,
)
    requires
        reg.instances.contains_key(to.instance_id.0),
    ensures
        loaded(to, from.state).state == from.state,
        loaded(to, from.state).instance_id == to.instance_id,
        loaded(to, from.state).core == to.core,
        name_in(name_loaded(reg, to.instance_id.0, from.state), to.instance_id.0) == (
        if from.state.instance_name.len() > 0 {
            Some(from.state.instance_name)
        } else {
            name_in(reg, to.instance_id.0)
        }),
        other != to.instance_id.0 ==> name_in(
            name_loaded(reg, to.instance_id.0, from.state),
            other,
        ) == name_in(reg, other),
{
}

/// A mode can be told from its number.
pub proof fn channel_numbers_differ(a: ChannelMode, b: ChannelMode)
    requires
        a.number() == b.number(),
    ensures
        a == b,
{
}

/// An instance that has come and gone leaves the registry as it was, but for its number,
/// and no entry of its number in the common list.
pub proof fn instance_leaves_no_trace<S>(
    reg: RegistryInner<S>,
    shared: S,
    entries: Seq<FileRegistryEntry>,
)
    requires
        reg.wf(),
        reg@.next_id < u32::MAX,
    ensures
        ({
            let id = (reg@.next_id + 1) as u32;
            let after = deregistered(registered(reg@, None, shared), id);
            &&& after.instances == reg@.instances
            &&& after.next_id == id
            &&& forall|j: int|
                0 <= j < kept(entries, others(entries, id)).len() ==> (#[trigger] kept(
                    entries,
                    others(entries, id),
                )[j]).id != id
        }),
{
    register_then_deregister(reg, None, shared);
    removed_instance_is_gone(entries, (reg@.next_id + 1) as u32);
}

/// At unity gain audio passes unchanged.
pub proof fn unity_gain_passes_audio(
    multiply: spec_fn(u32, u32) -> u32,
    unity: u32,
    samples: Seq<u32>,
    gains: Seq<u32>,
)
    requires
        forall|x: u32| #[trigger] multiply(x, unity) == x,
        forall|i: int| 0 <= i < gains.len() ==> gains[i] == unity,
        gains.len() == samples.len(),
    ensures
        amplified(multiply, samples, gains) == samples,
{
    assert(amplified(multiply, samples, gains) =~= samples);
}

/// The analyzer gets, frame by frame, the first channel on the left and the second on the
/// right. Only where there is a single channel is it on both sides; further channels are not
/// analyzed.
pub proof fn left_and_right_are_the_first_two_channels(
    channels: Seq<Seq<u32>>,
    count: nat,
    i: int,
)
    ensures
        analyzed(channels, count).len() == count,
        channels.len() >= 2 && 0 <= i < count ==> analyzed(channels, count)[i] == (channels[0][i], channels[1][i]),
        channels.len() == 1 && 0 <= i < count ==> analyzed(channels, count)[i] == (channels[0][i], channels[0][i]),
{
}

/// Exchanging the first two channels exchanges the sides of every frame, and channels beyond
/// them make no difference.
pub proof fn swapped_channels_swap_the_frames(
    left: Seq<u32>,
    right: Seq<u32>,
    more: Seq<Seq<u32>>,
    count: nat,
    i: int,
)
    requires
        0 <= i < count,
    ensures
        ({
            let straight = analyzed(seq![left, right] + more, count)[i];
            let swapped = analyzed(seq![right, left] + more, count)[i];
            straight.0 == swapped.1 && straight.1 == swapped.0
        }),
        analyzed(seq![left, right] + more, count) == analyzed(seq![left, right], count),
{
    let a = seq![left, right] + more;
    let b = seq![left, right];
    assert(a[0] == left && a[1] == right);
    assert(b[0] == left && b[1] == right);
    assert(analyzed(a, count) =~= analyzed(b, count));
    let c = seq![right, left] + more;
    assert(c[0] == right && c[1] == left);
}

/// Every sample of every channel comes out multiplied by the gain of its place, and nothing
/// else is added or lost.
pub proof fn every_sample_gets_its_gain(
    multiply: spec_fn(u32, u32) -> u32,
    channels: Seq<Seq<u32>>,
    gains: Seq<u32>,
    ch: int,
    i: int,
)
    ensures
        all_amplified(multiply, channels, gains).len() == channels.len(),
        0 <= ch < channels.len() ==> all_amplified(multiply, channels, gains)[ch].len()
            == gains.len(),
        0 <= ch < channels.len() && 0 <= i < gains.len() ==> all_amplified(
            multiply,
            channels,
            gains,
        )[ch][i] == multiply(channels[ch][i], gains[i]),
{
}

/// The samples of a channel are those of the buffer in its place.
pub proof fn channels_keep_their_places(channels: Seq<Vec<u32>>, ch: int)
    requires
        0 <= ch < channels.len(),
    ensures
        channel_samples(channels).len() == channels.len(),
        channel_samples(channels)[ch] == channels[ch]@,
{
}

/// Without comparison each channel choice has its own mode, under the numbers that a spectrum
/// carries.
pub proof fn channel_choices_have_their_modes(channel: ChannelMode)
    ensures
        channel == ChannelMode::Sum ==> mode_for(false, channel) == 0,
        channel == ChannelMode::Both ==> mode_for(false, channel) == 1,
        channel == ChannelMode::Left ==> mode_for(false, channel) == 2,
        channel == ChannelMode::Right ==> mode_for(false, channel) == 3,
        channel == ChannelMode::Diff ==> mode_for(false, channel) == 4,
        mode_for(true, channel) == 0,
{
}

} // verus!
