//! The worker's loop: when it stops, when it resets the analyzer, and how it feeds it.

use vstd::prelude::*;

use crate::analyzer::{difference_is_a_sum, due, mixed, needs_kernels, poll_fits, power_at_least};
use crate::analyzer::{primary_signal, pushed, pushed_all, recent_samples_are_the_newest};
use crate::analyzer::{reset_to, shifted, stepped};
use crate::analyzer::{AnalyzerCore, AnalyzerView, KernelPoll, HOP_SIZE};
use crate::arithmetic::{functional1, image1, Arithmetic, ArithmeticView};
use crate::level::{below, is_below, ZERO};
use crate::spectrum::{next_version, MODE_DIFF, MODE_LEFT, MODE_RIGHT, MODE_SUM};

verus! {

/// The frames that are read at a time.
pub const DRAIN_FRAMES: usize = 2048;

/// The samples of a frame.
pub const CHANNELS: usize = 2;

/// What the worker does next.
#[derive(Clone, Copy, PartialEq, Eq, Structural)]
pub enum WorkerStep {
    /// End.
    Stop,
    /// Set the analyzer to this sample rate, then read frames.
    ResetAndDrain(u32),
    /// Read frames.
    Drain,
}

/// What the worker does on finding these settings, when it last saw `seen` as the number of
/// the reset.
pub open spec fn worker_step(seen: u32, shutdown: bool, version: u32, rate: u32) -> WorkerStep {
    if shutdown {
        WorkerStep::Stop
    } else if version != seen && below(ZERO, rate) {
        WorkerStep::ResetAndDrain(rate)
    } else {
        WorkerStep::Drain
    }
}

/// What the worker remembers from one round to the next.
pub struct WorkerLoop {
    last_reset_version: u32,
}

impl View for WorkerLoop {
    type V = u32;

    closed spec fn view(&self) -> u32 {
        self.last_reset_version
    }
}

impl WorkerLoop {
    /// A worker that has seen no reset.
    pub fn new() -> (w: Self)
        ensures
            w@ == 0,
    {
        WorkerLoop { last_reset_version: 0 }
    }

    /// Looks at the settings and decides what comes next. A pending reset comes before
    /// reading, so that the new rate holds for the frames that follow; one to a rate that is
    /// not positive is passed over.
    pub fn poll_control(
        &mut self,
        shutdown: bool,
        reset_version: u32,
        sample_rate: u32,
    ) -> (step: WorkerStep)
        ensures
            step == worker_step(old(self)@, shutdown, reset_version, sample_rate),
            final(self)@ == seen_after(old(self)@, shutdown, reset_version),
    {
        if shutdown {
            return WorkerStep::Stop;
        }
        if reset_version != self.last_reset_version {
            self.last_reset_version = reset_version;
            if is_below(ZERO, sample_rate) {
                return WorkerStep::ResetAndDrain(sample_rate);
            }
        }
        WorkerStep::Drain
    }
}

/// The frames in a row of samples that alternate between left and right.
pub open spec fn frames_of(samples: Seq<u32>, count: nat) -> Seq<(u32, u32)> {
    Seq::new(count, |f: int| (samples[2 * f], samples[2 * f + 1]))
}

/// `after` can come of `before` by a row of frames.
pub open spec fn fed<C, Poll: FnOnce() -> KernelPoll<C>>(
    m: ArithmeticView<C>,
    poll: Poll,
    before: AnalyzerView<C>,
    frames: Seq<(u32, u32)>,
    after: AnalyzerView<C>,
) -> bool
    decreases frames.len(),
{
    if frames.len() == 0 {
        after == before
    } else {
        exists|mid: AnalyzerView<C>|
            fed(m, poll, before, frames.drop_last(), mid) && #[trigger] stepped(
                m,
                poll,
                mid,
                frames.last(),
                after,
            )
    }
}

/// Feeds the analyzer the frames that were read, one after the other, and says whether there
/// were none, so that the worker may rest.
pub fn drain<C, Poll, HalfSum, HalfDifference, Transform, Accumulate, Level, Smooth>(
    core: &mut AnalyzerCore<C>,
    scratch: &Vec<u32>,
    frames: usize,
    poll: &Poll,
    math: &Arithmetic<C, HalfSum, HalfDifference, Transform, Accumulate, Level, Smooth>,
) -> (idle: bool) where
    C: Copy,
    Poll: Fn() -> KernelPoll<C>,
    HalfSum: Fn(u32, u32) -> u32,
    HalfDifference: Fn(u32, u32) -> u32,
    Transform: Fn(Vec<u32>) -> Vec<C>,
    Accumulate: Fn(C, C, C) -> C,
    Level: Fn(C, usize) -> u32,
    Smooth: Fn(u32, u32, u32) -> u32,

    requires
        old(core).wf(),
        math.wf(),
        poll.requires(()),
        forall|p: KernelPoll<C>| #[trigger] poll.ensures((), p) ==> poll_fits(old(core)@, p),
        CHANNELS * frames <= scratch.len(),
    ensures
        final(core).wf(),
        fed(math@, *poll, old(core)@, frames_of(scratch@, frames as nat), final(core)@),
        final(core)@.fft_size == old(core)@.fft_size,
        final(core)@.spectrum.center_freqs == old(core)@.spectrum.center_freqs,
        idle == (frames == 0),
{
    let ghost start = core@;
    let mut f: usize = 0;
    while f < frames
        invariant
            f <= frames,
            CHANNELS * frames <= scratch.len(),
            core.wf(),
            math.wf(),
            poll.requires(()),
            forall|p: KernelPoll<C>| #[trigger] poll.ensures((), p) ==> poll_fits(start, p),
            core@.fft_size == start.fft_size,
            core@.spectrum.center_freqs == start.spectrum.center_freqs,
            fed(math@, *poll, start, frames_of(scratch@, f as nat), core@),
        decreases frames - f,
    {
        let ghost mid = core@;
        let left: u32 = scratch[f * CHANNELS];
        let right: u32 = scratch[f * CHANNELS + 1];
        core.process_stereo(left, right, poll, math);
        proof {
            let so_far = frames_of(scratch@, (f + 1) as nat);
            assert(so_far.drop_last() =~= frames_of(scratch@, f as nat));
            assert(so_far.last() == (left, right));
            assert(stepped(math@, *poll, mid, so_far.last(), core@));
        }
        f = f + 1;
    }
    frames == 0
}

/// What the worker finds in one round: the settings, and the frames that it reads.
pub struct Round {
    pub shutdown: bool,
    pub version: u32,
    pub rate: u32,
    pub frames: Seq<(u32, u32)>,
}

impl Round {
    /// What the worker does in this round, when it last saw `seen` as the number of the reset.
    pub open spec fn step(self, seen: u32) -> WorkerStep {
        worker_step(seen, self.shutdown, self.version, self.rate)
    }
}

/// The number of the reset that the worker remembers after a round.
pub open spec fn seen_after(seen: u32, shutdown: bool, version: u32) -> u32 {
    if shutdown {
        seen
    } else {
        version
    }
}

/// The analyzer when the worker starts to read. `window` gives the samples of the longest
/// window at a rate.
pub open spec fn begun<C>(
    window: spec_fn(u32) -> usize,
    step: WorkerStep,
    v: AnalyzerView<C>,
) -> AnalyzerView<C> {
    match step {
        WorkerStep::ResetAndDrain(rate) => reset_to(v, rate, window(rate) as nat),
        _ => v,
    }
}

/// `after` can come of `before` by one round: a reset that is pending, then at most
/// `DRAIN_FRAMES` frames, each once and in their order; or nothing, where the worker stops.
pub open spec fn round_done<C, Poll: FnOnce() -> KernelPoll<C>>(
    m: ArithmeticView<C>,
    poll: Poll,
    window: spec_fn(u32) -> usize,
    seen: u32,
    before: AnalyzerView<C>,
    round: Round,
    after: AnalyzerView<C>,
) -> bool {
    if round.step(seen) is Stop {
        round.frames.len() == 0 && after == before
    } else {
        round.frames.len() <= DRAIN_FRAMES && fed(
            m,
            poll,
            begun(window, round.step(seen), before),
            round.frames,
            after,
        )
    }
}

/// How a round ended.
#[derive(Clone, Copy, PartialEq, Eq, Structural)]
pub enum RoundEnd {
    /// The worker is to end.
    Stop,
    /// There were no frames: the worker may rest.
    Idle,
    /// Frames were analyzed.
    Fed,
}

impl WorkerLoop {
    /// One round: looks at the settings, resets the analyzer if that is asked for, reads
    /// frames and analyzes them. `window` gives the samples of the longest window at a rate,
    /// `start` has kernels made for a rate and a size, and `read` reads at most so many frames,
    /// left and right samples in turn. Either is called at most once: nothing that was read is
    /// thrown away. Kernels are asked for only where they are needed, and nothing is read where
    /// the worker is to stop; in other cases the functions need not be callable.
    pub fn round<
        C,
        Window,
        Start,
        Read,
        Poll,
        HalfSum,
        HalfDifference,
        Transform,
        Accumulate,
        Level,
        Smooth,
    >(
        &mut self,
        core: &mut AnalyzerCore<C>,
        shutdown: bool,
        reset_version: u32,
        sample_rate: u32,
        window: &Window,
        start: Start,
        read: Read,
        poll: &Poll,
        math: &Arithmetic<C, HalfSum, HalfDifference, Transform, Accumulate, Level, Smooth>,
    ) -> (end: RoundEnd) where
        C: Copy,
        Window: Fn(u32) -> usize,
        Start: FnOnce(u32, usize),
        Read: FnOnce(usize) -> Vec<u32>,
        Poll: Fn() -> KernelPoll<C>,
        HalfSum: Fn(u32, u32) -> u32,
        HalfDifference: Fn(u32, u32) -> u32,
        Transform: Fn(Vec<u32>) -> Vec<C>,
        Accumulate: Fn(C, C, C) -> C,
        Level: Fn(C, usize) -> u32,
        Smooth: Fn(u32, u32, u32) -> u32,

        requires
            old(core).wf(),
            math.wf(),
            functional1(*window),
            worker_step(old(self)@, shutdown, reset_version, sample_rate) is ResetAndDrain
                ==> power_at_least(image1(*window, sample_rate) as nat) <= usize::MAX,
            worker_step(old(self)@, shutdown, reset_version, sample_rate) is ResetAndDrain
                && needs_kernels(
                old(core)@,
                sample_rate,
                image1(*window, sample_rate) as nat,
            ) ==> start.requires(
                (
                    sample_rate,
                    power_at_least(image1(*window, sample_rate) as nat) as usize,
                ),
            ),
            !shutdown ==> read.requires((DRAIN_FRAMES,)),
            forall|samples: Vec<u32>| #[trigger]
                read.ensures((DRAIN_FRAMES,), samples) ==> samples@.len() <= CHANNELS * DRAIN_FRAMES
                    && samples@.len() % (CHANNELS as nat) == 0,
            poll.requires(()),
            forall|p: KernelPoll<C>| #[trigger]
                poll.ensures((), p) ==> poll_fits(
                    begun(
                        |rate: u32| image1(*window, rate),
                        worker_step(old(self)@, shutdown, reset_version, sample_rate),
                        old(core)@,
                    ),
                    p,
                ),
        ensures
            final(core).wf(),
            final(self)@ == seen_after(old(self)@, shutdown, reset_version),
            end == RoundEnd::Stop <==> shutdown,
            shutdown ==> final(core)@ == old(core)@,
            !shutdown ==> exists|samples: Vec<u32>| #[trigger]
                read.ensures((DRAIN_FRAMES,), samples) && (end == RoundEnd::Idle <==> samples@.len()
                    == 0) && round_done(
                    math@,
                    *poll,
                    |rate: u32| image1(*window, rate),
                    old(self)@,
                    old(core)@,
                    Round {
                        shutdown,
                        version: reset_version,
                        rate: sample_rate,
                        frames: frames_of(samples@, samples@.len() / (CHANNELS as nat)),
                    },
                    final(core)@,
                ),
            worker_step(old(self)@, shutdown, reset_version, sample_rate) is ResetAndDrain
                && needs_kernels(
                old(core)@,
                sample_rate,
                image1(*window, sample_rate) as nat,
            ) ==> start.ensures(
                (
                    sample_rate,
                    power_at_least(image1(*window, sample_rate) as nat) as usize,
                ),
                (),
            ),
    {
        let ghost window_of = |rate: u32| image1(*window, rate);
        let ghost before = core@;
        let ghost seen = self@;
        match self.poll_control(shutdown, reset_version, sample_rate) {
            WorkerStep::Stop => {
                return RoundEnd::Stop;
            },
            WorkerStep::ResetAndDrain(rate) => {
                let max_window: usize = window(rate);
                if core.reset(rate, max_window) {
                    start(rate, core.fft_size());
                }
            },
            WorkerStep::Drain => {},
        }
        assert(core@ == begun(
            window_of,
            worker_step(seen, shutdown, reset_version, sample_rate),
            before,
        ));
        let scratch: Vec<u32> = read(DRAIN_FRAMES);
        let frames: usize = scratch.len() / CHANNELS;
        let idle = drain(core, &scratch, frames, poll, math);
        proof {
            let round = Round {
                shutdown,
                version: reset_version,
                rate: sample_rate,
                frames: frames_of(scratch@, scratch@.len() / (CHANNELS as nat)),
            };
            assert(round_done(math@, *poll, window_of, seen, before, round, core@));
        }
        if idle {
            RoundEnd::Idle
        } else {
            RoundEnd::Fed
        }
    }
}

/// The number of the reset that the worker remembers after several rounds.
pub open spec fn seen_after_all(seen: u32, rounds: Seq<Round>) -> u32
    decreases rounds.len(),
{
    if rounds.len() == 0 {
        seen
    } else {
        let last = rounds.last();
        seen_after(seen_after_all(seen, rounds.drop_last()), last.shutdown, last.version)
    }
}

/// `after` can come of `before` by several rounds.
pub open spec fn rounds_done<C, Poll: FnOnce() -> KernelPoll<C>>(
    m: ArithmeticView<C>,
    poll: Poll,
    window: spec_fn(u32) -> usize,
    seen: u32,
    before: AnalyzerView<C>,
    rounds: Seq<Round>,
    after: AnalyzerView<C>,
) -> bool
    decreases rounds.len(),
{
    if rounds.len() == 0 {
        after == before
    } else {
        exists|mid: AnalyzerView<C>|
            rounds_done(m, poll, window, seen, before, rounds.drop_last(), mid)
                && #[trigger] round_done(
                m,
                poll,
                window,
                seen_after_all(seen, rounds.drop_last()),
                mid,
                rounds.last(),
                after,
            )
    }
}

/// The frames that are read in several rounds, in their order.
pub open spec fn frames_read(rounds: Seq<Round>) -> Seq<(u32, u32)>
    decreases rounds.len(),
{
    if rounds.len() == 0 {
        seq![]
    } else {
        frames_read(rounds.drop_last()) + rounds.last().frames
    }
}

/// Feeding frames in two goes is feeding them in one.
pub proof fn fed_in_two_goes<C, Poll: FnOnce() -> KernelPoll<C>>(
    m: ArithmeticView<C>,
    poll: Poll,
    before: AnalyzerView<C>,
    first: Seq<(u32, u32)>,
    mid: AnalyzerView<C>,
    second: Seq<(u32, u32)>,
    after: AnalyzerView<C>,
)
    requires
        fed(m, poll, before, first, mid),
        fed(m, poll, mid, second, after),
    ensures
        fed(m, poll, before, first + second, after),
    decreases second.len(),
{
    let all = first + second;
    if second.len() == 0 {
        assert(all =~= first);
    } else {
        let rest = second.drop_last();
        let last = choose|last: AnalyzerView<C>|
            fed(m, poll, mid, rest, last) && #[trigger] stepped(
                m,
                poll,
                last,
                second.last(),
                after,
            );
        fed_in_two_goes(m, poll, before, first, mid, rest, last);
        assert(all.drop_last() =~= first + rest);
        assert(all.last() == second.last());
        assert(stepped(m, poll, last, all.last(), after));
    }
}

/// Over any number of rounds that begin with a reset, or with none pending, and in which no
/// other reset and no stop is asked for, every frame that is read is analyzed once and in
/// order, starting from the analyzer as the reset left it.
pub proof fn every_frame_is_analyzed_once<C, Poll: FnOnce() -> KernelPoll<C>>(
    m: ArithmeticView<C>,
    poll: Poll,
    window: spec_fn(u32) -> usize,
    seen: u32,
    before: AnalyzerView<C>,
    rounds: Seq<Round>,
    after: AnalyzerView<C>,
)
    requires
        rounds.len() > 0,
        !(rounds[0].step(seen) is Stop),
        forall|i: int|
            0 < i < rounds.len() ==> (#[trigger] rounds[i]).step(
                seen_after_all(seen, rounds.take(i)),
            ) is Drain,
        rounds_done(m, poll, window, seen, before, rounds, after),
    ensures
        fed(m, poll, begun(window, rounds[0].step(seen), before), frames_read(rounds), after),
    decreases rounds.len(),
{
    let rest = rounds.drop_last();
    let last = rounds.last();
    let start = begun(window, rounds[0].step(seen), before);
    let mid = choose|mid: AnalyzerView<C>|
        rounds_done(m, poll, window, seen, before, rest, mid) && #[trigger] round_done(
            m,
            poll,
            window,
            seen_after_all(seen, rest),
            mid,
            last,
            after,
        );
    if rest.len() == 0 {
        assert(frames_read(rest) =~= seq![]);
        assert(frames_read(rounds) =~= last.frames);
        assert(last == rounds[0]);
    } else {
        assert(rest[0] == rounds[0]);
        assert forall|i: int| 0 < i < rest.len() implies (#[trigger] rest[i]).step(
            seen_after_all(seen, rest.take(i)),
        ) is Drain by {
            assert(rest[i] == rounds[i]);
            assert(rest.take(i) =~= rounds.take(i));
        }
        every_frame_is_analyzed_once(m, poll, window, seen, before, rest, mid);
        assert(rounds[rounds.len() - 1].step(
            seen_after_all(seen, rounds.take(rounds.len() - 1)),
        ) is Drain);
        assert(rounds.take(rounds.len() - 1) =~= rest);
        fed_in_two_goes(m, poll, start, frames_read(rest), mid, last.frames, after);
    }
}

/// Before every read the worker has looked at the settings: a round in which a stop is asked
/// for reads nothing and changes nothing; one in which a reset to a positive rate is pending
/// feeds its frames to the analyzer as that reset left it; and no round reads more than the
/// limit.
pub proof fn settings_come_before_reading<C, Poll: FnOnce() -> KernelPoll<C>>(
    m: ArithmeticView<C>,
    poll: Poll,
    window: spec_fn(u32) -> usize,
    seen: u32,
    before: AnalyzerView<C>,
    round: Round,
    after: AnalyzerView<C>,
)
    requires
        round_done(m, poll, window, seen, before, round, after),
    ensures
        round.frames.len() <= DRAIN_FRAMES,
        round.shutdown ==> round.frames.len() == 0 && after == before,
        !round.shutdown && round.version != seen && below(ZERO, round.rate) ==> fed(
            m,
            poll,
            reset_to(before, round.rate, window(round.rate) as nat),
            round.frames,
            after,
        ),
        !round.shutdown && round.version == seen ==> fed(m, poll, before, round.frames, after),
{
}

/// Two analyzers that make the same primary levels of what they remember.
pub open spec fn sounds_alike<C>(
    m: ArithmeticView<C>,
    a: AnalyzerView<C>,
    b: AnalyzerView<C>,
) -> bool {
    &&& a.fft_size == b.fft_size
    &&& a.left.len() == a.fft_size
    &&& a.right.len() == a.fft_size
    &&& b.left.len() == b.fft_size
    &&& b.right.len() == b.fft_size
    &&& a.hop == b.hop
    &&& a.kernels == b.kernels
    &&& a.ready == b.ready
    &&& !a.pending
    &&& !b.pending
    &&& a.smoothed_a == b.smoothed_a
    &&& a.spectrum.bins_a == b.spectrum.bins_a
    &&& primary_signal(m, a.spectrum.mode, a.left, a.right) == primary_signal(
        m,
        b.spectrum.mode,
        b.left,
        b.right,
    )
}

/// Analyzers that sounded alike, each in its mode, go on sounding alike when they are fed
/// frames that mix to the same samples: they show the same primary levels.
pub proof fn same_mix_same_levels<C, PollA: FnOnce() -> KernelPoll<C>, PollB: FnOnce() -> KernelPoll<C>>(
    m: ArithmeticView<C>,
    poll_a: PollA,
    poll_b: PollB,
    a: AnalyzerView<C>,
    b: AnalyzerView<C>,
    frames_a: Seq<(u32, u32)>,
    frames_b: Seq<(u32, u32)>,
    after_a: AnalyzerView<C>,
    after_b: AnalyzerView<C>,
)
    requires
        sounds_alike(m, a, b),
        frames_a.len() == frames_b.len(),
        forall|i: int|
            0 <= i < frames_a.len() ==> mixed(
                m,
                a.spectrum.mode,
                (#[trigger] frames_a[i]).0,
                frames_a[i].1,
            ) == mixed(m, b.spectrum.mode, frames_b[i].0, frames_b[i].1),
        fed(m, poll_a, a, frames_a, after_a),
        fed(m, poll_b, b, frames_b, after_b),
    ensures
        sounds_alike(m, after_a, after_b),
        after_a.spectrum.bins_a == after_b.spectrum.bins_a,
        after_a.spectrum.mode == a.spectrum.mode,
        after_b.spectrum.mode == b.spectrum.mode,
    decreases frames_a.len(),
{
    if frames_a.len() > 0 {
        let rest_a = frames_a.drop_last();
        let rest_b = frames_b.drop_last();
        let mid_a = choose|mid: AnalyzerView<C>|
            fed(m, poll_a, a, rest_a, mid) && #[trigger] stepped(
                m,
                poll_a,
                mid,
                frames_a.last(),
                after_a,
            );
        let mid_b = choose|mid: AnalyzerView<C>|
            fed(m, poll_b, b, rest_b, mid) && #[trigger] stepped(
                m,
                poll_b,
                mid,
                frames_b.last(),
                after_b,
            );
        assert forall|i: int| 0 <= i < rest_a.len() implies mixed(
            m,
            a.spectrum.mode,
            (#[trigger] rest_a[i]).0,
            rest_a[i].1,
        ) == mixed(m, b.spectrum.mode, rest_b[i].0, rest_b[i].1) by {
            assert(rest_a[i] == frames_a[i]);
        }
        same_mix_same_levels(m, poll_a, poll_b, a, b, rest_a, rest_b, mid_a, mid_b);
        let f = frames_a.last();
        let g = frames_b.last();
        assert(f == frames_a[frames_a.len() - 1]);
        let next_a = pushed(mid_a, f.0, f.1);
        let next_b = pushed(mid_b, g.0, g.1);
        signals_shift_alike(m, mid_a, mid_b, f, g);
        assert(sounds_alike(m, next_a, next_b));
    }
}

/// One more frame that mixes to the same sample leaves the primary signals equal.
proof fn signals_shift_alike<C>(
    m: ArithmeticView<C>,
    a: AnalyzerView<C>,
    b: AnalyzerView<C>,
    f: (u32, u32),
    g: (u32, u32),
)
    requires
        sounds_alike(m, a, b),
        mixed(m, a.spectrum.mode, f.0, f.1) == mixed(m, b.spectrum.mode, g.0, g.1),
    ensures
        sounds_alike(m, pushed(a, f.0, f.1), pushed(b, g.0, g.1)),
{
    if a.fft_size > 0 {
        let before_a = primary_signal(m, a.spectrum.mode, a.left, a.right);
        let before_b = primary_signal(m, b.spectrum.mode, b.left, b.right);
        let x = pushed(a, f.0, f.1);
        let y = pushed(b, g.0, g.1);
        assert(primary_signal(m, x.spectrum.mode, x.left, x.right) =~= shifted(
            before_a,
            mixed(m, a.spectrum.mode, f.0, f.1),
        ));
        assert(primary_signal(m, y.spectrum.mode, y.left, y.right) =~= shifted(
            before_b,
            mixed(m, b.spectrum.mode, g.0, g.1),
        ));
    }
}

/// In mode Left the primary levels do not depend on what comes on the right, nor in mode
/// Right on what comes on the left.
pub proof fn one_channel_ignores_the_other<C, Poll: FnOnce() -> KernelPoll<C>>(
    m: ArithmeticView<C>,
    poll: Poll,
    v: AnalyzerView<C>,
    frames_a: Seq<(u32, u32)>,
    frames_b: Seq<(u32, u32)>,
    after_a: AnalyzerView<C>,
    after_b: AnalyzerView<C>,
)
    requires
        v.left.len() == v.fft_size,
        v.right.len() == v.fft_size,
        !v.pending,
        frames_a.len() == frames_b.len(),
        ({
            ||| v.spectrum.mode == MODE_LEFT && forall|i: int|
                0 <= i < frames_a.len() ==> (#[trigger] frames_a[i]).0 == frames_b[i].0
            ||| v.spectrum.mode == MODE_RIGHT && forall|i: int|
                0 <= i < frames_a.len() ==> (#[trigger] frames_a[i]).1 == frames_b[i].1
        }),
        fed(m, poll, v, frames_a, after_a),
        fed(m, poll, v, frames_b, after_b),
    ensures
        after_a.spectrum.bins_a == after_b.spectrum.bins_a,
{
    same_mix_same_levels(m, poll, poll, v, v, frames_a, frames_b, after_a, after_b);
}

/// Mode Diff on frames shows what mode Sum shows on frames with other right samples, wherever
/// half the difference to a right sample is half the sum with the other one. Both start from
/// the same levels and from samples of which the same holds.
pub proof fn difference_shows_a_sum<C, PollA: FnOnce() -> KernelPoll<C>, PollB: FnOnce() -> KernelPoll<C>>(
    m: ArithmeticView<C>,
    poll_a: PollA,
    poll_b: PollB,
    a: AnalyzerView<C>,
    b: AnalyzerView<C>,
    frames_a: Seq<(u32, u32)>,
    frames_b: Seq<(u32, u32)>,
    after_a: AnalyzerView<C>,
    after_b: AnalyzerView<C>,
)
    requires
        a.spectrum.mode == MODE_DIFF,
        b.spectrum.mode == MODE_SUM,
        a.fft_size == b.fft_size,
        a.left.len() == a.fft_size,
        a.right.len() == a.fft_size,
        b.left == a.left,
        b.right.len() == b.fft_size,
        forall|i: int|
            0 <= i < a.left.len() ==> (m.half_difference)(a.left[i], #[trigger] a.right[i])
                == (m.half_sum)(a.left[i], b.right[i]),
        a.hop == b.hop,
        a.kernels == b.kernels,
        a.ready == b.ready,
        !a.pending,
        !b.pending,
        a.smoothed_a == b.smoothed_a,
        a.spectrum.bins_a == b.spectrum.bins_a,
        frames_a.len() == frames_b.len(),
        forall|i: int|
            0 <= i < frames_a.len() ==> (#[trigger] frames_a[i]).0 == frames_b[i].0
                && (m.half_difference)(frames_a[i].0, frames_a[i].1) == (m.half_sum)(
                frames_a[i].0,
                frames_b[i].1,
            ),
        fed(m, poll_a, a, frames_a, after_a),
        fed(m, poll_b, b, frames_b, after_b),
    ensures
        after_a.spectrum.bins_a == after_b.spectrum.bins_a,
{
    difference_is_a_sum(m, a.left, a.right, b.right);
    same_mix_same_levels(m, poll_a, poll_b, a, b, frames_a, frames_b, after_a, after_b);
}

/// Every reset gets another number than the one before, so a worker that looks after one,
/// and before it is asked to stop, takes over its rate; and it takes it over once.
pub proof fn reset_is_noticed_once(seen: u32, rate: u32)
    requires
        below(ZERO, rate),
    ensures
        worker_step(seen, false, next_version(seen), rate) == WorkerStep::ResetAndDrain(rate),
        worker_step(next_version(seen), false, next_version(seen), rate) == WorkerStep::Drain,
{
}

/// Frames that do not complete a hop bring no update: the analyzer only remembers them.
pub proof fn no_update_within_a_hop<C, Poll: FnOnce() -> KernelPoll<C>>(
    m: ArithmeticView<C>,
    poll: Poll,
    before: AnalyzerView<C>,
    frames: Seq<(u32, u32)>,
    after: AnalyzerView<C>,
)
    requires
        before.hop + frames.len() < HOP_SIZE,
        fed(m, poll, before, frames, after),
    ensures
        after == pushed_all(before, frames),
        after.spectrum == before.spectrum,
        after.hop <= before.hop + frames.len(),
    decreases frames.len(),
{
    if frames.len() > 0 {
        let mid = choose|mid: AnalyzerView<C>|
            fed(m, poll, before, frames.drop_last(), mid) && #[trigger] stepped(
                m,
                poll,
                mid,
                frames.last(),
                after,
            );
        no_update_within_a_hop(m, poll, before, frames.drop_last(), mid);
    }
}

/// The version after `count` updates.
pub open spec fn version_after(version: u32, count: nat) -> u32
    decreases count,
{
    if count == 0 {
        version
    } else {
        next_version(version_after(version, (count - 1) as nat))
    }
}

/// Whatever is found of the kernels, the analyzer remembers the newest frames of each channel
/// in their order; and with its kernels at hand it makes one update for every hop.
pub proof fn frames_are_remembered<C, Poll: FnOnce() -> KernelPoll<C>>(
    m: ArithmeticView<C>,
    poll: Poll,
    before: AnalyzerView<C>,
    frames: Seq<(u32, u32)>,
    after: AnalyzerView<C>,
)
    requires
        before.fft_size > 0,
        before.left.len() == before.fft_size,
        before.right.len() == before.fft_size,
        before.hop < HOP_SIZE,
        fed(m, poll, before, frames, after),
    ensures
        after.left == pushed_all(before, frames).left,
        after.right == pushed_all(before, frames).right,
        after.left == (before.left + frames.map_values(|f: (u32, u32)| f.0)).skip(
            frames.len() as int,
        ),
        after.right == (before.right + frames.map_values(|f: (u32, u32)| f.1)).skip(
            frames.len() as int,
        ),
        after.hop == (before.hop + frames.len()) % (HOP_SIZE as nat),
        after.fft_size == before.fft_size,
        before.ready && !before.pending ==> after.ready && !after.pending
            && after.spectrum.version == version_after(
            before.spectrum.version,
            (before.hop + frames.len()) / (HOP_SIZE as nat),
        ),
    decreases frames.len(),
{
    recent_samples_are_the_newest(before, frames);
    if frames.len() > 0 {
        let rest = frames.drop_last();
        let mid = choose|mid: AnalyzerView<C>|
            fed(m, poll, before, rest, mid) && #[trigger] stepped(
                m,
                poll,
                mid,
                frames.last(),
                after,
            );
        frames_are_remembered(m, poll, before, rest, mid);
        recent_samples_are_the_newest(before, rest);
        let total = before.hop + frames.len();
        assert(due(mid) <==> total % (HOP_SIZE as nat) == 0);
        assert(due(mid) ==> total / (HOP_SIZE as nat) == (total - 1) as nat / (HOP_SIZE as nat) + 1);
        assert(!due(mid) ==> total / (HOP_SIZE as nat) == (total - 1) as nat / (HOP_SIZE as nat));
    }
}

/// The worker stops exactly when it is asked to; it resets exactly when it is not, the number
/// of the reset is another than the one it saw last, and the rate is positive; and it remembers
/// the number that it saw, unless it stops.
pub proof fn worker_obeys_its_settings(seen: u32, shutdown: bool, version: u32, rate: u32)
    ensures
        worker_step(seen, shutdown, version, rate) is Stop <==> shutdown,
        worker_step(seen, shutdown, version, rate) is ResetAndDrain <==> !shutdown && version
            != seen && 0 < rate <= 0x7F80_0000,
        worker_step(seen, shutdown, version, rate) matches WorkerStep::ResetAndDrain(r) ==> r
            == rate,
        shutdown ==> seen_after(seen, shutdown, version) == seen,
        !shutdown ==> seen_after(seen, shutdown, version) == version,
{
}

/// Samples alternate: the left one of a frame stands before its right one, and frames follow
/// each other.
pub proof fn samples_alternate(samples: Seq<u32>, count: nat, f: int)
    requires
        0 <= f < count,
        2 * count <= samples.len(),
    ensures
        frames_of(samples, count).len() == count,
        frames_of(samples, count)[f].0 == samples[2 * f],
        frames_of(samples, count)[f].1 == samples[2 * f + 1],
{
}

/// Feeding no frames changes nothing, and feeding one more is one more step from what the
/// others left.
pub proof fn frames_are_fed_one_by_one<C, Poll: FnOnce() -> KernelPoll<C>>(
    m: ArithmeticView<C>,
    poll: Poll,
    before: AnalyzerView<C>,
    frames: Seq<(u32, u32)>,
    frame: (u32, u32),
    mid: AnalyzerView<C>,
    after: AnalyzerView<C>,
)
    ensures
        fed(m, poll, before, Seq::empty(), after) <==> after == before,
        fed(m, poll, before, frames, mid) && stepped(m, poll, mid, frame, after) ==> fed(
            m,
            poll,
            before,
            frames.push(frame),
            after,
        ),
        fed(m, poll, before, frames.push(frame), after) ==> exists|v: AnalyzerView<C>|
            fed(m, poll, before, frames, v) && #[trigger] stepped(m, poll, v, frame, after),
{
    let longer = frames.push(frame);
    assert(longer.drop_last() =~= frames);
    assert(longer.last() == frame);
}

/// A reset sets the analyzer to its rate, with the window of that rate; without one the
/// analyzer is as it was.
pub proof fn reset_uses_its_rate<C>(window: spec_fn(u32) -> usize, v: AnalyzerView<C>, rate: u32)
    ensures
        begun(window, WorkerStep::ResetAndDrain(rate), v) == reset_to(
            v,
            rate,
            window(rate) as nat,
        ),
        begun(window, WorkerStep::Drain, v) == v,
        begun(window, WorkerStep::Stop, v) == v,
{
}

/// What is read in several rounds is what each round read, one behind the other, and the number
/// of the reset that is remembered is that of the last round that did not stop.
pub proof fn rounds_follow_each_other(seen: u32, rounds: Seq<Round>, round: Round)
    ensures
        frames_read(Seq::empty()) == Seq::<(u32, u32)>::empty(),
        frames_read(rounds.push(round)) == frames_read(rounds) + round.frames,
        seen_after_all(seen, Seq::empty()) == seen,
        round.shutdown ==> seen_after_all(seen, rounds.push(round)) == seen_after_all(seen, rounds),
        !round.shutdown ==> seen_after_all(seen, rounds.push(round)) == round.version,
        round.step(seen) is Stop <==> round.shutdown,
        round.step(seen) matches WorkerStep::ResetAndDrain(rate) ==> rate == round.rate
            && round.version != seen,
{
    assert(rounds.push(round).drop_last() =~= rounds);
    assert(rounds.push(round).last() == round);
}

/// Rounds are done one after the other, each from where the one before ended.
pub proof fn rounds_are_done_one_by_one<C, Poll: FnOnce() -> KernelPoll<C>>(
    m: ArithmeticView<C>,
    poll: Poll,
    window: spec_fn(u32) -> usize,
    seen: u32,
    before: AnalyzerView<C>,
    rounds: Seq<Round>,
    round: Round,
    mid: AnalyzerView<C>,
    after: AnalyzerView<C>,
)
    ensures
        rounds_done(m, poll, window, seen, before, Seq::empty(), after) <==> after == before,
        rounds_done(m, poll, window, seen, before, rounds, mid) && round_done(
            m,
            poll,
            window,
            seen_after_all(seen, rounds),
            mid,
            round,
            after,
        ) ==> rounds_done(m, poll, window, seen, before, rounds.push(round), after),
{
    let longer = rounds.push(round);
    assert(longer.drop_last() =~= rounds);
    assert(longer.last() == round);
}

} // verus!
