//! What the renderer tells the process that started it, and when.

use crate::schedule::{FrameSchedule, FrameStep};
use vstd::prelude::*;

verus! {

/// A message to the process that started the rendering. `D` is the host's number of seconds.
#[derive(PartialEq, Eq, Debug)]
pub enum IPCEvent<D> {
    /// The sound is about to be mixed.
    StartMixing,
    /// So many pictures are about to be rendered.
    StartRender(u64),
    /// A picture was rendered.
    Frame,
    /// All is done; it took so long.
    Done(D),
}

/// How far a rendering has come.
pub enum Stage {
    /// Chart and sounds are being loaded.
    Loading,
    /// The sound is being mixed.
    Mixing,
    /// Pictures are being rendered.
    Rendering(FrameSchedule),
    /// All is done.
    Finished,
}

/// What happened in the host.
pub enum Signal<D> {
    /// Chart and sounds are loaded.
    ResourcesLoaded,
    /// The sound is mixed, and so many pictures are to be rendered.
    AudioMixed(u64),
    /// The current picture is rendered and read back.
    FrameRendered,
    /// The encoder has taken all pictures and ended; the rendering took so long.
    EncoderExited(D),
}

/// What matters of a stage: of the pictures, how many were asked for and how many are done.
pub enum Progress {
    Loading,
    Mixing,
    Rendering(u64, u64),
    Finished,
}

impl View for Stage {
    type V = Progress;

    open spec fn view(&self) -> Progress {
        match self {
            Stage::Loading => Progress::Loading,
            Stage::Mixing => Progress::Mixing,
            Stage::Rendering(schedule) => Progress::Rendering(schedule.total(), schedule.done()),
            Stage::Finished => Progress::Finished,
        }
    }
}

impl Stage {
    /// No more pictures are done than there are.
    pub open spec fn well_formed(self) -> bool {
        self matches Stage::Rendering(schedule) ==> schedule.well_formed()
    }

    /// The picture to render now, if any.
    pub fn step(&self) -> (r: Option<FrameStep>)
        requires
            self.well_formed(),
        ensures
            r == match self@ {
                Progress::Rendering(total, done) => if done < crate::schedule::frames_rendered(
                    total,
                ) {
                    Some(crate::schedule::step_for(total, done))
                } else {
                    None
                },
                _ => None,
            },
    {
        match self {
            Stage::Rendering(schedule) => schedule.current(),
            _ => None,
        }
    }
}

/// The progress after `signal` and the message that goes with it. Nothing, where the signal does
/// not belong there: each stage has its own, the encoder ends after the last picture, and no
/// picture comes after it.
pub open spec fn advanced<D>(progress: Progress, signal: Signal<D>) -> Option<
    (Progress, IPCEvent<D>),
> {
    match (progress, signal) {
        (Progress::Loading, Signal::ResourcesLoaded) => Some(
            (Progress::Mixing, IPCEvent::StartMixing),
        ),
        (Progress::Mixing, Signal::AudioMixed(total)) => Some(
            (Progress::Rendering(total, 0), IPCEvent::StartRender(total)),
        ),
        (Progress::Rendering(total, done), Signal::FrameRendered) => if done
            < crate::schedule::frames_rendered(total) {
            Some((Progress::Rendering(total, (done + 1) as u64), IPCEvent::Frame))
        } else {
            None
        },
        (Progress::Rendering(total, done), Signal::EncoderExited(seconds)) => if done
            < crate::schedule::frames_rendered(total) {
            None
        } else {
            Some((Progress::Finished, IPCEvent::Done(seconds)))
        },
        _ => None,
    }
}

/// Moves on: the next stage and the message to send, or nothing where the signal does not belong
/// to the stage.
pub fn advance<D>(stage: Stage, signal: Signal<D>) -> (r: Option<(Stage, IPCEvent<D>)>)
    requires
        stage.well_formed(),
    ensures
        match r {
            Some((next, message)) => next.well_formed() && advanced(stage@, signal) == Some(
                (next@, message),
            ),
            None => advanced(stage@, signal) is None,
        },
{
    match stage {
        Stage::Loading => match signal {
            Signal::ResourcesLoaded => Some((Stage::Mixing, IPCEvent::StartMixing)),
            _ => None,
        },
        Stage::Mixing => match signal {
            Signal::AudioMixed(total) => Some(
                (Stage::Rendering(FrameSchedule::new(total)), IPCEvent::StartRender(total)),
            ),
            _ => None,
        },
        Stage::Rendering(schedule) => match signal {
            Signal::FrameRendered => match schedule.current() {
                Some(_) => {
                    let mut schedule = schedule;
                    schedule.advance();
                    Some((Stage::Rendering(schedule), IPCEvent::Frame))
                },
                None => None,
            },
            Signal::EncoderExited(seconds) => match schedule.current() {
                Some(_) => None,
                None => Some((Stage::Finished, IPCEvent::Done(seconds))),
            },
            _ => None,
        },
        Stage::Finished => None,
    }
}

/// The progress after all `signals`, and all the messages sent; nothing, where one of them did
/// not belong.
pub open spec fn run<D>(signals: Seq<Signal<D>>) -> Option<(Progress, Seq<IPCEvent<D>>)>
    decreases signals.len(),
{
    if signals.len() == 0 {
        Some((Progress::Loading, seq![]))
    } else {
        match run(signals.drop_last()) {
            None => None,
            Some((progress, sent)) => match advanced(progress, signals.last()) {
                None => None,
                Some((next, message)) => Some((next, sent.push(message))),
            },
        }
    }
}

/// `count` times the message that a picture was rendered.
pub open spec fn frame_messages<D>(count: nat) -> Seq<IPCEvent<D>> {
    Seq::new(count, |i: int| IPCEvent::Frame)
}

/// What is sent until `done` of `total` pictures are rendered.
pub open spec fn opening<D>(total: u64, done: nat) -> Seq<IPCEvent<D>> {
    seq![IPCEvent::StartMixing, IPCEvent::StartRender(total)] + frame_messages(done)
}

/// All that is sent for `total` pictures: the two announcements, a message for each picture that
/// is rendered, and the end.
pub open spec fn transcript<D>(total: u64, seconds: D) -> Seq<IPCEvent<D>> {
    opening(total, crate::schedule::frames_rendered(total) as nat).push(IPCEvent::Done(seconds))
}

proof fn lemma_one_more_frame<D>(total: u64, done: nat)
    ensures
        opening::<D>(total, done + 1) == opening::<D>(total, done).push(IPCEvent::Frame),
{
    assert(opening::<D>(total, done + 1) =~= opening::<D>(total, done).push(IPCEvent::Frame));
}

/// At every moment the messages are those that the progress calls for.
pub proof fn lemma_messages_follow_progress<D>(signals: Seq<Signal<D>>)
    requires
        run(signals) is Some,
    ensures
        ({
            let (progress, sent) = run(signals)->0;
            match progress {
                Progress::Loading => sent == Seq::<IPCEvent<D>>::empty(),
                Progress::Mixing => sent == seq![IPCEvent::<D>::StartMixing],
                Progress::Rendering(total, done) => sent == opening::<D>(total, done as nat) && done
                    <= crate::schedule::frames_rendered(total),
                Progress::Finished => exists|total: u64, seconds: D|
                    sent == #[trigger] transcript(total, seconds),
            }
        }),
    decreases signals.len(),
{
    if signals.len() > 0 {
        lemma_messages_follow_progress(signals.drop_last());
        let (before, sent) = run(signals.drop_last())->0;
        let (progress, now) = run(signals)->0;
        match before {
            Progress::Loading => {
                assert(now =~= seq![IPCEvent::<D>::StartMixing]);
            },
            Progress::Mixing => {
                let total = progress->Rendering_0;
                assert(now =~= opening::<D>(total, 0));
            },
            Progress::Rendering(total, done) => {
                lemma_one_more_frame::<D>(total, done as nat);
                if progress is Finished {
                    let seconds = signals.last()->EncoderExited_0;
                    assert(now == transcript(total, seconds));
                }
            },
            Progress::Finished => {},
        }
    }
}

/// The signals of a rendering of `total` pictures, of which `done` are rendered.
pub open spec fn signals_until<D>(total: u64, done: nat) -> Seq<Signal<D>> {
    seq![Signal::ResourcesLoaded, Signal::AudioMixed(total)] + Seq::new(
        done,
        |i: int| Signal::FrameRendered,
    )
}

proof fn lemma_run_until<D>(total: u64, done: nat)
    requires
        done <= crate::schedule::frames_rendered(total),
    ensures
        run(signals_until::<D>(total, done)) == Some(
            (Progress::Rendering(total, done as u64), opening::<D>(total, done)),
        ),
    decreases done,
{
    let signals = signals_until::<D>(total, done);
    if done == 0 {
        let one = signals.drop_last();
        let none = one.drop_last();
        assert(run(none) == Some((Progress::Loading, Seq::<IPCEvent<D>>::empty())));
        assert(one.last() == Signal::<D>::ResourcesLoaded);
        assert((run(one)->0).1 =~= seq![IPCEvent::<D>::StartMixing]);
        assert(signals.last() == Signal::<D>::AudioMixed(total));
        assert((run(signals)->0).1 =~= opening::<D>(total, 0));
    } else {
        let before = (done - 1) as nat;
        lemma_run_until::<D>(total, before);
        assert(signals.drop_last() =~= signals_until::<D>(total, before));
        assert(signals.last() == Signal::<D>::FrameRendered);
        lemma_one_more_frame::<D>(total, before);
    }
}

/// A rendering that runs its course sends the whole transcript and is then finished.
pub proof fn lemma_full_run<D>(total: u64, seconds: D)
    ensures
        run(
            signals_until::<D>(total, crate::schedule::frames_rendered(total) as nat).push(
                Signal::EncoderExited(seconds),
            ),
        ) == Some((Progress::Finished, transcript(total, seconds))),
{
    let count = crate::schedule::frames_rendered(total) as nat;
    lemma_run_until::<D>(total, count);
    let signals = signals_until::<D>(total, count).push(Signal::EncoderExited(seconds));
    assert(signals.drop_last() =~= signals_until::<D>(total, count));
}

/// Every signal is answered by one message of its own kind, in order, which carries what the
/// signal carried.
pub proof fn lemma_each_signal_has_its_message<D>(signals: Seq<Signal<D>>)
    requires
        run(signals) is Some,
    ensures
        (run(signals)->0).1.len() == signals.len(),
        forall|i: int|
            #![trigger signals[i]]
            0 <= i < signals.len() ==> (run(signals)->0).1[i] == match signals[i] {
                Signal::ResourcesLoaded => IPCEvent::StartMixing,
                Signal::AudioMixed(total) => IPCEvent::StartRender(total),
                Signal::FrameRendered => IPCEvent::Frame,
                Signal::EncoderExited(seconds) => IPCEvent::Done(seconds),
            },
    decreases signals.len(),
{
    if signals.len() > 0 {
        let earlier = signals.drop_last();
        lemma_each_signal_has_its_message(earlier);
        assert forall|i: int|
            #![trigger signals[i]]
            0 <= i < signals.len() implies (run(signals)->0).1[i] == match signals[i] {
            Signal::ResourcesLoaded => IPCEvent::StartMixing,
            Signal::AudioMixed(total) => IPCEvent::StartRender(total),
            Signal::FrameRendered => IPCEvent::Frame,
            Signal::EncoderExited(seconds) => IPCEvent::Done(seconds),
        } by {
            if i < earlier.len() {
                assert(earlier[i] == signals[i]);
            }
        }
    }
}

/// Which signals may come, and where they lead. The first is that the resources are loaded, the
/// second that the sound is mixed. Then come the pictures, as many as were announced but never
/// fewer than sixty, and then the encoder ends, and no signal comes after that. Signals in any
/// other order are turned away, and all signals in this order are taken.
pub proof fn lemma_order_of_signals<D>(signals: Seq<Signal<D>>)
    ensures
        run(signals) is Some <==> {
            &&& signals.len() > 0 ==> signals[0] is ResourcesLoaded
            &&& signals.len() > 1 ==> signals[1] is AudioMixed
            &&& forall|i: int|
                #![trigger signals[i]]
                2 <= i < signals.len() ==> if i < 62 || i < 2 + signals[1]->AudioMixed_0 {
                    signals[i] is FrameRendered
                } else {
                    signals[i] is EncoderExited && i + 1 == signals.len()
                }
        },
        run(signals) is Some ==> ({
            let progress = (run(signals)->0).0;
            let total = signals[1]->AudioMixed_0;
            &&& signals.len() == 0 ==> progress is Loading
            &&& signals.len() == 1 ==> progress is Mixing
            &&& signals.len() >= 2 && (signals.len() <= 62 || signals.len() <= 2 + total)
                ==> progress == Progress::Rendering(total, (signals.len() - 2) as u64)
            &&& signals.len() > 62 && signals.len() > 2 + total ==> progress is Finished
        }),
    decreases signals.len(),
{
    if signals.len() > 0 {
        let earlier = signals.drop_last();
        lemma_order_of_signals(earlier);
        let last = signals.len() - 1;
        assert(signals.last() == signals[last]);
        assert(forall|i: int| 0 <= i < last ==> #[trigger] signals[i] == earlier[i]);
        assert(forall|i: int| 0 <= i < last ==> signals[i] == #[trigger] earlier[i]);
        if run(signals) is Some {
            assert(run(earlier) is Some);
        }
    }
}

/// What one signal does to a rendering: the message answers the signal, a picture counts as one
/// more, and the end comes exactly when no picture is left to render.
pub proof fn lemma_one_signal<D>(
    stage: Stage,
    signal: Signal<D>,
    step: Option<FrameStep>,
    r: Option<(Stage, IPCEvent<D>)>,
)
    requires
        stage.well_formed(),
        call_ensures(Stage::step, (&stage,), step),
        call_ensures(advance::<D>, (stage, signal), r),
    ensures
        stage@ is Loading ==> (r is Some <==> signal is ResourcesLoaded),
        stage@ is Mixing ==> (r is Some <==> signal is AudioMixed),
        stage@ is Rendering && signal is FrameRendered ==> (r is Some <==> step is Some),
        stage@ is Rendering && signal is EncoderExited ==> (r is Some <==> step is None),
        stage@ is Rendering && r is Some ==> signal is FrameRendered || signal is EncoderExited,
        stage@ is Finished ==> r is None,
        step matches Some(now) ==> stage@ is Rendering && now.frame == stage@->Rendering_1,
        stage@ is Rendering ==> (step is None <==> stage@->Rendering_1 >= 60
            && stage@->Rendering_1 >= stage@->Rendering_0),
        r matches Some((next, message)) ==> match signal {
            Signal::ResourcesLoaded => next@ is Mixing && message is StartMixing,
            Signal::AudioMixed(total) => next@ == Progress::Rendering(total, 0) && message
                == IPCEvent::<D>::StartRender(total),
            Signal::FrameRendered => next@ is Rendering && next@->Rendering_0
                == stage@->Rendering_0 && next@->Rendering_1 == stage@->Rendering_1 + 1
                && message is Frame,
            Signal::EncoderExited(seconds) => next@ is Finished && message == IPCEvent::Done(
                seconds,
            ),
        },
{
}

} // verus!
