//! Mixing the sound of a video.
//!
//! `T` is the host's type of a sample. The arithmetic on samples is the host's too: it is handed
//! in as functions. What is settled here is which samples each function meets, and where its
//! results go.

use crate::config::Dynamics;
use vstd::prelude::*;

verus! {

/// The rate at which all sound is mixed, in frames per second.
pub const SAMPLE_RATE: u32 = 48000;

/// The first of the four rates that is not the rate of the mix, in the order in which the clips
/// are given here; nothing where all four agree with it.
pub fn rate_mismatch(ending: u32, click: u32, drag: u32, flick: u32) -> (r: Option<u32>)
    ensures
        r == if ending != SAMPLE_RATE {
            Some(ending)
        } else if click != SAMPLE_RATE {
            Some(click)
        } else if drag != SAMPLE_RATE {
            Some(drag)
        } else if flick != SAMPLE_RATE {
            Some(flick)
        } else {
            None
        },
{
    if ending != SAMPLE_RATE {
        Some(ending)
    } else if click != SAMPLE_RATE {
        Some(click)
    } else if drag != SAMPLE_RATE {
        Some(drag)
    } else if flick != SAMPLE_RATE {
        Some(flick)
    } else {
        None
    }
}

/// Whether `mix` takes any two samples.
pub open spec fn accepts_samples<T, F: Fn(T, T) -> T>(mix: F) -> bool {
    forall|a: T, b: T| #[trigger] call_requires(mix, (a, b))
}

/// `after` is `before` with the samples of `added` mixed in from position `at` on.
pub open spec fn mixed<T, F: Fn(T, T) -> T>(
    before: Seq<T>,
    after: Seq<T>,
    at: int,
    added: Seq<T>,
    mix: F,
) -> bool {
    &&& after.len() == before.len()
    &&& forall|i: int|
        0 <= i < after.len() ==> if at <= i < at + added.len() {
            call_ensures(mix, (before[i], added[i - at]), #[trigger] after[i])
        } else {
            after[i] == before[i]
        }
}

/// The two channels of `frames`, sample by sample.
pub open spec fn interleaved<T>(frames: Seq<(T, T)>) -> Seq<T> {
    Seq::new(
        2 * frames.len(),
        |i: int|
            if i % 2 == 0 {
                frames[i / 2].0
            } else {
                frames[i / 2].1
            },
    )
}

/// The first channel of `frames`.
pub open spec fn first_channel<T>(frames: Seq<(T, T)>) -> Seq<T> {
    Seq::new(frames.len(), |i: int| frames[i].0)
}

/// How many of `len` samples fit into `room` from position `at` on.
pub open spec fn fitting(room: int, at: int, len: int) -> int {
    if at >= room {
        0
    } else if len <= room - at {
        len
    } else {
        room - at
    }
}

/// Mixes the next sample into `samples`, of which `k` have been mixed in from `at` on.
fn mix_next<T: Copy, F: Fn(T, T) -> T>(
    samples: &mut Vec<T>,
    at: usize,
    k: usize,
    sample: T,
    mix: &F,
    Ghost(before): Ghost<Seq<T>>,
    Ghost(added): Ghost<Seq<T>>,
)
    requires
        accepts_samples(*mix),
        k < added.len(),
        added[k as int] == sample,
        at + k < old(samples).len(),
        mixed(before, old(samples)@, at as int, added.take(k as int), *mix),
    ensures
        mixed(before, final(samples)@, at as int, added.take(k + 1), *mix),
{
    let i: usize = at + k;
    let sum = mix(samples[i], sample);
    samples.set(i, sum);
}

/// The sound of a video while it is mixed: two interleaved channels, and one channel beside them
/// that collects the hit sounds.
pub struct Mix<T> {
    stereo: Vec<T>,
    mono: Vec<T>,
}

impl<T> Mix<T> {
    /// The two interleaved channels.
    pub closed spec fn stereo(self) -> Seq<T> {
        self.stereo@
    }

    /// The channel of the hit sounds.
    pub closed spec fn mono(self) -> Seq<T> {
        self.mono@
    }

    /// The length in frames.
    pub open spec fn frames(self) -> nat {
        self.mono().len()
    }

    /// A frame has two samples of the one part and one of the other.
    pub open spec fn well_formed(self) -> bool {
        self.stereo().len() == 2 * self.mono().len()
    }
}

fn filled<T: Copy>(len: usize, value: T) -> (r: Vec<T>)
    ensures
        r@ == Seq::new(len as nat, |i: int| value),
{
    let mut r: Vec<T> = Vec::new();
    while r.len() < len
        invariant
            r@.len() <= len,
            forall|i: int| 0 <= i < r@.len() ==> r@[i] == value,
        decreases len - r@.len(),
    {
        r.push(value);
    }
    assert(r@ =~= Seq::new(len as nat, |i: int| value));
    r
}

impl<T: Copy> Mix<T> {
    /// A mix of `frames` frames, all of them silent.
    pub fn silent(frames: usize, silence: T) -> (r: Self)
        requires
            2 * frames <= usize::MAX,
        ensures
            r.well_formed(),
            r.frames() == frames,
            r.stereo() == Seq::new(2 * frames as nat, |i: int| silence),
            r.mono() == Seq::new(frames as nat, |i: int| silence),
    {
        Mix { stereo: filled(frames * 2, silence), mono: filled(frames, silence) }
    }

    /// The length in frames.
    pub fn len(&self) -> (r: usize)
        ensures
            r == self.frames(),
    {
        self.mono.len()
    }

    /// The two interleaved channels, when all is mixed.
    pub fn into_stereo(self) -> (r: Vec<T>)
        ensures
            r@ == self.stereo(),
    {
        self.stereo
    }

    /// Mixes the first channel of a clip into the hit sounds, from frame `position` on and as far
    /// as there is room. Says how many frames were mixed.
    pub fn place<F: Fn(T, T) -> T>(&mut self, position: usize, clip: &[(T, T)], mix: &F) -> (len:
        usize)
        requires
            old(self).well_formed(),
            accepts_samples(*mix),
        ensures
            final(self).well_formed(),
            final(self).stereo() == old(self).stereo(),
            len == fitting(old(self).frames() as int, position as int, clip@.len() as int),
            mixed(
                old(self).mono(),
                final(self).mono(),
                position as int,
                first_channel(clip@.take(len as int)),
                *mix,
            ),
            hit_placed(old(self).mono(), final(self).mono(), position, clip@, *mix),
    {
        if position >= self.mono.len() {
            return 0;
        }
        let room: usize = self.mono.len() - position;
        let len: usize = if clip.len() < room {
            clip.len()
        } else {
            room
        };
        let ghost before = self.mono@;
        let ghost added = first_channel(clip@.take(len as int));
        let mut k: usize = 0;
        while k < len
            invariant
                accepts_samples(*mix),
                k <= len <= clip@.len(),
                position + len <= self.mono.len(),
                self.stereo@ == old(self).stereo(),
                added == first_channel(clip@.take(len as int)),
                mixed(before, self.mono@, position as int, added.take(k as int), *mix),
            decreases len - k,
        {
            mix_next(&mut self.mono, position, k, clip[k].0, mix, Ghost(before), Ghost(added));
            k = k + 1;
        }
        assert(added.take(len as int) =~= added);
        len
    }

    /// Mixes a clip into the two channels, from frame `start` on and as far as there is room.
    /// Says how many frames were mixed.
    pub fn overlay<F: Fn(T, T) -> T>(&mut self, start: usize, clip: &[(T, T)], mix: &F) -> (len:
        usize)
        requires
            old(self).well_formed(),
            start <= old(self).frames(),
            accepts_samples(*mix),
        ensures
            final(self).well_formed(),
            final(self).mono() == old(self).mono(),
            len == fitting(old(self).frames() as int, start as int, clip@.len() as int),
            mixed(
                old(self).stereo(),
                final(self).stereo(),
                2 * start as int,
                interleaved(clip@.take(len as int)),
                *mix,
            ),
            clip_laid(old(self).stereo(), final(self).stereo(), start, clip@, *mix),
    {
        let room: usize = self.mono.len() - start;
        let len: usize = if clip.len() < room {
            clip.len()
        } else {
            room
        };
        let ghost before = self.stereo@;
        let ghost added = interleaved(clip@.take(len as int));
        let total: usize = self.stereo.len();
        assert(total == 2 * self.mono@.len());
        let at: usize = start * 2;
        let mut k: usize = 0;
        while k < len
            invariant
                accepts_samples(*mix),
                k <= len <= clip@.len(),
                at == 2 * start,
                at + 2 * len <= total,
                total == self.stereo@.len(),
                self.mono@ == old(self).mono(),
                added == interleaved(clip@.take(len as int)),
                mixed(before, self.stereo@, at as int, added.take(2 * k), *mix),
            decreases len - k,
        {
            let frame = clip[k];
            mix_next(&mut self.stereo, at, 2 * k, frame.0, mix, Ghost(before), Ghost(added));
            mix_next(&mut self.stereo, at, 2 * k + 1, frame.1, mix, Ghost(before), Ghost(added));
            k = k + 1;
        }
        assert(added.take(2 * len) =~= added);
        len
    }

    /// Overlays the same clip at each of `starts`, one after the other.
    pub fn overlay_all<F: Fn(T, T) -> T>(&mut self, starts: &[usize], clip: &[(T, T)], mix: &F)
        requires
            old(self).well_formed(),
            forall|k: int| 0 <= k < starts@.len() ==> #[trigger] starts@[k] <= old(self).frames(),
            accepts_samples(*mix),
        ensures
            final(self).well_formed(),
            final(self).mono() == old(self).mono(),
            clips_laid(old(self).stereo(), final(self).stereo(), starts@, clip@, *mix),
    {
        let ghost before = self.stereo();
        let mut k: usize = 0;
        assert(starts@.take(0) =~= seq![]);
        while k < starts.len()
            invariant
                k <= starts@.len(),
                accepts_samples(*mix),
                forall|j: int| 0 <= j < starts@.len() ==> #[trigger] starts@[j] <= self.frames(),
                self.well_formed(),
                self.mono() == old(self).mono(),
                clips_laid(before, self.stereo(), starts@.take(k as int), clip@, *mix),
            decreases starts@.len() - k,
        {
            let ghost mid = self.stereo();
            self.overlay(starts[k], clip, mix);
            proof {
                let now = starts@.take(k + 1);
                assert(now.drop_last() =~= starts@.take(k as int));
                assert(now.last() == starts@[k as int]);
                assert(clip_laid(mid, self.stereo(), now.last(), clip@, *mix));
            }
            k = k + 1;
        }
        assert(starts@.take(k as int) =~= starts@);
    }

    /// Mixes `len` frames of a track into the two channels, from frame `start` on. The frames
    /// are what `sample` gives for 0, 1 and so on. An empty track may start anywhere.
    pub fn lay_track<G: Fn(usize) -> (T, T), F: Fn(T, T) -> T>(
        &mut self,
        start: usize,
        len: usize,
        sample: &G,
        mix: &F,
    )
        requires
            old(self).well_formed(),
            len == 0 || start + len <= old(self).frames(),
            accepts_samples(*mix),
            forall|i: usize| i < len ==> #[trigger] call_requires(*sample, (i,)),
        ensures
            final(self).well_formed(),
            final(self).mono() == old(self).mono(),
            track_laid(
                old(self).stereo(),
                final(self).stereo(),
                start,
                len,
                *sample,
                *mix,
            ),
    {
        let ghost before = self.stereo@;
        let ghost mut frames: Seq<(T, T)> = seq![];
        if len == 0 {
            assert(mixed(before, self.stereo(), 2 * start as int, interleaved(frames), *mix));
            return;
        }
        let total: usize = self.stereo.len();
        assert(total == 2 * self.mono@.len());
        let at: usize = start * 2;
        let mut k: usize = 0;
        while k < len
            invariant
                accepts_samples(*mix),
                forall|i: usize| i < len ==> #[trigger] call_requires(*sample, (i,)),
                k <= len,
                at == 2 * start,
                at + 2 * len <= total,
                total == self.stereo@.len(),
                self.mono@ == old(self).mono(),
                sampled(frames, k as int, *sample),
                mixed(before, self.stereo@, at as int, interleaved(frames), *mix),
            decreases len - k,
        {
            let frame = sample(k);
            let ghost earlier = interleaved(frames);
            proof {
                frames = frames.push(frame);
                assert(interleaved(frames).take(2 * k) =~= earlier);
            }
            let ghost added = interleaved(frames);
            mix_next(&mut self.stereo, at, 2 * k, frame.0, mix, Ghost(before), Ghost(added));
            mix_next(&mut self.stereo, at, 2 * k + 1, frame.1, mix, Ghost(before), Ghost(added));
            assert(added.take(2 * k + 2) =~= added);
            k = k + 1;
        }
        assert(mixed(before, self.stereo(), 2 * start as int, interleaved(frames), *mix));
    }

    /// Mixes the hit sounds into both channels.
    pub fn join<F: Fn(T, T) -> T>(&mut self, mix: &F)
        requires
            old(self).well_formed(),
            accepts_samples(*mix),
        ensures
            final(self).well_formed(),
            final(self).mono() == old(self).mono(),
            mixed(
                old(self).stereo(),
                final(self).stereo(),
                0,
                interleaved(on_both_sides(old(self).mono())),
                *mix,
            ),
    {
        let ghost before = self.stereo@;
        let ghost added = interleaved(on_both_sides(self.mono@));
        let total: usize = self.stereo.len();
        let mut k: usize = 0;
        while k < self.mono.len()
            invariant
                accepts_samples(*mix),
                k <= self.mono@.len(),
                total == 2 * self.mono@.len(),
                total == self.stereo@.len(),
                self.mono@ == old(self).mono(),
                added == interleaved(on_both_sides(self.mono@)),
                mixed(before, self.stereo@, 0, added.take(2 * k), *mix),
            decreases self.mono@.len() - k,
        {
            let sample = self.mono[k];
            mix_next(&mut self.stereo, 0, 2 * k, sample, mix, Ghost(before), Ghost(added));
            mix_next(&mut self.stereo, 0, 2 * k + 1, sample, mix, Ghost(before), Ghost(added));
            k = k + 1;
        }
        assert(added.take(2 * k) =~= added);
    }

    /// Treats the hit sounds before they are joined: `limit` works sample by sample, `compress`
    /// also hands its gain on from one sample to the next. Says what the gain is at the end.
    pub fn treat<G, L: Fn(T) -> T, K: Fn(T, G) -> (T, G)>(
        &mut self,
        dynamics: Dynamics,
        limit: &L,
        compress: &K,
        gain: G,
    ) -> (last: G)
        requires
            old(self).well_formed(),
            forall|a: T| #[trigger] call_requires(*limit, (a,)),
            forall|a: T, g: G| #[trigger] call_requires(*compress, (a, g)),
        ensures
            final(self).well_formed(),
            final(self).stereo() == old(self).stereo(),
            treated(
                old(self).mono(),
                final(self).mono(),
                dynamics,
                *limit,
                *compress,
                gain,
                last,
            ),
    {
        match dynamics {
            Dynamics::Limit => {
                limit_all(&mut self.mono, limit);
                gain
            },
            Dynamics::Compress => compress_all(&mut self.mono, compress, gain),
            Dynamics::Untouched => gain,
        }
    }

    /// Places the hit sound of every note that is not fake. `locate` turns the time of a note
    /// into a frame.
    pub fn place_hits<D: Copy, L: Fn(D) -> usize, F: Fn(T, T) -> T>(
        &mut self,
        lines: &Vec<Vec<Note<D>>>,
        clips: &HitClips<T>,
        locate: &L,
        mix: &F,
    )
        requires
            old(self).well_formed(),
            accepts_samples(*mix),
            forall|time: D| #[trigger] call_requires(*locate, (time,)),
        ensures
            final(self).well_formed(),
            final(self).stereo() == old(self).stereo(),
            hits_placed(
                old(self).mono(),
                final(self).mono(),
                all_hits(lines@),
                *clips,
                *locate,
                *mix,
            ),
    {
        let hits = list_hits(lines);
        let ghost before = self.mono();
        let mut k: usize = 0;
        assert(hits@.take(0) =~= seq![]);
        while k < hits.len()
            invariant
                k <= hits@.len(),
                accepts_samples(*mix),
                forall|time: D| #[trigger] call_requires(*locate, (time,)),
                self.well_formed(),
                self.stereo() == old(self).stereo(),
                hits_placed(before, self.mono(), hits@.take(k as int), *clips, *locate, *mix),
            decreases hits@.len() - k,
        {
            let (time, sound) = hits[k];
            let ghost mid = self.mono();
            let position = locate(time);
            let clip = clips.get(sound);
            self.place(position, clip.as_slice(), mix);
            proof {
                let now = hits@.take(k + 1);
                assert(now.drop_last() =~= hits@.take(k as int));
                assert(now.last() == (time, sound));
                assert(hit_placed(mid, self.mono(), position, clips.clip(now.last().1), *mix));
                assert(call_ensures(*locate, (now.last().0,), position));
                assert(hits_placed(before, mid, now.drop_last(), *clips, *locate, *mix));
            }
            k = k + 1;
        }
        assert(hits@.take(k as int) =~= hits@);
    }
}

/// Each sample of `after` is what `limit` may make of the one of `before`.
pub open spec fn limited<T, L: Fn(T) -> T>(before: Seq<T>, after: Seq<T>, limit: L) -> bool {
    &&& after.len() == before.len()
    &&& forall|i: int|
        0 <= i < after.len() ==> call_ensures(limit, (before[i],), #[trigger] after[i])
}

/// `after` is what `compress` may make of `before`, sample by sample, if the gain is `first`
/// before the first sample and `last` after the last.
pub open spec fn compressed<T, G, K: Fn(T, G) -> (T, G)>(
    before: Seq<T>,
    after: Seq<T>,
    first: G,
    last: G,
    compress: K,
) -> bool
    decreases before.len(),
{
    if before.len() == 0 {
        after.len() == 0 && first == last
    } else {
        &&& after.len() == before.len()
        &&& exists|gain: G| #[trigger]
            call_ensures(compress, (before.last(), gain), (after.last(), last)) && compressed(
                before.drop_last(),
                after.drop_last(),
                first,
                gain,
                compress,
            )
    }
}

/// `after` is `before` as `dynamics` treats it, if the gain is `first` before the first sample
/// and `last` after the last.
pub open spec fn treated<T, G, L: Fn(T) -> T, K: Fn(T, G) -> (T, G)>(
    before: Seq<T>,
    after: Seq<T>,
    dynamics: Dynamics,
    limit: L,
    compress: K,
    first: G,
    last: G,
) -> bool {
    match dynamics {
        Dynamics::Limit => limited(before, after, limit) && last == first,
        Dynamics::Compress => compressed(before, after, first, last, compress),
        Dynamics::Untouched => after == before && last == first,
    }
}

fn limit_all<T: Copy, L: Fn(T) -> T>(samples: &mut Vec<T>, limit: &L)
    requires
        forall|a: T| #[trigger] call_requires(*limit, (a,)),
    ensures
        limited(old(samples)@, final(samples)@, *limit),
{
    let ghost before = samples@;
    let mut k: usize = 0;
    while k < samples.len()
        invariant
            forall|a: T| #[trigger] call_requires(*limit, (a,)),
            k <= samples@.len(),
            samples@.len() == before.len(),
            forall|i: int|
                0 <= i < k ==> call_ensures(*limit, (before[i],), #[trigger] samples@[i]),
            forall|i: int| k <= i < samples@.len() ==> samples@[i] == before[i],
        decreases samples@.len() - k,
    {
        let sample = limit(samples[k]);
        samples.set(k, sample);
        k = k + 1;
    }
}

fn compress_all<T: Copy, G, K: Fn(T, G) -> (T, G)>(
    samples: &mut Vec<T>,
    compress: &K,
    gain: G,
) -> (last: G)
    requires
        forall|a: T, g: G| #[trigger] call_requires(*compress, (a, g)),
    ensures
        compressed(old(samples)@, final(samples)@, gain, last, *compress),
{
    let ghost before = samples@;
    let ghost first = gain;
    let mut gain = gain;
    let mut k: usize = 0;
    while k < samples.len()
        invariant
            forall|a: T, g: G| #[trigger] call_requires(*compress, (a, g)),
            k <= samples@.len(),
            samples@.len() == before.len(),
            compressed(before.take(k as int), samples@.take(k as int), first, gain, *compress),
            forall|i: int| k <= i < samples@.len() ==> samples@[i] == before[i],
        decreases samples@.len() - k,
    {
        let ghost earlier = samples@;
        let ghost held = gain;
        let (sample, next) = compress(samples[k], gain);
        samples.set(k, sample);
        gain = next;
        proof {
            let b = before.take(k + 1);
            let a = samples@.take(k + 1);
            assert(b.drop_last() =~= before.take(k as int));
            assert(a.drop_last() =~= earlier.take(k as int));
            assert(call_ensures(*compress, (b.last(), held), (a.last(), gain)));
        }
        k = k + 1;
    }
    assert(before.take(k as int) =~= before);
    assert(samples@.take(k as int) =~= samples@);
    gain
}

/// The kinds of notes.
#[derive(Clone, Copy, PartialEq, Eq, Debug, Structural)]
pub enum NoteKind {
    Click,
    Hold,
    Drag,
    Flick,
}

/// A note: its kind, its time on the host's clock, and whether it is there for show only.
#[derive(Debug)]
pub struct Note<D> {
    pub kind: NoteKind,
    pub time: D,
    pub fake: bool,
}

/// The sounds that hitting a note may make.
#[derive(Clone, Copy, PartialEq, Eq, Debug, Structural)]
pub enum HitSound {
    Click,
    Drag,
    Flick,
}

impl NoteKind {
    /// The sound of a note of this kind; a hold sounds like a click.
    pub open spec fn sound_of(self) -> HitSound {
        match self {
            NoteKind::Click | NoteKind::Hold => HitSound::Click,
            NoteKind::Drag => HitSound::Drag,
            NoteKind::Flick => HitSound::Flick,
        }
    }

    /// The sound of a note of this kind.
    pub fn sound(&self) -> (r: HitSound)
        ensures
            r == self.sound_of(),
    {
        match self {
            NoteKind::Click | NoteKind::Hold => HitSound::Click,
            NoteKind::Drag => HitSound::Drag,
            NoteKind::Flick => HitSound::Flick,
        }
    }
}

/// The clips of the hit sounds.
pub struct HitClips<T> {
    pub click: Vec<(T, T)>,
    pub drag: Vec<(T, T)>,
    pub flick: Vec<(T, T)>,
}

impl<T> HitClips<T> {
    /// The frames of `sound`.
    pub open spec fn clip(self, sound: HitSound) -> Seq<(T, T)> {
        match sound {
            HitSound::Click => self.click@,
            HitSound::Drag => self.drag@,
            HitSound::Flick => self.flick@,
        }
    }

    /// The frames of `sound`.
    pub fn get(&self, sound: HitSound) -> (r: &Vec<(T, T)>)
        ensures
            r@ == self.clip(sound),
    {
        match sound {
            HitSound::Click => &self.click,
            HitSound::Drag => &self.drag,
            HitSound::Flick => &self.flick,
        }
    }
}

/// The times and sounds of the notes of one line that are not fake, in order.
pub open spec fn line_hits<D>(notes: Seq<Note<D>>) -> Seq<(D, HitSound)>
    decreases notes.len(),
{
    if notes.len() == 0 {
        seq![]
    } else if notes.last().fake {
        line_hits(notes.drop_last())
    } else {
        line_hits(notes.drop_last()).push((notes.last().time, notes.last().kind.sound_of()))
    }
}

/// The times and sounds of the notes of all lines that are not fake, line by line.
pub open spec fn all_hits<D>(lines: Seq<Vec<Note<D>>>) -> Seq<(D, HitSound)>
    decreases lines.len(),
{
    if lines.len() == 0 {
        seq![]
    } else {
        all_hits(lines.drop_last()) + line_hits(lines.last()@)
    }
}

/// Lists the hits of all lines.
pub fn list_hits<D: Copy>(lines: &Vec<Vec<Note<D>>>) -> (r: Vec<(D, HitSound)>)
    ensures
        r@ == all_hits(lines@),
{
    let mut r: Vec<(D, HitSound)> = Vec::new();
    let mut i: usize = 0;
    assert(lines@.take(0) =~= seq![]);
    while i < lines.len()
        invariant
            i <= lines@.len(),
            r@ == all_hits(lines@.take(i as int)),
        decreases lines@.len() - i,
    {
        let notes = &lines[i];
        let ghost done = r@;
        let mut k: usize = 0;
        assert(notes@.take(0) =~= seq![]);
        assert(r@ =~= done + line_hits(notes@.take(0)));
        while k < notes.len()
            invariant
                k <= notes@.len(),
                r@ == done + line_hits(notes@.take(k as int)),
            decreases notes@.len() - k,
        {
            let note = &notes[k];
            assert(notes@.take(k + 1).drop_last() =~= notes@.take(k as int));
            if !note.fake {
                r.push((note.time, note.kind.sound()));
                assert(r@ =~= done + line_hits(notes@.take(k + 1)));
            }
            k = k + 1;
        }
        proof {
            assert(notes@.take(k as int) =~= notes@);
            assert(lines@.take(i + 1).drop_last() =~= lines@.take(i as int));
        }
        i = i + 1;
    }
    assert(lines@.take(i as int) =~= lines@);
    r
}

/// `after` is `before` with one hit sound placed at `position`, as far as there is room.
pub open spec fn hit_placed<T, F: Fn(T, T) -> T>(
    before: Seq<T>,
    after: Seq<T>,
    position: usize,
    clip: Seq<(T, T)>,
    mix: F,
) -> bool {
    let len = fitting(before.len() as int, position as int, clip.len() as int);
    mixed(before, after, position as int, first_channel(clip.take(len)), mix)
}

/// `after` is `before` with the sound of each of `hits` placed, one after the other, where
/// `locate` puts its time.
pub open spec fn hits_placed<T, D, L: Fn(D) -> usize, F: Fn(T, T) -> T>(
    before: Seq<T>,
    after: Seq<T>,
    hits: Seq<(D, HitSound)>,
    clips: HitClips<T>,
    locate: L,
    mix: F,
) -> bool
    decreases hits.len(),
{
    if hits.len() == 0 {
        after == before
    } else {
        exists|mid: Seq<T>, position: usize| #[trigger]
            hit_placed(mid, after, position, clips.clip(hits.last().1), mix) && call_ensures(
                locate,
                (hits.last().0,),
                position,
            ) && hits_placed(before, mid, hits.drop_last(), clips, locate, mix)
    }
}

/// `after` is `before` with `clip` overlaid from frame `start` on, as far as there is room.
pub open spec fn clip_laid<T, F: Fn(T, T) -> T>(
    before: Seq<T>,
    after: Seq<T>,
    start: usize,
    clip: Seq<(T, T)>,
    mix: F,
) -> bool {
    let len = fitting(before.len() as int / 2, start as int, clip.len() as int);
    mixed(before, after, 2 * start as int, interleaved(clip.take(len)), mix)
}

/// `after` is `before` with `clip` overlaid at each of `starts`, one after the other.
pub open spec fn clips_laid<T, F: Fn(T, T) -> T>(
    before: Seq<T>,
    after: Seq<T>,
    starts: Seq<usize>,
    clip: Seq<(T, T)>,
    mix: F,
) -> bool
    decreases starts.len(),
{
    if starts.len() == 0 {
        after == before
    } else {
        exists|mid: Seq<T>| #[trigger]
            clip_laid(mid, after, starts.last(), clip, mix) && clips_laid(
                before,
                mid,
                starts.drop_last(),
                clip,
                mix,
            )
    }
}

/// `frames` is what `sample` may give for 0 up to `len`.
pub open spec fn sampled<T, G: Fn(usize) -> (T, T)>(
    frames: Seq<(T, T)>,
    len: int,
    sample: G,
) -> bool {
    &&& frames.len() == len
    &&& forall|i: usize| i < len ==> call_ensures(sample, (i,), #[trigger] frames[i as int])
}

/// `after` is `before` with `len` frames mixed in from frame `start` on, which are what `sample`
/// may give.
pub open spec fn track_laid<T, G: Fn(usize) -> (T, T), F: Fn(T, T) -> T>(
    before: Seq<T>,
    after: Seq<T>,
    start: usize,
    len: usize,
    sample: G,
    mix: F,
) -> bool {
    exists|frames: Seq<(T, T)>|
        sampled(frames, len as int, sample) && #[trigger] mixed(
            before,
            after,
            2 * start as int,
            interleaved(frames),
            mix,
        )
}

/// One channel, heard on both sides.
pub open spec fn on_both_sides<T>(channel: Seq<T>) -> Seq<(T, T)> {
    Seq::new(channel.len(), |i: int| (channel[i], channel[i]))
}

/// The music of a video: `len` frames of a track from frame `start` on, and a clip that is
/// repeated from each of the frames `endings` on. `mix` adds a sample of either.
pub struct Music<'a, T, G, F> {
    pub start: usize,
    pub len: usize,
    pub sample: &'a G,
    pub endings: &'a [usize],
    pub ending: &'a [(T, T)],
    pub mix: &'a F,
}

impl<'a, T, G: Fn(usize) -> (T, T), F: Fn(T, T) -> T> Music<'a, T, G, F> {
    /// Whether the track lies inside a video of `frames` frames, the endings start there, and
    /// the functions take what they are given.
    pub open spec fn fits(self, frames: int) -> bool {
        &&& self.len == 0 || self.start + self.len <= frames
        &&& forall|k: int| 0 <= k < self.endings@.len() ==> #[trigger] self.endings@[k] <= frames
        &&& forall|i: usize| i < self.len ==> #[trigger] call_requires(*self.sample, (i,))
        &&& accepts_samples(*self.mix)
    }

    /// `after` is `before` with the track mixed in, which makes `between`, and then the endings.
    pub open spec fn heard(self, before: Seq<T>, between: Seq<T>, after: Seq<T>) -> bool {
        &&& track_laid(before, between, self.start, self.len, *self.sample, *self.mix)
        &&& clips_laid(between, after, self.endings@, self.ending@, *self.mix)
    }
}

/// The hit sounds of a video: the notes, the clips, what turns the time of a note into a frame,
/// and what adds a sample of a clip.
pub struct Effects<'a, T, D, L, F> {
    pub lines: &'a Vec<Vec<Note<D>>>,
    pub clips: &'a HitClips<T>,
    pub locate: &'a L,
    pub mix: &'a F,
}

impl<'a, T, D, L: Fn(D) -> usize, F: Fn(T, T) -> T> Effects<'a, T, D, L, F> {
    /// Whether the functions take any time and any samples.
    pub open spec fn accepts_all(self) -> bool {
        &&& accepts_samples(*self.mix)
        &&& forall|time: D| #[trigger] call_requires(*self.locate, (time,))
    }

    /// `after` is `before` with the sound of every note that is not fake.
    pub open spec fn heard(self, before: Seq<T>, after: Seq<T>) -> bool {
        hits_placed(before, after, all_hits(self.lines@), *self.clips, *self.locate, *self.mix)
    }
}

/// How the hit sounds are treated, with the gain that compression starts from.
pub struct Treatment<'a, G, L, K> {
    pub dynamics: Dynamics,
    pub limit: &'a L,
    pub compress: &'a K,
    pub gain: G,
}

/// The steps by which a sound comes about. The music turns silence on both sides into `track`
/// and that into `tuned`; the hit sounds turn silence beside them into `hits` and their
/// treatment turns that into `even`; mixed together, `tuned` and `even` are `sound`. What is
/// left out stays silent.
pub open spec fn made_in_steps<
    T,
    D,
    G,
    SM: Fn(usize) -> (T, T),
    FM: Fn(T, T) -> T,
    LE: Fn(D) -> usize,
    FE: Fn(T, T) -> T,
    LT: Fn(T) -> T,
    KT: Fn(T, G) -> (T, G),
    J: Fn(T, T) -> T,
>(
    frames: nat,
    silence: T,
    with_music: bool,
    music: Music<T, SM, FM>,
    with_effects: bool,
    effects: Effects<T, D, LE, FE>,
    treatment: Treatment<G, LT, KT>,
    join: J,
    track: Seq<T>,
    tuned: Seq<T>,
    hits: Seq<T>,
    even: Seq<T>,
    last: G,
    sound: Seq<T>,
) -> bool {
    let both = Seq::new(2 * frames, |i: int| silence);
    let beside = Seq::new(frames, |i: int| silence);
    &&& if with_music {
        music.heard(both, track, tuned)
    } else {
        tuned == both
    }
    &&& if with_effects {
        effects.heard(beside, hits)
    } else {
        hits == beside
    }
    &&& treated(
        hits,
        even,
        treatment.dynamics,
        *treatment.limit,
        *treatment.compress,
        treatment.gain,
        last,
    )
    &&& mixed(tuned, sound, 0, interleaved(on_both_sides(even)), join)
}

/// `sound` may come about by these steps.
pub open spec fn made<
    T,
    D,
    G,
    SM: Fn(usize) -> (T, T),
    FM: Fn(T, T) -> T,
    LE: Fn(D) -> usize,
    FE: Fn(T, T) -> T,
    LT: Fn(T) -> T,
    KT: Fn(T, G) -> (T, G),
    J: Fn(T, T) -> T,
>(
    frames: nat,
    silence: T,
    with_music: bool,
    music: Music<T, SM, FM>,
    with_effects: bool,
    effects: Effects<T, D, LE, FE>,
    treatment: Treatment<G, LT, KT>,
    join: J,
    sound: Seq<T>,
) -> bool {
    exists|track: Seq<T>, tuned: Seq<T>, hits: Seq<T>, even: Seq<T>, last: G|
        made_in_steps(
            frames,
            silence,
            with_music,
            music,
            with_effects,
            effects,
            treatment,
            join,
            track,
            tuned,
            hits,
            even,
            last,
            sound,
        )
}

/// Makes the sound of a video of `frames` frames, as two interleaved channels: the music where
/// there is to be music, the hit sounds where there are to be effects, and `join` to bring them
/// together.
pub fn make_sound<
    T: Copy,
    D: Copy,
    G,
    SM: Fn(usize) -> (T, T),
    FM: Fn(T, T) -> T,
    LE: Fn(D) -> usize,
    FE: Fn(T, T) -> T,
    LT: Fn(T) -> T,
    KT: Fn(T, G) -> (T, G),
    J: Fn(T, T) -> T,
>(
    frames: usize,
    silence: T,
    with_music: bool,
    music: &Music<T, SM, FM>,
    with_effects: bool,
    effects: &Effects<T, D, LE, FE>,
    treatment: Treatment<G, LT, KT>,
    join: &J,
) -> (sound: Vec<T>)
    requires
        2 * frames <= usize::MAX,
        with_music ==> music.fits(frames as int),
        with_effects ==> effects.accepts_all(),
        forall|a: T| #[trigger] call_requires(*treatment.limit, (a,)),
        forall|a: T, g: G| #[trigger] call_requires(*treatment.compress, (a, g)),
        accepts_samples(*join),
    ensures
        sound@.len() == 2 * frames,
        made(
            frames as nat,
            silence,
            with_music,
            *music,
            with_effects,
            *effects,
            treatment,
            *join,
            sound@,
        ),
{
    let ghost planned = treatment;
    let mut mix = Mix::silent(frames, silence);
    let ghost mut track = mix.stereo();
    if with_music {
        mix.lay_track(music.start, music.len, music.sample, music.mix);
        proof {
            track = mix.stereo();
        }
        mix.overlay_all(music.endings, music.ending, music.mix);
    }
    let ghost tuned = mix.stereo();
    if with_effects {
        mix.place_hits(effects.lines, effects.clips, effects.locate, effects.mix);
    }
    let ghost hits = mix.mono();
    let last = mix.treat(
        treatment.dynamics,
        treatment.limit,
        treatment.compress,
        treatment.gain,
    );
    let ghost even = mix.mono();
    mix.join(join);
    proof {
        assert(made_in_steps(
            frames as nat,
            silence,
            with_music,
            *music,
            with_effects,
            *effects,
            planned,
            *join,
            track,
            tuned,
            hits,
            even,
            last,
            mix.stereo(),
        ));
    }
    mix.into_stereo()
}

/// A clip never runs past the end, is heard whole where there is room for it, and right up to the
/// end where there is not.
pub proof fn lemma_fitting_stays_inside(room: int, at: int, len: int)
    requires
        0 <= room,
        0 <= at,
        0 <= len,
    ensures
        0 <= fitting(room, at, len) <= len,
        at <= room ==> at + fitting(room, at, len) <= room,
        at + len <= room ==> fitting(room, at, len) == len,
        at <= room <= at + len ==> at + fitting(room, at, len) == room,
        room <= at ==> fitting(room, at, len) == 0,
{
}

/// Whether `mix` gives one result for given samples.
pub open spec fn single_valued<T, F: Fn(T, T) -> T>(mix: F) -> bool {
    forall|a: T, b: T, x: T, y: T|
        #![trigger call_ensures(mix, (a, b), x), call_ensures(mix, (a, b), y)]
        call_ensures(mix, (a, b), x) && call_ensures(mix, (a, b), y) ==> x == y
}

/// Mixing with a function that gives one result leaves one outcome.
pub proof fn lemma_mixed_is_determined<T, F: Fn(T, T) -> T>(
    before: Seq<T>,
    one: Seq<T>,
    other: Seq<T>,
    at: int,
    added: Seq<T>,
    mix: F,
)
    requires
        single_valued(mix),
        mixed(before, one, at, added, mix),
        mixed(before, other, at, added, mix),
    ensures
        one == other,
{
    assert forall|i: int| 0 <= i < one.len() implies one[i] == other[i] by {
        if at <= i < at + added.len() {
            assert(call_ensures(mix, (before[i], added[i - at]), one[i]));
            assert(call_ensures(mix, (before[i], added[i - at]), other[i]));
        }
    }
    assert(one =~= other);
}

/// What stood before the last hit was placed, and where that hit was put.
proof fn lemma_last_hit<T, D, L: Fn(D) -> usize, F: Fn(T, T) -> T>(
    before: Seq<T>,
    after: Seq<T>,
    hits: Seq<(D, HitSound)>,
    clips: HitClips<T>,
    locate: L,
    mix: F,
) -> (r: (Seq<T>, usize))
    requires
        hits.len() > 0,
        hits_placed(before, after, hits, clips, locate, mix),
    ensures
        hit_placed(r.0, after, r.1, clips.clip(hits.last().1), mix),
        call_ensures(locate, (hits.last().0,), r.1),
        hits_placed(before, r.0, hits.drop_last(), clips, locate, mix),
{
    choose|mid: Seq<T>, position: usize| #[trigger]
        hit_placed(mid, after, position, clips.clip(hits.last().1), mix) && call_ensures(
            locate,
            (hits.last().0,),
            position,
        ) && hits_placed(before, mid, hits.drop_last(), clips, locate, mix)
}

/// What stood before the last repetition of a clip.
proof fn lemma_last_clip<T, F: Fn(T, T) -> T>(
    before: Seq<T>,
    after: Seq<T>,
    starts: Seq<usize>,
    clip: Seq<(T, T)>,
    mix: F,
) -> (mid: Seq<T>)
    requires
        starts.len() > 0,
        clips_laid(before, after, starts, clip, mix),
    ensures
        clip_laid(mid, after, starts.last(), clip, mix),
        clips_laid(before, mid, starts.drop_last(), clip, mix),
{
    choose|mid: Seq<T>| #[trigger]
        clip_laid(mid, after, starts.last(), clip, mix) && clips_laid(
            before,
            mid,
            starts.drop_last(),
            clip,
            mix,
        )
}

/// Placing hit sounds never changes the length of the channel.
pub proof fn lemma_hits_keep_length<T, D, L: Fn(D) -> usize, F: Fn(T, T) -> T>(
    before: Seq<T>,
    after: Seq<T>,
    hits: Seq<(D, HitSound)>,
    clips: HitClips<T>,
    locate: L,
    mix: F,
)
    requires
        hits_placed(before, after, hits, clips, locate, mix),
    ensures
        after.len() == before.len(),
    decreases hits.len(),
{
    if hits.len() > 0 {
        let (mid, position) = lemma_last_hit(before, after, hits, clips, locate, mix);
        lemma_hits_keep_length(before, mid, hits.drop_last(), clips, locate, mix);
    }
}

/// Placing hit sounds leaves one outcome, if `mix` gives one result for given samples and
/// `locate` one frame for a given time.
pub proof fn lemma_hits_are_determined<T, D, L: Fn(D) -> usize, F: Fn(T, T) -> T>(
    before: Seq<T>,
    one: Seq<T>,
    other: Seq<T>,
    hits: Seq<(D, HitSound)>,
    clips: HitClips<T>,
    locate: L,
    mix: F,
)
    requires
        single_valued(mix),
        one_place(locate),
        hits_placed(before, one, hits, clips, locate, mix),
        hits_placed(before, other, hits, clips, locate, mix),
    ensures
        one == other,
    decreases hits.len(),
{
    if hits.len() > 0 {
        let clip = clips.clip(hits.last().1);
        let (mid, p) = lemma_last_hit(before, one, hits, clips, locate, mix);
        let (mid2, q) = lemma_last_hit(before, other, hits, clips, locate, mix);
        lemma_hits_are_determined(before, mid, mid2, hits.drop_last(), clips, locate, mix);
        assert(p == q);
        let len = fitting(mid.len() as int, p as int, clip.len() as int);
        lemma_mixed_is_determined(mid, one, other, p as int, first_channel(clip.take(len)), mix);
    }
}

/// Nothing is heard before the first hit: where `locate` puts every hit at `from` or later, the
/// samples before `from` stay as they were.
pub proof fn lemma_quiet_before_the_first_hit<T, D, L: Fn(D) -> usize, F: Fn(T, T) -> T>(
    before: Seq<T>,
    after: Seq<T>,
    hits: Seq<(D, HitSound)>,
    clips: HitClips<T>,
    locate: L,
    mix: F,
    from: int,
)
    requires
        hits_placed(before, after, hits, clips, locate, mix),
        forall|k: int, position: usize|
            0 <= k < hits.len() && #[trigger] call_ensures(locate, (hits[k].0,), position)
                ==> from <= position,
    ensures
        forall|i: int| 0 <= i < from && i < before.len() ==> after[i] == before[i],
    decreases hits.len(),
{
    if hits.len() > 0 {
        let (mid, position) = lemma_last_hit(before, after, hits, clips, locate, mix);
        let last = hits.len() - 1;
        assert(call_ensures(locate, (hits[last].0,), position));
        let rest = hits.drop_last();
        assert forall|k: int, p: usize|
            0 <= k < rest.len() && #[trigger] call_ensures(
                locate,
                (rest[k].0,),
                p,
            ) implies from <= p by {
            assert(rest[k] == hits[k]);
        }
        lemma_hits_keep_length(before, mid, rest, clips, locate, mix);
        lemma_quiet_before_the_first_hit(before, mid, rest, clips, locate, mix, from);
        assert forall|i: int| 0 <= i < from && i < before.len() implies after[i] == before[i] by {
            assert(mid[i] == before[i]);
            assert(after[i] == mid[i]);
        }
    }
}

/// Nothing is heard before the first repetition: where all of `starts` are `from` or later, the
/// samples of the frames before `from` stay as they were.
pub proof fn lemma_quiet_before_the_first_clip<T, F: Fn(T, T) -> T>(
    before: Seq<T>,
    after: Seq<T>,
    starts: Seq<usize>,
    clip: Seq<(T, T)>,
    mix: F,
    from: int,
)
    requires
        clips_laid(before, after, starts, clip, mix),
        forall|k: int| 0 <= k < starts.len() ==> from <= #[trigger] starts[k],
    ensures
        after.len() == before.len(),
        forall|i: int| 0 <= i < 2 * from && i < before.len() ==> after[i] == before[i],
    decreases starts.len(),
{
    if starts.len() > 0 {
        let mid = lemma_last_clip(before, after, starts, clip, mix);
        let rest = starts.drop_last();
        assert forall|k: int| 0 <= k < rest.len() implies from <= #[trigger] rest[k] by {
            assert(rest[k] == starts[k]);
        }
        assert(from <= starts[starts.len() - 1]);
        lemma_quiet_before_the_first_clip(before, mid, rest, clip, mix, from);
        assert forall|i: int| 0 <= i < 2 * from && i < before.len() implies after[i]
            == before[i] by {
            assert(mid[i] == before[i]);
            assert(after[i] == mid[i]);
        }
    }
}

proof fn lemma_line_of_fakes<D>(notes: Seq<Note<D>>)
    requires
        forall|k: int| 0 <= k < notes.len() ==> (#[trigger] notes[k]).fake,
    ensures
        line_hits(notes).len() == 0,
    decreases notes.len(),
{
    if notes.len() > 0 {
        assert(notes[notes.len() - 1].fake);
        let rest = notes.drop_last();
        assert forall|k: int| 0 <= k < rest.len() implies (#[trigger] rest[k]).fake by {
            assert(rest[k] == notes[k]);
        }
        lemma_line_of_fakes(rest);
    }
}

/// Fake notes make no sound: lines of fake notes alone have no hits.
pub proof fn lemma_fake_notes_are_silent<D>(lines: Seq<Vec<Note<D>>>)
    requires
        forall|i: int, k: int|
            0 <= i < lines.len() && 0 <= k < lines[i]@.len() ==> (#[trigger] lines[i]@[k]).fake,
    ensures
        all_hits(lines) == Seq::<(D, HitSound)>::empty(),
    decreases lines.len(),
{
    if lines.len() > 0 {
        let rest = lines.drop_last();
        assert forall|i: int, k: int|
            0 <= i < rest.len() && 0 <= k < rest[i]@.len() implies (
        #[trigger] rest[i]@[k]).fake by {
            assert(rest[i] == lines[i]);
            assert(lines[i]@[k].fake);
        }
        lemma_fake_notes_are_silent(rest);
        let notes = lines.last()@;
        assert forall|k: int| 0 <= k < notes.len() implies (#[trigger] notes[k]).fake by {
            assert(lines[lines.len() - 1]@[k].fake);
        }
        lemma_line_of_fakes(notes);
    }
    assert(all_hits(lines) =~= Seq::empty());
}

/// Lines are heard independently: the hits of two groups of lines are those of the first and
/// then those of the second.
pub proof fn lemma_hits_of_more_lines<D>(a: Seq<Vec<Note<D>>>, b: Seq<Vec<Note<D>>>)
    ensures
        all_hits(a + b) == all_hits(a) + all_hits(b),
    decreases b.len(),
{
    if b.len() == 0 {
        assert(a + b =~= a);
        assert(all_hits(a) + all_hits(b) =~= all_hits(a));
    } else {
        assert((a + b).drop_last() =~= a + b.drop_last());
        lemma_hits_of_more_lines(a, b.drop_last());
        assert(all_hits(a + b) =~= all_hits(a) + all_hits(b));
    }
}

/// Without music and effects a sound that is not treated is silence, joined with silence.
pub proof fn lemma_muted_video_is_silent<
    T,
    D,
    G,
    SM: Fn(usize) -> (T, T),
    FM: Fn(T, T) -> T,
    LE: Fn(D) -> usize,
    FE: Fn(T, T) -> T,
    LT: Fn(T) -> T,
    KT: Fn(T, G) -> (T, G),
    J: Fn(T, T) -> T,
>(
    frames: nat,
    silence: T,
    music: Music<T, SM, FM>,
    effects: Effects<T, D, LE, FE>,
    treatment: Treatment<G, LT, KT>,
    join: J,
    sound: Seq<T>,
)
    requires
        treatment.dynamics == Dynamics::Untouched,
        made(frames, silence, false, music, false, effects, treatment, join, sound),
    ensures
        sound.len() == 2 * frames,
        forall|i: int|
            0 <= i < sound.len() ==> call_ensures(join, (silence, silence), #[trigger] sound[i]),
{
}

/// Whether `sample` gives one frame for a given number.
pub open spec fn one_frame<T, G: Fn(usize) -> (T, T)>(sample: G) -> bool {
    forall|i: usize, x: (T, T), y: (T, T)|
        #![trigger call_ensures(sample, (i,), x), call_ensures(sample, (i,), y)]
        call_ensures(sample, (i,), x) && call_ensures(sample, (i,), y) ==> x == y
}

/// Whether `locate` gives one frame for a given time.
pub open spec fn one_place<D, L: Fn(D) -> usize>(locate: L) -> bool {
    forall|time: D, p: usize, q: usize|
        #![trigger call_ensures(locate, (time,), p), call_ensures(locate, (time,), q)]
        call_ensures(locate, (time,), p) && call_ensures(locate, (time,), q) ==> p == q
}

/// Whether `limit` gives one result for a given sample.
pub open spec fn one_limit<T, L: Fn(T) -> T>(limit: L) -> bool {
    forall|a: T, x: T, y: T|
        #![trigger call_ensures(limit, (a,), x), call_ensures(limit, (a,), y)]
        call_ensures(limit, (a,), x) && call_ensures(limit, (a,), y) ==> x == y
}

/// Whether `compress` gives one result for a given sample and gain.
pub open spec fn one_compression<T, G, K: Fn(T, G) -> (T, G)>(compress: K) -> bool {
    forall|a: T, g: G, x: (T, G), y: (T, G)|
        #![trigger call_ensures(compress, (a, g), x), call_ensures(compress, (a, g), y)]
        call_ensures(compress, (a, g), x) && call_ensures(compress, (a, g), y) ==> x == y
}

proof fn lemma_track_is_determined<T, G: Fn(usize) -> (T, T), F: Fn(T, T) -> T>(
    before: Seq<T>,
    one: Seq<T>,
    other: Seq<T>,
    start: usize,
    len: usize,
    sample: G,
    mix: F,
)
    requires
        one_frame(sample),
        single_valued(mix),
        track_laid(before, one, start, len, sample, mix),
        track_laid(before, other, start, len, sample, mix),
    ensures
        one == other,
{
    let f = choose|frames: Seq<(T, T)>|
        sampled(frames, len as int, sample) && #[trigger] mixed(
            before,
            one,
            2 * start as int,
            interleaved(frames),
            mix,
        );
    let g = choose|frames: Seq<(T, T)>|
        sampled(frames, len as int, sample) && #[trigger] mixed(
            before,
            other,
            2 * start as int,
            interleaved(frames),
            mix,
        );
    assert forall|i: int| 0 <= i < len implies f[i] == g[i] by {
        let n = i as usize;
        assert(call_ensures(sample, (n,), f[n as int]));
        assert(call_ensures(sample, (n,), g[n as int]));
    }
    assert(f =~= g);
    lemma_mixed_is_determined(before, one, other, 2 * start as int, interleaved(f), mix);
}

proof fn lemma_clips_are_determined<T, F: Fn(T, T) -> T>(
    before: Seq<T>,
    one: Seq<T>,
    other: Seq<T>,
    starts: Seq<usize>,
    clip: Seq<(T, T)>,
    mix: F,
)
    requires
        single_valued(mix),
        clips_laid(before, one, starts, clip, mix),
        clips_laid(before, other, starts, clip, mix),
    ensures
        one == other,
    decreases starts.len(),
{
    if starts.len() > 0 {
        let rest = starts.drop_last();
        let start = starts.last();
        let mid = lemma_last_clip(before, one, starts, clip, mix);
        let mid2 = lemma_last_clip(before, other, starts, clip, mix);
        lemma_clips_are_determined(before, mid, mid2, rest, clip, mix);
        let len = fitting(mid.len() as int / 2, start as int, clip.len() as int);
        lemma_mixed_is_determined(
            mid,
            one,
            other,
            2 * start as int,
            interleaved(clip.take(len)),
            mix,
        );
    }
}

proof fn lemma_compression_is_determined<T, G, K: Fn(T, G) -> (T, G)>(
    before: Seq<T>,
    one: Seq<T>,
    other: Seq<T>,
    first: G,
    last: G,
    last2: G,
    compress: K,
)
    requires
        one_compression(compress),
        compressed(before, one, first, last, compress),
        compressed(before, other, first, last2, compress),
    ensures
        one == other,
        last == last2,
    decreases before.len(),
{
    if before.len() == 0 {
        assert(one =~= other);
    } else {
        let g = choose|gain: G| #[trigger]
            call_ensures(compress, (before.last(), gain), (one.last(), last)) && compressed(
                before.drop_last(),
                one.drop_last(),
                first,
                gain,
                compress,
            );
        let h = choose|gain: G| #[trigger]
            call_ensures(compress, (before.last(), gain), (other.last(), last2)) && compressed(
                before.drop_last(),
                other.drop_last(),
                first,
                gain,
                compress,
            );
        lemma_compression_is_determined(
            before.drop_last(),
            one.drop_last(),
            other.drop_last(),
            first,
            g,
            h,
            compress,
        );
        let x = (one.last(), last);
        let y = (other.last(), last2);
        assert(call_ensures(compress, (before.last(), g), x));
        assert(call_ensures(compress, (before.last(), g), y));
        assert(x == y);
        assert(one =~= one.drop_last().push(one.last()));
        assert(other =~= other.drop_last().push(other.last()));
    }
}

proof fn lemma_treatment_is_determined<T, G, L: Fn(T) -> T, K: Fn(T, G) -> (T, G)>(
    before: Seq<T>,
    one: Seq<T>,
    other: Seq<T>,
    dynamics: Dynamics,
    limit: L,
    compress: K,
    first: G,
    last: G,
    last2: G,
)
    requires
        one_limit(limit),
        one_compression(compress),
        treated(before, one, dynamics, limit, compress, first, last),
        treated(before, other, dynamics, limit, compress, first, last2),
    ensures
        one == other,
{
    match dynamics {
        Dynamics::Limit => {
            assert forall|i: int| 0 <= i < one.len() implies one[i] == other[i] by {
                assert(call_ensures(limit, (before[i],), one[i]));
                assert(call_ensures(limit, (before[i],), other[i]));
            }
            assert(one =~= other);
        },
        Dynamics::Compress => {
            lemma_compression_is_determined(before, one, other, first, last, last2, compress);
        },
        Dynamics::Untouched => {},
    }
}

/// A video has one sound: where each of the functions gives one result for what it is given, all
/// that is heard is settled by the music, the notes, the clips and the treatment.
pub proof fn lemma_sound_is_determined<
    T,
    D,
    G,
    SM: Fn(usize) -> (T, T),
    FM: Fn(T, T) -> T,
    LE: Fn(D) -> usize,
    FE: Fn(T, T) -> T,
    LT: Fn(T) -> T,
    KT: Fn(T, G) -> (T, G),
    J: Fn(T, T) -> T,
>(
    frames: nat,
    silence: T,
    with_music: bool,
    music: Music<T, SM, FM>,
    with_effects: bool,
    effects: Effects<T, D, LE, FE>,
    treatment: Treatment<G, LT, KT>,
    join: J,
    one: Seq<T>,
    other: Seq<T>,
)
    requires
        one_frame(*music.sample),
        single_valued(*music.mix),
        one_place(*effects.locate),
        single_valued(*effects.mix),
        one_limit(*treatment.limit),
        one_compression(*treatment.compress),
        single_valued(join),
        made(frames, silence, with_music, music, with_effects, effects, treatment, join, one),
        made(frames, silence, with_music, music, with_effects, effects, treatment, join, other),
    ensures
        one == other,
{
    let both = Seq::new(2 * frames, |i: int| silence);
    let beside = Seq::new(frames, |i: int| silence);
    let (track, tuned, hits, even, last) = choose|
        track: Seq<T>,
        tuned: Seq<T>,
        hits: Seq<T>,
        even: Seq<T>,
        last: G,
    |
        made_in_steps(
            frames,
            silence,
            with_music,
            music,
            with_effects,
            effects,
            treatment,
            join,
            track,
            tuned,
            hits,
            even,
            last,
            one,
        );
    let (track2, tuned2, hits2, even2, last2) = choose|
        track: Seq<T>,
        tuned: Seq<T>,
        hits: Seq<T>,
        even: Seq<T>,
        last: G,
    |
        made_in_steps(
            frames,
            silence,
            with_music,
            music,
            with_effects,
            effects,
            treatment,
            join,
            track,
            tuned,
            hits,
            even,
            last,
            other,
        );
    if with_music {
        lemma_track_is_determined(
            both,
            track,
            track2,
            music.start,
            music.len,
            *music.sample,
            *music.mix,
        );
        lemma_clips_are_determined(
            track,
            tuned,
            tuned2,
            music.endings@,
            music.ending@,
            *music.mix,
        );
    }
    if with_effects {
        lemma_hits_are_determined(
            beside,
            hits,
            hits2,
            all_hits(effects.lines@),
            *effects.clips,
            *effects.locate,
            *effects.mix,
        );
    }
    lemma_treatment_is_determined(
        hits,
        even,
        even2,
        treatment.dynamics,
        *treatment.limit,
        *treatment.compress,
        treatment.gain,
        last,
        last2,
    );
    lemma_mixed_is_determined(tuned, one, other, 0, interleaved(on_both_sides(even)), join);
}

/// Mixing in nothing changes nothing, wherever it starts.
pub proof fn lemma_mixing_nothing<T, F: Fn(T, T) -> T>(
    before: Seq<T>,
    after: Seq<T>,
    at: int,
    mix: F,
)
    ensures
        mixed(before, after, at, Seq::<T>::empty(), mix) <==> before == after,
{
    if mixed(before, after, at, Seq::<T>::empty(), mix) {
        assert(before =~= after);
    }
}

/// Mixing in one sample changes the sample at its place to what `mix` gives for the two, and no
/// other.
pub proof fn lemma_mixing_one_sample<T, F: Fn(T, T) -> T>(
    before: Seq<T>,
    after: Seq<T>,
    at: int,
    sample: T,
    mix: F,
)
    requires
        0 <= at < before.len(),
    ensures
        mixed(before, after, at, seq![sample], mix) <==> after == before.update(at, after[at])
            && call_ensures(mix, (before[at], sample), after[at]),
{
    if mixed(before, after, at, seq![sample], mix) {
        assert(after =~= before.update(at, after[at]));
    }
    if after == before.update(at, after[at]) {
        assert(after.len() == before.len());
    }
}

/// Samples may be mixed in piece by piece: one piece and then the next, behind it, is the same as
/// both at once.
pub proof fn lemma_mixing_piece_by_piece<T, F: Fn(T, T) -> T>(
    before: Seq<T>,
    between: Seq<T>,
    after: Seq<T>,
    at: int,
    first: Seq<T>,
    second: Seq<T>,
    mix: F,
)
    requires
        mixed(before, between, at, first, mix),
        mixed(between, after, at + first.len(), second, mix),
    ensures
        mixed(before, after, at, first + second, mix),
{
    let both = first + second;
    assert forall|i: int| 0 <= i < after.len() implies if at <= i < at + both.len() {
        call_ensures(mix, (before[i], both[i - at]), #[trigger] after[i])
    } else {
        after[i] == before[i]
    } by {
        assert(between[i] == between[i]);
        if at <= i < at + first.len() {
            assert(both[i - at] == first[i - at]);
            assert(after[i] == between[i]);
        } else if at + first.len() <= i < at + both.len() {
            assert(both[i - at] == second[i - at - first.len()]);
            assert(between[i] == before[i]);
        }
    }
}

/// Interleaving puts the two samples of a frame side by side, the first channel first, and one
/// frame behind the other.
pub proof fn lemma_interleaved<T>(frames: Seq<(T, T)>, i: int)
    requires
        0 <= i < frames.len(),
    ensures
        interleaved(frames).len() == frames.len() + frames.len(),
        interleaved(frames)[i + i] == frames[i].0,
        interleaved(frames)[i + i + 1] == frames[i].1,
{
    assert((i + i) % 2 == 0 && (i + i) / 2 == i);
    assert((i + i + 1) % 2 == 1 && (i + i + 1) / 2 == i);
}

/// The channels of frames and the frames of a channel, one for one.
pub proof fn lemma_channels<T>(frames: Seq<(T, T)>, channel: Seq<T>, i: int)
    ensures
        first_channel(frames).len() == frames.len(),
        0 <= i < frames.len() ==> first_channel(frames)[i] == frames[i].0,
        on_both_sides(channel).len() == channel.len(),
        0 <= i < channel.len() ==> on_both_sides(channel)[i] == (channel[i], channel[i]),
{
}

/// A hit sound is heard from its frame on, sample by sample, until it ends or the video does; all
/// else stays as it was.
pub proof fn lemma_one_hit_sample_by_sample<T, F: Fn(T, T) -> T>(
    before: Seq<T>,
    after: Seq<T>,
    position: usize,
    clip: Seq<(T, T)>,
    mix: F,
)
    ensures
        hit_placed(before, after, position, clip, mix) <==> {
            &&& after.len() == before.len()
            &&& forall|i: int|
                0 <= i < before.len() ==> if position <= i < position + clip.len() {
                    call_ensures(mix, (before[i], clip[i - position].0), #[trigger] after[i])
                } else {
                    after[i] == before[i]
                }
        },
{
    let len = fitting(before.len() as int, position as int, clip.len() as int);
    let added = first_channel(clip.take(len));
    if hit_placed(before, after, position, clip, mix) {
        assert forall|i: int| 0 <= i < before.len() implies if position <= i < position
            + clip.len() {
            call_ensures(mix, (before[i], clip[i - position].0), #[trigger] after[i])
        } else {
            after[i] == before[i]
        } by {
            if position <= i < position + clip.len() {
                assert(added[i - position] == clip[i - position].0);
            }
        }
    }
    if after.len() == before.len() && (forall|i: int|
        0 <= i < before.len() ==> if position <= i < position + clip.len() {
            call_ensures(mix, (before[i], clip[i - position].0), #[trigger] after[i])
        } else {
            after[i] == before[i]
        }) {
        assert forall|i: int| 0 <= i < after.len() implies if position <= i < position
            + added.len() {
            call_ensures(mix, (before[i], added[i - position]), #[trigger] after[i])
        } else {
            after[i] == before[i]
        } by {
            if position <= i < position + added.len() {
                assert(added[i - position] == clip[i - position].0);
            }
        }
    }
}

/// A clip is heard on both sides from its frame on, each channel on its own side, until it ends or
/// the video does; all else stays as it was.
pub proof fn lemma_one_clip_frame_by_frame<T, F: Fn(T, T) -> T>(
    before: Seq<T>,
    after: Seq<T>,
    start: usize,
    clip: Seq<(T, T)>,
    mix: F,
)
    requires
        before.len() % 2 == 0,
        clip_laid(before, after, start, clip, mix),
    ensures
        after.len() == before.len(),
        forall|f: int|
            #![trigger after[f + f]]
            #![trigger after[f + f + 1]]
            0 <= f && f + f < before.len() ==> if start <= f < start + clip.len() {
                &&& call_ensures(mix, (before[f + f], clip[f - start].0), after[f + f])
                &&& call_ensures(mix, (before[f + f + 1], clip[f - start].1), after[f + f + 1])
            } else {
                after[f + f] == before[f + f] && after[f + f + 1] == before[f + f + 1]
            },
{
    let room = before.len() as int / 2;
    let len = fitting(room, start as int, clip.len() as int);
    let added = interleaved(clip.take(len));
    assert forall|f: int|
        #![trigger after[f + f]]
        #![trigger after[f + f + 1]]
        0 <= f && f + f < before.len() implies if start <= f < start + clip.len() {
        &&& call_ensures(mix, (before[f + f], clip[f - start].0), after[f + f])
        &&& call_ensures(mix, (before[f + f + 1], clip[f - start].1), after[f + f + 1])
    } else {
        after[f + f] == before[f + f] && after[f + f + 1] == before[f + f + 1]
    } by {
        let a = f + f;
        let b = f + f + 1;
        assert(b < before.len());
        if start <= f < start + clip.len() {
            lemma_interleaved(clip.take(len), f - start);
            assert(added[a - 2 * start] == clip[f - start].0);
            assert(added[b - 2 * start] == clip[f - start].1);
        }
        assert(after[a] == after[a] && after[b] == after[b]);
    }
}

/// A track is heard on both sides for its frames, each of which `sample` gave for its number; all
/// else stays as it was.
pub proof fn lemma_track_frame_by_frame<T, G: Fn(usize) -> (T, T), F: Fn(T, T) -> T>(
    before: Seq<T>,
    after: Seq<T>,
    start: usize,
    len: usize,
    sample: G,
    mix: F,
) -> (frames: Seq<(T, T)>)
    requires
        before.len() % 2 == 0,
        len == 0 || 2 * (start + len) <= before.len(),
        track_laid(before, after, start, len, sample, mix),
    ensures
        after.len() == before.len(),
        frames.len() == len,
        forall|i: usize| i < len ==> call_ensures(sample, (i,), #[trigger] frames[i as int]),
        forall|f: int|
            #![trigger after[f + f]]
            #![trigger after[f + f + 1]]
            0 <= f && f + f < before.len() ==> if start <= f < start + len {
                &&& call_ensures(mix, (before[f + f], frames[f - start].0), after[f + f])
                &&& call_ensures(mix, (before[f + f + 1], frames[f - start].1), after[f + f + 1])
            } else {
                after[f + f] == before[f + f] && after[f + f + 1] == before[f + f + 1]
            },
{
    let frames = choose|frames: Seq<(T, T)>|
        sampled(frames, len as int, sample) && #[trigger] mixed(
            before,
            after,
            2 * start as int,
            interleaved(frames),
            mix,
        );
    let added = interleaved(frames);
    assert forall|f: int|
        #![trigger after[f + f]]
        #![trigger after[f + f + 1]]
        0 <= f && f + f < before.len() implies if start <= f < start + len {
        &&& call_ensures(mix, (before[f + f], frames[f - start].0), after[f + f])
        &&& call_ensures(mix, (before[f + f + 1], frames[f - start].1), after[f + f + 1])
    } else {
        after[f + f] == before[f + f] && after[f + f + 1] == before[f + f + 1]
    } by {
        let a = f + f;
        let b = f + f + 1;
        assert(b < before.len());
        if start <= f < start + len {
            lemma_interleaved(frames, f - start);
            assert(added[a - 2 * start] == frames[f - start].0);
            assert(added[b - 2 * start] == frames[f - start].1);
        }
        assert(after[a] == after[a] && after[b] == after[b]);
    }
    frames
}

/// The hits of a line are its notes that are not fake, one for one and in order, each with its
/// own time and the sound of its kind.
pub proof fn lemma_hits_are_the_notes_that_are_not_fake<D>(notes: Seq<Note<D>>)
    ensures
        line_hits(notes) == notes.filter(|n: Note<D>| !n.fake).map_values(
            |n: Note<D>| (n.time, n.kind.sound_of()),
        ),
    decreases notes.len(),
{
    reveal(Seq::filter);
    let sounding = |n: Note<D>| !n.fake;
    let hit = |n: Note<D>| (n.time, n.kind.sound_of());
    if notes.len() > 0 {
        lemma_hits_are_the_notes_that_are_not_fake(notes.drop_last());
    }
    assert(line_hits(notes) =~= notes.filter(sounding).map_values(hit));
}

/// A line is heard note by note: what comes before a note does not change whether or how it is
/// heard.
pub proof fn lemma_hits_of_more_notes<D>(a: Seq<Note<D>>, b: Seq<Note<D>>)
    ensures
        line_hits(a + b) == line_hits(a) + line_hits(b),
    decreases b.len(),
{
    if b.len() == 0 {
        assert(a + b =~= a);
        assert(line_hits(a) + line_hits(b) =~= line_hits(a));
    } else {
        assert((a + b).drop_last() =~= a + b.drop_last());
        lemma_hits_of_more_notes(a, b.drop_last());
        assert(line_hits(a + b) =~= line_hits(a) + line_hits(b));
    }
}

/// One note makes one hit, at its time and with the sound of its kind, or none if it is fake; and
/// one line is heard as its own notes.
pub proof fn lemma_hit_of_one_note<D>(note: Note<D>, line: Vec<Note<D>>)
    ensures
        line_hits(seq![note]) == if note.fake {
            seq![]
        } else {
            seq![(note.time, note.kind.sound_of())]
        },
        all_hits(seq![line]) == line_hits(line@),
        all_hits(Seq::<Vec<Note<D>>>::empty()) == Seq::<(D, HitSound)>::empty(),
{
    let one = seq![note];
    assert(one.drop_last() =~= seq![]);
    assert(line_hits(one.drop_last()) =~= seq![]);
    assert(line_hits(one) =~= if note.fake {
        seq![]
    } else {
        seq![(note.time, note.kind.sound_of())]
    });
    let lines = seq![line];
    assert(all_hits(lines.drop_last()) =~= seq![]);
    assert(all_hits(lines) =~= line_hits(line@));
}

/// Clicks and holds sound alike, drags and flicks in their own way, and each sound has its own
/// clip.
pub proof fn lemma_sounds_of_kinds<T>(clips: HitClips<T>)
    ensures
        clips.clip(NoteKind::Click.sound_of()) == clips.click@,
        clips.clip(NoteKind::Hold.sound_of()) == clips.click@,
        clips.clip(NoteKind::Drag.sound_of()) == clips.drag@,
        clips.clip(NoteKind::Flick.sound_of()) == clips.flick@,
{
}

/// No hits leave the channel as it was; one hit is placed where `locate` puts its time, with the
/// clip of its sound.
pub proof fn lemma_placing_one_hit<T, D, L: Fn(D) -> usize, F: Fn(T, T) -> T>(
    before: Seq<T>,
    after: Seq<T>,
    hit: (D, HitSound),
    clips: HitClips<T>,
    locate: L,
    mix: F,
)
    ensures
        hits_placed(before, after, Seq::<(D, HitSound)>::empty(), clips, locate, mix) <==> after
            == before,
        hits_placed(before, after, seq![hit], clips, locate, mix) <==> exists|position: usize|
            call_ensures(locate, (hit.0,), position) && #[trigger] hit_placed(
                before,
                after,
                position,
                clips.clip(hit.1),
                mix,
            ),
{
    let one = seq![hit];
    let none = Seq::<(D, HitSound)>::empty();
    assert(one.drop_last() =~= none);
    assert(one.last() == hit);
    assert(forall|x: Seq<T>| #[trigger] hits_placed(before, x, none, clips, locate, mix) <==> x
        == before);
    if hits_placed(before, after, one, clips, locate, mix) {
        let (mid, position) = lemma_last_hit(before, after, one, clips, locate, mix);
        assert(mid == before);
        assert(hit_placed(before, after, position, clips.clip(hit.1), mix));
    }
    if exists|position: usize|
        call_ensures(locate, (hit.0,), position) && #[trigger] hit_placed(
            before,
            after,
            position,
            clips.clip(hit.1),
            mix,
        ) {
        let position = choose|position: usize|
            call_ensures(locate, (hit.0,), position) && #[trigger] hit_placed(
                before,
                after,
                position,
                clips.clip(hit.1),
                mix,
            );
        assert(hits_placed(before, before, none, clips, locate, mix));
        assert(hit_placed(before, after, position, clips.clip(one.last().1), mix));
        assert(hits_placed(before, before, one.drop_last(), clips, locate, mix));
    }
}

/// Hits may be placed group by group: every hit of the second group is heard on top of what the
/// first group left, whatever the first group was.
pub proof fn lemma_placing_more_hits<T, D, L: Fn(D) -> usize, F: Fn(T, T) -> T>(
    before: Seq<T>,
    between: Seq<T>,
    after: Seq<T>,
    first: Seq<(D, HitSound)>,
    second: Seq<(D, HitSound)>,
    clips: HitClips<T>,
    locate: L,
    mix: F,
)
    requires
        hits_placed(before, between, first, clips, locate, mix),
        hits_placed(between, after, second, clips, locate, mix),
    ensures
        hits_placed(before, after, first + second, clips, locate, mix),
    decreases second.len(),
{
    let all = first + second;
    if second.len() == 0 {
        assert(all =~= first);
    } else {
        let (mid, position) = lemma_last_hit(between, after, second, clips, locate, mix);
        lemma_placing_more_hits(
            before,
            between,
            mid,
            first,
            second.drop_last(),
            clips,
            locate,
            mix,
        );
        assert(all.drop_last() =~= first + second.drop_last());
        assert(all.last() == second.last());
        assert(hit_placed(mid, after, position, clips.clip(all.last().1), mix));
        assert(hits_placed(before, mid, all.drop_last(), clips, locate, mix));
    }
}

/// Without starts nothing is overlaid; with one start the clip is overlaid there; and starts may
/// be taken group by group.
pub proof fn lemma_overlaying_in_groups<T, F: Fn(T, T) -> T>(
    before: Seq<T>,
    between: Seq<T>,
    after: Seq<T>,
    first: Seq<usize>,
    second: Seq<usize>,
    start: usize,
    clip: Seq<(T, T)>,
    mix: F,
)
    ensures
        clips_laid(before, after, Seq::<usize>::empty(), clip, mix) <==> after == before,
        clips_laid(before, after, seq![start], clip, mix) <==> clip_laid(
            before,
            after,
            start,
            clip,
            mix,
        ),
        clips_laid(before, between, first, clip, mix) && clips_laid(
            between,
            after,
            second,
            clip,
            mix,
        ) ==> clips_laid(before, after, first + second, clip, mix),
    decreases second.len(),
{
    let one = seq![start];
    let none = Seq::<usize>::empty();
    assert(one.drop_last() =~= none);
    assert(one.last() == start);
    assert(clips_laid(before, before, none, clip, mix));
    if clips_laid(before, after, one, clip, mix) {
        let mid = lemma_last_clip(before, after, one, clip, mix);
        assert(clips_laid(before, mid, none, clip, mix));
        assert(mid == before);
    }
    if clip_laid(before, after, start, clip, mix) {
        assert(clip_laid(before, after, one.last(), clip, mix));
        assert(clips_laid(before, before, one.drop_last(), clip, mix));
    }
    if clips_laid(before, between, first, clip, mix) && clips_laid(
        between,
        after,
        second,
        clip,
        mix,
    ) {
        let all = first + second;
        if second.len() == 0 {
            assert(all =~= first);
        } else {
            let mid = lemma_last_clip(between, after, second, clip, mix);
            lemma_overlaying_in_groups(
                before,
                between,
                mid,
                first,
                second.drop_last(),
                start,
                clip,
                mix,
            );
            assert(all.drop_last() =~= first + second.drop_last());
            assert(all.last() == second.last());
            assert(clip_laid(mid, after, all.last(), clip, mix));
            assert(clips_laid(before, mid, all.drop_last(), clip, mix));
        }
    }
}

/// Compression goes from sample to sample: no samples keep the gain, one sample is what `compress`
/// gives for it and the gain, and a second stretch starts from the gain that the first ended with.
pub proof fn lemma_compression_goes_on<T, G, K: Fn(T, G) -> (T, G)>(
    before: Seq<T>,
    after: Seq<T>,
    before2: Seq<T>,
    after2: Seq<T>,
    first: G,
    between: G,
    last: G,
    compress: K,
)
    ensures
        compressed(Seq::<T>::empty(), Seq::<T>::empty(), first, last, compress) <==> first == last,
        before.len() == 1 && after.len() == 1 ==> (compressed(
            before,
            after,
            first,
            last,
            compress,
        ) <==> call_ensures(compress, (before[0], first), (after[0], last))),
        compressed(before, after, first, between, compress) && compressed(
            before2,
            after2,
            between,
            last,
            compress,
        ) ==> compressed(before + before2, after + after2, first, last, compress),
        compressed(before, after, first, last, compress) ==> after.len() == before.len(),
    decreases before2.len(),
{
    if before.len() == 1 && after.len() == 1 {
        assert(before.drop_last() =~= seq![]);
        assert(after.drop_last() =~= seq![]);
        assert(before.last() == before[0] && after.last() == after[0]);
        assert(compressed(before.drop_last(), after.drop_last(), first, first, compress));
        if call_ensures(compress, (before[0], first), (after[0], last)) {
            assert(call_ensures(compress, (before.last(), first), (after.last(), last)));
            assert(compressed(before, after, first, last, compress));
        }
        if compressed(before, after, first, last, compress) {
            let gain = choose|gain: G| #[trigger]
                call_ensures(compress, (before.last(), gain), (after.last(), last)) && compressed(
                    before.drop_last(),
                    after.drop_last(),
                    first,
                    gain,
                    compress,
                );
            assert(compressed(before.drop_last(), after.drop_last(), first, gain, compress));
            assert(gain == first);
        }
    }
    if compressed(before, after, first, between, compress) && compressed(
        before2,
        after2,
        between,
        last,
        compress,
    ) {
        let b = before + before2;
        let a = after + after2;
        if before2.len() == 0 {
            assert(b =~= before);
            assert(a =~= after);
        } else {
            let gain = choose|gain: G| #[trigger]
                call_ensures(compress, (before2.last(), gain), (after2.last(), last)) && compressed(
                    before2.drop_last(),
                    after2.drop_last(),
                    between,
                    gain,
                    compress,
                );
            lemma_compression_goes_on(
                before,
                after,
                before2.drop_last(),
                after2.drop_last(),
                first,
                between,
                gain,
                compress,
            );
            assert(b.drop_last() =~= before + before2.drop_last());
            assert(a.drop_last() =~= after + after2.drop_last());
            assert(b.last() == before2.last() && a.last() == after2.last());
            assert(call_ensures(compress, (b.last(), gain), (a.last(), last)));
        }
    }
}

/// Limiting meets every sample by itself and keeps the gain; leaving alone changes nothing; and
/// compression is what it is.
pub proof fn lemma_what_treatment_does<T, G, L: Fn(T) -> T, K: Fn(T, G) -> (T, G)>(
    before: Seq<T>,
    after: Seq<T>,
    limit: L,
    compress: K,
    first: G,
    last: G,
)
    ensures
        treated(before, after, Dynamics::Limit, limit, compress, first, last) <==> {
            &&& after.len() == before.len()
            &&& forall|i: int|
                0 <= i < before.len() ==> call_ensures(limit, (before[i],), #[trigger] after[i])
            &&& last == first
        },
        treated(before, after, Dynamics::Untouched, limit, compress, first, last) <==> after
            == before && last == first,
        treated(before, after, Dynamics::Compress, limit, compress, first, last) <==> compressed(
            before,
            after,
            first,
            last,
            compress,
        ),
{
}

proof fn lemma_clips_keep_length<T, F: Fn(T, T) -> T>(
    before: Seq<T>,
    after: Seq<T>,
    starts: Seq<usize>,
    clip: Seq<(T, T)>,
    mix: F,
)
    requires
        clips_laid(before, after, starts, clip, mix),
    ensures
        after.len() == before.len(),
    decreases starts.len(),
{
    if starts.len() > 0 {
        let mid = lemma_last_clip(before, after, starts, clip, mix);
        lemma_clips_keep_length(before, mid, starts.drop_last(), clip, mix);
    }
}

/// What a finished sound is made of, frame by frame. There is a music on both sides and a channel
/// of hit sounds, and each sample of the sound is the music of its side joined with the one hit
/// sample of its frame. The music is the track and then the endings, or silence; the hit sounds
/// are those of the notes, treated, or silence, treated.
pub proof fn lemma_sound_frame_by_frame<
    T,
    D,
    G,
    SM: Fn(usize) -> (T, T),
    FM: Fn(T, T) -> T,
    LE: Fn(D) -> usize,
    FE: Fn(T, T) -> T,
    LT: Fn(T) -> T,
    KT: Fn(T, G) -> (T, G),
    J: Fn(T, T) -> T,
>(
    frames: nat,
    silence: T,
    with_music: bool,
    music: Music<T, SM, FM>,
    with_effects: bool,
    effects: Effects<T, D, LE, FE>,
    treatment: Treatment<G, LT, KT>,
    join: J,
    sound: Seq<T>,
) -> (r: (Seq<T>, Seq<T>, Seq<T>, Seq<T>, G))
    requires
        made(frames, silence, with_music, music, with_effects, effects, treatment, join, sound),
    ensures
        ({
            let (track, tuned, hits, even, last) = r;
            let both = Seq::new(frames + frames, |i: int| silence);
            let beside = Seq::new(frames, |i: int| silence);
            &&& !with_music ==> tuned == both
            &&& with_music ==> track_laid(
                both,
                track,
                music.start,
                music.len,
                *music.sample,
                *music.mix,
            )
            &&& with_music ==> clips_laid(track, tuned, music.endings@, music.ending@, *music.mix)
            &&& !with_effects ==> hits == beside
            &&& with_effects ==> hits_placed(
                beside,
                hits,
                all_hits(effects.lines@),
                *effects.clips,
                *effects.locate,
                *effects.mix,
            )
            &&& treated(
                hits,
                even,
                treatment.dynamics,
                *treatment.limit,
                *treatment.compress,
                treatment.gain,
                last,
            )
            &&& even.len() == frames
            &&& tuned.len() == frames + frames
            &&& sound.len() == frames + frames
            &&& forall|f: int|
                #![trigger even[f]]
                0 <= f < even.len() && f + f + 1 < sound.len() ==> {
                    &&& call_ensures(join, (tuned[f + f], even[f]), sound[f + f])
                    &&& call_ensures(join, (tuned[f + f + 1], even[f]), sound[f + f + 1])
                }
        }),
{
    let (track, tuned, hits, even, last) = choose|
        track: Seq<T>,
        tuned: Seq<T>,
        hits: Seq<T>,
        even: Seq<T>,
        last: G,
    |
        made_in_steps(
            frames,
            silence,
            with_music,
            music,
            with_effects,
            effects,
            treatment,
            join,
            track,
            tuned,
            hits,
            even,
            last,
            sound,
        );
    let both = Seq::new(frames + frames, |i: int| silence);
    assert(Seq::new(2 * frames, |i: int| silence) =~= both);
    if with_music {
        lemma_clips_keep_length(track, tuned, music.endings@, music.ending@, *music.mix);
    }
    if with_effects {
        lemma_hits_keep_length(
            Seq::new(frames, |i: int| silence),
            hits,
            all_hits(effects.lines@),
            *effects.clips,
            *effects.locate,
            *effects.mix,
        );
    }
    let added = interleaved(on_both_sides(even));
    assert forall|f: int|
        #![trigger even[f]]
        0 <= f < even.len() && f + f + 1 < sound.len() implies {
        &&& call_ensures(join, (tuned[f + f], even[f]), sound[f + f])
        &&& call_ensures(join, (tuned[f + f + 1], even[f]), sound[f + f + 1])
    } by {
        lemma_interleaved(on_both_sides(even), f);
        let a = f + f;
        let b = f + f + 1;
        assert(added[a] == even[f] && added[b] == even[f]);
        assert(sound[a] == sound[a] && sound[b] == sound[b]);
    }
    (track, tuned, hits, even, last)
}

/// The rates are refused exactly if one of them is not that of the mix, and the one that is named
/// is such a rate; which of the clips has it does not matter for that.
pub proof fn lemma_rates_that_are_refused(
    ending: u32,
    click: u32,
    drag: u32,
    flick: u32,
    r: Option<u32>,
)
    requires
        call_ensures(rate_mismatch, (ending, click, drag, flick), r),
    ensures
        r is None <==> ending == 48000 && click == 48000 && drag == 48000 && flick == 48000,
        r matches Some(rate) ==> rate != 48000 && (rate == ending || rate == click || rate == drag
            || rate == flick),
        ending != 48000 ==> r == Some(ending),
        ending == 48000 && click != 48000 ==> r == Some(click),
        ending == 48000 && click == 48000 && drag != 48000 ==> r == Some(drag),
{
}

/// The list of hits is made of the notes that are not fake and of nothing else: a line more adds
/// its own hits behind all others, a note more adds its own hit behind those of its line, unless
/// it is fake.
pub proof fn lemma_list_of_hits<D: Copy>(
    lines: Vec<Vec<Note<D>>>,
    more: Vec<Vec<Note<D>>>,
    line: Vec<Note<D>>,
    hits: Vec<(D, HitSound)>,
    more_hits: Vec<(D, HitSound)>,
)
    requires
        call_ensures(list_hits::<D>, (&lines,), hits),
        call_ensures(list_hits::<D>, (&more,), more_hits),
        more@ == lines@.push(line),
    ensures
        more_hits@ == hits@ + line@.filter(|n: Note<D>| !n.fake).map_values(
            |n: Note<D>| (n.time, n.kind.sound_of()),
        ),
        lines@.len() == 0 ==> hits@.len() == 0,
{
    lemma_hits_are_the_notes_that_are_not_fake(line@);
    assert(more@.drop_last() =~= lines@);
    assert(more@.last() == line);
}

/// Of hits that were placed any first part was placed, and then the rest on top of it: none is
/// left out, wherever the list is cut.
pub proof fn lemma_no_hit_is_left_out<T, D, L: Fn(D) -> usize, F: Fn(T, T) -> T>(
    before: Seq<T>,
    after: Seq<T>,
    first: Seq<(D, HitSound)>,
    second: Seq<(D, HitSound)>,
    clips: HitClips<T>,
    locate: L,
    mix: F,
) -> (between: Seq<T>)
    requires
        hits_placed(before, after, first + second, clips, locate, mix),
    ensures
        hits_placed(before, between, first, clips, locate, mix),
        hits_placed(between, after, second, clips, locate, mix),
    decreases second.len(),
{
    let all = first + second;
    if second.len() == 0 {
        assert(all =~= first);
        after
    } else {
        let (mid, position) = lemma_last_hit(before, after, all, clips, locate, mix);
        assert(all.drop_last() =~= first + second.drop_last());
        assert(all.last() == second.last());
        let between = lemma_no_hit_is_left_out(
            before,
            mid,
            first,
            second.drop_last(),
            clips,
            locate,
            mix,
        );
        assert(hit_placed(mid, after, position, clips.clip(second.last().1), mix));
        assert(hits_placed(between, mid, second.drop_last(), clips, locate, mix));
        between
    }
}

/// Of clips that were overlaid any first part was overlaid, and then the rest on top of it.
pub proof fn lemma_no_clip_is_left_out<T, F: Fn(T, T) -> T>(
    before: Seq<T>,
    after: Seq<T>,
    first: Seq<usize>,
    second: Seq<usize>,
    clip: Seq<(T, T)>,
    mix: F,
) -> (between: Seq<T>)
    requires
        clips_laid(before, after, first + second, clip, mix),
    ensures
        clips_laid(before, between, first, clip, mix),
        clips_laid(between, after, second, clip, mix),
    decreases second.len(),
{
    let all = first + second;
    if second.len() == 0 {
        assert(all =~= first);
        after
    } else {
        let mid = lemma_last_clip(before, after, all, clip, mix);
        assert(all.drop_last() =~= first + second.drop_last());
        assert(all.last() == second.last());
        let between = lemma_no_clip_is_left_out(before, mid, first, second.drop_last(), clip, mix);
        assert(clip_laid(mid, after, second.last(), clip, mix));
        assert(clips_laid(between, mid, second.drop_last(), clip, mix));
        between
    }
}

/// Compressed samples may be cut anywhere: the first part was compressed by itself, and the rest
/// from the gain that it ended with.
pub proof fn lemma_compression_is_cut_anywhere<T, G, K: Fn(T, G) -> (T, G)>(
    before: Seq<T>,
    after: Seq<T>,
    at: int,
    first: G,
    last: G,
    compress: K,
) -> (between: G)
    requires
        0 <= at <= before.len(),
        compressed(before, after, first, last, compress),
    ensures
        compressed(before.take(at), after.take(at), first, between, compress),
        compressed(before.skip(at), after.skip(at), between, last, compress),
    decreases before.len(),
{
    if at == before.len() {
        assert(before.take(at) =~= before);
        assert(after.take(at) =~= after);
        assert(before.skip(at) =~= seq![]);
        assert(after.skip(at) =~= seq![]);
        last
    } else {
        let gain = choose|gain: G| #[trigger]
            call_ensures(compress, (before.last(), gain), (after.last(), last)) && compressed(
                before.drop_last(),
                after.drop_last(),
                first,
                gain,
                compress,
            );
        let between = lemma_compression_is_cut_anywhere(
            before.drop_last(),
            after.drop_last(),
            at,
            first,
            gain,
            compress,
        );
        let b = before.skip(at);
        let a = after.skip(at);
        assert(before.drop_last().take(at) =~= before.take(at));
        assert(after.drop_last().take(at) =~= after.take(at));
        assert(b.drop_last() =~= before.drop_last().skip(at));
        assert(a.drop_last() =~= after.drop_last().skip(at));
        assert(b.last() == before.last() && a.last() == after.last());
        assert(call_ensures(compress, (b.last(), gain), (a.last(), last)));
        between
    }
}

/// The sound that is made for a video has two samples for each frame, and in each frame the same
/// hit sample is joined with the music of either side. Without music the hit samples are joined
/// with silence; without effects and without treatment it is silence that is joined.
pub proof fn lemma_sound_that_is_made<
    'a,
    T: Copy,
    D: Copy,
    G,
    SM: Fn(usize) -> (T, T),
    FM: Fn(T, T) -> T,
    LE: Fn(D) -> usize,
    FE: Fn(T, T) -> T,
    LT: Fn(T) -> T,
    KT: Fn(T, G) -> (T, G),
    J: Fn(T, T) -> T,
>(
    frames: usize,
    silence: T,
    with_music: bool,
    music: Music<'a, T, SM, FM>,
    with_effects: bool,
    effects: Effects<'a, T, D, LE, FE>,
    treatment: Treatment<'a, G, LT, KT>,
    join: J,
    sound: Vec<T>,
) -> (r: (Seq<T>, Seq<T>))
    requires
        call_ensures(
            make_sound::<T, D, G, SM, FM, LE, FE, LT, KT, J>,
            (frames, silence, with_music, &music, with_effects, &effects, treatment, &join),
            sound,
        ),
    ensures
        sound@.len() == frames + frames,
        r.0.len() == frames + frames,
        r.1.len() == frames,
        forall|f: int|
            #![trigger r.1[f]]
            0 <= f < frames ==> {
                &&& call_ensures(join, (r.0[f + f], r.1[f]), sound@[f + f])
                &&& call_ensures(join, (r.0[f + f + 1], r.1[f]), sound@[f + f + 1])
            },
        !with_music ==> r.0 == Seq::new((frames + frames) as nat, |i: int| silence),
        !with_effects && treatment.dynamics is Untouched ==> r.1 == Seq::new(
            frames as nat,
            |i: int| silence,
        ),
{
    let (track, tuned, hits, even, last) = lemma_sound_frame_by_frame(
        frames as nat,
        silence,
        with_music,
        music,
        with_effects,
        effects,
        treatment,
        join,
        sound@,
    );
    (tuned, even)
}

} // verus!
