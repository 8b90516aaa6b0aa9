//! In which order pictures are rendered, read back and handed to the encoder.
//!
//! Pictures are read back late, so that the graphics card need not be waited for: a ring of
//! pixel buffers takes each new picture, and the oldest buffer is the one that is emptied.

use vstd::prelude::*;

verus! {

/// The number of pixel buffers in the ring.
pub const BUFFERS: usize = 60;

/// What is done for one picture.
#[derive(Clone, Copy, PartialEq, Eq, Debug, Structural)]
pub struct FrameStep {
    /// The picture that is rendered.
    pub frame: u64,
    /// The buffer that takes it.
    pub write: usize,
    /// The buffer that is then emptied into the encoder, if any.
    pub read: Option<usize>,
    /// Whether the progress is reported first.
    pub report: bool,
}

/// The pictures that are rendered when `total` are asked for: the ring is always filled once.
pub open spec fn frames_rendered(total: u64) -> u64 {
    if total < BUFFERS {
        BUFFERS as u64
    } else {
        total
    }
}

/// What is done for picture `frame` out of `total`: while the ring fills, nothing is read; then
/// each picture is followed by the buffer after its own. Progress is reported every tenth of the
/// way.
pub open spec fn step_for(total: u64, frame: u64) -> FrameStep {
    FrameStep {
        frame,
        write: (frame % BUFFERS as u64) as usize,
        read: if frame < BUFFERS {
            None
        } else {
            Some(((frame + 1) % BUFFERS as int) as usize)
        },
        report: frame >= BUFFERS && frame % (total / 10) == 0,
    }
}

/// How far the rendering of `total` pictures has come.
#[derive(Clone, Copy, PartialEq, Eq, Debug, Structural)]
pub struct FrameSchedule {
    total: u64,
    next: u64,
}

impl FrameSchedule {
    /// The number of pictures asked for.
    pub closed spec fn total(self) -> u64 {
        self.total
    }

    /// The number of pictures done.
    pub closed spec fn done(self) -> u64 {
        self.next
    }

    /// No more than all pictures are done.
    pub open spec fn well_formed(self) -> bool {
        self.done() <= frames_rendered(self.total())
    }

    /// Whether all pictures are done.
    pub open spec fn finished(self) -> bool {
        self.done() == frames_rendered(self.total())
    }

    /// The schedule for `total` pictures, none of them done.
    pub fn new(total: u64) -> (r: Self)
        ensures
            r.well_formed(),
            r.total() == total,
            r.done() == 0,
    {
        FrameSchedule { total, next: 0 }
    }

    /// What to do next; nothing when all pictures are done.
    pub fn current(&self) -> (r: Option<FrameStep>)
        requires
            self.well_formed(),
        ensures
            r == if self.finished() {
                None
            } else {
                Some(step_for(self.total(), self.done()))
            },
    {
        let ring: u64 = BUFFERS as u64;
        let frame = self.next;
        if frame < ring {
            Some(
                FrameStep {
                    frame,
                    write: (frame % ring) as usize,
                    read: None,
                    report: false,
                },
            )
        } else if frame < self.total {
            let tenth: u64 = self.total / 10;
            Some(
                FrameStep {
                    frame,
                    write: (frame % ring) as usize,
                    read: Some(((frame + 1) % ring) as usize),
                    report: frame % tenth == 0,
                },
            )
        } else {
            None
        }
    }

    /// Counts the current picture as done.
    pub fn advance(&mut self)
        requires
            old(self).well_formed(),
            !old(self).finished(),
        ensures
            final(self).well_formed(),
            final(self).total() == old(self).total(),
            final(self).done() == old(self).done() + 1,
    {
        self.next = self.next + 1;
    }
}

/// The picture that buffer `slot` holds once the first `written` pictures have been rendered: the
/// latest of those that went there.
pub open spec fn held(slot: int, written: nat) -> Option<int>
    decreases written,
{
    if written == 0 {
        None
    } else if (written - 1) % BUFFERS as int == slot {
        Some(written - 1)
    } else {
        held(slot, (written - 1) as nat)
    }
}

proof fn lemma_held(slot: int, written: nat, frame: int)
    requires
        0 <= frame < written <= frame + BUFFERS,
        frame % BUFFERS as int == slot,
    ensures
        held(slot, written) == Some(frame),
    decreases written,
{
    if written - 1 != frame {
        assert((written - 1) % BUFFERS as int != slot);
        lemma_held(slot, (written - 1) as nat, frame);
    }
}

/// The picture that buffer `slot` holds after the first `steps` steps for `total` pictures: the
/// latest that a step put there.
pub open spec fn latest_in(total: u64, slot: int, steps: nat) -> Option<int>
    decreases steps,
{
    if steps == 0 {
        None
    } else if step_for(total, (steps - 1) as u64).write == slot {
        Some(steps - 1)
    } else {
        latest_in(total, slot, (steps - 1) as nat)
    }
}

proof fn lemma_latest_in(total: u64, slot: int, steps: nat, frame: int)
    requires
        0 <= frame < steps <= frame + BUFFERS,
        steps <= u64::MAX,
        frame % BUFFERS as int == slot,
    ensures
        latest_in(total, slot, steps) == Some(frame),
    decreases steps,
{
    if steps - 1 != frame {
        assert((steps - 1) % BUFFERS as int != slot);
        lemma_latest_in(total, slot, (steps - 1) as nat, frame);
    }
}

/// No picture is lost in the ring: the step that comes a ring's length, less one, behind a
/// picture reads the buffer that the picture was put in, and no step between the two put another
/// picture there.
pub proof fn lemma_buffers_are_read_before_they_are_reused(total: u64, frame: u64)
    requires
        BUFFERS <= frame < total,
    ensures
        step_for(total, frame).read == Some(step_for(total, (frame + 1 - BUFFERS) as u64).write),
        forall|between: u64|
            frame + 1 - BUFFERS < between <= frame ==> (#[trigger] step_for(total, between)).write
                != step_for(total, (frame + 1 - BUFFERS) as u64).write,
{
    let kept = (frame + 1 - BUFFERS) as u64;
    assert(kept % 60 == (frame + 1) % 60);
    assert forall|between: u64| kept < between <= frame implies (#[trigger] step_for(
        total,
        between,
    )).write != step_for(total, kept).write by {
        assert(between % 60 != kept % 60);
    }
}

/// The first pictures fill the ring from its first buffer on. Pictures that are less than a ring's
/// length apart lie in different buffers, and a ring's length later the same buffer is used again.
pub proof fn lemma_ring_goes_round(total: u64, a: u64, b: u64)
    requires
        a < b <= a + BUFFERS,
    ensures
        (step_for(total, a).write == step_for(total, b).write) == (b == a + BUFFERS),
        step_for(total, a).write < BUFFERS,
        a < 60 ==> step_for(total, a).write == a,
{
    assert((a % 60 == b % 60) == (b == a + 60));
}

/// A step is for the picture it is asked for. Nothing is read exactly while the ring fills.
pub proof fn lemma_reading_starts_when_the_ring_is_full(total: u64, frame: u64)
    ensures
        step_for(total, frame).frame == frame,
        step_for(total, frame).read is None <==> frame < 60,
{
}

/// Once the ring is full, progress is reported at the multiples of a tenth of the pictures, and
/// only there; while it fills, never.
pub proof fn lemma_progress_is_reported_every_tenth(total: u64, frame: u64)
    requires
        frame < frames_rendered(total),
    ensures
        step_for(total, frame).report ==> 60 <= frame,
        60 <= frame ==> (step_for(total, frame).report <==> exists|k: int|
            frame == #[trigger] (k * (total as int / 10))),
{
    if 60 <= frame {
        let tenth = total as int / 10;
        assert(total / 10 == tenth && tenth >= 6);
        if step_for(total, frame).report {
            let k = frame as int / tenth;
            assert(frame == k * tenth) by (nonlinear_arith)
                requires
                    frame as int % tenth == 0,
                    k == frame as int / tenth,
                    tenth >= 6,
            ;
        }
        if exists|k: int| frame == #[trigger] (k * tenth) {
            let k = choose|k: int| frame == #[trigger] (k * tenth);
            assert(frame as int % tenth == 0) by (nonlinear_arith)
                requires
                    frame == k * tenth,
                    tenth >= 6,
            ;
        }
    }
}

/// All pictures that are asked for are rendered, and never fewer than fill the ring; none beyond
/// that.
pub proof fn lemma_pictures_that_are_rendered(total: u64)
    ensures
        frames_rendered(total) >= total,
        frames_rendered(total) >= 60,
        frames_rendered(total) == total || frames_rendered(total) == 60,
{
}

/// The multisampled side is drawn on at the first and the third question and at no other.
pub proof fn lemma_multisampled_side_twice(n: nat)
    requires
        n > 0,
    ensures
        target_for(n) is Input <==> n == 1 || n == 3,
        target_for(remembered(n)) == target_for(n),
        remembered(n) <= n,
{
}

/// The buffers that a step names are in the ring, and the one that is read is not the one that
/// was just written.
pub proof fn lemma_step_stays_in_the_ring(total: u64, frame: u64)
    requires
        frame < frames_rendered(total),
    ensures
        step_for(total, frame).write < BUFFERS,
        step_for(total, frame).read matches Some(slot) ==> slot < BUFFERS && slot != step_for(
            total,
            frame,
        ).write,
{
    assert(0 <= (frame + 1) % 60 < 60 && (frame + 1) % 60 != frame % 60);
}

/// What a step reads is always the oldest picture in the ring, one behind the other: pictures
/// leave in the order in which they were rendered, each one once. The very first is overwritten
/// before it is read, so the picture after it is the first to leave.
pub proof fn lemma_pictures_leave_in_order(total: u64, frame: u64)
    requires
        BUFFERS <= frame < total,
    ensures
        step_for(total, frame).read matches Some(slot) && held(slot as int, (frame + 1) as nat)
            == Some(frame + 1 - BUFFERS),
        latest_in(total, (step_for(total, frame).read->0) as int, (frame + 1) as nat) == Some(
            frame + 1 - BUFFERS,
        ),
{
    lemma_latest_in(total, (frame + 1) % BUFFERS as int, (frame + 1) as nat, frame + 1 - BUFFERS);
    let slot = (frame + 1) % BUFFERS as int;
    assert((frame + 1 - BUFFERS) % BUFFERS as int == slot);
    lemma_held(slot, (frame + 1) as nat, frame + 1 - BUFFERS);
}

/// The number of the first `steps` steps that empty a buffer.
pub open spec fn emptied(total: u64, steps: nat) -> nat
    decreases steps,
{
    if steps == 0 {
        0
    } else {
        emptied(total, (steps - 1) as nat) + if step_for(total, (steps - 1) as u64).read is Some {
            1nat
        } else {
            0
        }
    }
}

/// Of the first `steps` steps all but the first that fill the ring empty a buffer, so a video has
/// one ring of pictures fewer than were asked for.
pub proof fn lemma_pictures_that_leave(total: u64, steps: nat)
    requires
        steps <= frames_rendered(total),
    ensures
        emptied(total, steps) == if steps <= BUFFERS {
            0
        } else {
            steps - BUFFERS
        },
    decreases steps,
{
    if steps > 0 {
        lemma_pictures_that_leave(total, (steps - 1) as nat);
    }
}

/// The bytes of one picture of `width` by `height` pixels.
pub fn frame_bytes(width: u32, height: u32) -> (r: usize)
    requires
        width * height * 4 <= usize::MAX,
    ensures
        r == width * height * 4,
{
    assert(0 <= width * height) by (nonlinear_arith);
    (width as usize) * (height as usize) * 4
}

/// The two sides of the multisampled render target.
#[derive(Clone, Copy, PartialEq, Eq, Debug, Structural)]
pub enum Target {
    /// The multisampled side, which has to be resolved.
    Input,
    /// The plain side.
    Output,
}

/// Picks the side that the player draws on, each time it asks.
#[derive(Clone, Copy, PartialEq, Eq, Debug, Structural)]
pub struct TargetPicker {
    asked: u8,
}

/// The side for the `n`th question: the multisampled one for the first and the third.
pub open spec fn target_for(n: nat) -> Target {
    if n == 1 || n == 3 {
        Target::Input
    } else {
        Target::Output
    }
}

/// What is remembered of `n` questions: their number, as far as it matters.
pub open spec fn remembered(n: nat) -> nat {
    if n <= 4 {
        n
    } else {
        4
    }
}

impl TargetPicker {
    /// What is remembered of the questions so far.
    pub closed spec fn asked(self) -> nat {
        self.asked as nat
    }

    /// No more is remembered than matters.
    pub open spec fn well_formed(self) -> bool {
        self.asked() <= 4
    }

    /// A picker that has not been asked yet.
    pub fn new() -> (r: Self)
        ensures
            r.well_formed(),
            r.asked() == remembered(0),
    {
        TargetPicker { asked: 0 }
    }

    /// The side to draw on next. After `n` questions this is the side for question `n + 1`.
    pub fn pick(&mut self) -> (r: Target)
        requires
            old(self).well_formed(),
        ensures
            final(self).well_formed(),
            forall|n: nat| #[trigger] remembered(n) == old(self).asked() ==> {
                &&& final(self).asked() == remembered(n + 1)
                &&& r == target_for(n + 1)
            },
    {
        if self.asked < 4 {
            self.asked = self.asked + 1;
        }
        if self.asked == 1 || self.asked == 3 {
            Target::Input
        } else {
            Target::Output
        }
    }
}

/// The steps of a schedule. There is one exactly as long as pictures are left; it is for the
/// picture that comes next; and what it reads, once the ring is full, is the buffer in which the
/// same schedule, a ring's length less one earlier, put its picture.
pub proof fn lemma_steps_of_a_schedule(
    early: FrameSchedule,
    late: FrameSchedule,
    a: Option<FrameStep>,
    b: Option<FrameStep>,
)
    requires
        early.well_formed() && late.well_formed(),
        early.total() == late.total(),
        early.done() + 59 == late.done(),
        call_ensures(FrameSchedule::current, (&early,), a),
        call_ensures(FrameSchedule::current, (&late,), b),
    ensures
        b is Some <==> late.done() < 60 || late.done() < late.total(),
        b matches Some(step) ==> step.frame == late.done() && step.write == step.frame % 60,
        late.done() < 60 ==> b->0.read is None && !b->0.report,
        b is Some && late.done() >= 60 ==> a is Some && b->0.read == Some(a->0.write),
        b is Some && late.done() >= 60 ==> (b->0.report <==> late.done() % (late.total() / 10)
            == 0),
{
    if late.done() >= 60 {
        let kept = early.done();
        assert(kept % 60 == (late.done() + 1) % 60);
    }
}

/// A picture has four bytes for each of its pixels: a row more adds those of its width, a column
/// more those of its height, and no rows have none.
pub proof fn lemma_bytes_of_a_picture(
    width: u32,
    height: u32,
    r: usize,
    taller: usize,
    wider: usize,
)
    requires
        height < u32::MAX && width < u32::MAX,
        call_ensures(frame_bytes, (width, height), r),
        call_ensures(frame_bytes, (width, (height + 1) as u32), taller),
        call_ensures(frame_bytes, ((width + 1) as u32, height), wider),
    ensures
        taller == r + 4 * width,
        wider == r + 4 * height,
        height == 0 || width == 0 ==> r == 0,
{
    assert(width * (height + 1) == width * height + width) by (nonlinear_arith);
    assert((width + 1) * height == width * height + height) by (nonlinear_arith);
    assert(width == 0 || height == 0 ==> width * height == 0) by (nonlinear_arith);
}

} // verus!
