//! What stands for an image on screen: one texture, or an animation that
//! goes through a fixed list of textures as time passes.
//!
//! Time is counted in whole milliseconds.

use super::TextureId;
use vstd::prelude::*;

verus! {

/// One frame of an animation: its texture, and how long it shows, in
/// milliseconds.
pub type Frame = (TextureId, u64);

/// How long the frame at position `at` shows, where positions go round: the
/// position after the last frame is the first frame again.
pub open spec fn duration(frames: Seq<Frame>, at: int) -> int {
    frames[at % (frames.len() as int)].1 as int
}

/// How long `count` frames in a row show together, from position `from` on,
/// going round.
pub open spec fn span(frames: Seq<Frame>, from: int, count: nat) -> int
    decreases count,
{
    if count == 0 {
        0
    } else {
        span(frames, from, (count - 1) as nat) + duration(frames, from + count - 1)
    }
}

/// How long one cycle through all frames takes.
pub open spec fn cycle_time(frames: Seq<Frame>) -> int {
    span(frames, 0, frames.len())
}

/// The overtime that is left to catch up on once whole cycles are dropped
/// from it. An animation whose cycle takes no time has nothing to catch up
/// on.
pub open spec fn reduced(overtime: int, cycle: int) -> int {
    if cycle > 0 {
        overtime % cycle
    } else {
        0
    }
}

/// How many frames are skipped from position `from` on with `overtime` to
/// catch up on, looking at no more than `limit` frames: a frame is skipped
/// while the overtime is more than the frame shows, and its time is then
/// taken off the overtime.
pub open spec fn skips_within(frames: Seq<Frame>, from: int, overtime: int, limit: nat) -> nat
    decreases limit,
{
    if limit == 0 || overtime <= duration(frames, from) {
        0
    } else {
        1 + skips_within(
            frames,
            from + 1,
            overtime - duration(frames, from),
            (limit - 1) as nat,
        )
    }
}

/// How many frames are skipped from position `from` on with `overtime` to
/// catch up on.
pub open spec fn skips(frames: Seq<Frame>, from: int, overtime: int) -> nat {
    skips_within(frames, from, overtime, frames.len())
}

/// The state of an animation.
pub struct AnimationView {
    /// The frames, in the order in which they show.
    pub frames: Seq<Frame>,
    /// The position of the frame that shows now.
    pub current: int,
    /// How long the current frame still shows. It is negative when the frame
    /// is overdue.
    pub remaining: int,
}

impl AnimationView {
    /// There is a frame, the cursor stands on one, and the countdown is at
    /// most what the current frame shows and no further below zero than a
    /// frame can show.
    pub open spec fn wf(self) -> bool {
        &&& self.frames.len() > 0
        &&& 0 <= self.current < self.frames.len()
        &&& -(u64::MAX as int) <= self.remaining <= self.frames[self.current].1
    }

    /// After `dt` more milliseconds the current frame is overdue.
    pub open spec fn elapses(self, dt: int) -> bool {
        self.remaining - dt < 0
    }

    /// How far one update by `dt` moves the cursor: not at all while the
    /// current frame is not overdue; else over the frames that are skipped,
    /// and one more.
    pub open spec fn steps(self, dt: int) -> nat {
        if self.elapses(dt) {
            skips(
                self.frames,
                self.current,
                reduced(dt - self.remaining, cycle_time(self.frames)),
            ) + 1
        } else {
            0
        }
    }

    /// The state after `dt` more milliseconds.
    ///
    /// While the current frame is not overdue, only the countdown goes down.
    /// Else the overtime, with whole cycles dropped from it, is caught up
    /// on: the cursor moves over the frames that are skipped and one more,
    /// and the countdown starts from what the new frame shows, less the
    /// overtime that skipping has not used up.
    pub open spec fn updated(self, dt: int) -> Self {
        if self.elapses(dt) {
            let overtime = reduced(dt - self.remaining, cycle_time(self.frames));
            let skipped = skips(self.frames, self.current, overtime);
            let left = overtime - span(self.frames, self.current, skipped);
            let next = (self.current + skipped + 1) % (self.frames.len() as int);
            AnimationView { current: next, remaining: self.frames[next].1 - left, ..self }
        } else {
            AnimationView { remaining: self.remaining - dt, ..self }
        }
    }
}

/// In the first cycle, positions are not folded.
pub proof fn lemma_duration_unfolded(frames: Seq<Frame>, at: int)
    requires
        0 <= at < frames.len(),
    ensures
        duration(frames, at) == frames[at].1,
        duration(frames, at + frames.len()) == frames[at].1,
{
    let n = frames.len() as int;
    assert(at % n == at) by (nonlinear_arith)
        requires
            0 <= at < n,
    ;
    assert((at + n) % n == at) by (nonlinear_arith)
        requires
            0 <= at < n,
    ;
}

/// The frames from `from` to the end show as long as the first `from +
/// count` less the first `from`.
proof fn lemma_span_to_end(frames: Seq<Frame>, from: int, count: nat)
    requires
        0 <= from,
        from + count <= frames.len(),
    ensures
        span(frames, from, count) == span(frames, 0, (from + count) as nat) - span(
            frames,
            0,
            from as nat,
        ),
    decreases count,
{
    if count > 0 {
        lemma_span_to_end(frames, from, (count - 1) as nat);
    }
}

/// Past the end, the frames from `from` on show as long as the rest of the
/// cycle and then the first frames again.
proof fn lemma_span_round(frames: Seq<Frame>, from: int, count: nat)
    requires
        0 <= from < frames.len(),
        frames.len() - from <= count <= frames.len(),
    ensures
        span(frames, from, count) == cycle_time(frames) - span(frames, 0, from as nat) + span(
            frames,
            0,
            (count - (frames.len() - from)) as nat,
        ),
    decreases count,
{
    let n = frames.len() as int;
    if count == n - from {
        lemma_span_to_end(frames, from, count);
    } else {
        lemma_span_round(frames, from, (count - 1) as nat);
        let at = from + count - 1 - n;
        lemma_duration_unfolded(frames, at);
    }
}

/// One cycle takes the same time from whichever frame it starts.
pub proof fn lemma_cycle_from_anywhere(frames: Seq<Frame>, from: int)
    requires
        0 <= from < frames.len(),
    ensures
        span(frames, from, frames.len()) == cycle_time(frames),
{
    lemma_span_round(frames, from, frames.len());
}

/// A span takes no less time when it is made longer.
pub proof fn lemma_span_grows(frames: Seq<Frame>, from: int, shorter: nat, longer: nat)
    requires
        shorter <= longer,
    ensures
        0 <= span(frames, from, shorter) <= span(frames, from, longer),
    decreases longer,
{
    if shorter < longer {
        lemma_span_grows(frames, from, shorter, (longer - 1) as nat);
    } else if shorter > 0 {
        lemma_span_grows(frames, from, (shorter - 1) as nat, (shorter - 1) as nat);
    }
}

/// Where skipping stops, the overtime left is no more than the frame
/// shows, and all frames before it were shown for less than the overtime
/// then left.
pub proof fn lemma_skips_stop(frames: Seq<Frame>, from: int, overtime: int, limit: nat)
    requires
        frames.len() > 0,
    ensures
        skips_within(frames, from, overtime, limit) <= limit,
        forall|j: nat|
            j < skips_within(frames, from, overtime, limit) ==> overtime - span(frames, from, j)
                > #[trigger] duration(frames, from + j),
        skips_within(frames, from, overtime, limit) < limit ==> overtime - span(
            frames,
            from,
            skips_within(frames, from, overtime, limit),
        ) <= duration(frames, from + skips_within(frames, from, overtime, limit)),
    decreases limit,
{
    if limit == 0 || overtime <= duration(frames, from) {
    } else {
        let rest = overtime - duration(frames, from);
        let inner = skips_within(frames, from + 1, rest, (limit - 1) as nat);
        lemma_skips_stop(frames, from + 1, rest, (limit - 1) as nat);
        assert forall|j: nat| j <= inner + 1 implies span(frames, from, j) == if j == 0 {
            0
        } else {
            duration(frames, from) + span(frames, from + 1, (j - 1) as nat)
        } by {
            lemma_span_shift(frames, from, j);
        }
        assert forall|j: nat| j < inner + 1 implies overtime - span(frames, from, j)
            > #[trigger] duration(frames, from + j) by {
            if j > 0 {
                let i = (j - 1) as nat;
                assert(rest - span(frames, from + 1, i) > duration(frames, from + 1 + i));
            }
        }
    }
}

/// A span is its first frame and then the span from the next position on.
pub proof fn lemma_span_shift(frames: Seq<Frame>, from: int, count: nat)
    ensures
        span(frames, from, count) == if count == 0 {
            0
        } else {
            duration(frames, from) + span(frames, from + 1, (count - 1) as nat)
        },
    decreases count,
{
    if count == 1 {
        assert(span(frames, from, 0) == 0);
        assert(span(frames, from + 1, 0) == 0);
    } else if count > 1 {
        lemma_span_shift(frames, from, (count - 1) as nat);
        assert(span(frames, from + 1, (count - 1) as nat) == span(
            frames,
            from + 1,
            (count - 2) as nat,
        ) + duration(frames, from + 1 + count - 2));
    }
}

/// With less than a cycle to catch up on, skipping stops before it has gone
/// round: fewer frames are skipped than there are.
pub proof fn lemma_skips_below_cycle(frames: Seq<Frame>, from: int, overtime: int)
    requires
        0 <= from < frames.len(),
        overtime < cycle_time(frames) || overtime <= 0,
    ensures
        skips(frames, from, overtime) < frames.len(),
{
    let n = frames.len();
    let k = skips(frames, from, overtime);
    lemma_skips_stop(frames, from, overtime, n);
    if k == n {
        let last = (n - 1) as nat;
        assert(overtime - span(frames, from, last) > duration(frames, from + last));
        assert(span(frames, from, n) == span(frames, from, last) + duration(frames, from + last));
        lemma_cycle_from_anywhere(frames, from);
        lemma_span_grows(frames, from, n, n);
    }
}

/// An animation: a cursor that goes through a fixed, non-empty list of
/// frames as time passes, and starts again after the last.
#[derive(Debug, PartialEq)]
pub struct Animation {
    frames: Vec<Frame>,
    current_frame: usize,
    total_cycle_time: u128,
    delay: i128,
}

impl View for Animation {
    type V = AnimationView;

    closed spec fn view(&self) -> AnimationView {
        AnimationView {
            frames: self.frames@,
            current: self.current_frame as int,
            remaining: self.delay as int,
        }
    }
}

impl Animation {
    /// The state is well-formed, and the cycle time kept beside it is that
    /// of the frames.
    pub closed spec fn wf(&self) -> bool {
        &&& self@.wf()
        &&& self.total_cycle_time == cycle_time(self.frames@)
    }

    /// What `wf` says of the state.
    pub proof fn lemma_wf(&self)
        requires
            self.wf(),
        ensures
            self@.wf(),
    {
    }

    /// The animation that shows `frames` in their order, starting with the
    /// first, which has its whole time before it.
    pub fn from_frames(frames: Vec<Frame>) -> (animation: Self)
        requires
            frames@.len() > 0,
        ensures
            animation.wf(),
            animation@ == (AnimationView {
                frames: frames@,
                current: 0,
                remaining: frames@[0].1 as int,
            }),
    {
        let first_frame_time = frames[0].1;
        let mut total_cycle_time: u128 = 0;
        let mut i: usize = 0;
        while i < frames.len()
            invariant
                i <= frames@.len(),
                total_cycle_time == span(frames@, 0, i as nat),
                total_cycle_time <= i * u64::MAX,
            decreases frames@.len() - i,
        {
            proof {
                lemma_duration_unfolded(frames@, i as int);
                assert((i + 1) * u64::MAX == i * u64::MAX + u64::MAX) by (nonlinear_arith);
                assert(i * u64::MAX <= usize::MAX * u64::MAX) by (nonlinear_arith)
                    requires
                        i <= usize::MAX,
                ;
            }
            total_cycle_time = total_cycle_time + frames[i].1 as u128;
            i += 1;
        }
        Animation { frames, current_frame: 0, total_cycle_time, delay: first_frame_time as i128 }
    }

    /// The texture of the frame that shows now.
    pub fn get_texture(&self) -> (id: TextureId)
        requires
            self.wf(),
        ensures
            id == self@.frames[self@.current].0,
    {
        self.frames[self.current_frame].0
    }

    /// The position of the frame that shows now.
    pub fn current_frame(&self) -> (at: usize)
        ensures
            at == self@.current,
    {
        self.current_frame
    }

    /// How many milliseconds the current frame still shows; negative when it
    /// is overdue.
    pub fn remaining(&self) -> (left: i128)
        ensures
            left == self@.remaining,
    {
        self.delay
    }

    /// How many milliseconds one cycle through all frames takes.
    pub fn total_cycle_time(&self) -> (total: u128)
        requires
            self.wf(),
        ensures
            total == cycle_time(self@.frames),
    {
        self.total_cycle_time
    }

    /// The frames, in the order in which they show.
    pub fn into_frames(self) -> (frames: Vec<Frame>)
        ensures
            frames@ == self@.frames,
    {
        self.frames
    }

    /// Lets `dt` milliseconds pass.
    ///
    /// However long `dt` is, the cursor moves over fewer frames than one
    /// cycle has, and then one more.
    pub fn update(&mut self, dt: u64)
        requires
            old(self).wf(),
        ensures
            final(self).wf(),
            final(self)@ == old(self)@.updated(dt as int),
            final(self)@.frames == old(self)@.frames,
            0 <= final(self)@.current < final(self)@.frames.len(),
            old(self)@.steps(dt as int) <= old(self)@.frames.len(),
    {
        proof {
            self@.lemma_updated_wf(dt as int);
            self@.law_catch_up_is_bounded(dt as int);
        }
        let after: i128 = self.delay - dt as i128;
        if after >= 0 {
            self.delay = after;
            return ;
        }
        let len = self.frames.len();
        let ghost frames = self.frames@;
        let ghost start = self.current_frame as int;
        let mut overtime: u128 = (-after) as u128;
        if self.total_cycle_time > 0 {
            overtime = overtime % self.total_cycle_time;
        } else {
            overtime = 0;
        }
        let ghost reduced_overtime = overtime as int;
        let mut cursor = self.current_frame;
        let ghost mut skipped: nat = 0;
        proof {
            lemma_duration_unfolded(frames, start);
            lemma_skips_below_cycle(frames, start, reduced_overtime);
            vstd::arithmetic::div_mod::lemma_small_mod(start as nat, len as nat);
        }
        while overtime > self.frames[cursor].1 as u128
            invariant
                self.frames@ == frames,
                frames.len() == len,
                0 <= start < len,
                0 <= cursor < len,
                cursor == (start + skipped) % (len as int),
                skipped < len,
                skips(frames, start, reduced_overtime) < len,
                overtime == reduced_overtime - span(frames, start, skipped),
                duration(frames, start + skipped) == frames[cursor as int].1,
                skips(frames, start, reduced_overtime) == skipped + skips_within(
                    frames,
                    start + skipped,
                    overtime as int,
                    (len - skipped) as nat,
                ),
            decreases len - skipped,
        {
            overtime = overtime - self.frames[cursor].1 as u128;
            cursor = (cursor + 1) % len;
            proof {
                skipped = skipped + 1;
                lemma_folded_successor(frames, start + skipped - 1);
            }
        }
        cursor = (cursor + 1) % len;
        proof {
            lemma_folded_successor(frames, start + skipped);
        }
        self.current_frame = cursor;
        self.delay = self.frames[cursor].1 as i128 - overtime as i128;
    }
}

impl Clone for Animation {
    /// An animation with the same frames, in the same state.
    fn clone(&self) -> (copy: Self)
        ensures
            copy@ == self@,
            self.wf() ==> copy.wf(),
    {
        let mut frames: Vec<Frame> = Vec::new();
        let mut i: usize = 0;
        while i < self.frames.len()
            invariant
                i <= self.frames@.len(),
                frames@ == self.frames@.take(i as int),
            decreases self.frames@.len() - i,
        {
            frames.push(self.frames[i]);
            assert(frames@ =~= self.frames@.take(i + 1));
            i += 1;
        }
        assert(frames@ =~= self.frames@);
        Animation {
            frames,
            current_frame: self.current_frame,
            total_cycle_time: self.total_cycle_time,
            delay: self.delay,
        }
    }
}

/// Folding the position after `at` gives the position after the folded
/// `at`, folded.
proof fn lemma_folded_successor(frames: Seq<Frame>, at: int)
    requires
        frames.len() > 0,
        0 <= at,
    ensures
        (at + 1) % (frames.len() as int) == ((at % (frames.len() as int)) + 1) % (
        frames.len() as int),
        0 <= at % (frames.len() as int) < frames.len(),
{
    let n = frames.len() as int;
    vstd::arithmetic::div_mod::lemma_mod_bound(at, n);
    vstd::arithmetic::div_mod::lemma_add_mod_noop(at, 1, n);
    vstd::arithmetic::div_mod::lemma_mod_twice(at, n);
    if n == 1 {
        assert((at + 1) % n == 0) by (nonlinear_arith)
            requires
                n == 1,
        ;
        assert(((at % n) + 1) % n == 0) by (nonlinear_arith)
            requires
                n == 1,
        ;
    } else {
        vstd::arithmetic::div_mod::lemma_small_mod(1, n as nat);
    }
}

impl AnimationView {
    /// The state after the updates `dts`, in their order.
    pub open spec fn updated_all(self, dts: Seq<int>) -> Self
        decreases dts.len(),
    {
        if dts.len() == 0 {
            self
        } else {
            self.updated_all(dts.drop_last()).updated(dts.last())
        }
    }

    /// An update keeps the state well-formed: the cursor stays on a frame.
    pub proof fn lemma_updated_wf(self, dt: int)
        requires
            self.wf(),
            0 <= dt,
        ensures
            self.updated(dt).wf(),
            self.updated(dt).frames == self.frames,
    {
        if self.elapses(dt) {
            let n = self.frames.len() as int;
            let cycle = cycle_time(self.frames);
            let overtime = reduced(dt - self.remaining, cycle);
            if cycle > 0 {
                vstd::arithmetic::div_mod::lemma_mod_bound(dt - self.remaining, cycle);
            }
            let skipped = skips(self.frames, self.current, overtime);
            lemma_skips_below_cycle(self.frames, self.current, overtime);
            lemma_skips_stop(self.frames, self.current, overtime, self.frames.len());
            let left = overtime - span(self.frames, self.current, skipped);
            if skipped > 0 {
                let before = (skipped - 1) as nat;
                assert(overtime - span(self.frames, self.current, before) > duration(
                    self.frames,
                    self.current + before,
                ));
            }
            vstd::arithmetic::div_mod::lemma_mod_bound(self.current + skipped, n);
            vstd::arithmetic::div_mod::lemma_mod_bound(self.current + skipped + 1, n);
        }
    }

    /// However many updates there are and however long each is, the cursor
    /// stands on a frame after them.
    pub proof fn law_cursor_stays_on_a_frame(self, dts: Seq<int>)
        requires
            self.wf(),
            forall|i: int| 0 <= i < dts.len() ==> 0 <= dts[i],
        ensures
            self.updated_all(dts).wf(),
            0 <= self.updated_all(dts).current < self.updated_all(dts).frames.len(),
            self.updated_all(dts).frames == self.frames,
        decreases dts.len(),
    {
        if dts.len() > 0 {
            self.law_cursor_stays_on_a_frame(dts.drop_last());
            self.updated_all(dts.drop_last()).lemma_updated_wf(dts.last());
        }
    }

    /// However long `dt` is, one update moves the cursor by `steps(dt)`
    /// positions, going round, and that is by no more positions than there
    /// are frames.
    pub proof fn law_catch_up_is_bounded(self, dt: int)
        requires
            self.wf(),
            0 <= dt,
        ensures
            self.steps(dt) <= self.frames.len(),
            self.updated(dt).current == (self.current + self.steps(dt)) % (
            self.frames.len() as int),
    {
        if self.elapses(dt) {
            let cycle = cycle_time(self.frames);
            let overtime = reduced(dt - self.remaining, cycle);
            if cycle > 0 {
                vstd::arithmetic::div_mod::lemma_mod_bound(dt - self.remaining, cycle);
            }
            lemma_skips_below_cycle(self.frames, self.current, overtime);
        } else {
            vstd::arithmetic::div_mod::lemma_small_mod(
                self.current as nat,
                self.frames.len() as nat,
            );
        }
    }
}

/// The state of an image.
pub enum ImageTypeView {
    /// One texture, always the same.
    Static(TextureId),
    /// An animation in the state given.
    Animated(AnimationView),
}

impl ImageTypeView {
    /// The texture that shows now.
    pub open spec fn texture(self) -> TextureId {
        match self {
            ImageTypeView::Static(id) => id,
            ImageTypeView::Animated(animation) => animation.frames[animation.current].0,
        }
    }

    /// The state after `dt` more milliseconds: a single texture stays as it
    /// is, an animation is updated.
    pub open spec fn updated(self, dt: int) -> Self {
        match self {
            ImageTypeView::Static(id) => self,
            ImageTypeView::Animated(animation) => ImageTypeView::Animated(animation.updated(dt)),
        }
    }
}

/// What stands for an image: a single texture or an animation.
#[derive(Debug, PartialEq)]
pub enum ImageType {
    Static(TextureId),
    Animated(Animation),
}

impl View for ImageType {
    type V = ImageTypeView;

    open spec fn view(&self) -> ImageTypeView {
        match self {
            ImageType::Static(id) => ImageTypeView::Static(*id),
            ImageType::Animated(animation) => ImageTypeView::Animated(animation@),
        }
    }
}

impl Clone for ImageType {
    /// An image that shows the same, in the same state.
    fn clone(&self) -> (copy: Self)
        ensures
            copy@ == self@,
            self.wf() ==> copy.wf(),
    {
        match self {
            ImageType::Static(id) => ImageType::Static(*id),
            ImageType::Animated(animation) => ImageType::Animated(animation.clone()),
        }
    }
}

impl ImageType {
    /// An animation inside is well-formed.
    pub open spec fn wf(&self) -> bool {
        match self {
            ImageType::Static(_) => true,
            ImageType::Animated(animation) => animation.wf(),
        }
    }

    /// The image that always shows the texture `id`.
    pub fn new_static(id: TextureId) -> (image: Self)
        ensures
            image == ImageType::Static(id),
            image.wf(),
    {
        ImageType::Static(id)
    }

    /// The image that shows the animation `anim`.
    pub fn new_animated(anim: Animation) -> (image: Self)
        ensures
            image == ImageType::Animated(anim),
            anim.wf() ==> image.wf(),
    {
        ImageType::Animated(anim)
    }

    /// Lets `dt` milliseconds pass.
    pub fn update(&mut self, dt: u64)
        requires
            old(self).wf(),
        ensures
            final(self).wf(),
            final(self)@ == old(self)@.updated(dt as int),
    {
        match self {
            ImageType::Static(_) => {},
            ImageType::Animated(animation) => {
                animation.update(dt);
            },
        }
    }

    /// The texture that shows now.
    pub fn get(&self) -> (id: TextureId)
        requires
            self.wf(),
        ensures
            id == self@.texture(),
    {
        match self {
            ImageType::Static(texture_id) => *texture_id,
            ImageType::Animated(animation) => animation.get_texture(),
        }
    }

    /// Lets `dt` milliseconds pass, and returns the texture that shows then.
    pub fn upget(&mut self, dt: u64) -> (id: TextureId)
        requires
            old(self).wf(),
        ensures
            final(self).wf(),
            final(self)@ == old(self)@.updated(dt as int),
            id == final(self)@.texture(),
    {
        self.update(dt);
        self.get()
    }
}

} // verus!
