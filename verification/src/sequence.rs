//! Clips in a row.
use crate::action::ActionClip;
use crate::time::{saturated, ticks_add, ticks_sub, Ticks};
use nonempty::NonEmpty;
use vstd::prelude::*;

verus! {

/// The non-empty vector of the `nonempty` crate, as an opaque type.
#[verifier::external_type_specification]
#[verifier::external_body]
#[verifier::reject_recursive_types(T)]
pub struct ExNonEmpty<T>(NonEmpty<T>);

/// The clips that a non-empty vector holds, in order.
pub uninterp spec fn clips_of(clips: NonEmpty<ActionClip>) -> Seq<ActionClip>;

/// `nonempty::NonEmpty::new`: a vector of the one clip.
#[verifier::external_body]
fn clips_new(clip: ActionClip) -> (clips: NonEmpty<ActionClip>)
    ensures
        clips_of(clips) == seq![clip],
{
    NonEmpty::new(clip)
}

/// `nonempty::NonEmpty::len`: the number of clips, at least one.
#[verifier::external_body]
fn clips_len(clips: &NonEmpty<ActionClip>) -> (len: usize)
    ensures
        len == clips_of(*clips).len(),
        len >= 1,
{
    clips.len()
}

/// Indexing a `nonempty::NonEmpty`: the clip at `index`, which is within the
/// vector.
#[verifier::external_body]
fn clips_get(clips: &NonEmpty<ActionClip>, index: usize) -> (clip: ActionClip)
    requires
        index < clips_of(*clips).len(),
    ensures
        clip == clips_of(*clips)[index as int],
{
    clips[index]
}

/// `nonempty::NonEmpty::push`: the clip comes last, after what was there.
#[verifier::external_body]
fn clips_push(clips: &mut NonEmpty<ActionClip>, clip: ActionClip)
    ensures
        clips_of(*final(clips)) == clips_of(*old(clips)).push(clip),
{
    clips.push(clip);
}

/// Whether no clip starts before the one in front of it has ended.
pub open spec fn non_overlapping(clips: Seq<ActionClip>) -> bool {
    forall|i: int| 0 < i < clips.len() ==> clips[i - 1].end() <= (#[trigger] clips[i]).start
}

/// Whether no clip ends before it starts.
pub open spec fn forward_only(clips: Seq<ActionClip>) -> bool {
    forall|i: int| 0 <= i < clips.len() ==> (#[trigger] clips[i]).duration >= 0
}

/// The clips, each moved by `by`.
pub open spec fn delayed(clips: Seq<ActionClip>, by: Ticks) -> Seq<ActionClip> {
    clips.map_values(|clip: ActionClip| clip.delayed(by))
}

/// A non-overlapping sequence of [`ActionClip`]s.
pub struct Sequence {
    clips: NonEmpty<ActionClip>,
}

impl View for Sequence {
    type V = Seq<ActionClip>;

    closed spec fn view(&self) -> Seq<ActionClip> {
        clips_of(self.clips)
    }
}

impl Sequence {
    /// A sequence of one clip.
    pub fn new(span: ActionClip) -> (sequence: Self)
        ensures
            sequence@ == seq![span],
    {
        Sequence { clips: clips_new(span) }
    }

    /// The number of clips. There is always one.
    pub fn len(&self) -> (len: usize)
        ensures
            len == self@.len(),
            len >= 1,
    {
        clips_len(&self.clips)
    }

    /// The clip at `index`.
    pub fn get(&self, index: usize) -> (clip: ActionClip)
        requires
            index < self@.len(),
        ensures
            clip == self@[index as int],
    {
        clips_get(&self.clips, index)
    }

    /// The last clip.
    fn last(&self) -> (clip: ActionClip)
        ensures
            self@.len() >= 1,
            clip == self@.last(),
    {
        clips_get(&self.clips, clips_len(&self.clips) - 1)
    }

    /// Get the start time of the sequence.
    pub fn start(&self) -> (start: Ticks)
        ensures
            self@.len() >= 1,
            start == self@.first().start,
    {
        let len = clips_len(&self.clips);
        clips_get(&self.clips, 0).start
    }

    /// Get the end time of the sequence.
    pub fn end(&self) -> (end: Ticks)
        ensures
            self@.len() >= 1,
            end == self@.last().end(),
    {
        self.last().end()
    }

    /// Get the duration of the sequence.
    pub fn duration(&self) -> (duration: Ticks)
        ensures
            self@.len() >= 1,
            duration == saturated(self@.last().end() - self@.first().start),
    {
        ticks_sub(self.end(), self.start())
    }

    /// Every clip, in order.
    pub fn into_clips(self) -> (clips: Vec<ActionClip>)
        ensures
            clips@ == self@,
            clips@.len() >= 1,
    {
        self.to_vec()
    }

    /// A copy of every clip, in order.
    pub fn to_vec(&self) -> (clips: Vec<ActionClip>)
        ensures
            clips@ == self@,
            clips@.len() >= 1,
    {
        let len = self.len();
        let mut clips: Vec<ActionClip> = Vec::new();
        let mut i: usize = 0;
        while i < len
            invariant
                i <= len,
                len == self@.len(),
                clips@ == self@.take(i as int),
            decreases len - i,
        {
            clips.push(self.get(i));
            proof {
                assert(self@.take(i as int).push(self@[i as int]) =~= self@.take(i + 1));
            }
            i += 1;
        }
        assert(self@.take(len as int) =~= self@);
        clips
    }

    /// A sequence of the given clips.
    pub(crate) fn from_slice(clips: &[ActionClip]) -> (sequence: Self)
        requires
            clips@.len() >= 1,
        ensures
            sequence@ == clips@,
    {
        let mut sequence = Sequence::new(clips[0]);
        let mut i: usize = 1;
        assert(sequence@ =~= clips@.take(1));
        while i < clips.len()
            invariant
                1 <= i <= clips@.len(),
                sequence@ == clips@.take(i as int),
            decreases clips@.len() - i,
        {
            sequence.append(clips[i]);
            proof {
                assert(clips@.take(i as int).push(clips@[i as int]) =~= clips@.take(i + 1));
            }
            i += 1;
        }
        assert(clips@.take(i as int) =~= clips@);
        sequence
    }

    /// Moves every clip by `duration`.
    pub(crate) fn delay(&mut self, duration: Ticks)
        ensures
            final(self)@ == delayed(old(self)@, duration),
    {
        let mut clips = self.to_vec();
        let ghost before = clips@;
        let mut i: usize = 0;
        while i < clips.len()
            invariant
                i <= clips@.len(),
                clips@.len() == before.len(),
                clips@.take(i as int) =~= delayed(before, duration).take(i as int),
                clips@.skip(i as int) =~= before.skip(i as int),
            decreases clips@.len() - i,
        {
            let clip = clips[i];
            assert(clips@.skip(i as int)[0] == before.skip(i as int)[0]);
            let ghost prev = clips@;
            clips.set(i, ActionClip { start: ticks_add(clip.start, duration), ..clip });
            proof {
                assert(clips@[i as int] == before[i as int].delayed(duration));
                assert forall|j: int| 0 <= j < i + 1 implies clips@[j] == delayed(
                    before,
                    duration,
                )[j] by {
                    if j < i {
                        assert(prev.take(i as int)[j] == delayed(before, duration).take(
                            i as int,
                        )[j]);
                    }
                }
                assert forall|j: int| i + 1 <= j < clips@.len() implies clips@[j]
                    == before[j] by {
                    assert(prev.skip(i as int)[j - i] == before.skip(i as int)[j - i]);
                }
            }
            i += 1;
        }
        *self = Sequence::from_slice(clips.as_slice());
        assert(clips@ =~= delayed(before, duration)) by {
            assert(clips@.take(i as int) =~= clips@);
            assert(delayed(before, duration).take(i as int) =~= delayed(before, duration));
        }
    }

    /// Puts `span` last.
    fn append(&mut self, span: ActionClip)
        ensures
            final(self)@ == old(self)@.push(span),
    {
        clips_push(&mut self.clips, span);
    }

    /// Puts `span` last. It starts no earlier than the sequence ends.
    pub fn push(&mut self, span: ActionClip)
        requires
            span.start >= old(self)@.last().end(),
        ensures
            final(self)@ == old(self)@.push(span),
            non_overlapping(old(self)@) ==> non_overlapping(final(self)@),
    {
        self.append(span);
    }

    /// Fallible version of [`Self::push`]. Appends the clip
    /// only if it does not overlap the sequence's last clip.
    ///
    /// On overlap, returns the conflicting (existing) clip and
    /// leaves the sequence untouched.
    pub fn try_push(&mut self, span: ActionClip) -> (result: Result<(), ActionClip>)
        ensures
            result is Err <==> span.start < old(self)@.last().end(),
            result is Err ==> result->Err_0 == old(self)@.last() && final(self)@ == old(self)@,
            result is Ok ==> final(self)@ == old(self)@.push(span),
            non_overlapping(old(self)@) ==> non_overlapping(final(self)@),
    {
        if span.start < self.end() {
            return Err(self.last());
        }
        self.append(span);
        Ok(())
    }

    /// Puts all of `clips` last, in order. None starts before the one in
    /// front of it has ended.
    pub fn extend(&mut self, clips: Vec<ActionClip>)
        requires
            clips@.len() >= 1 ==> clips@.first().start >= old(self)@.last().end(),
            non_overlapping(clips@),
        ensures
            final(self)@ == old(self)@ + clips@,
            non_overlapping(old(self)@) ==> non_overlapping(final(self)@),
    {
        let ghost before = self@;
        let mut i: usize = 0;
        while i < clips.len()
            invariant
                i <= clips@.len(),
                self@ =~= before + clips@.take(i as int),
            decreases clips@.len() - i,
        {
            self.append(clips[i]);
            i += 1;
        }
        assert(clips@.take(i as int) =~= clips@);
        proof {
            let s = before + clips@;
            if non_overlapping(before) {
                assert forall|k: int| 0 < k < s.len() implies s[k - 1].end() <= (
                #[trigger] s[k]).start by {
                    if k > before.len() {
                        assert(clips@[k - before.len()] == s[k]);
                    } else if k < before.len() {
                        assert(before[k] == s[k]);
                    }
                }
            }
        }
    }
}

/// Clips that neither overlap nor run backwards stay so when they are moved
/// forwards.
pub proof fn delay_keeps_clips_apart(clips: Seq<ActionClip>, by: Ticks)
    requires
        non_overlapping(clips),
        forward_only(clips),
        by >= 0,
    ensures
        non_overlapping(delayed(clips, by)),
        forward_only(delayed(clips, by)),
{
    let moved = delayed(clips, by);
    assert forall|i: int| 0 < i < moved.len() implies moved[i - 1].end() <= (
    #[trigger] moved[i]).start by {
        assert(clips[i - 1].end() <= clips[i].start);
        assert(clips[i - 1].duration >= 0);
    }
    assert forall|i: int| 0 <= i < moved.len() implies (#[trigger] moved[i]).duration >= 0 by {
        assert(clips[i].duration >= 0);
    }
}

/// In clips that neither overlap nor run backwards, a clip has ended when a
/// later one starts, however far behind it stands.
pub proof fn clips_are_in_order(clips: Seq<ActionClip>, i: int, j: int)
    requires
        non_overlapping(clips),
        forward_only(clips),
        0 <= i < j < clips.len(),
    ensures
        clips[i].end() <= clips[j].start,
    decreases j - i,
{
    if i + 1 < j {
        clips_are_in_order(clips, i, j - 1);
        assert(clips[j - 1].duration >= 0);
        assert(clips[j - 1].end() <= clips[j].start);
    } else {
        assert(clips[j - 1].end() <= clips[j].start);
    }
}

} // verus!
