//! Tracks: clips by key, as they are put together and as they are played.
use crate::action::{ActionClip, ActionId, ActionKey};
use crate::remote::RemoteEditError;
use crate::seqs::{insert_by, insert_by_at, stable_sort, stable_sort_is_sound, take_one_more};
use crate::sequence::{delayed, forward_only, non_overlapping, Sequence};
use crate::table::Table;
use crate::time::{later, ticks_max, Ticks};
use vstd::prelude::*;

pub mod compiled;
pub mod edit_laws;
pub mod laws;
pub mod ordering;
pub mod ordering_laws;

pub use compiled::Track;
pub use ordering::{all, any, chain, delay, flow, TrackOrdering};

verus! {

/// The clips of each key, in order.
pub type Lanes = Map<ActionKey, Seq<ActionClip>>;

/// The clips of `key`, none if it has no lane.
pub open spec fn lane(lanes: Lanes, key: ActionKey) -> Seq<ActionClip> {
    if lanes.contains_key(key) {
        lanes[key]
    } else {
        Seq::empty()
    }
}

/// Every lane with its clips moved by `by`.
pub open spec fn delayed_lanes(lanes: Lanes, by: Ticks) -> Lanes {
    lanes.map_values(|clips: Seq<ActionClip>| delayed(clips, by))
}

/// The lanes of both, those of `b` behind those of `a`.
pub open spec fn joined(a: Lanes, b: Lanes) -> Lanes {
    Map::new(
        |key: ActionKey| a.contains_key(key) || b.contains_key(key),
        |key: ActionKey| lane(a, key) + lane(b, key),
    )
}

/// Whether `b` can be put behind `a` without an overlap.
pub open spec fn clips_join(a: Seq<ActionClip>, b: Seq<ActionClip>) -> bool {
    &&& b.len() >= 1 ==> a.last().end() <= b.first().start
    &&& non_overlapping(b)
}

/// Whether every lane of `b` can be put behind that of `a`.
pub open spec fn lanes_join(a: Lanes, b: Lanes) -> bool {
    forall|key: ActionKey|
        #![trigger a.contains_key(key)]
        #![trigger b.contains_key(key)]
        a.contains_key(key) && b.contains_key(key) ==> clips_join(a[key], b[key])
}

/// Whether no lane holds clips that overlap or run backwards.
pub open spec fn lanes_apart(lanes: Lanes) -> bool {
    forall|key: ActionKey| #[trigger]
        lanes.contains_key(key) ==> non_overlapping(lanes[key]) && forward_only(lanes[key])
}

/// Whether `clips` hold one with the given id.
pub open spec fn has_clip(clips: Seq<ActionClip>, id: ActionId) -> bool {
    exists|i: int| 0 <= i < clips.len() && (#[trigger] clips[i]).id == id
}

/// Whether `end` is the time at which the last lane ends, zero if none ends
/// later.
pub open spec fn furthest_end(lanes: Lanes, end: Ticks) -> bool {
    &&& end >= 0
    &&& forall|key: ActionKey| #[trigger]
        lanes.contains_key(key) ==> lanes[key].last().end() <= end
    &&& end == 0 || exists|key: ActionKey| #[trigger]
        lanes.contains_key(key) && lanes[key].last().end() == end
}

/// The clips by their start, those with the same start in the given order.
pub open spec fn sort_by_start(clips: Seq<ActionClip>) -> Seq<ActionClip> {
    stable_sort(clips, |clip: ActionClip| clip.start as int)
}

/// The clip with a new start, and a new duration where one is given.
pub open spec fn retimed(clip: ActionClip, start: Ticks, duration: Option<Ticks>) -> ActionClip {
    ActionClip {
        id: clip.id,
        start: later(start, 0),
        duration: match duration {
            Some(duration) => later(duration, 0),
            None => clip.duration,
        },
    }
}

/// The clips after those with `id` got a new time.
pub open spec fn rescheduled(
    clips: Seq<ActionClip>,
    id: ActionId,
    start: Ticks,
    duration: Option<Ticks>,
) -> Seq<ActionClip> {
    sort_by_start(
        clips.map_values(
            |clip: ActionClip|
                if clip.id == id {
                    retimed(clip, start, duration)
                } else {
                    clip
                },
        ),
    )
}

/// Whether `at` is the first clip that starts before the one in front of it
/// has ended.
pub open spec fn first_overlap(clips: Seq<ActionClip>, at: int) -> bool {
    &&& 0 < at < clips.len()
    &&& clips[at].start < clips[at - 1].end()
    &&& non_overlapping(clips.take(at))
}

/// Of the two clips that overlap at `at`, the one that is not `id`.
pub open spec fn conflict_at(clips: Seq<ActionClip>, at: int, id: ActionId) -> ActionId {
    if clips[at - 1].id == id {
        clips[at].id
    } else {
        clips[at - 1].id
    }
}

/// A part of a longer list.
#[derive(Debug, Clone, Copy, PartialEq, Eq, Structural)]
pub struct Span {
    pub offset: usize,
    pub len: usize,
}

/// A track that is being put together.
pub struct TrackFragment {
    sequences: Table<ActionKey, Sequence>,
    duration: Ticks,
}

impl TrackFragment {
    /// The clips of each key.
    pub closed spec fn lanes(self) -> Lanes {
        self.sequences@.map_values(|sequence: Sequence| sequence@)
    }

    /// The duration of the track.
    pub closed spec fn spec_duration(&self) -> Ticks {
        self.duration
    }

    /// An empty track.
    pub fn new() -> (fragment: Self)
        ensures
            fragment.lanes() == Map::<ActionKey, Seq<ActionClip>>::empty(),
            fragment.duration() == 0,
    {
        let fragment = TrackFragment { sequences: Table::new(), duration: 0 };
        assert(fragment.lanes() =~= Map::<ActionKey, Seq<ActionClip>>::empty());
        fragment
    }

    /// A track of one clip.
    pub fn single(key: ActionKey, clip: ActionClip) -> (fragment: Self)
        ensures
            fragment.lanes() == Map::<ActionKey, Seq<ActionClip>>::empty().insert(key, seq![clip]),
            fragment.duration() == clip.duration,
    {
        let mut sequences = Table::new();
        sequences.insert(key, Sequence::new(clip));
        let fragment = TrackFragment { sequences, duration: clip.duration };
        assert(fragment.lanes() =~= Map::<ActionKey, Seq<ActionClip>>::empty().insert(
            key,
            seq![clip],
        ));
        fragment
    }

    /// The duration of the track.
    #[verifier::when_used_as_spec(spec_duration)]
    pub fn duration(&self) -> (duration: Ticks)
        ensures
            duration == self.spec_duration(),
    {
        self.duration
    }

    /// The sequence of `key`.
    pub fn sequence(&self, key: &ActionKey) -> (sequence: Option<&Sequence>)
        ensures
            sequence is Some <==> self.lanes().contains_key(*key),
            sequence is Some ==> sequence->0@ == self.lanes()[*key],
    {
        self.sequences.get(key)
    }

    /// Every key that has a sequence, once.
    pub fn keys(&self) -> (keys: Vec<ActionKey>)
        ensures
            keys@.no_duplicates(),
            forall|key: ActionKey| keys@.contains(key) <==> self.lanes().contains_key(key),
    {
        self.sequences.keys()
    }

    /// Updates or inserts a [`Sequence`] in a track.
    ///
    /// If the [`ActionKey`] already exists, this method appends the
    /// clips of the `new_sequence` to the existing sequence.
    /// If the [`ActionKey`] does not exist, a new entry is created
    /// for the `new_sequence`.
    pub fn upsert_sequence(self, key: ActionKey, new_sequence: Sequence) -> (fragment: Self)
        requires
            self.lanes().contains_key(key) ==> clips_join(self.lanes()[key], new_sequence@),
        ensures
            fragment.lanes() == self.lanes().insert(key, lane(self.lanes(), key) + new_sequence@),
            fragment.duration() == self.duration(),
    {
        let mut fragment = self;
        let ghost lanes = fragment.lanes();
        match fragment.sequences.remove(&key) {
            Some(mut sequence) => {
                sequence.extend(new_sequence.into_clips());
                fragment.sequences.insert(key, sequence);
            },
            None => {
                assert(lane(lanes, key) + new_sequence@ =~= new_sequence@);
                fragment.sequences.insert(key, new_sequence);
            },
        }
        assert(fragment.lanes() =~= lanes.insert(key, lane(lanes, key) + new_sequence@));
        fragment
    }

    /// Puts the clips of `other`, moved by `by`, behind those of `self`.
    fn absorb(self, other: TrackFragment, by: Ticks) -> (fragment: Self)
        requires
            lanes_join(self.lanes(), delayed_lanes(other.lanes(), by)),
        ensures
            fragment.lanes() == joined(self.lanes(), delayed_lanes(other.lanes(), by)),
            fragment.duration() == self.duration(),
    {
        let ghost before = self.lanes();
        let ghost behind = delayed_lanes(other.lanes(), by);
        let duration = self.duration;
        let mut fragment = self;
        let mut sequences = other.sequences;
        let keys = sequences.keys();
        let mut i: usize = 0;
        assert forall|j: int| 0 <= j < keys@.len() implies sequences@.contains_key(
            #[trigger] keys@[j],
        ) by {
            assert(keys@.contains(keys@[j]));
        }
        while i < keys.len()
            invariant
                i <= keys@.len(),
                keys@.no_duplicates(),
                lanes_join(before, behind),
                behind == delayed_lanes(other.lanes(), by),
                forall|key: ActionKey| keys@.contains(key) <==> other.sequences@.contains_key(key),
                forall|j: int|
                    i <= j < keys@.len() ==> sequences@.contains_key(#[trigger] keys@[j])
                        && sequences@[keys@[j]] == other.sequences@[keys@[j]],
                forall|key: ActionKey| #[trigger]
                    fragment.lanes().contains_key(key) <==> before.contains_key(key)
                        || keys@.take(i as int).contains(key),
                forall|key: ActionKey| #[trigger]
                    fragment.lanes().contains_key(key) ==> fragment.lanes()[key] == lane(before, key)
                        + (if keys@.take(i as int).contains(key) {
                        behind[key]
                    } else {
                        Seq::empty()
                    }),
                fragment.duration() == duration,
            decreases keys@.len() - i,
        {
            let key = keys[i];
            let ghost prev = fragment.lanes();
            assert(keys@.contains(key));
            proof {
                take_one_more(keys@, i as int);
            }
            match sequences.remove(&key) {
                Some(mut sequence) => {
                    sequence.delay(by);
                    assert(sequence@ == behind[key]);
                    assert(behind.contains_key(key));
                    assert(lane(before, key) + Seq::<ActionClip>::empty() =~= lane(before, key));
                    fragment = fragment.upsert_sequence(key, sequence);
                    proof {
                        assert(lane(prev, key) =~= lane(before, key));
                        assert forall|j: int| i + 1 <= j < keys@.len() implies sequences@.contains_key(
                            #[trigger] keys@[j],
                        ) && sequences@[keys@[j]] == other.sequences@[keys@[j]] by {
                            assert(keys@[j] != keys@[i as int]);
                        }
                    }
                },
                None => {
                    assert(false);
                },
            }
            i += 1;
        }
        proof {
            assert(keys@.take(i as int) =~= keys@);
            let whole = joined(before, behind);
            assert forall|key: ActionKey| #[trigger]
                fragment.lanes().contains_key(key) implies fragment.lanes()[key]
                == whole[key] by {
                if !keys@.contains(key) {
                    assert(!behind.contains_key(key));
                }
            }
            assert(fragment.lanes() =~= whole);
        }
        fragment
    }

    /// The time at which the last sequence ends, at least zero.
    fn content_end(&self) -> (end: Ticks)
        ensures
            furthest_end(self.lanes(), end),
    {
        let keys = self.sequences.keys();
        let mut end: Ticks = 0;
        let mut i: usize = 0;
        while i < keys.len()
            invariant
                i <= keys@.len(),
                forall|key: ActionKey| keys@.contains(key) <==> self.lanes().contains_key(key),
                end >= 0,
                forall|j: int|
                    0 <= j < i ==> self.lanes()[#[trigger] keys@[j]].last().end() <= end,
                end == 0 || exists|key: ActionKey| #[trigger]
                    self.lanes().contains_key(key) && self.lanes()[key].last().end() == end,
            decreases keys@.len() - i,
        {
            assert(keys@.contains(keys@[i as int]));
            assert(self.lanes().contains_key(keys@[i as int]));
            match self.sequences.get(&keys[i]) {
                Some(sequence) => {
                    end = ticks_max(end, sequence.end());
                },
                None => {},
            }
            i += 1;
        }
        assert forall|key: ActionKey| #[trigger] self.lanes().contains_key(key) implies self.lanes()[key].last().end()
            <= end by {
            assert(keys@.contains(key));
            let j = choose|j: int| 0 <= j < keys@.len() && keys@[j] == key;
            assert(self.lanes()[keys@[j]].last().end() <= end);
        }
        end
    }

    /// Append a clip for `key`, scheduled to start at the
    /// current end of that key's sequence (or at `start_at` if later).
    /// Extends the track duration if needed. Returns the scheduled start time.
    pub fn append_clip(&mut self, key: ActionKey, clip: ActionClip, start_at: Ticks) -> (start:
        Ticks)
        ensures
            start == append_start(old(self).lanes(), key, start_at),
            final(self).lanes() == appended(old(self).lanes(), key, clip, start_at),
            final(self).duration() == later(
                old(self).duration(),
                (ActionClip { start, ..clip }).end(),
            ),
    {
        let ghost lanes = self.lanes();
        let start = match self.sequences.get(&key) {
            Some(sequence) => ticks_max(sequence.end(), start_at),
            None => ticks_max(start_at, 0),
        };
        let clip = ActionClip { start, ..clip };
        match self.sequences.remove(&key) {
            Some(mut sequence) => {
                sequence.push(clip);
                self.sequences.insert(key, sequence);
            },
            None => {
                assert(Seq::<ActionClip>::empty().push(clip) =~= seq![clip]);
                self.sequences.insert(key, Sequence::new(clip));
            },
        }
        assert(self.lanes() =~= lanes.insert(key, lane(lanes, key).push(clip)));
        self.duration = ticks_max(self.duration, clip.end());
        start
    }

    /// Remove the clip with the given [`ActionId`] from `key`'s
    /// sequence. Returns `true` if a clip was removed. If the sequence
    /// becomes empty it is dropped entirely.
    pub fn remove_clip(&mut self, key: &ActionKey, id: ActionId) -> (removed: bool)
        ensures
            removed <==> has_clip(lane(old(self).lanes(), *key), id),
            !removed ==> final(self).lanes() == old(self).lanes() && final(self).duration()
                == old(self).duration(),
            removed ==> final(self).lanes() == without_clip(old(self).lanes(), *key, id),
            removed ==> furthest_end(final(self).lanes(), final(self).duration()),
    {
        let ghost lanes = self.lanes();
        let clips = match self.sequences.get(key) {
            Some(sequence) => sequence.to_vec(),
            None => {
                return false;
            },
        };
        let kept = clips_without(&clips, id);
        if kept.len() == clips.len() {
            proof {
                filter_keeps_all(clips@, id);
            }
            return false;
        }
        proof {
            filter_keeps_all(clips@, id);
        }
        if kept.len() > 0 {
            self.sequences.insert(*key, Sequence::from_slice(kept.as_slice()));
        } else {
            self.sequences.remove(key);
        }
        assert(self.lanes() =~= without_clip(lanes, *key, id));
        self.duration = self.content_end();
        true
    }

    /// Reschedule the clip with the given [`ActionId`] to a new start
    /// time (and, optionally, a new duration), keeping it in the same
    /// sequence.
    ///
    /// The clip stays attached to the same `(subject, field)` action.
    pub fn reschedule_clip(
        &mut self,
        id: ActionId,
        new_start: Ticks,
        new_duration: Option<Ticks>,
    ) -> (result: Result<(), RemoteEditError>)
        ensures
            reschedule_outcome(
                old(self).lanes(),
                final(self).lanes(),
                id,
                new_start,
                new_duration,
                result,
            ),
            result is Ok ==> furthest_end(final(self).lanes(), final(self).duration()),
            result is Err ==> final(self).duration() == old(self).duration(),
    {
        let ghost lanes = self.lanes();
        let key = match self.key_of(id) {
            Some(key) => key,
            None => {
                return Err(RemoteEditError::NotFound);
            },
        };
        let clips = match self.sequences.get(&key) {
            Some(sequence) => sequence.to_vec(),
            None => {
                return Err(RemoteEditError::NotFound);
            },
        };
        let ghost target = rescheduled(clips@, id, new_start, new_duration);
        let sorted = reschedule_clips(&clips, id, new_start, new_duration);
        assert(sorted@.len() >= 1) by {
            stable_sort_is_sound(
                clips@.map_values(
                    |clip: ActionClip|
                        if clip.id == id {
                            retimed(clip, new_start, new_duration)
                        } else {
                            clip
                        },
                ),
                |clip: ActionClip| clip.start as int,
            );
        }
        let sequence = match place_in_order(&sorted) {
            Ok(sequence) => sequence,
            Err(at) => {
                let conflict = if sorted[at - 1].id == id {
                    sorted[at].id
                } else {
                    sorted[at - 1].id
                };
                return Err(RemoteEditError::Overlap { conflict });
            },
        };
        self.sequences.insert(key, sequence);
        assert(self.lanes() =~= lanes.insert(key, target));
        self.duration = self.content_end();
        Ok(())
    }

    /// The key of a sequence that holds a clip with the given id.
    fn key_of(&self, id: ActionId) -> (key: Option<ActionKey>)
        ensures
            key is Some ==> self.lanes().contains_key(key->0) && has_clip(
                self.lanes()[key->0],
                id,
            ),
            key is None ==> no_clip(self.lanes(), id),
    {
        let keys = self.sequences.keys();
        let mut i: usize = 0;
        while i < keys.len()
            invariant
                i <= keys@.len(),
                forall|key: ActionKey| keys@.contains(key) <==> self.lanes().contains_key(key),
                forall|j: int| 0 <= j < i ==> !has_clip(self.lanes()[#[trigger] keys@[j]], id),
            decreases keys@.len() - i,
        {
            assert(keys@.contains(keys@[i as int]));
            match self.sequences.get(&keys[i]) {
                Some(sequence) => {
                    let clips = sequence.to_vec();
                    if contains_id(&clips, id) {
                        return Some(keys[i]);
                    }
                },
                None => {},
            }
            i += 1;
        }
        assert forall|key: ActionKey| #[trigger] self.lanes().contains_key(key) implies !has_clip(
            self.lanes()[key],
            id,
        ) by {
            assert(keys@.contains(key));
            let j = choose|j: int| 0 <= j < keys@.len() && keys@[j] == key;
            assert(!has_clip(self.lanes()[keys@[j]], id));
        }
        None
    }
}

/// Where a clip put behind the lane of `key` starts.
pub open spec fn append_start(lanes: Lanes, key: ActionKey, start_at: Ticks) -> Ticks {
    if lanes.contains_key(key) {
        later(lanes[key].last().end(), start_at)
    } else {
        later(start_at, 0)
    }
}

/// The lanes with a clip put behind that of `key`.
pub open spec fn appended(lanes: Lanes, key: ActionKey, clip: ActionClip, start_at: Ticks) -> Lanes {
    lanes.insert(
        key,
        lane(lanes, key).push(
            ActionClip { start: append_start(lanes, key, start_at), ..clip },
        ),
    )
}

/// Whether no lane holds a clip with the given id.
pub open spec fn no_clip(lanes: Lanes, id: ActionId) -> bool {
    forall|key: ActionKey| #[trigger] lanes.contains_key(key) ==> !has_clip(lanes[key], id)
}

/// The clips that do not have the given id.
pub open spec fn others(clips: Seq<ActionClip>, id: ActionId) -> Seq<ActionClip> {
    clips.filter(|clip: ActionClip| clip.id != id)
}

/// The lanes with the clips of `id` taken out of that of `key`.
pub open spec fn without_clip(lanes: Lanes, key: ActionKey, id: ActionId) -> Lanes {
    if others(lanes[key], id).len() == 0 {
        lanes.remove(key)
    } else {
        lanes.insert(key, others(lanes[key], id))
    }
}

/// What giving the clip `id` a new time comes to: `NotFound` where there is
/// none, otherwise it moves inside a lane that holds it, unless it would then
/// overlap a neighbour there.
pub open spec fn reschedule_outcome(
    before: Lanes,
    after: Lanes,
    id: ActionId,
    start: Ticks,
    duration: Option<Ticks>,
    result: Result<(), RemoteEditError>,
) -> bool {
    match result {
        Ok(()) => exists|key: ActionKey| #[trigger]
            before.contains_key(key) && has_clip(before[key], id) && non_overlapping(
                rescheduled(before[key], id, start, duration),
            ) && after == before.insert(key, rescheduled(before[key], id, start, duration)),
        Err(RemoteEditError::NotFound) => no_clip(before, id) && after == before,
        Err(RemoteEditError::Overlap { conflict }) => after == before && exists|
            key: ActionKey,
            at: int,
        | #[trigger]
            before.contains_key(key) && has_clip(before[key], id) && #[trigger] first_overlap(
                rescheduled(before[key], id, start, duration),
                at,
            ) && conflict == conflict_at(rescheduled(before[key], id, start, duration), at, id),
        Err(_) => false,
    }
}

/// A sequence of the clips, or the first place at which they overlap.
fn place_in_order(clips: &Vec<ActionClip>) -> (result: Result<Sequence, usize>)
    requires
        clips@.len() >= 1,
    ensures
        match result {
            Ok(sequence) => sequence@ == clips@ && non_overlapping(clips@),
            Err(at) => first_overlap(clips@, at as int),
        },
{
    let mut sequence = Sequence::new(clips[0]);
    assert(sequence@ =~= clips@.take(1));
    let mut i: usize = 1;
    while i < clips.len()
        invariant
            1 <= i <= clips@.len(),
            sequence@ == clips@.take(i as int),
            non_overlapping(sequence@),
        decreases clips@.len() - i,
    {
        if sequence.try_push(clips[i]).is_err() {
            return Err(i);
        }
        assert(clips@.take(i as int).push(clips@[i as int]) =~= clips@.take(i + 1));
        i += 1;
    }
    assert(clips@.take(i as int) =~= clips@);
    Ok(sequence)
}

/// Whether one of the clips has the given id.
fn contains_id(clips: &Vec<ActionClip>, id: ActionId) -> (found: bool)
    ensures
        found == has_clip(clips@, id),
{
    let mut i: usize = 0;
    while i < clips.len()
        invariant
            i <= clips@.len(),
            forall|j: int| 0 <= j < i ==> (#[trigger] clips@[j]).id != id,
        decreases clips@.len() - i,
    {
        if clips[i].id == id {
            return true;
        }
        i += 1;
    }
    false
}

/// The clips that do not have the given id.
fn clips_without(clips: &Vec<ActionClip>, id: ActionId) -> (kept: Vec<ActionClip>)
    ensures
        kept@ == others(clips@, id),
{
    let mut kept: Vec<ActionClip> = Vec::new();
    let mut i: usize = 0;
    assert(others(clips@.take(0), id) =~= Seq::empty()) by {
        reveal(Seq::filter);
    }
    while i < clips.len()
        invariant
            i <= clips@.len(),
            kept@ == others(clips@.take(i as int), id),
        decreases clips@.len() - i,
    {
        let clip = clips[i];
        proof {
            reveal(Seq::filter);
            assert(clips@.take(i + 1).drop_last() =~= clips@.take(i as int));
            assert(clips@.take(i + 1).last() == clip);
        }
        if clip.id != id {
            kept.push(clip);
        }
        i += 1;
    }
    assert(clips@.take(i as int) =~= clips@);
    kept
}

/// Filtering keeps everything exactly where no clip has the id.
proof fn filter_keeps_all(clips: Seq<ActionClip>, id: ActionId)
    ensures
        others(clips, id).len() <= clips.len(),
        others(clips, id).len() == clips.len() <==> !has_clip(clips, id),
        others(clips, id).len() == clips.len() ==> others(clips, id) == clips,
    decreases clips.len(),
{
    reveal(Seq::filter);
    if clips.len() > 0 {
        let rest = clips.drop_last();
        filter_keeps_all(rest, id);
        if has_clip(rest, id) {
            let i = choose|i: int| 0 <= i < rest.len() && (#[trigger] rest[i]).id == id;
            assert(clips[i].id == id);
        }
        if clips.last().id == id {
            assert(clips[clips.len() - 1].id == id);
        } else if has_clip(clips, id) {
            let i = choose|i: int| 0 <= i < clips.len() && (#[trigger] clips[i]).id == id;
            assert(rest[i].id == id);
        } else {
            assert(others(clips, id) =~= clips);
        }
    }
}

/// Puts a clip behind every clip that starts no later.
fn insert_clip_by_start(clips: &mut Vec<ActionClip>, clip: ActionClip)
    ensures
        final(clips)@ == insert_by(old(clips)@, clip, |clip: ActionClip| clip.start as int),
{
    let ghost key = |clip: ActionClip| clip.start as int;
    let mut at: usize = clips.len();
    while at > 0 && clips[at - 1].start > clip.start
        invariant
            at <= clips@.len(),
            clips@ == old(clips)@,
            key == (|clip: ActionClip| clip.start as int),
            forall|j: int| at <= j < clips@.len() ==> key(#[trigger] clips@[j]) > key(clip),
        decreases at,
    {
        at -= 1;
    }
    proof {
        insert_by_at(clips@, clip, key, at as int);
    }
    clips.insert(at, clip);
}

/// The clips by their start, after those with `id` got a new time.
fn reschedule_clips(
    clips: &Vec<ActionClip>,
    id: ActionId,
    new_start: Ticks,
    new_duration: Option<Ticks>,
) -> (sorted: Vec<ActionClip>)
    ensures
        sorted@ == rescheduled(clips@, id, new_start, new_duration),
{
    let ghost moved = clips@.map_values(
        |clip: ActionClip|
            if clip.id == id {
                retimed(clip, new_start, new_duration)
            } else {
                clip
            },
    );
    let mut sorted: Vec<ActionClip> = Vec::new();
    let mut i: usize = 0;
    assert(moved.take(0) =~= Seq::empty());
    while i < clips.len()
        invariant
            i <= clips@.len(),
            moved.len() == clips@.len(),
            forall|j: int|
                0 <= j < clips@.len() ==> #[trigger] moved[j] == if clips@[j].id == id {
                    retimed(clips@[j], new_start, new_duration)
                } else {
                    clips@[j]
                },
            sorted@ == sort_by_start(moved.take(i as int)),
        decreases clips@.len() - i,
    {
        let mut clip = clips[i];
        if clip.id == id {
            let duration = match new_duration {
                Some(duration) => ticks_max(duration, 0),
                None => clip.duration,
            };
            clip = ActionClip { id: clip.id, start: ticks_max(new_start, 0), duration };
        }
        assert(clip == moved[i as int]);
        insert_clip_by_start(&mut sorted, clip);
        proof {
            assert(moved.take(i + 1).drop_last() =~= moved.take(i as int));
            assert(moved.take(i + 1).last() == clip);
        }
        i += 1;
    }
    assert(moved.take(i as int) =~= moved);
    sorted
}

impl Default for TrackFragment {
    fn default() -> (fragment: Self)
        ensures
            fragment.lanes() == Map::<ActionKey, Seq<ActionClip>>::empty(),
            fragment.duration() == 0,
    {
        Self::new()
    }
}

} // verus!
