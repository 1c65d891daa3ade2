//! Finding the actions that a move of the playhead touches.
use crate::action::world::{marked, unmarked, ActionModel};
use crate::action::{ActionClip, ActionId, ActionKey, ActionWorld, SampleMode};
use crate::pipeline::{marked_apart, Range};
use crate::seqs::take_one_more;
use crate::sequence::{clips_are_in_order, forward_only, non_overlapping};
use crate::subject::Tagged;
use crate::table::Table;
use crate::time::{
    earlier, later, phase_at, phase_of, saturated, ticks_max, ticks_min, ticks_sub, Ticks,
};
use crate::timeline::queue_laws::{arriving_marks, keyed};
use crate::timeline::{Timeline, TimelineModel};
use crate::track::{Span, Track};
use vstd::prelude::*;

verus! {

/// Cached actions that are queued to be sampled.
///
/// This cache prevents duplicated samples on the same [`ActionKey`]
/// which result in sampling the same target field on the same entity
/// more than once. This is crucial as the sampling pipeline happens
/// in an unordered manner.
pub struct QueueCache {
    cache: Table<ActionKey, ActionId>,
}

impl View for QueueCache {
    type V = Map<ActionKey, ActionId>;

    closed spec fn view(&self) -> Map<ActionKey, ActionId> {
        self.cache@
    }
}

/// The queue and the actions that it marks.
pub type Queued = (Map<ActionKey, ActionId>, ActionModel);

/// The queue after an action took the place of its sequence and was marked.
/// The one that had the place before loses its mark.
pub open spec fn queued(state: Queued, visit: Visit) -> Queued {
    let (queue, model) = state;
    let cleared = if queue.contains_key(visit.key) {
        marked(model, queue[visit.key], None)
    } else {
        model
    };
    (queue.insert(visit.key, visit.id), marked(cleared, visit.id, Some(visit.mode)))
}

/// The queue after all visits, one after another.
pub open spec fn queued_all(state: Queued, visits: Seq<Visit>) -> Queued
    decreases visits.len(),
{
    if visits.len() == 0 {
        state
    } else {
        queued(queued_all(state, visits.drop_last()), visits.last())
    }
}

/// An action that takes the place of its sequence in the queue.
pub struct Visit {
    pub key: ActionKey,
    pub id: ActionId,
    pub mode: SampleMode,
}

/// Visits one after another are visits after visits.
proof fn queued_in_parts(state: Queued, a: Seq<Visit>, b: Seq<Visit>)
    ensures
        queued_all(state, a + b) == queued_all(queued_all(state, a), b),
    decreases b.len(),
{
    if b.len() == 0 {
        assert(a + b =~= a);
    } else {
        assert((a + b).drop_last() =~= a + b.drop_last());
        queued_in_parts(state, a, b.drop_last());
    }
}

impl QueueCache {
    /// A cache without actions.
    pub fn new() -> (cache: Self)
        ensures
            cache@ == Map::<ActionKey, ActionId>::empty(),
    {
        QueueCache { cache: Table::new() }
    }

    /// Whether no action is queued.
    pub fn is_empty(&self) -> (empty: bool)
        ensures
            empty == (self@ == Map::<ActionKey, ActionId>::empty()),
    {
        self.cache.is_empty()
    }

    /// The queued action of a sequence.
    pub fn get(&self, key: &ActionKey) -> (id: Option<ActionId>)
        ensures
            id is Some <==> self@.contains_key(*key),
            id is Some ==> id->0 == self@[*key],
    {
        match self.cache.get(key) {
            Some(id) => Some(*id),
            None => None,
        }
    }

    /// The sequences that have a queued action, once.
    pub fn iter_keys(&self) -> (keys: Vec<ActionKey>)
        ensures
            keys@.no_duplicates(),
            forall|key: ActionKey| keys@.contains(key) <==> self@.contains_key(key),
    {
        self.cache.keys()
    }

    /// The queued actions, in the order of [`Self::iter_keys`].
    pub fn iter_ids(&self) -> (ids: Vec<ActionId>)
        ensures
            exists|keys: Seq<ActionKey>|
                {
                    &&& #[trigger] keys.no_duplicates()
                    &&& forall|key: ActionKey| keys.contains(key) <==> self@.contains_key(key)
                    &&& ids@ == keys.map_values(|key: ActionKey| self@[key])
                },
    {
        let keys = self.cache.keys();
        let mut ids: Vec<ActionId> = Vec::new();
        let mut i: usize = 0;
        while i < keys.len()
            invariant
                i <= keys@.len(),
                forall|key: ActionKey| keys@.contains(key) <==> self@.contains_key(key),
                ids@.len() == i,
                forall|j: int| 0 <= j < i ==> #[trigger] ids@[j] == self@[keys@[j]],
            decreases keys@.len() - i,
        {
            assert(keys@.contains(keys@[i as int]));
            match self.cache.get(&keys[i]) {
                Some(id) => {
                    ids.push(*id);
                },
                None => {
                    assert(false);
                },
            }
            i += 1;
        }
        assert(ids@ =~= keys@.map_values(|key: ActionKey| self@[key]));
        ids
    }

    /// Clear all the cached contents.
    pub fn clear(&mut self)
        ensures
            final(self)@ == Map::<ActionKey, ActionId>::empty(),
    {
        self.cache = Table::new();
    }

    /// Cache an [`ActionKey`] while deduplicating the old cache if
    /// it exists.
    pub fn cache(&mut self, key: ActionKey, id: ActionId, action_world: &mut ActionWorld)
        ensures
            final(self)@ == old(self)@.insert(key, id),
            final(action_world)@ == (if old(self)@.contains_key(key) {
                marked(old(action_world)@, old(self)@[key], None)
            } else {
                old(action_world)@
            }),
    {
        match self.cache.insert(key, id) {
            Some(prev_id) => {
                action_world.clear_mark(prev_id);
            },
            None => {},
        }
    }
}

impl Default for QueueCache {
    fn default() -> (cache: Self)
        ensures
            cache@ == Map::<ActionKey, ActionId>::empty(),
    {
        Self::new()
    }
}

/// Whether the clip plays at the given time, ends included.
pub open spec fn plays_at(clip: ActionClip, time: Ticks) -> bool {
    clip.start <= time <= clip.end()
}

/// Whether `found` is the place of a time among clips: the place of a clip
/// that plays then, or else the number of clips that have ended by then. If
/// the clips overlap or run backwards, only the former is certain.
pub open spec fn is_place(clips: Seq<ActionClip>, time: Ticks, found: Result<usize, usize>) -> bool {
    match found {
        Ok(index) => index < clips.len() && plays_at(clips[index as int], time),
        Err(index) => index <= clips.len() && (non_overlapping(clips) && forward_only(clips) ==> {
            &&& forall|i: int| 0 <= i < index ==> (#[trigger] clips[i]).end() < time
            &&& forall|i: int| index <= i < clips.len() ==> time < (#[trigger] clips[i]).start
        }),
    }
}

/// The stretch of time in which a clip plays.
pub open spec fn clip_range(clip: ActionClip) -> Range {
    Range { start: clip.start, end: clip.end() }
}

/// The action that a move through `range` to `time` queues of a sequence, if
/// it does. `found` is the place of `time` among the clips.
pub open spec fn pick(
    clips: Seq<ActionClip>,
    range: Range,
    time: Ticks,
    found: Result<usize, usize>,
) -> Option<(ActionId, SampleMode)> {
    let whole = Range { start: clips.first().start, end: clips.last().end() };
    if !range.overlaps(whole) {
        None
    } else {
        match found {
            Ok(index) => {
                let clip = clips[index as int];
                Some(
                    (
                        clip.id,
                        SampleMode::Interp(
                            phase_at(
                                saturated(time - clip.start) as int,
                                saturated(clip.end() - clip.start) as int,
                            ),
                        ),
                    ),
                )
            },
            Err(index) => {
                let clip = clips[if index > 0 {
                    index - 1
                } else {
                    0
                }];
                let crossed = index < clips.len() && range.overlaps(
                    clip_range(clips[index as int]),
                );
                if range.overlaps(clip_range(clip)) || crossed {
                    Some(
                        (
                            clip.id,
                            if index == 0 {
                                SampleMode::Start
                            } else {
                                SampleMode::End
                            },
                        ),
                    )
                } else {
                    None
                }
            },
        }
    }
}

/// Whether `picked` is what a move queues of a sequence.
pub open spec fn is_pick(
    clips: Seq<ActionClip>,
    range: Range,
    time: Ticks,
    picked: Option<(ActionId, SampleMode)>,
) -> bool {
    exists|found: Result<usize, usize>| #[trigger]
        is_place(clips, time, found) && picked == pick(clips, range, time, found)
}

/// The visits of the picks of each sequence.
pub open spec fn pick_visits(
    spans: Seq<(ActionKey, Span)>,
    picks: Seq<Option<(ActionId, SampleMode)>>,
) -> Seq<Visit>
    decreases picks.len(),
{
    if picks.len() == 0 {
        Seq::empty()
    } else {
        let before = pick_visits(spans, picks.drop_last());
        match picks.last() {
            Some((id, mode)) => before.push(
                Visit { key: spans[picks.len() - 1].0, id, mode },
            ),
            None => before,
        }
    }
}

/// The visits of a track that the playhead passes as a whole: the last action
/// of each sequence, or the first one on the way back.
pub open spec fn pass_visits(track: Track, forwards: bool) -> Seq<Visit> {
    track.spans().map_values(
        |entry: (ActionKey, Span)|
            {
                let clips = track.clips_in(entry.1);
                Visit {
                    key: entry.0,
                    id: if forwards {
                        clips.last().id
                    } else {
                        clips.first().id
                    },
                    mode: if forwards {
                        SampleMode::End
                    } else {
                        SampleMode::Start
                    },
                }
            },
    )
}

/// The visits of the tracks from `from` up to `to`.
pub open spec fn jump_visits(tracks: Seq<Track>, from: int, to: int, forwards: bool) -> Seq<Visit>
    decreases to - from,
{
    if from >= to {
        Seq::empty()
    } else {
        jump_visits(tracks, from, to - 1, forwards) + pass_visits(tracks[to - 1], forwards)
    }
}

/// The visits of the tracks that the playhead leaves on its way to the target
/// track.
pub open spec fn leaving_visits(model: TimelineModel) -> Seq<Visit> {
    if model.target_index > model.curr_index {
        jump_visits(model.tracks, model.curr_index as int, model.target_index as int, true)
    } else {
        jump_visits(model.tracks, model.target_index + 1, model.curr_index + 1, false)
    }
}

/// Where on the target track the playhead comes from: the start of it when it
/// comes from an earlier track, the end of it when it comes from a later one.
pub open spec fn entry_time(model: TimelineModel) -> Ticks {
    if model.target_index > model.curr_index {
        0
    } else if model.target_index < model.curr_index {
        model.tracks[model.target_index as int].duration()
    } else {
        model.curr_time
    }
}

/// The stretch of the target track that the playhead moves through.
pub open spec fn moved_range(model: TimelineModel) -> Range {
    Range {
        start: earlier(entry_time(model), model.target_time),
        end: later(entry_time(model), model.target_time),
    }
}

/// Whether `picks` are what a move of the playhead queues of the sequences of
/// the target track.
pub open spec fn are_picks(model: TimelineModel, picks: Seq<Option<(ActionId, SampleMode)>>) -> bool {
    let track = model.tracks[model.target_index as int];
    &&& picks.len() == track.spans().len()
    &&& forall|i: int|
        0 <= i < picks.len() ==> is_pick(
            track.clips_in(track.spans()[i].1),
            moved_range(model),
            model.target_time,
            #[trigger] picks[i],
        )
}

/// The timeline after its playhead arrived, with the given picks.
pub open spec fn arrived(
    model: TimelineModel,
    picks: Seq<Option<(ActionId, SampleMode)>>,
) -> TimelineModel {
    let track = model.tracks[model.target_index as int];
    let visits = leaving_visits(model) + pick_visits(track.spans(), picks);
    let (queue, actions) = queued_all((Map::empty(), unmarked(model.actions)), visits);
    TimelineModel {
        queue,
        actions,
        curr_time: model.target_time,
        curr_index: model.target_index,
        ..model
    }
}

/// Whether a timeline is another one after its playhead arrived.
pub open spec fn has_arrived(before: TimelineModel, after: TimelineModel) -> bool {
    exists|picks: Seq<Option<(ActionId, SampleMode)>>| #[trigger]
        are_picks(before, picks) && after == arrived(before, picks)
}

/// Whether every marked action is the queued one of a sequence.
pub open spec fn marks_are_queued(state: Queued) -> bool {
    forall|id: ActionId| #[trigger]
        state.1.actions.contains_key(id) && state.1.actions[id].mark is Some ==> exists|
            key: ActionKey,
        | #[trigger]
            state.0.contains_key(key) && state.0[key] == id
}

/// Queueing leaves no action marked that is not the queued one of a sequence,
/// so that no sequence is sampled twice.
pub proof fn queueing_marks_the_queued(state: Queued, visits: Seq<Visit>)
    requires
        marks_are_queued(state),
    ensures
        marks_are_queued(queued_all(state, visits)),
    decreases visits.len(),
{
    if visits.len() > 0 {
        let before = queued_all(state, visits.drop_last());
        let visit = visits.last();
        queueing_marks_the_queued(state, visits.drop_last());
        let after = queued(before, visit);
        assert forall|id: ActionId| #[trigger]
            after.1.actions.contains_key(id) && after.1.actions[id].mark is Some implies exists|
            key: ActionKey,
        | #[trigger]
            after.0.contains_key(key) && after.0[key] == id by {
            if id == visit.id {
                assert(after.0.contains_key(visit.key));
            } else {
                assert(before.1.actions.contains_key(id));
                assert(before.1.actions[id].mark is Some);
                let key = choose|key: ActionKey| #[trigger]
                    before.0.contains_key(key) && before.0[key] == id;
                if key == visit.key {
                    assert(after.1.actions[id].mark is None);
                }
                assert(after.0.contains_key(key));
            }
        }
    }
}

/// The place of a time among clips.
fn find_place(clips: &[ActionClip], time: Ticks) -> (found: Result<usize, usize>)
    ensures
        is_place(clips@, time, found),
{
    let mut low: usize = 0;
    let mut high: usize = clips.len();
    while low < high
        invariant
            low <= high <= clips@.len(),
            non_overlapping(clips@) && forward_only(clips@) ==> {
                &&& forall|i: int| 0 <= i < low ==> (#[trigger] clips@[i]).end() < time
                &&& forall|i: int|
                    high <= i < clips@.len() ==> time < (#[trigger] clips@[i]).start
            },
        decreases high - low,
    {
        let middle: usize = low + (high - low) / 2;
        let clip = clips[middle];
        if time < clip.start {
            proof {
                if non_overlapping(clips@) && forward_only(clips@) {
                    assert forall|i: int| middle <= i < clips@.len() implies time < (
                    #[trigger] clips@[i]).start by {
                        if i > middle {
                            clips_are_in_order(clips@, middle as int, i);
                            assert(clips@[middle as int].duration >= 0);
                        }
                    }
                }
            }
            high = middle;
        } else if time > clip.end() {
            proof {
                if non_overlapping(clips@) && forward_only(clips@) {
                    assert forall|i: int| 0 <= i < middle + 1 implies (
                    #[trigger] clips@[i]).end() < time by {
                        if i < middle {
                            clips_are_in_order(clips@, i, middle as int);
                        }
                    }
                }
            }
            low = middle + 1;
        } else {
            return Ok(middle);
        }
    }
    Err(low)
}

/// The action that a move queues of a sequence.
fn pick_clip(clips: &[ActionClip], range: &Range, time: Ticks) -> (picked: Option<
    (ActionId, SampleMode),
>)
    requires
        clips@.len() >= 1,
    ensures
        is_pick(clips@, *range, time, picked),
{
    let found = find_place(clips, time);
    assert(is_place(clips@, time, found));
    let last = clips[clips.len() - 1];
    let whole = Range { start: clips[0].start, end: last.end() };
    if !range.overlap(&whole) {
        return None;
    }
    match found {
        Ok(index) => {
            let clip = clips[index];
            let t = phase_of(ticks_sub(time, clip.start), ticks_sub(clip.end(), clip.start));
            Some((clip.id, SampleMode::Interp(t)))
        },
        Err(index) => {
            let clip = clips[if index > 0 {
                index - 1
            } else {
                0
            }];
            let here = Range { start: clip.start, end: clip.end() };
            // The clip on the far side of the gap, if one exists.
            let crossed = if index < clips.len() {
                let next = clips[index];
                range.overlap(&Range { start: next.start, end: next.end() })
            } else {
                false
            };
            if !range.overlap(&here) && !crossed {
                return None;
            }
            Some(
                (
                    clip.id,
                    if index == 0 {
                        SampleMode::Start
                    } else {
                        SampleMode::End
                    },
                ),
            )
        },
    }
}

impl<W: Tagged> Timeline<W> {
    /// Gives an action the place of its sequence in the queue.
    fn visit(&mut self, key: ActionKey, id: ActionId, mode: SampleMode)
        ensures
            final(self)@ == (TimelineModel {
                queue: queued((old(self)@.queue, old(self)@.actions), Visit { key, id, mode }).0,
                actions: queued((old(self)@.queue, old(self)@.actions), Visit { key, id, mode }).1,
                ..old(self)@
            }),
    {
        self.queue_cache.cache(key, id, &mut self.action_world);
        self.action_world.mark(id, mode);
    }

    fn reset_queues(&mut self)
        ensures
            final(self)@ == (TimelineModel {
                queue: Map::empty(),
                actions: unmarked(old(self)@.actions),
                ..old(self)@
            }),
    {
        self.queue_cache.clear();
        self.action_world.clear_all_marks();
    }

    /// Visits a track that the playhead passes as a whole.
    fn pass_track(&mut self, index: usize, forwards: bool)
        requires
            index < old(self)@.tracks.len(),
        ensures
            final(self)@ == after_visits(
                old(self)@,
                pass_visits(old(self)@.tracks[index as int], forwards),
            ),
    {
        let ghost before = self@;
        let ghost visits = pass_visits(before.tracks[index as int], forwards);
        let count = self.tracks[index].sequences_spans().len();
        let mut i: usize = 0;
        assert(visits.take(0) =~= Seq::empty());
        while i < count
            invariant
                i <= count,
                index < before.tracks.len(),
                count == before.tracks[index as int].spans().len(),
                before.tracks[index as int].laid_out(),
                visits == pass_visits(before.tracks[index as int], forwards),
                self@ == after_visits(before, visits.take(i as int)),
            decreases count - i,
        {
            let track = &self.tracks[index];
            let (key, span) = track.sequences_spans()[i];
            assert(before.tracks[index as int].spans()[i as int] == (key, span));
            let clips = track.clips(span);
            let (id, mode) = if forwards {
                (clips[clips.len() - 1].id, SampleMode::End)
            } else {
                (clips[0].id, SampleMode::Start)
            };
            self.visit(key, id, mode);
            proof {
                take_one_more(visits, i as int);
            }
            i += 1;
        }
        assert(visits.take(i as int) =~= visits);
    }

    /// Determines which actions are active at the current target time
    /// and marks them for sampling.
    ///
    /// This step is intentionally separate from
    /// [`Self::sample_queued_actions`] so that multiple timelines can
    /// queue concurrently. Queuing only requires `&mut self`, whereas
    /// sampling writes to the world, which would prevent parallel
    /// execution across timelines sharing the same world.
    pub fn queue_actions(&mut self)
        requires
            old(self)@.tracks.len() > 0 ==> old(self)@.playable(),
        ensures
            old(self)@.tracks.len() == 0 ==> final(self)@ == old(self)@,
            old(self)@.tracks.len() > 0 ==> {
                &&& has_arrived(old(self)@, final(self)@)
                &&& marks_are_queued((final(self)@.queue, final(self)@.actions))
                &&& keyed(old(self)@) ==> marked_apart(final(self)@.actions)
                &&& final(self)@.playable()
            },
    {
        let ghost before = self@;
        if self.tracks.len() == 0 {
            return;
        }
        self.reset_queues();
        let ghost start: Queued = (Map::empty(), unmarked(before.actions));
        let mut curr_time = self.curr_time;
        let target = self.target_index;
        let curr = self.curr_index;
        let ghost leaving = leaving_visits(before);
        if target > curr {
            curr_time = 0;
            let mut i: usize = curr;
            while i < target
                invariant
                    curr <= i <= target,
                    target < before.tracks.len(),
                    start == (Map::<ActionKey, ActionId>::empty(), unmarked(before.actions)),
                    self@ == after_visits(
                        TimelineModel { queue: start.0, actions: start.1, ..before },
                        jump_visits(before.tracks, curr as int, i as int, true),
                    ),
                decreases target - i,
            {
                self.pass_track(i, true);
                proof {
                    queued_in_parts(
                        start,
                        jump_visits(before.tracks, curr as int, i as int, true),
                        pass_visits(before.tracks[i as int], true),
                    );
                }
                i += 1;
            }
        } else if target < curr {
            curr_time = self.tracks[target].duration();
            assert(curr < self.tracks.len());
            let end: usize = curr + 1;
            let mut i: usize = target + 1;
            while i < end
                invariant
                    target + 1 <= i <= end,
                    end <= before.tracks.len(),
                    start == (Map::<ActionKey, ActionId>::empty(), unmarked(before.actions)),
                    self@ == after_visits(
                        TimelineModel { queue: start.0, actions: start.1, ..before },
                        jump_visits(before.tracks, target + 1, i as int, false),
                    ),
                decreases end - i,
            {
                self.pass_track(i, false);
                proof {
                    queued_in_parts(
                        start,
                        jump_visits(before.tracks, target + 1, i as int, false),
                        pass_visits(before.tracks[i as int], false),
                    );
                }
                i += 1;
            }
        }
        self.curr_index = target;
        let time = self.target_time;
        let range = Range { start: ticks_min(curr_time, time), end: ticks_max(curr_time, time) };
        assert(range == moved_range(before));
        let ghost left: Queued = queued_all(start, leaving);
        let ghost mut picks: Seq<Option<(ActionId, SampleMode)>> = Seq::empty();
        let ghost spans = before.tracks[target as int].spans();
        let count = self.tracks[target].sequences_spans().len();
        let mut i: usize = 0;
        while i < count
            invariant
                i <= count,
                before.playable(),
                target == before.target_index,
                time == before.target_time,
                range == moved_range(before),
                spans == before.tracks[target as int].spans(),
                count == spans.len(),
                before.tracks[target as int].laid_out(),
                picks.len() == i,
                forall|j: int|
                    0 <= j < i ==> is_pick(
                        before.tracks[target as int].clips_in(spans[j].1),
                        range,
                        time,
                        #[trigger] picks[j],
                    ),
                self@ == (TimelineModel { curr_index: target, ..after_visits(
                    TimelineModel { queue: left.0, actions: left.1, ..before },
                    pick_visits(spans, picks),
                ) }),
            decreases count - i,
        {
            let track = &self.tracks[target];
            let (key, span) = track.sequences_spans()[i];
            assert(spans[i as int] == (key, span));
            let picked = pick_clip(track.clips(span), &range, time);
            let ghost picked_before = picks;
            proof {
                picks = picks.push(picked);
                assert(picks.drop_last() =~= picked_before);
            }
            match picked {
                Some((id, mode)) => {
                    let ghost visits = pick_visits(spans, picked_before);
                    self.visit(key, id, mode);
                    proof {
                        let visit = Visit { key, id, mode };
                        assert(visits.push(visit).drop_last() =~= visits);
                    }
                },
                None => {},
            }
            i += 1;
        }
        self.curr_time = time;
        proof {
            assert(are_picks(before, picks));
            queued_in_parts(start, leaving, pick_visits(spans, picks));
            assert(self@ =~= arrived(before, picks));
            assert(marks_are_queued(start));
            if keyed(before) {
                arriving_marks(before, picks);
            }
            queueing_marks_the_queued(start, leaving + pick_visits(spans, picks));
        }
    }
}

/// The timeline after visits.
pub open spec fn after_visits(model: TimelineModel, visits: Seq<Visit>) -> TimelineModel {
    let (queue, actions) = queued_all((model.queue, model.actions), visits);
    TimelineModel { queue, actions, ..model }
}

} // verus!
