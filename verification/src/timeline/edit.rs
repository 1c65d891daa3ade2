//! Changing the clips and the actions of a timeline while it runs.
use crate::action::registry::one_more;
use crate::action::world::{released, ActionModel};
use crate::action::{ActionClip, ActionId, ActionKey, ActionRecord, ActionWorld, Ease};
use crate::pipeline::PipelineKey;
use crate::remote::{
    action_added, is_keyframed, keyframes_fault, keyframes_kept, rekeyframed, remote_record,
    retargeted, update_result, RemoteActionError, RemoteActionRegistry, RemoteEditError,
    RemoteFieldKey, RemoteKeyframe, RemoteTarget,
};
use crate::subject::{Subject, Tagged};
use crate::table::Table;
use crate::time::{later, Ticks};
use crate::timeline::{Timeline, TimelineModel};
use crate::track::{
    append_start, appended, furthest_end, has_clip, lane, reschedule_outcome, without_clip, Track,
    TrackFragment,
};
use vstd::prelude::*;

verus! {

/// The counts with one more action for `key`.
pub open spec fn bumped(counts: Map<PipelineKey, u32>, key: PipelineKey) -> Map<PipelineKey, u32> {
    counts.insert(
        key,
        if counts.contains_key(key) {
            one_more(counts[key])
        } else {
            1
        },
    )
}

/// The counts with one action less for `key`. A count is gone at zero.
pub open spec fn decremented(counts: Map<PipelineKey, u32>, key: PipelineKey) -> Map<
    PipelineKey,
    u32,
> {
    if !counts.contains_key(key) {
        counts
    } else if counts[key] <= 1 {
        counts.remove(key)
    } else {
        counts.insert(key, (counts[key] - 1) as u32)
    }
}

/// Whether only the track at `index` changed, and the actions and counts. The new
/// track is laid out.
pub open spec fn track_replaced(before: TimelineModel, after: TimelineModel, index: int) -> bool {
    &&& after == (TimelineModel {
        actions: after.actions,
        counts: after.counts,
        tracks: before.tracks.update(index, after.tracks[index]),
        ..before
    })
    &&& after.tracks[index].laid_out()
}

/// Whether a clip of a new action stands behind the lane of its key.
pub open spec fn clip_appended(
    before: TimelineModel,
    after: TimelineModel,
    index: int,
    id: ActionId,
    duration: Ticks,
    start_at: Ticks,
) -> bool {
    let key = after.actions.actions[id].key;
    let old_track = before.tracks[index];
    let new_track = after.tracks[index];
    let start = append_start(old_track.lanes(), key, start_at);
    let clip = ActionClip { id, start, duration };
    &&& new_track.lanes() == appended(old_track.lanes(), key, clip, start_at)
    &&& new_track.duration() == later(old_track.duration(), clip.end())
}

/// Whether a constant action was inserted: it is among the actions, counted,
/// and its clip stands behind the lane of its key.
pub open spec fn constant_inserted(
    before: TimelineModel,
    after: TimelineModel,
    index: int,
    remote: Map<PipelineKey, crate::action::InterpFn>,
    key: RemoteFieldKey,
    subject: Subject,
    target: RemoteTarget,
    duration: Ticks,
    start_at: Ticks,
    ease: Option<Ease>,
    id: ActionId,
) -> bool {
    &&& action_added(before.actions, after.actions, id, subject, key.field)
    &&& after.actions.actions[id] == remote_record(
        after.actions.actions[id].key,
        key.pipeline.target_id,
        target.end,
        remote[key.pipeline],
        ease,
        None,
    )
    &&& after.counts == bumped(before.counts, key.pipeline)
    &&& track_replaced(before, after, index)
    &&& clip_appended(before, after, index, id, duration, start_at)
}

/// Whether a keyframed action was inserted: it is among the actions, counted,
/// and its clip stands behind the lane of its key.
pub open spec fn keyframes_inserted(
    before: TimelineModel,
    after: TimelineModel,
    index: int,
    remote: Map<PipelineKey, crate::action::InterpFn>,
    key: RemoteFieldKey,
    subject: Subject,
    keyframes: Seq<RemoteKeyframe>,
    duration: Ticks,
    start_at: Ticks,
    ease: Option<Ease>,
    id: ActionId,
) -> bool {
    &&& action_added(before.actions, after.actions, id, subject, key.field)
    &&& keyframes_kept(
        after.actions.actions[id],
        keyframes,
        key.pipeline.target_id,
        remote[key.pipeline],
        ease,
    )
    &&& after.counts == bumped(before.counts, key.pipeline)
    &&& track_replaced(before, after, index)
    &&& clip_appended(before, after, index, id, duration, start_at)
}

/// Why a constant action cannot be inserted, if it cannot.
pub open spec fn constant_fault(
    model: TimelineModel,
    index: usize,
    remote: Map<PipelineKey, crate::action::InterpFn>,
    key: RemoteFieldKey,
    subject: Subject,
    target: RemoteTarget,
) -> Option<RemoteEditError> {
    if index >= model.tracks.len() {
        Some(RemoteEditError::TrackOutOfRange)
    } else if !remote.contains_key(key.pipeline) {
        Some(RemoteEditError::Action(RemoteActionError::Unregistered))
    } else if subject.type_id != key.pipeline.subject_id || target.end.type_id
        != key.pipeline.target_id {
        Some(RemoteEditError::Action(RemoteActionError::TypeMismatch))
    } else {
        None
    }
}

/// Why a keyframed action cannot be inserted, if it cannot.
pub open spec fn keyframed_fault(
    model: TimelineModel,
    index: usize,
    remote: Map<PipelineKey, crate::action::InterpFn>,
    key: RemoteFieldKey,
    subject: Subject,
    keyframes: Seq<RemoteKeyframe>,
) -> Option<RemoteEditError> {
    if index >= model.tracks.len() {
        Some(RemoteEditError::TrackOutOfRange)
    } else if !remote.contains_key(key.pipeline) {
        Some(RemoteEditError::Action(RemoteActionError::Unregistered))
    } else if subject.type_id != key.pipeline.subject_id {
        Some(RemoteEditError::Action(RemoteActionError::TypeMismatch))
    } else {
        match keyframes_fault(keyframes, key.pipeline.target_id) {
            Some(error) => Some(RemoteEditError::Action(error)),
            None => None,
        }
    }
}

/// Whether an action can be removed from a track: it exists, and its lane on
/// the track holds its clip.
pub open spec fn removable(model: TimelineModel, index: usize, id: ActionId) -> bool {
    &&& index < model.tracks.len()
    &&& model.actions.has(id)
    &&& has_clip(lane(model.tracks[index as int].lanes(), model.actions.actions[id].key), id)
}

/// Whether an action was removed: it is gone from the actions, from the
/// counts and from its lane.
pub open spec fn action_removed(
    before: TimelineModel,
    after: TimelineModel,
    world: u64,
    index: int,
    id: ActionId,
) -> bool {
    let key = before.actions.actions[id].key;
    &&& after.actions == (ActionModel {
        actions: before.actions.actions.remove(id),
        subjects: released(
            before.actions.subjects,
            (key.subject_id.type_id, key.subject_id.uid),
        ),
        known: before.actions.known,
        baselines: before.actions.baselines,
    })
    &&& after.counts == decremented(before.counts, PipelineKey::of_action_key(world, key))
    &&& track_replaced(before, after, index)
    &&& after.tracks[index].lanes() == without_clip(before.tracks[index].lanes(), key, id)
    &&& furthest_end(after.tracks[index].lanes(), after.tracks[index].duration())
}

/// Whether giving a clip another time had its outcome on a track.
pub open spec fn action_rescheduled(
    before: TimelineModel,
    after: TimelineModel,
    index: int,
    id: ActionId,
    start: Ticks,
    duration: Option<Ticks>,
) -> bool {
    &&& track_replaced(before, after, index)
    &&& after.actions == before.actions
    &&& after.counts == before.counts
    &&& reschedule_outcome(
        before.tracks[index].lanes(),
        after.tracks[index].lanes(),
        id,
        start,
        duration,
        Ok(()),
    )
    &&& furthest_end(after.tracks[index].lanes(), after.tracks[index].duration())
}

/// The timeline without actions, on one empty track.
pub open spec fn is_cleared(model: TimelineModel) -> bool {
    &&& model.actions == ActionModel::empty()
    &&& model.counts == Map::<PipelineKey, u32>::empty()
    &&& model.queue == Map::<ActionKey, ActionId>::empty()
    &&& model.tracks.len() == 1
    &&& is_empty_track(model.tracks[0])
    &&& model.curr_time == 0
    &&& model.target_time == 0
    &&& model.curr_index == 0
    &&& model.target_index == 0
}

/// Whether the track has no clips and no duration.
pub open spec fn is_empty_track(track: Track) -> bool {
    &&& track.lanes() == Map::<ActionKey, Seq<ActionClip>>::empty()
    &&& track.duration() == 0
    &&& track.laid_out()
}

impl<W: Tagged> Timeline<W> {
    /// Increment the reference count for `key`, adding it if absent.
    fn bump_pipeline(&mut self, key: PipelineKey)
        ensures
            final(self)@ == (TimelineModel {
                counts: bumped(old(self)@.counts, key),
                ..old(self)@
            }),
    {
        let count: u32 = match self.pipeline_counts.get(&key) {
            Some(count) => count.saturating_add(1),
            None => 1,
        };
        self.pipeline_counts.insert(key, count);
        assert(self@.counts =~= bumped(old(self)@.counts, key));
    }

    /// Decrement the reference count for `key`, removing it at zero.
    fn decrement_pipeline(&mut self, key: PipelineKey)
        ensures
            final(self)@ == (TimelineModel {
                counts: decremented(old(self)@.counts, key),
                ..old(self)@
            }),
    {
        let count: u32 = match self.pipeline_counts.get(&key) {
            Some(count) => *count,
            None => {
                return;
            },
        };
        if count <= 1 {
            self.pipeline_counts.remove(&key);
        } else {
            self.pipeline_counts.insert(key, count - 1);
        }
    }

    /// Puts a clip of an action behind the lane of its key.
    fn append_to_track(
        &mut self,
        track_index: usize,
        key: ActionKey,
        id: ActionId,
        duration: Ticks,
        start_at: Ticks,
    )
        requires
            track_index < old(self)@.tracks.len(),
            old(self)@.actions.has(id),
            old(self)@.actions.actions[id].key == key,
        ensures
            track_replaced(old(self)@, final(self)@, track_index as int),
            final(self)@.actions == old(self)@.actions,
            final(self)@.counts == old(self)@.counts,
            clip_appended(
                old(self)@,
                final(self)@,
                track_index as int,
                id,
                duration,
                start_at,
            ),
    {
        let ghost before = self@;
        let mut fragment = self.tracks[track_index].to_fragment();
        fragment.append_clip(key, ActionClip::new(id, duration), start_at);
        self.tracks.set(track_index, fragment.compile());
        proof {
            let lanes = before.tracks[track_index as int].lanes();
            let start = append_start(lanes, key, start_at);
            assert((ActionClip { start, ..(ActionClip { id, start: 0, duration }) })
                == (ActionClip { id, start, duration }));
            assert(self@ =~= (TimelineModel {
                tracks: before.tracks.update(
                    track_index as int,
                    self@.tracks[track_index as int],
                ),
                ..before
            }));
        }
    }

    /// Insert a constant-target action onto `track_index` at runtime.
    pub fn insert_constant_action(
        &mut self,
        track_index: usize,
        remote: &RemoteActionRegistry,
        key: RemoteFieldKey,
        subject: Subject,
        target: RemoteTarget,
        duration: Ticks,
        start_at: Ticks,
        ease: Option<Ease>,
    ) -> (result: Result<ActionId, RemoteEditError>)
        ensures
            match result {
                Ok(id) => {
                    &&& constant_fault(
                        old(self)@,
                        track_index,
                        remote@,
                        key,
                        subject,
                        target,
                    ) is None
                    &&& constant_inserted(
                        old(self)@,
                        final(self)@,
                        track_index as int,
                        remote@,
                        key,
                        subject,
                        target,
                        duration,
                        start_at,
                        ease,
                        id,
                    )
                },
                Err(error) => {
                    &&& constant_fault(old(self)@, track_index, remote@, key, subject, target)
                        == Some(error)
                    &&& final(self)@ == old(self)@
                },
            },
            old(self)@.playable() ==> final(self)@.playable(),
    {
        let ghost before = self@;
        if track_index >= self.tracks.len() {
            return Err(RemoteEditError::TrackOutOfRange);
        }
        if !remote.contains(&key.pipeline) {
            return Err(RemoteEditError::Action(RemoteActionError::Unregistered));
        }
        // Build the action inside the action world.
        let id = match remote.construct(
            &key.pipeline,
            &mut self.action_world,
            subject,
            key.field,
            target,
            ease,
        ) {
            Ok(id) => id,
            Err(error) => {
                assert(self@ =~= before);
                return Err(RemoteEditError::from(error));
            },
        };
        // Bump the pipeline reference count.
        self.bump_pipeline(key.pipeline);
        // Recompile the affected track with the new clip appended.
        match self.action_world.action_key(id) {
            Some(action_key) => {
                self.append_to_track(track_index, action_key, id, duration, start_at);
            },
            None => {
                assert(false);
            },
        }
        Ok(id)
    }

    /// Insert a remote keyframed action onto `track_index` at runtime.
    pub fn insert_keyframes_action(
        &mut self,
        track_index: usize,
        remote: &RemoteActionRegistry,
        key: RemoteFieldKey,
        subject: Subject,
        keyframes: &Vec<RemoteKeyframe>,
        duration: Ticks,
        start_at: Ticks,
        ease: Option<Ease>,
    ) -> (result: Result<ActionId, RemoteEditError>)
        ensures
            match result {
                Ok(id) => {
                    &&& keyframed_fault(
                        old(self)@,
                        track_index,
                        remote@,
                        key,
                        subject,
                        keyframes@,
                    ) is None
                    &&& keyframes_inserted(
                        old(self)@,
                        final(self)@,
                        track_index as int,
                        remote@,
                        key,
                        subject,
                        keyframes@,
                        duration,
                        start_at,
                        ease,
                        id,
                    )
                },
                Err(error) => {
                    &&& keyframed_fault(
                        old(self)@,
                        track_index,
                        remote@,
                        key,
                        subject,
                        keyframes@,
                    ) == Some(error)
                    &&& final(self)@ == old(self)@
                },
            },
            old(self)@.playable() ==> final(self)@.playable(),
    {
        let ghost before = self@;
        if track_index >= self.tracks.len() {
            return Err(RemoteEditError::TrackOutOfRange);
        }
        if !remote.contains(&key.pipeline) {
            return Err(RemoteEditError::Action(RemoteActionError::Unregistered));
        }
        let id = match remote.construct_keyframes(
            &key.pipeline,
            &mut self.action_world,
            subject,
            key.field,
            keyframes,
            ease,
        ) {
            Ok(id) => id,
            Err(error) => {
                assert(self@ =~= before);
                return Err(RemoteEditError::from(error));
            },
        };
        self.bump_pipeline(key.pipeline);
        match self.action_world.action_key(id) {
            Some(action_key) => {
                self.append_to_track(track_index, action_key, id, duration, start_at);
            },
            None => {
                assert(false);
            },
        }
        Ok(id)
    }

    /// Replace an existing keyframed action's points in place.
    pub fn update_keyframes_action(
        &mut self,
        id: ActionId,
        remote: &RemoteActionRegistry,
        keyframes: &Vec<RemoteKeyframe>,
    ) -> (result: Result<(), RemoteEditError>)
        ensures
            match result {
                Ok(()) => {
                    &&& old(self)@.actions.has(id)
                    &&& rekeyframed(
                        old(self)@.actions,
                        final(self)@.actions,
                        id,
                        keyframes@,
                    )
                    &&& final(self)@ == (TimelineModel {
                        actions: final(self)@.actions,
                        ..old(self)@
                    })
                    &&& keyframes_update_fault(old(self)@, W::tag(), remote@, id, keyframes@) is None
                },
                Err(error) => {
                    &&& keyframes_update_fault(old(self)@, W::tag(), remote@, id, keyframes@)
                        == Some(error)
                    &&& final(self)@ == old(self)@
                },
            },
            old(self)@.playable() ==> final(self)@.playable(),
    {
        let ghost before = self@;
        let action_key = match self.action_world.action_key(id) {
            Some(action_key) => action_key,
            None => {
                return Err(RemoteEditError::NotFound);
            },
        };
        let key = PipelineKey::from_action_key::<W>(action_key);
        match remote.update_keyframes(&key, &mut self.action_world, id, keyframes) {
            Ok(()) => Ok(()),
            Err(error) => {
                assert(self@ =~= before);
                Err(RemoteEditError::from(error))
            },
        }
    }

    /// Remove an action from `track_index` at runtime.
    pub fn remove_action(&mut self, track_index: usize, id: ActionId) -> (result: Result<
        (),
        RemoteEditError,
    >)
        ensures
            match result {
                Ok(()) => removable(old(self)@, track_index, id) && action_removed(
                    old(self)@,
                    final(self)@,
                    W::tag(),
                    track_index as int,
                    id,
                ),
                Err(error) => {
                    &&& !removable(old(self)@, track_index, id)
                    &&& error == if track_index >= old(self)@.tracks.len() {
                        RemoteEditError::TrackOutOfRange
                    } else {
                        RemoteEditError::NotFound
                    }
                    &&& final(self)@ == old(self)@
                },
            },
            old(self)@.playable() ==> final(self)@.playable(),
    {
        let ghost before = self@;
        if track_index >= self.tracks.len() {
            return Err(RemoteEditError::TrackOutOfRange);
        }
        let action_key = match self.action_world.action_key(id) {
            Some(action_key) => action_key,
            None => {
                return Err(RemoteEditError::NotFound);
            },
        };
        let mut fragment = self.tracks[track_index].to_fragment();
        if !fragment.remove_clip(&action_key, id) {
            return Err(RemoteEditError::NotFound);
        }
        self.tracks.set(track_index, fragment.compile());
        // Drop the action entity and decrement the pipeline count.
        match self.action_world.remove(id) {
            Some(removed_key) => {
                self.decrement_pipeline(PipelineKey::from_action_key::<W>(removed_key));
            },
            None => {},
        }
        proof {
            assert(self@.actions =~= (ActionModel {
                actions: before.actions.actions.remove(id),
                subjects: self@.actions.subjects,
                known: before.actions.known,
                baselines: before.actions.baselines,
            }));
            assert(self@ =~= (TimelineModel {
                actions: self@.actions,
                counts: self@.counts,
                tracks: before.tracks.update(
                    track_index as int,
                    self@.tracks[track_index as int],
                ),
                ..before
            }));
        }
        Ok(())
    }

    /// Move an existing action to a new start time
    /// (and an optional new duration) on `track_index`, in place.
    pub fn reschedule_action(
        &mut self,
        track_index: usize,
        id: ActionId,
        new_start: Ticks,
        new_duration: Option<Ticks>,
    ) -> (result: Result<(), RemoteEditError>)
        ensures
            match result {
                Ok(()) => track_index < old(self)@.tracks.len() && action_rescheduled(
                    old(self)@,
                    final(self)@,
                    track_index as int,
                    id,
                    new_start,
                    new_duration,
                ),
                Err(error) => {
                    &&& final(self)@ == old(self)@
                    &&& if track_index >= old(self)@.tracks.len() {
                        error == RemoteEditError::TrackOutOfRange
                    } else {
                        reschedule_outcome(
                            old(self)@.tracks[track_index as int].lanes(),
                            old(self)@.tracks[track_index as int].lanes(),
                            id,
                            new_start,
                            new_duration,
                            Err(error),
                        )
                    }
                },
            },
            old(self)@.playable() ==> final(self)@.playable(),
    {
        let ghost before = self@;
        if track_index >= self.tracks.len() {
            return Err(RemoteEditError::TrackOutOfRange);
        }
        let mut fragment = self.tracks[track_index].to_fragment();
        match fragment.reschedule_clip(id, new_start, new_duration) {
            Ok(()) => {},
            Err(error) => {
                return Err(error);
            },
        }
        self.tracks.set(track_index, fragment.compile());
        assert(self@ =~= (TimelineModel {
            tracks: before.tracks.update(track_index as int, self@.tracks[track_index as int]),
            ..before
        }));
        Ok(())
    }

    /// Replace the target value of an existing action in place.
    pub fn update_action(
        &mut self,
        id: ActionId,
        remote: &RemoteActionRegistry,
        target: RemoteTarget,
    ) -> (result: Result<(), RemoteEditError>)
        ensures
            result == update_action_result(old(self)@, W::tag(), remote@, id, target),
            result is Ok ==> final(self)@ == (TimelineModel {
                actions: retargeted(old(self)@.actions, id, target.end),
                ..old(self)@
            }),
            result is Err ==> final(self)@ == old(self)@,
            old(self)@.playable() ==> final(self)@.playable(),
    {
        let ghost before = self@;
        let action_key = match self.action_world.action_key(id) {
            Some(action_key) => action_key,
            None => {
                return Err(RemoteEditError::NotFound);
            },
        };
        let key = PipelineKey::from_action_key::<W>(action_key);
        match remote.update(&key, &mut self.action_world, id, target) {
            Ok(()) => Ok(()),
            Err(error) => {
                assert(self@ =~= before);
                Err(RemoteEditError::from(error))
            },
        }
    }

    /// Set, replace or clear the easing of an existing action.
    pub fn set_action_ease(&mut self, id: ActionId, ease: Option<Ease>) -> (result: Result<
        (),
        RemoteEditError,
    >)
        ensures
            result == found_or_not(old(self)@, id),
            result is Ok ==> final(self)@ == (TimelineModel {
                actions: old(self)@.actions.with_record(
                    id,
                    ActionRecord { ease, ..old(self)@.actions.actions[id] },
                ),
                ..old(self)@
            }),
            result is Err ==> final(self)@ == old(self)@,
            old(self)@.playable() ==> final(self)@.playable(),
    {
        if self.action_world.set_ease(id, ease) {
            Ok(())
        } else {
            Err(RemoteEditError::NotFound)
        }
    }

    /// Enable or disable an action in place.
    pub fn set_action_enabled(&mut self, id: ActionId, enabled: bool) -> (result: Result<
        (),
        RemoteEditError,
    >)
        ensures
            result == found_or_not(old(self)@, id),
            result is Ok ==> final(self)@ == (TimelineModel {
                actions: old(self)@.actions.with_record(
                    id,
                    ActionRecord { disabled: !enabled, ..old(self)@.actions.actions[id] },
                ),
                ..old(self)@
            }),
            result is Err ==> final(self)@ == old(self)@,
            old(self)@.playable() ==> final(self)@.playable(),
    {
        if self.action_world.set_disabled(id, !enabled) {
            Ok(())
        } else {
            Err(RemoteEditError::NotFound)
        }
    }

    /// Whether an action is enabled. `None` if no action with
    /// `id` exists.
    pub fn is_action_enabled(&self, id: ActionId) -> (enabled: Option<bool>)
        ensures
            enabled == (if self@.actions.has(id) {
                Some(!self@.actions.actions[id].disabled)
            } else {
                None
            }),
    {
        match self.action_world.record(id) {
            Some(record) => Some(!record.disabled),
            None => None,
        }
    }

    /// Grow the timeline to at least `count` tracks by appending
    /// empty tracks.
    pub fn ensure_track_count(&mut self, count: usize)
        ensures
            final(self)@ == (TimelineModel { tracks: final(self)@.tracks, ..old(self)@ }),
            grown_to(old(self)@.tracks, final(self)@.tracks, count),
            old(self)@.playable() ==> final(self)@.playable(),
    {
        let ghost before = self@;
        while self.tracks.len() < count
            invariant
                self@ == (TimelineModel { tracks: self@.tracks, ..before }),
                before.tracks.len() <= self@.tracks.len(),
                self@.tracks.take(before.tracks.len() as int) =~= before.tracks,
                self@.tracks.len() <= count || self@.tracks == before.tracks,
                forall|i: int|
                    before.tracks.len() <= i < self@.tracks.len() ==> is_empty_track(
                        #[trigger] self@.tracks[i],
                    ),
            decreases count - self@.tracks.len(),
        {
            let ghost shorter = self@.tracks;
            self.tracks.push(TrackFragment::new().compile());
            assert(self@.tracks.take(before.tracks.len() as int) =~= shorter.take(
                before.tracks.len() as int,
            ));
        }
    }

    /// Remove every single action and reset the timeline to a single
    /// empty track.
    pub fn clear_actions(&mut self)
        ensures
            is_cleared(final(self)@),
            old(self)@.playable() ==> final(self)@.playable(),
    {
        self.action_world = ActionWorld::new();
        self.pipeline_counts = Table::new();
        let mut tracks: Vec<Track> = Vec::new();
        tracks.push(TrackFragment::new().compile());
        self.tracks = tracks;
        self.queue_cache.clear();
        self.curr_time = 0;
        self.target_time = 0;
        self.curr_index = 0;
        self.target_index = 0;
    }
}

/// `NotFound` where no action with the id exists.
pub open spec fn found_or_not(model: TimelineModel, id: ActionId) -> Result<(), RemoteEditError> {
    if model.actions.has(id) {
        Ok(())
    } else {
        Err(RemoteEditError::NotFound)
    }
}

/// What giving an action another target comes to.
pub open spec fn update_action_result(
    model: TimelineModel,
    world: u64,
    remote: Map<PipelineKey, crate::action::InterpFn>,
    id: ActionId,
    target: RemoteTarget,
) -> Result<(), RemoteEditError> {
    if !model.actions.has(id) {
        Err(RemoteEditError::NotFound)
    } else {
        match update_result(
            remote,
            PipelineKey::of_action_key(world, model.actions.actions[id].key),
            model.actions,
            id,
            target,
        ) {
            Ok(()) => Ok(()),
            Err(error) => Err(RemoteEditError::Action(error)),
        }
    }
}

/// Why the keyframes of an action cannot be replaced, if they cannot.
pub open spec fn keyframes_update_fault(
    model: TimelineModel,
    world: u64,
    remote: Map<PipelineKey, crate::action::InterpFn>,
    id: ActionId,
    keyframes: Seq<RemoteKeyframe>,
) -> Option<RemoteEditError> {
    let key = PipelineKey::of_action_key(world, model.actions.actions[id].key);
    if !model.actions.has(id) {
        Some(RemoteEditError::NotFound)
    } else if !remote.contains_key(key) {
        Some(RemoteEditError::Action(RemoteActionError::Unregistered))
    } else if !is_keyframed(model.actions, id, key.target_id) {
        Some(RemoteEditError::Action(RemoteActionError::TypeMismatch))
    } else {
        match keyframes_fault(keyframes, key.target_id) {
            Some(error) => Some(RemoteEditError::Action(error)),
            None => None,
        }
    }
}

/// Whether there are at least `count` tracks, the old ones in front and as
/// few empty ones behind them as needed.
pub open spec fn grown_to(before: Seq<Track>, after: Seq<Track>, count: usize) -> bool {
    &&& after.len() == if before.len() >= count {
        before.len()
    } else {
        count as nat
    }
    &&& after.take(before.len() as int) == before
    &&& forall|i: int|
        before.len() <= i < after.len() ==> is_empty_track(#[trigger] after[i])
}

} // verus!
