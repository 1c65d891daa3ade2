//! What edits of a timeline keep, and what they undo.
use crate::action::subjects::used_are_known;
use crate::action::world::ActionModel;
use crate::action::{ActionClip, ActionId, ActionRecord, Ease, InterpFn};
use crate::pipeline::PipelineKey;
use crate::remote::{RemoteFieldKey, RemoteKeyframe, RemoteTarget};
use crate::subject::Subject;
use crate::time::Ticks;
use crate::timeline::edit::{
    action_removed, action_rescheduled, bumped, clip_appended, constant_inserted, decremented,
    keyframes_inserted, removable, track_replaced,
};
use crate::timeline::TimelineModel;
use crate::track::laws::{
    appending_keeps_apart, removing_keeps_apart, removing_undoes_appending,
    rescheduling_keeps_apart,
};
use crate::track::{has_clip, lane, lanes_apart};
use vstd::prelude::*;

verus! {

/// Whether no track holds clips of one key that overlap or run backwards.
pub open spec fn clips_apart(model: TimelineModel) -> bool {
    forall|i: int| 0 <= i < model.tracks.len() ==> lanes_apart((#[trigger] model.tracks[i]).lanes())
}

/// A track in place of another one, whose clips are apart, keeps the clips of
/// all tracks apart.
proof fn replacing_keeps_apart(before: TimelineModel, after: TimelineModel, index: int)
    requires
        clips_apart(before),
        track_replaced(before, after, index),
        0 <= index < before.tracks.len(),
        lanes_apart(after.tracks[index].lanes()),
    ensures
        clips_apart(after),
{
    assert forall|i: int| 0 <= i < after.tracks.len() implies lanes_apart(
        (#[trigger] after.tracks[i]).lanes(),
    ) by {
        if i != index {
            assert(after.tracks[i] == before.tracks[i]);
        }
    }
}

/// A clip of a new action does not overlap the clips that are there.
pub proof fn inserting_keeps_apart(
    before: TimelineModel,
    after: TimelineModel,
    index: int,
    id: ActionId,
    duration: Ticks,
    start_at: Ticks,
)
    requires
        clips_apart(before),
        0 <= index < before.tracks.len(),
        duration >= 0,
        track_replaced(before, after, index),
        clip_appended(before, after, index, id, duration, start_at),
    ensures
        clips_apart(after),
{
    let key = after.actions.actions[id].key;
    let lanes = before.tracks[index].lanes();
    let start = crate::track::append_start(lanes, key, start_at);
    appending_keeps_apart(lanes, key, ActionClip { id, start, duration }, start_at);
    replacing_keeps_apart(before, after, index);
}

/// Removing an action keeps the clips that are left apart.
pub proof fn removing_action_keeps_apart(
    before: TimelineModel,
    after: TimelineModel,
    world: u64,
    index: int,
    id: ActionId,
)
    requires
        clips_apart(before),
        0 <= index < before.tracks.len(),
        has_clip(lane(before.tracks[index].lanes(), before.actions.actions[id].key), id),
        action_removed(before, after, world, index, id),
    ensures
        clips_apart(after),
{
    let key = before.actions.actions[id].key;
    let lanes = before.tracks[index].lanes();
    assert(lanes.contains_key(key)) by {
        if !lanes.contains_key(key) {
            assert(lane(lanes, key).len() == 0);
        }
    }
    removing_keeps_apart(lanes, key, id);
    replacing_keeps_apart(before, after, index);
}

/// Giving an action another time keeps the clips apart.
pub proof fn rescheduling_action_keeps_apart(
    before: TimelineModel,
    after: TimelineModel,
    index: int,
    id: ActionId,
    start: Ticks,
    duration: Option<Ticks>,
)
    requires
        clips_apart(before),
        0 <= index < before.tracks.len(),
        action_rescheduled(before, after, index, id, start, duration),
    ensures
        clips_apart(after),
{
    rescheduling_keeps_apart(
        before.tracks[index].lanes(),
        after.tracks[index].lanes(),
        id,
        start,
        duration,
        Ok(()),
    );
    replacing_keeps_apart(before, after, index);
}

/// Counting one action less undoes counting one more.
pub proof fn counting_is_undone(counts: Map<PipelineKey, u32>, key: PipelineKey)
    requires
        counts.contains_key(key) ==> 1 <= counts[key] < u32::MAX,
    ensures
        decremented(bumped(counts, key), key) == counts,
{
    assert(decremented(bumped(counts, key), key) =~= counts);
}

/// Whether one more action of a key can be counted: no count is at its limit,
/// and the subjects that have actions are known.
pub open spec fn countable(
    before: TimelineModel,
    after: TimelineModel,
    pipeline: PipelineKey,
    id: ActionId,
) -> bool {
    let key = after.actions.actions[id].key;
    let slot = (key.subject_id.type_id, key.subject_id.uid);
    &&& before.counts.contains_key(pipeline) ==> 1 <= before.counts[pipeline] < u32::MAX
    &&& used_are_known(before.actions.subjects, before.actions.known)
    &&& before.actions.subjects.contains_key(slot) ==> 1
        <= before.actions.subjects[slot].instances < u32::MAX
}

/// Whether two timelines hold the same but for the duration of a track and for
/// the subjects that are remembered.
pub open spec fn same_content(before: TimelineModel, after: TimelineModel, index: int) -> bool {
    &&& after.actions == (ActionModel { known: after.actions.known, ..before.actions })
    &&& after.counts == before.counts
    &&& track_replaced(before, after, index)
    &&& after.tracks[index].lanes() == before.tracks[index].lanes()
}

/// Removing an action that was just inserted takes it back: the actions, the
/// subjects, the counts and the clips are what they were, and the action cannot be
/// removed again.
pub proof fn removing_undoes_inserting(
    before: TimelineModel,
    between: TimelineModel,
    after: TimelineModel,
    world: u64,
    index: int,
    remote: Map<PipelineKey, InterpFn>,
    key: RemoteFieldKey,
    subject: Subject,
    target: RemoteTarget,
    duration: Ticks,
    start_at: Ticks,
    ease: Option<Ease>,
    id: ActionId,
)
    requires
        0 <= index < before.tracks.len(),
        constant_inserted(
            before,
            between,
            index,
            remote,
            key,
            subject,
            target,
            duration,
            start_at,
            ease,
            id,
        ),
        action_removed(between, after, world, index, id),
        key.pipeline == PipelineKey::of_action_key(world, between.actions.actions[id].key),
        countable(before, between, key.pipeline, id),
        takes_clip(before, between, index, id),
    ensures
        same_content(before, after, index),
        !after.actions.has(id),
        forall|track: usize| !#[trigger] removable(after, track, id),
{
    undone(before, between, after, world, index, subject, duration, start_at, id, key);
}

/// Removing a keyframed action that was just inserted takes it back as well.
pub proof fn removing_undoes_inserting_keyframes(
    before: TimelineModel,
    between: TimelineModel,
    after: TimelineModel,
    world: u64,
    index: int,
    remote: Map<PipelineKey, InterpFn>,
    key: RemoteFieldKey,
    subject: Subject,
    keyframes: Seq<RemoteKeyframe>,
    duration: Ticks,
    start_at: Ticks,
    ease: Option<Ease>,
    id: ActionId,
)
    requires
        0 <= index < before.tracks.len(),
        keyframes_inserted(
            before,
            between,
            index,
            remote,
            key,
            subject,
            keyframes,
            duration,
            start_at,
            ease,
            id,
        ),
        action_removed(between, after, world, index, id),
        key.pipeline == PipelineKey::of_action_key(world, between.actions.actions[id].key),
        countable(before, between, key.pipeline, id),
        takes_clip(before, between, index, id),
    ensures
        same_content(before, after, index),
        !after.actions.has(id),
        forall|track: usize| !#[trigger] removable(after, track, id),
{
    undone(before, between, after, world, index, subject, duration, start_at, id, key);
}

/// Whether a track can take a clip of the new action: its lanes hold clips,
/// and none of the action.
pub open spec fn takes_clip(
    before: TimelineModel,
    after: TimelineModel,
    index: int,
    id: ActionId,
) -> bool {
    let key = after.actions.actions[id].key;
    let lanes = before.tracks[index].lanes();
    &&& lanes.contains_key(key) ==> lanes[key].len() > 0
    &&& !has_clip(lane(lanes, key), id)
}

proof fn undone(
    before: TimelineModel,
    between: TimelineModel,
    after: TimelineModel,
    world: u64,
    index: int,
    subject: Subject,
    duration: Ticks,
    start_at: Ticks,
    id: ActionId,
    key: RemoteFieldKey,
)
    requires
        0 <= index < before.tracks.len(),
        crate::remote::action_added(before.actions, between.actions, id, subject, key.field),
        between.counts == bumped(before.counts, key.pipeline),
        track_replaced(before, between, index),
        clip_appended(before, between, index, id, duration, start_at),
        action_removed(between, after, world, index, id),
        key.pipeline == PipelineKey::of_action_key(world, between.actions.actions[id].key),
        countable(before, between, key.pipeline, id),
        takes_clip(before, between, index, id),
    ensures
        same_content(before, after, index),
{
    let record = between.actions.actions[id];
    let lanes = before.tracks[index].lanes();
    let start = crate::track::append_start(lanes, record.key, start_at);
    removing_undoes_appending(lanes, record.key, ActionClip { id, start, duration }, start_at);
    counting_is_undone(before.counts, key.pipeline);
    assert(after.actions.actions =~= before.actions.actions);
    let slot = (record.key.subject_id.type_id, record.key.subject_id.uid);
    assert(slot == (subject.type_id, record.key.subject_id.uid));
    if before.actions.subjects.contains_key(slot) {
        assert(before.actions.known.contains_key(slot));
    }
    assert(after.actions.subjects =~= before.actions.subjects);
    assert(after.actions =~= (ActionModel { known: after.actions.known, ..before.actions }));
    assert(after.tracks =~= before.tracks.update(index, after.tracks[index]));
}

/// Muting an action and enabling it again leaves the timeline as it was, if
/// the action was enabled.
pub proof fn muting_is_undone(model: TimelineModel, id: ActionId)
    requires
        model.actions.has(id),
        !model.actions.actions[id].disabled,
    ensures
        ({
            let muted = ActionRecord { disabled: true, ..model.actions.actions[id] };
            model.actions.with_record(id, muted).with_record(
                id,
                ActionRecord { disabled: false, ..muted },
            ) == model.actions
        }),
{
    let muted = ActionRecord { disabled: true, ..model.actions.actions[id] };
    assert(model.actions.with_record(id, muted).with_record(
        id,
        ActionRecord { disabled: false, ..muted },
    ) =~= model.actions);
}

} // verus!
