//! That a timeline is shown as it is.
use crate::action::{ActionClip, ActionKey};
use crate::bevy_motiongfx::manager::TimelineId;
use crate::bevy_motiongfx::remote::batch::insert::entity_of;
use crate::bevy_motiongfx::remote::edit::entity_is;
use crate::bevy_motiongfx::remote::host::{encodes, RemoteHost};
use crate::bevy_motiongfx::remote::inspect::{
    inspected, sequence_shown, track_shown, InspectResult, SequenceInfo,
};
use crate::bevy_motiongfx::remote::studio::StudioModel;
use vstd::prelude::*;

verus! {

/// Whether the clips of a field of a subject are shown as they are, each at its place:
/// where it starts, how long it is, what it is called, what colour it has, and whether it
/// is muted.
pub open spec fn shown_as_is<H: RemoteHost>(
    host: &H,
    studio: StudioModel,
    id: TimelineId,
    key: ActionKey,
    clips: Seq<ActionClip>,
    info: SequenceInfo,
) -> bool {
    let actions = studio.timelines[id].actions;
    &&& info.clips@.len() == clips.len()
    &&& info.entity == entity_of(actions, key)
    &&& info.entity is Some ==> entity_is(host, info.entity->0, info.dangling is None)
    &&& info.entity is None ==> info.dangling is None
    &&& studio.catalog.entry_of(key.field) is Some ==> info.component == Some(
        studio.catalog.entry_of(key.field)->0.component,
    ) && info.field == Some(studio.catalog.entry_of(key.field)->0.field_name)
    &&& forall|i: int|
        0 <= i < clips.len() ==> {
            let clip = clips[i];
            let shown = #[trigger] info.clips@[i];
            &&& shown.action_id == clip.id.bits
            &&& shown.start == clip.start
            &&& shown.duration == clip.duration
            &&& shown.label == studio.edits_of(id).meta_of(clip.id.bits).label
            &&& shown.color == studio.edits_of(id).meta_of(clip.id.bits).color
            &&& actions.has(clip.id) ==> (shown.enabled == Some(false)
                <==> actions.actions[clip.id].disabled)
            &&& actions.has(clip.id) ==> (shown.ease is Some <==> actions.actions[clip.id].ease is Some)
        }
}

/// Inspecting a timeline shows all of its tracks, and every clip of each in the lane of its
/// field and subject; where the playhead is, and the version.
pub proof fn every_clip_is_shown<H: RemoteHost>(
    host: &H,
    studio: StudioModel,
    id: TimelineId,
    values: bool,
    shown: InspectResult,
    t: int,
    key: ActionKey,
)
    requires
        inspected(host, studio, id, values, Ok(shown)),
        0 <= t < studio.timelines[id].tracks.len(),
        studio.timelines[id].tracks[t].laid_out(),
        studio.timelines[id].tracks[t].lanes().contains_key(key),
    ensures
        shown.tracks@.len() == studio.timelines[id].tracks.len(),
        shown.tracks@[t].index == t,
        shown.tracks@[t].duration == studio.timelines[id].tracks[t].duration(),
        shown.curr_time == studio.timelines[id].curr_time,
        shown.curr_track == studio.timelines[id].curr_index,
        shown.version == studio.edits_of(id).version,
        exists|s: int|
            0 <= s < shown.tracks@[t].sequences@.len() && shown_as_is(
                host,
                studio,
                id,
                key,
                studio.timelines[id].tracks[t].lanes()[key],
                #[trigger] shown.tracks@[t].sequences@[s],
            ),
{
    let track = studio.timelines[id].tracks[t];
    let s = choose|s: int| 0 <= s < track.spans().len() && (#[trigger] track.spans()[s]).0 == key;
    track.lane_at(s);
    let info = shown.tracks@[t];
    assert(track_shown(host, studio, id, t, values, info));
    assert(sequence_shown(
        host,
        studio,
        id,
        track.spans()[s].0,
        track.clips_in(track.spans()[s].1),
        values,
        info.sequences@[s],
    ));
    assert(shown_as_is(host, studio, id, key, track.lanes()[key], info.sequences@[s]));
}

/// The values that are shown of a clip are those that it was baked with: it starts at the
/// one and ends at the other. They are not shown unless asked for.
pub proof fn shown_values_are_baked<H: RemoteHost>(
    host: &H,
    studio: StudioModel,
    id: TimelineId,
    key: ActionKey,
    clips: Seq<ActionClip>,
    values: bool,
    info: SequenceInfo,
    i: int,
)
    requires
        sequence_shown(host, studio, id, key, clips, values, info),
        0 <= i < clips.len(),
    ensures
        ({
            let shown = info.clips@[i];
            let actions = studio.timelines[id].actions;
            let action = clips[i].id;
            &&& !values ==> shown.start_value is None && shown.end_value is None
                && shown.keyframes is None
            &&& shown.start_value is Some ==> {
                &&& actions.has(action)
                &&& actions.actions[action].segment is Some
                &&& encodes(host, actions.actions[action].segment->0.start, shown.start_value)
                &&& shown.end_value is Some
                &&& encodes(host, actions.actions[action].segment->0.end, shown.end_value)
            }
            &&& shown.keyframes is Some ==> {
                &&& actions.has(action)
                &&& actions.actions[action].keyframes is Some
                &&& shown.keyframes->0@.len() == actions.actions[action].keyframes->0@.len()
            }
        }),
{
    assert(info.clips@[i] == info.clips@[i]);
}

} // verus!
