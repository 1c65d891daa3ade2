//! Requests that edit a timeline.
use crate::action::{ActionClip, ActionKey, ActionWorld};
use crate::bevy_motiongfx::manager::TimelineId;
use crate::bevy_motiongfx::remote::batch::apply::{
    apply_op, content_stays_seekable, edit_finished, edits_change_content_only, finish_edit,
    growing_stays_seekable, op_applied, single_applied, single_edit, stays_seekable,
};
use crate::bevy_motiongfx::remote::batch::insert::{entity_of, subject_entity, Applied};
use crate::bevy_motiongfx::remote::batch::op::{
    Color, Delta, EditOp, KeyframeDoc, OpResult, Placement, UpdatePatch,
};
use crate::bevy_motiongfx::remote::batch::run::{
    all_tried, applied_until, apply_all, reverse_ops, try_all,
};
use crate::bevy_motiongfx::remote::batch::snapshot::{
    all_snapshotted, ops_view, snapshot_all_clips,
};
use crate::bevy_motiongfx::remote::batch::value::{is_smoothed, smooth_keyframes, smooth_view};
use crate::bevy_motiongfx::remote::ease::EaseParam;
use crate::bevy_motiongfx::remote::fault::{Fault, OpFault};
use crate::bevy_motiongfx::remote::host::RemoteHost;
use crate::bevy_motiongfx::remote::json::Json;
use crate::bevy_motiongfx::remote::names::{entity_resolved, resolve_subject_entity};
use crate::bevy_motiongfx::remote::persist::export::snapshots_change_content_only;
use crate::bevy_motiongfx::remote::state::events::{next_number, EventKind};
use crate::bevy_motiongfx::remote::state::EditsModel;
use crate::bevy_motiongfx::remote::studio::{Studio, StudioModel};
use crate::bevy_motiongfx::world::BevyTimeline;
use crate::seqs::take_one_more;
use crate::time::Ticks;
use crate::timeline::edit::grown_to;
use crate::timeline::TimelineModel;
use crate::track::Track;
use std::sync::Arc;
use vstd::prelude::*;

verus! {

/// A request to insert a constant clip.
#[derive(Debug)]
pub struct InsertParams {
    pub id: u64,
    /// Track index within the timeline.
    pub track: usize,
    /// Target entity (raw bits).
    pub entity: Option<u64>,
    /// Target entity by its unique name.
    pub entity_name: Option<String>,
    /// Fully-qualified component type path.
    pub component: String,
    /// Reflection field path within the component.
    pub field: String,
    /// The type path of the handle-bearing component.
    pub asset_of: Option<String>,
    /// Target value the field should animate to.
    pub to: Json,
    /// Relative target: animate to `base + to_relative`.
    pub to_relative: Option<Delta>,
    pub duration: Ticks,
    /// Optional earliest start time.
    pub start_at: Option<Ticks>,
    pub ease: Option<EaseParam>,
    pub label: Option<String>,
    pub color: Option<Color>,
    pub enabled: Option<bool>,
}

/// A request to insert a keyframed clip.
#[derive(Debug)]
pub struct InsertKeyframesParams {
    pub id: u64,
    pub track: usize,
    pub entity: Option<u64>,
    pub entity_name: Option<String>,
    pub component: String,
    pub field: String,
    pub asset_of: Option<String>,
    pub keyframes: Vec<KeyframeDoc>,
    pub duration: Ticks,
    pub start_at: Option<Ticks>,
    pub ease: Option<EaseParam>,
    pub smooth: Option<bool>,
    pub label: Option<String>,
    pub color: Option<Color>,
    pub enabled: Option<bool>,
}

/// A request to change a clip in place.
#[derive(Debug)]
pub struct UpdateParams {
    pub id: u64,
    pub action_id: u64,
    pub to: Option<Json>,
    pub to_relative: Option<Delta>,
    pub ease: Option<EaseParam>,
    pub keyframes: Option<Vec<KeyframeDoc>>,
    /// With `keyframes`: auto-tangent the segment eases.
    pub smooth: Option<bool>,
    pub label: Option<Option<String>>,
    pub color: Option<Option<Color>>,
    pub enabled: Option<bool>,
}

/// What a successful request came to, and the new version.
pub type Edited = Result<(OpResult, u64), Fault>;

/// Whether the subject of an insert was found so. A resource has no entity.
pub open spec fn insert_entity<H: RemoteHost>(
    host: &H,
    studio: StudioModel,
    component: Seq<char>,
    field: Seq<char>,
    entity: Option<u64>,
    entity_name: Option<String>,
    result: Result<u64, Fault>,
) -> bool {
    if studio.catalog.is_resource(component, field) {
        result == Ok::<u64, Fault>(0)
    } else {
        entity_resolved(host, entity, entity_name, result)
    }
}

/// The subject of an insert.
fn find_insert_entity<H: RemoteHost>(
    host: &H,
    studio: &Studio,
    component: &String,
    field: &String,
    entity: Option<u64>,
    entity_name: &Option<String>,
) -> (result: Result<u64, Fault>)
    ensures
        insert_entity(host, studio@, component@, field@, entity, *entity_name, result),
{
    if studio.catalog.is_resource_field(component.as_str(), field.as_str()) {
        Ok(0)
    } else {
        resolve_subject_entity(host, entity, entity_name)
    }
}

/// Whether the edit is what a request to insert a constant clip asks for.
pub open spec fn is_insert_op(p: InsertParams, entity: u64, op: EditOp) -> bool {
    &&& op matches EditOp::Insert { at, to, to_relative, exact, restore_id }
    &&& *at == (Placement {
        track: p.track,
        entity,
        component: p.component,
        field: p.field,
        asset_of: p.asset_of,
        duration: p.duration,
        start_at: p.start_at,
        ease: p.ease,
        label: p.label,
        color: p.color,
        enabled: p.enabled,
    })
    &&& *to == p.to
    &&& to_relative == p.to_relative
    &&& !exact
    &&& restore_id is None
}

/// Whether a request to insert a constant clip had that outcome, by way of
/// its subject and the edit.
pub open spec fn insert_requested<H: RemoteHost>(
    host: &H,
    p: InsertParams,
    before: StudioModel,
    entity: Result<u64, Fault>,
    op: EditOp,
    after: StudioModel,
    result: Edited,
) -> bool {
    &&& insert_entity(host, before, p.component@, p.field@, p.entity, p.entity_name, entity)
    &&& match entity {
        Err(fault) => result == Err::<(OpResult, u64), Fault>(fault) && after == before,
        Ok(entity) => is_insert_op(p, entity, op) && single_applied(
            host,
            TimelineId { raw: p.id },
            op,
            before,
            after,
            result,
        ),
    }
}

/// Whether a request to insert a constant clip had that outcome.
pub open spec fn insert_answered<H: RemoteHost>(
    host: &H,
    p: InsertParams,
    before: StudioModel,
    after: StudioModel,
    result: Edited,
) -> bool {
    exists|entity: Result<u64, Fault>, op: EditOp| #[trigger]
        insert_requested(host, p, before, entity, op, after, result)
}

/// Inserts a constant clip.
pub fn timeline_insert_action<H: RemoteHost>(host: &H, studio: &mut Studio, p: InsertParams) -> (result:
    Edited)
    ensures
        insert_answered(host, p, old(studio)@, final(studio)@, result),
        stays_seekable(old(studio)@, final(studio)@),
{
    let ghost before = studio@;
    let ghost given = p;
    let found = find_insert_entity(
        host,
        studio,
        &p.component,
        &p.field,
        p.entity,
        &p.entity_name,
    );
    let ghost subject = found;
    let entity = match found {
        Ok(entity) => entity,
        Err(fault) => {
            assert(insert_requested(
                host,
                given,
                before,
                subject,
                EditOp::Clear,
                studio@,
                Err(fault),
            ));
            return Err(fault);
        },
    };
    let id = TimelineId::from_raw(p.id);
    let op = EditOp::Insert {
        at: Arc::new(
            Placement {
                track: p.track,
                entity,
                component: p.component,
                field: p.field,
                asset_of: p.asset_of,
                duration: p.duration,
                start_at: p.start_at,
                ease: p.ease,
                label: p.label,
                color: p.color,
                enabled: p.enabled,
            },
        ),
        to: Arc::new(p.to),
        to_relative: p.to_relative,
        exact: false,
        restore_id: None,
    };
    let ghost asked = op;
    let result = single_edit(host, studio, id, op);
    assert(insert_requested(host, given, before, subject, asked, studio@, result));
    result
}

/// Whether the keyframes of a request were smoothed so, if they are to be.
pub open spec fn maybe_smoothed<H: RemoteHost>(
    host: &H,
    docs: Seq<KeyframeDoc>,
    smooth: Option<bool>,
    result: Result<Seq<KeyframeDoc>, Fault>,
) -> bool {
    if smooth == Some(true) {
        is_smoothed(host, docs, result)
    } else {
        result == Ok::<Seq<KeyframeDoc>, Fault>(docs)
    }
}

/// Smooths the keyframes of a request, if they are to be.
fn maybe_smooth<H: RemoteHost>(host: &H, docs: Vec<KeyframeDoc>, smooth: Option<bool>) -> (result:
    Result<Vec<KeyframeDoc>, Fault>)
    ensures
        maybe_smoothed(host, docs@, smooth, smooth_view(result)),
{
    let on = match smooth {
        Some(on) => on,
        None => false,
    };
    if on {
        smooth_keyframes(host, docs)
    } else {
        Ok(docs)
    }
}

/// Whether the edit is what a request to insert a keyframed clip asks for.
pub open spec fn is_keyframes_op(
    p: InsertKeyframesParams,
    entity: u64,
    docs: Seq<KeyframeDoc>,
    op: EditOp,
) -> bool {
    &&& op matches EditOp::InsertKeyframes { at, keyframes, exact, restore_id }
    &&& *at == (Placement {
        track: p.track,
        entity,
        component: p.component,
        field: p.field,
        asset_of: p.asset_of,
        duration: p.duration,
        start_at: p.start_at,
        ease: p.ease,
        label: p.label,
        color: p.color,
        enabled: p.enabled,
    })
    &&& keyframes@ == docs
    &&& !exact
    &&& restore_id is None
}

/// Whether a request to insert a keyframed clip had that outcome, by way of
/// its subject, its keyframes and the edit.
pub open spec fn keyframes_requested<H: RemoteHost>(
    host: &H,
    p: InsertKeyframesParams,
    before: StudioModel,
    entity: Result<u64, Fault>,
    smoothed: Result<Seq<KeyframeDoc>, Fault>,
    op: EditOp,
    after: StudioModel,
    result: Edited,
) -> bool {
    &&& insert_entity(host, before, p.component@, p.field@, p.entity, p.entity_name, entity)
    &&& match entity {
        Err(fault) => result == Err::<(OpResult, u64), Fault>(fault) && after == before,
        Ok(entity) => {
            &&& maybe_smoothed(host, p.keyframes@, p.smooth, smoothed)
            &&& match smoothed {
                Err(fault) => result == Err::<(OpResult, u64), Fault>(fault) && after == before,
                Ok(docs) => is_keyframes_op(p, entity, docs, op) && single_applied(
                    host,
                    TimelineId { raw: p.id },
                    op,
                    before,
                    after,
                    result,
                ),
            }
        },
    }
}

/// Whether a request to insert a keyframed clip had that outcome.
pub open spec fn keyframes_answered<H: RemoteHost>(
    host: &H,
    p: InsertKeyframesParams,
    before: StudioModel,
    after: StudioModel,
    result: Edited,
) -> bool {
    exists|
        entity: Result<u64, Fault>,
        smoothed: Result<Seq<KeyframeDoc>, Fault>,
        op: EditOp,
    | #[trigger]
        keyframes_requested(host, p, before, entity, smoothed, op, after, result)
}

/// Inserts a keyframed clip.
pub fn timeline_insert_keyframes<H: RemoteHost>(
    host: &H,
    studio: &mut Studio,
    p: InsertKeyframesParams,
) -> (result: Edited)
    ensures
        keyframes_answered(host, p, old(studio)@, final(studio)@, result),
        stays_seekable(old(studio)@, final(studio)@),
{
    let ghost before = studio@;
    let ghost given = p;
    let ghost no_docs: Result<Seq<KeyframeDoc>, Fault> = Err(Fault::NoManager);
    let found = find_insert_entity(
        host,
        studio,
        &p.component,
        &p.field,
        p.entity,
        &p.entity_name,
    );
    let ghost subject = found;
    let entity = match found {
        Ok(entity) => entity,
        Err(fault) => {
            assert(keyframes_requested(
                host,
                given,
                before,
                subject,
                no_docs,
                EditOp::Clear,
                studio@,
                Err(fault),
            ));
            return Err(fault);
        },
    };
    let smoothed = maybe_smooth(host, p.keyframes, p.smooth);
    let ghost smoothed_docs = smooth_view(smoothed);
    let docs = match smoothed {
        Ok(docs) => docs,
        Err(fault) => {
            assert(keyframes_requested(
                host,
                given,
                before,
                subject,
                smoothed_docs,
                EditOp::Clear,
                studio@,
                Err(fault),
            ));
            return Err(fault);
        },
    };
    let id = TimelineId::from_raw(p.id);
    let op = EditOp::InsertKeyframes {
        at: Arc::new(
            Placement {
                track: p.track,
                entity,
                component: p.component,
                field: p.field,
                asset_of: p.asset_of,
                duration: p.duration,
                start_at: p.start_at,
                ease: p.ease,
                label: p.label,
                color: p.color,
                enabled: p.enabled,
            },
        ),
        keyframes: Arc::new(docs),
        exact: false,
        restore_id: None,
    };
    let ghost asked = op;
    let result = single_edit(host, studio, id, op);
    assert(keyframes_requested(
        host,
        given,
        before,
        subject,
        smoothed_docs,
        asked,
        studio@,
        result,
    ));
    result
}

/// Removes a clip.
pub fn timeline_remove_action<H: RemoteHost>(
    host: &H,
    studio: &mut Studio,
    id: u64,
    track: usize,
    action_id: u64,
) -> (result: Edited)
    ensures
        single_applied(
            host,
            TimelineId { raw: id },
            EditOp::Remove { track, action_id },
            old(studio)@,
            final(studio)@,
            result,
        ),
        stays_seekable(old(studio)@, final(studio)@),
{
    single_edit(host, studio, TimelineId::from_raw(id), EditOp::Remove { track, action_id })
}

/// Reschedule an action in place (same id).
pub fn timeline_move_action<H: RemoteHost>(
    host: &H,
    studio: &mut Studio,
    id: u64,
    track: usize,
    action_id: u64,
    start_at: Ticks,
    duration: Option<Ticks>,
) -> (result: Edited)
    ensures
        single_applied(
            host,
            TimelineId { raw: id },
            EditOp::Move { track, action_id, start_at, duration },
            old(studio)@,
            final(studio)@,
            result,
        ),
        stays_seekable(old(studio)@, final(studio)@),
{
    single_edit(
        host,
        studio,
        TimelineId::from_raw(id),
        EditOp::Move { track, action_id, start_at, duration },
    )
}

/// Whether the keyframes of an update were smoothed so, if they are to be.
pub open spec fn update_smoothed<H: RemoteHost>(
    host: &H,
    docs: Option<Seq<KeyframeDoc>>,
    smooth: Option<bool>,
    result: Result<Option<Seq<KeyframeDoc>>, Fault>,
) -> bool {
    match docs {
        None => if smooth == Some(true) {
            result == Err::<Option<Seq<KeyframeDoc>>, Fault>(
                Fault::Op(OpFault::SmoothNeedsKeyframes),
            )
        } else {
            result == Ok::<Option<Seq<KeyframeDoc>>, Fault>(None)
        },
        Some(docs) => match result {
            Ok(smoothed) => smoothed matches Some(list) && maybe_smoothed(
                host,
                docs,
                smooth,
                Ok(list),
            ),
            Err(fault) => maybe_smoothed(host, docs, smooth, Err(fault)),
        },
    }
}

/// Whether the edit is what a request to change a clip asks for.
pub open spec fn is_update_op(
    p: UpdateParams,
    docs: Option<Seq<KeyframeDoc>>,
    op: EditOp,
) -> bool {
    &&& op matches EditOp::Update { action_id, patch }
    &&& action_id == p.action_id
    &&& match p.to {
        Some(to) => patch.to matches Some(target) && *target == to,
        None => patch.to is None,
    }
    &&& match docs {
        Some(docs) => patch.keyframes matches Some(keyframes) && keyframes@ == docs,
        None => patch.keyframes is None,
    }
    &&& *patch == (UpdatePatch {
        to: patch.to,
        to_relative: p.to_relative,
        ease: p.ease,
        keyframes: patch.keyframes,
        label: p.label,
        color: p.color,
        enabled: p.enabled,
    })
}

/// The list of an option.
pub open spec fn list_view(docs: Option<Vec<KeyframeDoc>>) -> Option<Seq<KeyframeDoc>> {
    match docs {
        Some(docs) => Some(docs@),
        None => None,
    }
}

/// Whether a request to change a clip had that outcome, by way of its
/// keyframes and the edit.
pub open spec fn update_requested<H: RemoteHost>(
    host: &H,
    p: UpdateParams,
    before: StudioModel,
    smoothed: Result<Option<Seq<KeyframeDoc>>, Fault>,
    op: EditOp,
    after: StudioModel,
    result: Edited,
) -> bool {
    &&& update_smoothed(host, list_view(p.keyframes), p.smooth, smoothed)
    &&& match smoothed {
        Err(fault) => result == Err::<(OpResult, u64), Fault>(fault) && after == before,
        Ok(docs) => is_update_op(p, docs, op) && single_applied(
            host,
            TimelineId { raw: p.id },
            op,
            before,
            after,
            result,
        ),
    }
}

/// Whether a request to change a clip had that outcome.
pub open spec fn update_answered<H: RemoteHost>(
    host: &H,
    p: UpdateParams,
    before: StudioModel,
    after: StudioModel,
    result: Edited,
) -> bool {
    exists|smoothed: Result<Option<Seq<KeyframeDoc>>, Fault>, op: EditOp| #[trigger]
        update_requested(host, p, before, smoothed, op, after, result)
}

/// Tweak a clip's value and/or easing in place. The id and the clip graph
/// stay put, so only a re-bake happens.
pub fn timeline_update_action<H: RemoteHost>(host: &H, studio: &mut Studio, p: UpdateParams) -> (result:
    Edited)
    ensures
        update_answered(host, p, old(studio)@, final(studio)@, result),
        stays_seekable(old(studio)@, final(studio)@),
{
    let ghost before = studio@;
    let ghost given = p;
    let ghost mut smoothed: Result<Option<Seq<KeyframeDoc>>, Fault> = Ok(None);
    let on = match p.smooth {
        Some(on) => on,
        None => false,
    };
    let docs: Option<Vec<KeyframeDoc>> = match p.keyframes {
        Some(docs) => match maybe_smooth(host, docs, p.smooth) {
            Ok(docs) => {
                proof {
                    smoothed = Ok(Some(docs@));
                }
                Some(docs)
            },
            Err(fault) => {
                assert(update_requested(
                    host,
                    given,
                    before,
                    Err(fault),
                    EditOp::Clear,
                    studio@,
                    Err(fault),
                ));
                return Err(fault);
            },
        },
        None => {
            if on {
                let fault = Fault::Op(OpFault::SmoothNeedsKeyframes);
                assert(update_requested(
                    host,
                    given,
                    before,
                    Err(fault),
                    EditOp::Clear,
                    studio@,
                    Err(fault),
                ));
                return Err(fault);
            }
            None
        },
    };
    let id = TimelineId::from_raw(p.id);
    let op = EditOp::Update {
        action_id: p.action_id,
        patch: Arc::new(
            UpdatePatch {
                to: match p.to {
                    Some(to) => Some(Arc::new(to)),
                    None => None,
                },
                to_relative: p.to_relative,
                ease: p.ease,
                keyframes: match docs {
                    Some(docs) => Some(Arc::new(docs)),
                    None => None,
                },
                label: p.label,
                color: p.color,
                enabled: p.enabled,
            },
        ),
    };
    let ghost asked = op;
    let result = single_edit(host, studio, id, op);
    assert(update_requested(host, given, before, smoothed, asked, studio@, result));
    result
}

/// The number of tracks with some more.
pub open spec fn more_tracks(count: nat, added: usize) -> usize {
    if count + added > usize::MAX {
        usize::MAX
    } else {
        (count + added) as usize
    }
}

/// Whether adding tracks had that outcome: as many empty ones as asked for,
/// the next version, and one more event.
pub open spec fn tracks_added(
    id: TimelineId,
    count: usize,
    before: StudioModel,
    after: StudioModel,
    result: Result<(usize, u64), Fault>,
) -> bool {
    let model = before.timelines[id];
    let grown = after.timelines[id];
    if !(1 <= count <= 1024) {
        result == Err::<(usize, u64), Fault>(Fault::AddCount) && after == before
    } else if !before.timelines.contains_key(id) {
        result == Err::<(usize, u64), Fault>(Fault::NoTimeline { id: id.raw }) && after == before
    } else {
        &&& result matches Ok((track_count, version))
        &&& track_count == grown.tracks.len()
        &&& version == next_number(before.edits_of(id).version)
        &&& grown == (TimelineModel { tracks: grown.tracks, ..model })
        &&& grown_to(model.tracks, grown.tracks, more_tracks(model.tracks.len(), count))
        &&& after == before.with_timeline(id, grown).with_edits(
            id,
            before.edits_of(id).bumped().told(EventKind::TrackAdd { track_count, version }),
        )
    }
}

/// Append empty tracks. Version-bumped but not journaled: an empty track is
/// inert, nothing for undo to restore. Returns the number of tracks and the
/// new version.
pub fn timeline_track_add(studio: &mut Studio, id: u64, count: usize) -> (result: Result<
    (usize, u64),
    Fault,
>)
    ensures
        tracks_added(TimelineId { raw: id }, count, old(studio)@, final(studio)@, result),
        stays_seekable(old(studio)@, final(studio)@),
{
    let ghost before = studio@;
    if count < 1 || count > 1024 {
        return Err(Fault::AddCount);
    }
    let tid = TimelineId::from_raw(id);
    let mut timeline = match studio.manager.take(&tid) {
        Some(timeline) => timeline,
        None => {
            assert(studio@ =~= before);
            return Err(Fault::NoTimeline { id });
        },
    };
    let target = timeline.track_count().saturating_add(count);
    timeline.ensure_track_count(target);
    let track_count = timeline.track_count();
    let ghost grown = timeline@;
    studio.manager.put(tid, timeline);
    let version = studio.state.bump(tid);
    studio.state.push_event(tid, EventKind::TrackAdd { track_count, version });
    assert(studio@ =~= before.with_timeline(tid, grown).with_edits(
        tid,
        before.edits_of(tid).bumped().told(EventKind::TrackAdd { track_count, version }),
    ));
    proof {
        growing_stays_seekable(before.timelines[tid], grown, target);
    }
    Ok((track_count, version))
}

/// Whether the application said of an entity whether there is one.
pub open spec fn entity_is<H: RemoteHost>(host: &H, entity: u64, exists_now: bool) -> bool {
    call_ensures(H::entity_exists, (host, entity), exists_now)
}

/// Whether the subject of a key is an entity that there is no more, or not.
pub open spec fn key_dangles<H: RemoteHost>(
    host: &H,
    model: TimelineModel,
    key: ActionKey,
    dangles: bool,
) -> bool {
    match entity_of(model.actions, key) {
        None => !dangles,
        Some(entity) => entity_is(host, entity, !dangles),
    }
}

/// The removal of some clips of a track.
pub open spec fn removals(track: usize, clips: Seq<ActionClip>) -> Seq<(usize, u64)> {
    clips.map_values(|clip: ActionClip| (track, clip.id.bits))
}

/// The clips of the first `n` spans of a track whose keys dangle.
pub open spec fn dangling_in(
    model: TimelineModel,
    track: usize,
    dangles: Seq<bool>,
    n: int,
) -> Seq<(usize, u64)>
    decreases n,
{
    let spans = model.tracks[track as int].spans();
    if n <= 0 {
        Seq::empty()
    } else {
        let earlier = dangling_in(model, track, dangles, n - 1);
        if dangles[n - 1] {
            earlier + removals(track, model.tracks[track as int].clips_in(spans[n - 1].1))
        } else {
            earlier
        }
    }
}

/// Whether it was asked of each of the first keys of a track whether it
/// dangles.
pub open spec fn asked_of_track<H: RemoteHost>(
    host: &H,
    model: TimelineModel,
    track: int,
    dangles: Seq<bool>,
) -> bool {
    let spans = model.tracks[track].spans();
    &&& dangles.len() <= spans.len()
    &&& forall|i: int|
        0 <= i < dangles.len() ==> key_dangles(host, model, spans[i].0, #[trigger] dangles[i])
}

/// The clips of the first `n` tracks whose keys dangle.
pub open spec fn dangling_clips(
    model: TimelineModel,
    dangles: Seq<Seq<bool>>,
    n: int,
) -> Seq<(usize, u64)>
    decreases n,
{
    if n <= 0 {
        Seq::empty()
    } else {
        dangling_clips(model, dangles, n - 1) + dangling_in(
            model,
            (n - 1) as usize,
            dangles[n - 1],
            model.tracks[n - 1].spans().len() as int,
        )
    }
}

/// Whether it was asked of the keys of the first tracks whether they dangle.
pub open spec fn asked_of_tracks<H: RemoteHost>(
    host: &H,
    model: TimelineModel,
    dangles: Seq<Seq<bool>>,
) -> bool {
    &&& dangles.len() <= model.tracks.len()
    &&& forall|t: int|
        0 <= t < dangles.len() ==> asked_of_track(host, model, t, #[trigger] dangles[t])
            && dangles[t].len() == model.tracks[t].spans().len()
}

/// Whether these are the clips whose entity there is no more.
pub open spec fn are_dangling<H: RemoteHost>(
    host: &H,
    model: TimelineModel,
    clips: Seq<(usize, u64)>,
) -> bool {
    exists|dangles: Seq<Seq<bool>>|
        {
            &&& #[trigger] asked_of_tracks(host, model, dangles)
            &&& dangles.len() == model.tracks.len()
            &&& clips == dangling_clips(model, dangles, model.tracks.len() as int)
        }
}

/// The clips of a track whose entity there is no more.
fn find_dangling_in<H: RemoteHost>(
    host: &H,
    world: &ActionWorld,
    tracks: &[Track],
    track: usize,
    found: &mut Vec<(usize, u64)>,
    Ghost(model): Ghost<TimelineModel>,
) -> (dangles: Ghost<Seq<bool>>)
    requires
        track < tracks@.len(),
        tracks@ == model.tracks,
        world@ == model.actions,
    ensures
        asked_of_track(host, model, track as int, dangles@),
        dangles@.len() == model.tracks[track as int].spans().len(),
        final(found)@ == old(found)@ + dangling_in(
            model,
            track,
            dangles@,
            model.tracks[track as int].spans().len() as int,
        ),
{
    let ghost before = found@;
    let ghost mut dangles: Seq<bool> = Seq::empty();
    let spans = tracks[track].sequences_spans();
    let mut i: usize = 0;
    assert(found@ =~= before + dangling_in(model, track, dangles, 0));
    while i < spans.len()
        invariant
            i <= spans@.len(),
            track < tracks@.len(),
            tracks@ == model.tracks,
            world@ == model.actions,
            spans@ == model.tracks[track as int].spans(),
            model.tracks[track as int].laid_out(),
            dangles.len() == i,
            asked_of_track(host, model, track as int, dangles),
            found@ == before + dangling_in(model, track, dangles, i as int),
        decreases spans@.len() - i,
    {
        let (key, span) = spans[i];
        let dangling = match subject_entity(world, &key) {
            Some(entity) => {
                let known = host.entity_exists(entity);
                assert(entity_is(host, entity, known));
                !known
            },
            None => false,
        };
        assert(key_dangles(host, model, key, dangling));
        let ghost asked = dangles;
        proof {
            dangles = dangles.push(dangling);
            same_dangling(model, track, asked, dangles, i as int);
        }
        if dangling {
            let clips = tracks[track].clips(span);
            let ghost start = found@;
            let ghost gone = removals(track, clips@);
            let mut k: usize = 0;
            assert(start + gone.take(0) =~= start);
            while k < clips.len()
                invariant
                    k <= clips@.len(),
                    gone == removals(track, clips@),
                    found@ == start + gone.take(k as int),
                decreases clips@.len() - k,
            {
                found.push((track, clips[k].id.to_bits()));
                proof {
                    take_one_more(gone, k as int);
                    assert(start + gone.take(k + 1) =~= (start + gone.take(k as int)).push(
                        gone[k as int],
                    ));
                }
                k += 1;
            }
            assert(gone.take(k as int) =~= gone);
            assert(before + dangling_in(model, track, dangles, i + 1) =~= start + gone);
        }
        i += 1;
    }
    Ghost(dangles)
}

/// The clips that dangle depend on the keys that were asked of.
proof fn same_dangling(
    model: TimelineModel,
    track: usize,
    a: Seq<bool>,
    b: Seq<bool>,
    n: int,
)
    requires
        n <= a.len(),
        n <= b.len(),
        forall|i: int| 0 <= i < n ==> a[i] == #[trigger] b[i],
    ensures
        dangling_in(model, track, a, n) == dangling_in(model, track, b, n),
    decreases n,
{
    if n > 0 {
        same_dangling(model, track, a, b, n - 1);
        assert(a[n - 1] == b[n - 1]);
    }
}

proof fn same_dangling_tracks(
    model: TimelineModel,
    a: Seq<Seq<bool>>,
    b: Seq<Seq<bool>>,
    n: int,
)
    requires
        n <= a.len(),
        n <= b.len(),
        forall|t: int| 0 <= t < n ==> a[t] == #[trigger] b[t],
    ensures
        dangling_clips(model, a, n) == dangling_clips(model, b, n),
    decreases n,
{
    if n > 0 {
        same_dangling_tracks(model, a, b, n - 1);
        assert(a[n - 1] == b[n - 1]);
    }
}

/// The clips of a timeline whose entity there is no more.
fn find_dangling<H: RemoteHost>(
    host: &H,
    timeline: &BevyTimeline,
) -> (found: Vec<(usize, u64)>)
    ensures
        are_dangling(host, timeline@, found@),
{
    let ghost model = timeline@;
    let world = timeline.action_world();
    let tracks = timeline.tracks();
    let mut found: Vec<(usize, u64)> = Vec::new();
    let ghost mut dangles: Seq<Seq<bool>> = Seq::empty();
    let mut t: usize = 0;
    while t < tracks.len()
        invariant
            t <= tracks@.len(),
            tracks@ == model.tracks,
            world@ == model.actions,
            dangles.len() == t,
            asked_of_tracks(host, model, dangles),
            found@ == dangling_clips(model, dangles, t as int),
        decreases tracks@.len() - t,
    {
        let ghost before = found@;
        let Ghost(more) = find_dangling_in(host, world, tracks, t, &mut found, Ghost(model));
        proof {
            let asked = dangles;
            dangles = dangles.push(more);
            same_dangling_tracks(model, asked, dangles, t as int);
            assert(found@ =~= dangling_clips(model, dangles, t + 1));
        }
        t += 1;
    }
    found
}

/// The edits that remove the clips.
pub open spec fn removing(clips: Seq<(usize, u64)>) -> Seq<EditOp> {
    clips.map_values(
        |clip: (usize, u64)| EditOp::Remove { track: clip.0, action_id: clip.1 },
    )
}

/// The edits that remove the clips.
fn removal_ops(clips: &Vec<(usize, u64)>) -> (ops: Vec<EditOp>)
    ensures
        ops@ == removing(clips@),
{
    let mut ops: Vec<EditOp> = Vec::new();
    let mut i: usize = 0;
    while i < clips.len()
        invariant
            i <= clips@.len(),
            ops@ == removing(clips@).take(i as int),
        decreases clips@.len() - i,
    {
        let (track, action_id) = clips[i];
        ops.push(EditOp::Remove { track, action_id });
        assert(ops@ =~= removing(clips@).take(i + 1));
        i += 1;
    }
    assert(ops@ =~= removing(clips@));
    ops
}

/// What collecting dangling clips came to.
#[derive(Debug)]
pub struct GcResult {
    /// The clips whose entity there is no more.
    pub dangling: Vec<u64>,
    /// The new version, if they were removed.
    pub removed: Option<u64>,
}

/// The ids of clips.
pub open spec fn clip_ids(clips: Seq<(usize, u64)>) -> Seq<u64> {
    clips.map_values(|clip: (usize, u64)| clip.1)
}

/// Whether removing clips had that outcome, by way of what the removals left:
/// all of them were removed and are kept as one entry, or one could not be and
/// those before it were taken back.
pub open spec fn gc_stepped<H: RemoteHost>(
    host: &H,
    id: TimelineId,
    ops: Seq<EditOp>,
    before: StudioModel,
    between: StudioModel,
    results: Seq<OpResult>,
    forward: Seq<EditOp>,
    inverses: Seq<EditOp>,
    fault: Option<Fault>,
    after: StudioModel,
    result: Result<u64, Fault>,
) -> bool {
    &&& applied_until(
        host,
        id,
        ops,
        before,
        between,
        results,
        forward,
        inverses,
        fault,
    )
    &&& match fault {
        None => result matches Ok(version) && edit_finished(
            host,
            id,
            forward,
            inverses.reverse(),
            between,
            after,
            version,
        ),
        Some(fault) => result == Err::<u64, Fault>(fault) && backed_out(
            host,
            id,
            inverses,
            between,
            after,
        ),
    }
}

/// Whether edits were taken back, newest first, as far as they can be.
pub open spec fn backed_out<H: RemoteHost>(
    host: &H,
    id: TimelineId,
    inverses: Seq<EditOp>,
    before: StudioModel,
    after: StudioModel,
) -> bool {
    exists|incomplete: bool| #[trigger]
        all_tried(host, id, inverses.reverse(), before, after, incomplete)
}

/// Whether removing clips had that outcome.
pub open spec fn clips_collected<H: RemoteHost>(
    host: &H,
    id: TimelineId,
    ops: Seq<EditOp>,
    before: StudioModel,
    after: StudioModel,
    result: Result<u64, Fault>,
) -> bool {
    exists|
        between: StudioModel,
        results: Seq<OpResult>,
        forward: Seq<EditOp>,
        inverses: Seq<EditOp>,
        fault: Option<Fault>,
    | #[trigger]
        gc_stepped(
            host,
            id,
            ops,
            before,
            between,
            results,
            forward,
            inverses,
            fault,
            after,
            result,
        )
}

/// Whether collecting the given dangling clips had that outcome.
pub open spec fn gc_of<H: RemoteHost>(
    host: &H,
    id: TimelineId,
    dry_run: bool,
    clips: Seq<(usize, u64)>,
    before: StudioModel,
    after: StudioModel,
    result: Result<GcResult, Fault>,
) -> bool {
    &&& are_dangling(host, before.timelines[id], clips)
    &&& if dry_run || clips.len() == 0 {
        &&& result matches Ok(outcome)
        &&& outcome.dangling@ == clip_ids(clips)
        &&& outcome.removed is None
        &&& after == before
    } else {
        match result {
            Ok(outcome) => {
                &&& outcome.dangling@ == clip_ids(clips)
                &&& outcome.removed matches Some(version)
                &&& clips_collected(host, id, removing(clips), before, after, Ok(version))
            },
            Err(fault) => clips_collected(host, id, removing(clips), before, after, Err(fault)),
        }
    }
}

/// Whether collecting dangling clips had that outcome.
pub open spec fn gc_applied<H: RemoteHost>(
    host: &H,
    id: TimelineId,
    dry_run: bool,
    before: StudioModel,
    after: StudioModel,
    result: Result<GcResult, Fault>,
) -> bool {
    if !before.timelines.contains_key(id) {
        result == Err::<GcResult, Fault>(Fault::NoTimeline { id: id.raw }) && after == before
    } else {
        gc_finds(host, id, dry_run, before, after, result)
    }
}

/// Whether collecting the dangling clips that were found had that outcome.
pub open spec fn gc_finds<H: RemoteHost>(
    host: &H,
    id: TimelineId,
    dry_run: bool,
    before: StudioModel,
    after: StudioModel,
    result: Result<GcResult, Fault>,
) -> bool {
    exists|clips: Seq<(usize, u64)>| #[trigger]
        gc_of(host, id, dry_run, clips, before, after, result)
}

/// The ids of clips.
fn ids_of(clips: &Vec<(usize, u64)>) -> (ids: Vec<u64>)
    ensures
        ids@ == clip_ids(clips@),
{
    let mut ids: Vec<u64> = Vec::new();
    let mut i: usize = 0;
    while i < clips.len()
        invariant
            i <= clips@.len(),
            ids@ == clip_ids(clips@).take(i as int),
        decreases clips@.len() - i,
    {
        ids.push(clips[i].1);
        assert(ids@ =~= clip_ids(clips@).take(i + 1));
        i += 1;
    }
    assert(ids@ =~= clip_ids(clips@));
    ids
}

/// Removes clips as one journaled entry. Unwinds on failure.
fn collect_clips<H: RemoteHost>(
    host: &H,
    studio: &mut Studio,
    id: TimelineId,
    ops: &Vec<EditOp>,
) -> (result: Result<u64, Fault>)
    ensures
        clips_collected(host, id, ops@, old(studio)@, final(studio)@, result),
        stays_seekable(old(studio)@, final(studio)@),
{
    let ghost before = studio@;
    let (run, fault) = apply_all(host, studio, id, ops);
    let ghost between = studio@;
    proof {
        content_stays_seekable(id, before, between);
    }
    let ghost stopped = fault;
    let ghost results = run.results@;
    let ghost forward = run.forward@;
    let ghost inverses = run.inverses@;
    let backward = reverse_ops(&run.inverses);
    match fault {
        None => {
            let version = finish_edit(host, studio, id, run.forward, backward);
            assert(gc_stepped(
                host,
                id,
                ops@,
                before,
                between,
                results,
                forward,
                inverses,
                stopped,
                studio@,
                Ok(version),
            ));
            Ok(version)
        },
        Some(fault) => {
            let incomplete = try_all(host, studio, id, &backward);
            assert(all_tried(host, id, inverses.reverse(), between, studio@, incomplete));
            proof {
                content_stays_seekable(id, between, studio@);
            }
            assert(gc_stepped(
                host,
                id,
                ops@,
                before,
                between,
                results,
                forward,
                inverses,
                stopped,
                studio@,
                Err(fault),
            ));
            Err(fault)
        },
    }
}

/// Find (and, unless `dry_run`, remove) clips whose subject entity was
/// despawned. Removal journals as one entry, so a collection is one undo away.
pub fn timeline_gc<H: RemoteHost>(
    host: &H,
    studio: &mut Studio,
    id: u64,
    dry_run: bool,
) -> (result: Result<GcResult, Fault>)
    ensures
        gc_applied(
            host,
            TimelineId { raw: id },
            dry_run,
            old(studio)@,
            final(studio)@,
            result,
        ),
        stays_seekable(old(studio)@, final(studio)@),
{
    let ghost before = studio@;
    let tid = TimelineId::from_raw(id);
    let dangling = match studio.manager.get_timeline(&tid) {
        Some(timeline) => find_dangling(host, timeline),
        None => {
            return Err(Fault::NoTimeline { id });
        },
    };
    let ids = ids_of(&dangling);
    if dry_run || dangling.len() == 0 {
        let result = Ok(GcResult { dangling: ids, removed: None });
        assert(gc_of(host, tid, dry_run, dangling@, before, studio@, result));
        return result;
    }
    let ops = removal_ops(&dangling);
    match collect_clips(host, studio, tid, &ops) {
        Ok(version) => {
            let result = Ok(GcResult { dangling: ids, removed: Some(version) });
            assert(gc_of(host, tid, dry_run, dangling@, before, studio@, result));
            result
        },
        Err(fault) => {
            assert(gc_of(host, tid, dry_run, dangling@, before, studio@, Err(fault)));
            Err(fault)
        },
    }
}

/// Whether clearing a timeline had that outcome, by way of the snapshot and
/// the cleared studio.
pub open spec fn clear_stepped<H: RemoteHost>(
    host: &H,
    id: TimelineId,
    before: StudioModel,
    baked: StudioModel,
    snapshot: Result<Seq<EditOp>, Fault>,
    cleared: StudioModel,
    applied: Applied,
    after: StudioModel,
    result: Edited,
) -> bool {
    &&& all_snapshotted(host, id, before, baked, snapshot)
    &&& match snapshot {
        Err(fault) => result == Err::<(OpResult, u64), Fault>(fault) && after == baked,
        Ok(inverse) => {
            &&& op_applied(host, id, EditOp::Clear, baked, cleared, applied)
            &&& match applied {
                Err(fault) => result == Err::<(OpResult, u64), Fault>(fault) && after == cleared,
                Ok((outcome, _)) => {
                    &&& result matches Ok((told, version))
                    &&& told == outcome
                    &&& edit_finished(
                        host,
                        id,
                        seq![EditOp::Clear],
                        inverse,
                        cleared.with_edits(
                            id,
                            EditsModel { markers: Map::empty(), ..cleared.edits_of(id) },
                        ),
                        after,
                        version,
                    )
                },
            }
        },
    }
}

/// Whether clearing a timeline had that outcome: its clips and its markers are
/// gone, and it is kept as one entry whose inverse inserts every clip again.
pub open spec fn clear_answered<H: RemoteHost>(
    host: &H,
    id: TimelineId,
    before: StudioModel,
    after: StudioModel,
    result: Edited,
) -> bool {
    exists|
        baked: StudioModel,
        snapshot: Result<Seq<EditOp>, Fault>,
        cleared: StudioModel,
        applied: Applied,
    | #[trigger]
        clear_stepped(
            host,
            id,
            before,
            baked,
            snapshot,
            cleared,
            applied,
            after,
            result,
        )
}

/// Drop every action, resetting the timeline to a single empty track (it
/// keeps its id). Journals as one coarse entry whose inverse re-inserts every
/// clip the catalog can describe.
pub fn timeline_clear<H: RemoteHost>(host: &H, studio: &mut Studio, id: u64) -> (result: Edited)
    ensures
        clear_answered(host, TimelineId { raw: id }, old(studio)@, final(studio)@, result),
        stays_seekable(old(studio)@, final(studio)@),
{
    let ghost before = studio@;
    let ghost not_applied: Applied = Err(Fault::NoManager);
    let tid = TimelineId::from_raw(id);
    // Snapshot before clearing: the inverse re-inserts the whole timeline.
    let snapshot = snapshot_all_clips(host, studio, tid);
    let ghost taken = ops_view(snapshot);
    let ghost baked = studio@;
    proof {
        snapshots_change_content_only(host, tid, before, baked, taken);
        content_stays_seekable(tid, before, baked);
    }
    let inverse = match snapshot {
        Ok(inverse) => inverse,
        Err(fault) => {
            assert(clear_stepped(
                host,
                tid,
                before,
                baked,
                taken,
                baked,
                not_applied,
                studio@,
                Err(fault),
            ));
            return Err(fault);
        },
    };
    let applied = apply_op(host, studio, tid, &EditOp::Clear);
    let ghost came_to = applied;
    let ghost cleared = studio@;
    proof {
        edits_change_content_only(host, tid, EditOp::Clear, baked, cleared, came_to);
        content_stays_seekable(tid, baked, cleared);
    }
    let outcome = match applied {
        Ok((outcome, _)) => outcome,
        Err(fault) => {
            assert(clear_stepped(
                host,
                tid,
                before,
                baked,
                taken,
                cleared,
                came_to,
                studio@,
                Err(fault),
            ));
            return Err(fault);
        },
    };
    // Markers are navigation, not content. Clear them too.
    studio.state.clear_markers(tid);
    assert(studio@ =~= cleared.with_edits(
        tid,
        EditsModel { markers: Map::empty(), ..cleared.edits_of(tid) },
    ));
    let mut forward: Vec<EditOp> = Vec::new();
    forward.push(EditOp::Clear);
    assert(forward@ =~= seq![EditOp::Clear]);
    let version = finish_edit(host, studio, tid, forward, inverse);
    let result = Ok((outcome, version));
    assert(clear_stepped(
        host,
        tid,
        before,
        baked,
        taken,
        cleared,
        came_to,
        studio@,
        result,
    ));
    result
}

} // verus!
