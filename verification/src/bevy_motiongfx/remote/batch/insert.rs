//! Inserting clips.
use crate::action::world::ActionModel;
use crate::action::{entity_bits, ActionId, ActionKey, ActionRecord, ActionWorld, Ease, InterpFn, Value};
use crate::bevy_motiongfx::manager::TimelineId;
use crate::bevy_motiongfx::remote::batch::op::{
    copy_text, Delta, EditOp, KeyframeDoc, OpResult, Placement,
};
use crate::bevy_motiongfx::remote::batch::value::{
    decode_keyframes, keyframes_read, points_view, segment_written, write_segment,
};
use crate::bevy_motiongfx::remote::catalog::{CatalogEntry, CatalogModel, SubjectKind};
use crate::bevy_motiongfx::remote::ease::{op_ease_resolves, parse_op_ease};
use crate::bevy_motiongfx::remote::fault::{AssetFault, CatalogError, Fault, OpFault};
use crate::bevy_motiongfx::remote::host::{decodes, sums, AssetFacts, LiveFacts, RemoteHost};
use crate::bevy_motiongfx::remote::json::{Json, Number};
use crate::bevy_motiongfx::remote::state::{ClipMeta, EditsModel};
use crate::bevy_motiongfx::remote::studio::{baked, Studio, StudioModel};
use crate::bevy_motiongfx::world::BevyTimeline;
use crate::pipeline::PipelineKey;
use crate::remote::{
    RemoteActionRegistry, RemoteEditError, RemoteFieldKey, RemoteKeyframe, RemoteTarget,
};
use crate::subject::{Subject, ASSET_TAG, BEVY_WORLD_TAG, ENTITY_TAG, RESOURCE_TAG};
use crate::text::same_text;
use crate::time::Ticks;
use crate::timeline::edit::{
    action_removed, action_rescheduled, constant_fault, constant_inserted, grown_to,
    keyframed_fault, keyframes_inserted, removable,
};
use crate::timeline::TimelineModel;
use crate::track::{has_clip, lane, reschedule_outcome};
use bevy_ecs::entity::Entity;
use std::sync::Arc;
use vstd::prelude::*;

verus! {

/// `bevy_ecs::entity::Entity::try_from_bits` and `Entity::to_bits`: the same
/// bits, unless their low half is zero, which no entity has.
#[verifier::external_body]
pub(crate) fn entity_from_bits(bits: u64) -> (entity: Option<u64>)
    ensures
        entity == if entity_bits(bits) {
            Some(bits)
        } else {
            None
        },
{
    Entity::try_from_bits(bits).map(|entity| entity.to_bits())
}

/// The first asset of some candidates.
pub open spec fn first_asset(candidates: Seq<Option<u64>>) -> Option<u64>
    decreases candidates.len(),
{
    if candidates.len() == 0 {
        None
    } else if candidates[0] is Some {
        candidates[0]
    } else {
        first_asset(candidates.skip(1))
    }
}

/// The asset behind a component on an entity.
pub open spec fn asset_of_facts(facts: AssetFacts, entity: u64, component: String) -> Result<
    u64,
    Fault,
> {
    if !facts.is_registered {
        Err(Fault::Asset(AssetFault::NotRegistered { component }))
    } else if !facts.is_component {
        Err(Fault::Asset(AssetFault::NotComponent { component }))
    } else if !facts.entity_exists {
        Err(Fault::Asset(AssetFault::NoEntity { entity }))
    } else if !facts.has_component {
        Err(Fault::Asset(AssetFault::NotPresent { entity, component }))
    } else {
        match first_asset(facts.candidates@) {
            Some(asset) => Ok(asset),
            None => Err(Fault::Asset(AssetFault::NoHandle { entity, component })),
        }
    }
}

/// The asset behind a component on an entity.
pub fn resolve_asset(facts: &AssetFacts, entity: u64, component: &String) -> (result: Result<
    u64,
    Fault,
>)
    ensures
        result == asset_of_facts(*facts, entity, *component),
{
    if !facts.is_registered {
        return Err(Fault::Asset(AssetFault::NotRegistered { component: component.clone() }));
    }
    if !facts.is_component {
        return Err(Fault::Asset(AssetFault::NotComponent { component: component.clone() }));
    }
    if !facts.entity_exists {
        return Err(Fault::Asset(AssetFault::NoEntity { entity }));
    }
    if !facts.has_component {
        return Err(
            Fault::Asset(AssetFault::NotPresent { entity, component: component.clone() }),
        );
    }
    let ghost candidates = facts.candidates@;
    let mut i: usize = 0;
    assert(candidates.skip(0) =~= candidates);
    while i < facts.candidates.len()
        invariant
            i <= candidates.len(),
            candidates == facts.candidates@,
            facts.is_registered,
            facts.is_component,
            facts.entity_exists,
            facts.has_component,
            first_asset(candidates) == first_asset(candidates.skip(i as int)),
        decreases candidates.len() - i,
    {
        assert(candidates.skip(i as int)[0] == candidates[i as int]);
        match facts.candidates[i] {
            Some(asset) => {
                return Ok(asset);
            },
            None => {},
        }
        assert(candidates.skip(i as int).skip(1) =~= candidates.skip(i + 1));
        i += 1;
    }
    Err(Fault::Asset(AssetFault::NoHandle { entity, component: component.clone() }))
}

/// The number that a field of a component on an entity holds.
pub open spec fn live_number(facts: LiveFacts, entity: u64, component: String, field: String) -> Result<
    Number,
    Fault,
> {
    if !facts.is_component {
        Err(Fault::Op(OpFault::RelativeUnreadable { component, field }))
    } else if !facts.entity_exists {
        Err(Fault::Op(OpFault::NoEntity { entity }))
    } else {
        match facts.number {
            Some(number) => Ok(number),
            None => Err(Fault::Op(OpFault::RelativeUnreadable { component, field })),
        }
    }
}

/// Read a live component field as a number: the `to_relative` fallback when
/// no same-key clip exists.
pub fn remote_numeric_field(
    facts: &LiveFacts,
    entity: u64,
    component: &String,
    field: &String,
) -> (result: Result<Number, Fault>)
    ensures
        result == live_number(*facts, entity, *component, *field),
{
    if !facts.is_component {
        return Err(
            Fault::Op(
                OpFault::RelativeUnreadable { component: component.clone(), field: field.clone() },
            ),
        );
    }
    if !facts.entity_exists {
        return Err(Fault::Op(OpFault::NoEntity { entity }));
    }
    match facts.number {
        Some(number) => Ok(number),
        None => Err(
            Fault::Op(
                OpFault::RelativeUnreadable { component: component.clone(), field: field.clone() },
            ),
        ),
    }
}

/// The entity that is the subject of a key, if it is one.
pub open spec fn entity_of(actions: ActionModel, key: ActionKey) -> Option<u64> {
    if key.subject_id.type_id == ENTITY_TAG && actions.subjects.contains_key(
        (ENTITY_TAG, key.subject_id.uid),
    ) {
        Some(actions.subjects[(ENTITY_TAG, key.subject_id.uid)].bits)
    } else {
        None
    }
}

/// The entity that is the subject of a key, if it is one.
pub fn subject_entity(world: &ActionWorld, key: &ActionKey) -> (entity: Option<u64>)
    ensures
        entity == entity_of(world@, *key),
{
    if key.subject_id.type_id == ENTITY_TAG {
        world.get_id(ENTITY_TAG, &key.subject_id.uid)
    } else {
        None
    }
}

/// Whether the clips of a key animate the field of the entity.
pub open spec fn animates(
    catalog: CatalogModel,
    actions: ActionModel,
    key: ActionKey,
    entity: u64,
    component: Seq<char>,
    field: Seq<char>,
) -> bool {
    &&& entity_of(actions, key) == Some(entity)
    &&& catalog.entry_of(key.field) is Some
    &&& catalog.by_field[key.field] == (component, field)
}

/// The type of the values of a key.
pub open spec fn target_of(catalog: CatalogModel, key: ActionKey) -> u64 {
    catalog.entry_of(key.field)->0.pipeline.target_id
}

/// Whether the last clip of the span at `i` could be written as `written`.
pub open spec fn last_clip_written<H: RemoteHost>(
    host: &H,
    catalog: CatalogModel,
    model: TimelineModel,
    track: int,
    i: int,
    written: Option<(Json, Json)>,
) -> bool {
    let spans = model.tracks[track].spans();
    let clips = model.tracks[track].clips_in(spans[i].1);
    segment_written(
        host,
        model.actions,
        clips.last().id,
        target_of(catalog, spans[i].0),
        written,
    )
}

/// Whether none of the first `n` spans animates the field with a value that
/// can be written.
pub open spec fn none_written<H: RemoteHost>(
    host: &H,
    catalog: CatalogModel,
    model: TimelineModel,
    at: Placement,
    n: int,
) -> bool {
    forall|i: int|
        0 <= i < n && animates(
            catalog,
            model.actions,
            (#[trigger] model.tracks[at.track as int].spans()[i]).0,
            at.entity,
            at.component@,
            at.field@,
        ) ==> last_clip_written(host, catalog, model, at.track as int, i, None)
}

/// Whether the span at `i` is the first that animates the field with a value
/// that can be written, and ends at `end`.
pub open spec fn base_at<H: RemoteHost>(
    host: &H,
    catalog: CatalogModel,
    model: TimelineModel,
    at: Placement,
    i: int,
    start: Json,
    end: Json,
) -> bool {
    &&& at.track < model.tracks.len()
    &&& 0 <= i < model.tracks[at.track as int].spans().len()
    &&& none_written(host, catalog, model, at, i)
    &&& animates(
        catalog,
        model.actions,
        model.tracks[at.track as int].spans()[i].0,
        at.entity,
        at.component@,
        at.field@,
    )
    &&& last_clip_written(host, catalog, model, at.track as int, i, Some((start, end)))
}

/// Whether no span animates the field with a value that can be written.
pub open spec fn no_base<H: RemoteHost>(
    host: &H,
    catalog: CatalogModel,
    model: TimelineModel,
    at: Placement,
) -> bool {
    at.track < model.tracks.len() ==> none_written(
        host,
        catalog,
        model,
        at,
        model.tracks[at.track as int].spans().len() as int,
    )
}

/// Whether the value that a relative target is added to was found so: where
/// the last clip of the field ends, or else the live value.
pub open spec fn base_found<H: RemoteHost>(
    host: &H,
    catalog: CatalogModel,
    model: TimelineModel,
    at: Placement,
    result: Result<Number, Fault>,
) -> bool {
    ||| exists|i: int, start: Json, end: Json|
        {
            &&& #[trigger] base_at(host, catalog, model, at, i, start, end)
            &&& result == match end.number() {
                Some(number) => Ok(number),
                None => Err(Fault::Op(OpFault::RelativeNumeric)),
            }
        }
    ||| {
        &&& no_base(host, catalog, model, at)
        &&& if entity_bits(at.entity) {
            exists|facts: LiveFacts|
                {
                    &&& #[trigger] is_live(host, at, facts)
                    &&& result == live_number(facts, at.entity, at.component, at.field)
                }
        } else {
            result == Err::<Number, Fault>(Fault::Op(OpFault::InvalidEntity))
        }
    }
}

/// Whether these are the facts about the live value of the field.
pub open spec fn is_live<H: RemoteHost>(host: &H, at: Placement, facts: LiveFacts) -> bool {
    exists|component: &str, field: &str|
        {
            &&& component@ == at.component@
            &&& field@ == at.field@
            &&& #[trigger] call_ensures(
                H::live_facts,
                (host, at.entity, component, field),
                facts,
            )
        }
}

/// Base value a `to_relative` insert resolves against: the last same-key
/// clip's baked end on its track, or the live value if none.
fn base_in<H: RemoteHost>(
    host: &H,
    studio: &Studio,
    timeline: &BevyTimeline,
    at: &Placement,
) -> (result: Result<Number, Fault>)
    ensures
        base_found(host, studio.catalog@, timeline@, *at, result),
{
    let ghost catalog = studio.catalog@;
    let ghost model = timeline@;
    let tracks = timeline.tracks();
    let world = timeline.action_world();
    if at.track < tracks.len() {
        let track = &tracks[at.track];
        let spans = track.sequences_spans();
        let mut i: usize = 0;
        while i < spans.len()
            invariant
                i <= spans@.len(),
                catalog == studio.catalog@,
                model == timeline@,
                at.track < model.tracks.len(),
                *track == model.tracks[at.track as int],
                spans@ == track.spans(),
                track.laid_out(),
                world@ == model.actions,
                none_written(host, catalog, model, *at, i as int),
            decreases spans@.len() - i,
        {
            let (key, span) = spans[i];
            let entity_matches = match subject_entity(world, &key) {
                Some(entity) => entity == at.entity,
                None => false,
            };
            let entry = if entity_matches {
                studio.catalog.get_by_field(&key.field)
            } else {
                None
            };
            match entry {
                Some(entry) => if same_text(entry.component.as_str(), at.component.as_str())
                    && same_text(entry.field_name.as_str(), at.field.as_str()) {
                    let clips = track.clips(span);
                    let clip = clips[clips.len() - 1];
                    match write_segment(host, world, clip.id, entry.pipeline.target_id) {
                        Some((start, end)) => {
                            assert(base_at(host, catalog, model, *at, i as int, start, end));
                            return match end.as_number() {
                                Some(number) => Ok(number),
                                None => Err(Fault::Op(OpFault::RelativeNumeric)),
                            };
                        },
                        None => {
                            assert(last_clip_written(
                                host,
                                catalog,
                                model,
                                at.track as int,
                                i as int,
                                None,
                            ));
                        },
                    }
                },
                None => {},
            }
            i += 1;
        }
    }
    assert(no_base(host, catalog, model, *at));
    match entity_from_bits(at.entity) {
        Some(entity) => {
            let facts = host.live_facts(entity, at.component.as_str(), at.field.as_str());
            assert(is_live(host, *at, facts));
            remote_numeric_field(&facts, entity, &at.component, &at.field)
        },
        None => Err(Fault::Op(OpFault::InvalidEntity)),
    }
}

/// Why a relative target cannot be resolved, whatever the values are.
pub open spec fn relative_fault(catalog: CatalogModel, at: Placement, to: Json) -> Option<Fault> {
    if !(to is Null) {
        Some(Fault::Op(OpFault::ToExclusive))
    } else if at.asset_of is Some || !(catalog.entry(at.component@, at.field@) matches Some(entry)
        && entry.subject == SubjectKind::Component) {
        Some(Fault::Op(OpFault::RelativeComponentOnly))
    } else {
        None
    }
}

/// Whether a relative target was resolved so: to its base with the delta
/// added. The base is read from the baked timeline.
pub open spec fn relative_resolved<H: RemoteHost>(
    host: &H,
    id: TimelineId,
    at: Placement,
    to: Json,
    delta: Delta,
    before: StudioModel,
    after: StudioModel,
    result: Result<Json, Fault>,
) -> bool {
    match relative_fault(before.catalog, at, to) {
        Some(fault) => result == Err::<Json, Fault>(fault) && after == before,
        None => {
            &&& baked(host, id, before, after)
            &&& if !before.timelines.contains_key(id) {
                result == Err::<Json, Fault>(Fault::NoTimeline { id: id.raw })
            } else {
                match result {
                    Ok(sum) => exists|base: Number|
                        {
                            &&& #[trigger] sums(host, base, delta, sum)
                            &&& base_found(
                                host,
                                before.catalog,
                                after.timelines[id],
                                at,
                                Ok(base),
                            )
                        },
                    Err(fault) => base_found(
                        host,
                        before.catalog,
                        after.timelines[id],
                        at,
                        Err(fault),
                    ),
                }
            }
        },
    }
}

/// The base of a relative target with the delta added.
fn resolve_relative<H: RemoteHost>(
    host: &H,
    studio: &mut Studio,
    id: TimelineId,
    at: &Placement,
    to: &Json,
    delta: Delta,
) -> (result: Result<Json, Fault>)
    ensures
        relative_resolved(host, id, *at, *to, delta, old(studio)@, final(studio)@, result),
{
    if !to.is_null() {
        return Err(Fault::Op(OpFault::ToExclusive));
    }
    let is_component = match studio.catalog.get(at.component.as_str(), at.field.as_str()) {
        Some(entry) => entry.subject == SubjectKind::Component,
        None => false,
    };
    if at.asset_of.is_some() || !is_component {
        return Err(Fault::Op(OpFault::RelativeComponentOnly));
    }
    // Chained values live in baked segments.
    studio.bake(host, &id);
    let timeline = match studio.manager.get_timeline(&id) {
        Some(timeline) => timeline,
        None => {
            return Err(Fault::NoTimeline { id: id.raw() });
        },
    };
    match base_in(host, studio, timeline, at) {
        Ok(base) => {
            let sum = host.sum(base, delta);
            assert(sums(host, base, delta, sum));
            Ok(sum)
        },
        Err(fault) => Err(fault),
    }
}

/// Whether the subject of a clip was found so.
pub open spec fn subject_resolved<H: RemoteHost>(
    host: &H,
    entry: CatalogEntry,
    at: Placement,
    result: Result<Subject, Fault>,
) -> bool {
    if entry.subject == SubjectKind::Resource {
        result == if at.asset_of is Some {
            Err(Fault::Op(OpFault::ResourceTakesNoAsset))
        } else {
            Ok(Subject { type_id: RESOURCE_TAG, bits: 0 })
        }
    } else if !entity_bits(at.entity) {
        result == Err::<Subject, Fault>(Fault::Op(OpFault::InvalidEntity))
    } else {
        match at.asset_of {
            None => result == Ok::<Subject, Fault>(
                Subject { type_id: ENTITY_TAG, bits: at.entity },
            ),
            Some(component) => exists|facts: AssetFacts|
                {
                    &&& #[trigger] has_asset_facts(host, at.entity, component@, facts)
                    &&& result == match asset_of_facts(facts, at.entity, component) {
                        Ok(asset) => Ok(Subject { type_id: ASSET_TAG, bits: asset }),
                        Err(fault) => Err(fault),
                    }
                },
        }
    }
}

/// Whether these are the facts about the handles of a component.
pub open spec fn has_asset_facts<H: RemoteHost>(
    host: &H,
    entity: u64,
    component: Seq<char>,
    facts: AssetFacts,
) -> bool {
    exists|path: &str|
        path@ == component && #[trigger] call_ensures(H::asset_facts, (host, entity, path), facts)
}

/// The subject of a clip.
fn resolve_subject<H: RemoteHost>(host: &H, entry: &CatalogEntry, at: &Placement) -> (result: Result<
    Subject,
    Fault,
>)
    ensures
        subject_resolved(host, *entry, *at, result),
{
    if entry.subject == SubjectKind::Resource {
        if at.asset_of.is_some() {
            return Err(Fault::Op(OpFault::ResourceTakesNoAsset));
        }
        return Ok(Subject { type_id: RESOURCE_TAG, bits: 0 });
    }
    let entity = match entity_from_bits(at.entity) {
        Some(entity) => entity,
        None => {
            return Err(Fault::Op(OpFault::InvalidEntity));
        },
    };
    match &at.asset_of {
        None => Ok(Subject { type_id: ENTITY_TAG, bits: entity }),
        Some(component) => {
            let facts = host.asset_facts(entity, component.as_str());
            assert(has_asset_facts(host, at.entity, component@, facts));
            match resolve_asset(&facts, entity, component) {
                Ok(asset) => Ok(Subject { type_id: ASSET_TAG, bits: asset }),
                Err(fault) => Err(fault),
            }
        },
    }
}

/// What a clip animates to.
pub enum InsertTarget {
    Constant(Value),
    Keyframes(Seq<RemoteKeyframe>),
}

/// Whether a clip was put behind the others of its key.
pub open spec fn is_inserted(
    before: TimelineModel,
    after: TimelineModel,
    remote: Map<PipelineKey, InterpFn>,
    at: Placement,
    key: RemoteFieldKey,
    subject: Subject,
    target: InsertTarget,
    ease: Option<Ease>,
    id: ActionId,
) -> bool {
    let start_at = start_of(at);
    match target {
        InsertTarget::Constant(value) => constant_inserted(
            before,
            after,
            at.track as int,
            remote,
            key,
            subject,
            RemoteTarget { end: value },
            at.duration,
            start_at,
            ease,
            id,
        ),
        InsertTarget::Keyframes(keyframes) => keyframes_inserted(
            before,
            after,
            at.track as int,
            remote,
            key,
            subject,
            keyframes,
            at.duration,
            start_at,
            ease,
            id,
        ),
    }
}

/// Why a clip cannot be put behind the others of its key, if it cannot.
pub open spec fn insert_fault(
    model: TimelineModel,
    remote: Map<PipelineKey, InterpFn>,
    at: Placement,
    key: RemoteFieldKey,
    subject: Subject,
    target: InsertTarget,
) -> Option<RemoteEditError> {
    match target {
        InsertTarget::Constant(value) => constant_fault(
            model,
            at.track,
            remote,
            key,
            subject,
            RemoteTarget { end: value },
        ),
        InsertTarget::Keyframes(keyframes) => keyframed_fault(
            model,
            at.track,
            remote,
            key,
            subject,
            keyframes,
        ),
    }
}

/// Where a clip starts at the earliest.
pub open spec fn start_of(at: Placement) -> Ticks {
    match at.start_at {
        Some(start) => start,
        None => 0,
    }
}

/// The timeline with an action disabled, if it is inserted so.
pub open spec fn muted(model: TimelineModel, id: ActionId, enabled: Option<bool>) -> TimelineModel {
    if enabled == Some(false) {
        TimelineModel {
            actions: model.actions.with_record(
                id,
                ActionRecord { disabled: true, ..model.actions.actions[id] },
            ),
            ..model
        }
    } else {
        model
    }
}

/// Whether giving an inserted clip its exact place had that outcome: it is
/// there, or it is gone again because it would overlap another one.
pub open spec fn is_put_in_place(
    inserted: TimelineModel,
    after: TimelineModel,
    at: Placement,
    id: ActionId,
    placed: Result<(), RemoteEditError>,
) -> bool {
    match placed {
        Ok(()) => action_rescheduled(
            inserted,
            after,
            at.track as int,
            id,
            start_of(at),
            None,
        ),
        Err(error) => {
            &&& reschedule_outcome(
                inserted.tracks[at.track as int].lanes(),
                inserted.tracks[at.track as int].lanes(),
                id,
                start_of(at),
                None,
                Err(error),
            )
            &&& action_removed(inserted, after, BEVY_WORLD_TAG, at.track as int, id)
        },
    }
}

/// Whether inserting a clip had that outcome, by way of the timeline with the
/// clip behind the others of its key and the one with it in its place.
pub open spec fn is_placed(
    inserted: TimelineModel,
    moved: TimelineModel,
    after: TimelineModel,
    at: Placement,
    exact: bool,
    id: ActionId,
    result: Result<ActionId, RemoteEditError>,
) -> bool {
    if !exact {
        result == Ok::<ActionId, RemoteEditError>(id) && after == muted(inserted, id, at.enabled)
    } else {
        match result {
            Ok(placed_id) => {
                &&& placed_id == id
                &&& is_put_in_place(inserted, moved, at, id, Ok(()))
                &&& after == muted(moved, id, at.enabled)
            },
            Err(error) => is_put_in_place(inserted, after, at, id, Err(error)),
        }
    }
}

/// How many tracks a clip needs.
pub open spec fn tracks_needed(at: Placement) -> usize {
    if at.track < usize::MAX {
        (at.track + 1) as usize
    } else {
        at.track
    }
}

/// Whether room was made for a clip: one that is restored brings its track
/// back.
pub open spec fn made_room(
    before: TimelineModel,
    ready: TimelineModel,
    at: Placement,
    exact: bool,
) -> bool {
    if exact {
        &&& ready == (TimelineModel { tracks: ready.tracks, ..before })
        &&& grown_to(before.tracks, ready.tracks, tracks_needed(at))
    } else {
        ready == before
    }
}

/// Whether inserting a clip into a timeline had that outcome, room being made
/// for it first.
pub open spec fn timeline_placed(
    before: TimelineModel,
    after: TimelineModel,
    remote: Map<PipelineKey, InterpFn>,
    at: Placement,
    key: RemoteFieldKey,
    subject: Subject,
    target: InsertTarget,
    ease: Option<Ease>,
    exact: bool,
    result: Result<ActionId, RemoteEditError>,
) -> bool {
    exists|ready: TimelineModel|
        {
            &&& #[trigger] made_room(before, ready, at, exact)
            &&& room_taken(ready, after, remote, at, key, subject, target, ease, exact, result)
        }
}

/// Whether inserting a clip into a timeline that has room had that outcome.
pub open spec fn room_taken(
    before: TimelineModel,
    after: TimelineModel,
    remote: Map<PipelineKey, InterpFn>,
    at: Placement,
    key: RemoteFieldKey,
    subject: Subject,
    target: InsertTarget,
    ease: Option<Ease>,
    exact: bool,
    result: Result<ActionId, RemoteEditError>,
) -> bool {
    match insert_fault(before, remote, at, key, subject, target) {
        Some(error) => result == Err::<ActionId, RemoteEditError>(error) && after == before,
        None => exists|inserted: TimelineModel, moved: TimelineModel, id: ActionId|
            {
                &&& is_inserted(
                    before,
                    inserted,
                    remote,
                    at,
                    key,
                    subject,
                    target,
                    ease,
                    id,
                )
                &&& #[trigger] is_placed(inserted, moved, after, at, exact, id, result)
            },
    }
}

/// A clip that was put behind the others of its key is there.
proof fn inserted_is_removable(
    before: TimelineModel,
    after: TimelineModel,
    remote: Map<PipelineKey, InterpFn>,
    at: Placement,
    key: RemoteFieldKey,
    subject: Subject,
    target: InsertTarget,
    ease: Option<Ease>,
    id: ActionId,
)
    requires
        is_inserted(before, after, remote, at, key, subject, target, ease, id),
        insert_fault(before, remote, at, key, subject, target) is None,
    ensures
        removable(after, at.track, id),
{
    let index = at.track as int;
    assert(after.tracks == before.tracks.update(index, after.tracks[index]));
    let action_key = after.actions.actions[id].key;
    let clips = lane(after.tracks[index].lanes(), action_key);
    assert(clips.last().id == id);
    assert(has_clip(clips, id)) by {
        assert(clips[clips.len() - 1].id == id);
    }
}

/// Puts a clip that is behind the others of its key in its exact place, or
/// takes it away again.
fn put_in_place(timeline: &mut BevyTimeline, at: &Placement, id: ActionId) -> (result: Result<
    (),
    RemoteEditError,
>)
    requires
        removable(old(timeline)@, at.track, id),
    ensures
        is_put_in_place(old(timeline)@, final(timeline)@, *at, id, result),
        result is Ok ==> final(timeline)@.actions == old(timeline)@.actions,
{
    let start_at: Ticks = match at.start_at {
        Some(start) => start,
        None => 0,
    };
    match timeline.reschedule_action(at.track, id, start_at, None) {
        Ok(()) => Ok(()),
        Err(error) => {
            // Don't leave the misplaced clip behind.
            let removed = timeline.remove_action(at.track, id);
            assert(removed is Ok);
            Err(error)
        },
    }
}

/// Makes room for a clip.
fn make_room(timeline: &mut BevyTimeline, at: &Placement, exact: bool)
    ensures
        made_room(old(timeline)@, final(timeline)@, *at, exact),
{
    if exact {
        let count: usize = if at.track < usize::MAX {
            at.track + 1
        } else {
            at.track
        };
        timeline.ensure_track_count(count);
    }
}

/// Inserts a constant clip into a timeline.
fn place_constant(
    timeline: &mut BevyTimeline,
    remote: &RemoteActionRegistry,
    at: &Placement,
    key: RemoteFieldKey,
    subject: Subject,
    target: Value,
    ease: Option<Ease>,
    exact: bool,
) -> (result: Result<ActionId, RemoteEditError>)
    ensures
        timeline_placed(
            old(timeline)@,
            final(timeline)@,
            remote@,
            *at,
            key,
            subject,
            InsertTarget::Constant(target),
            ease,
            exact,
            result,
        ),
{
    let ghost start = timeline@;
    make_room(timeline, at, exact);
    let ghost before = timeline@;
    assert(made_room(start, before, *at, exact));
    let ghost goal = InsertTarget::Constant(target);
    let start_at: Ticks = match at.start_at {
        Some(start) => start,
        None => 0,
    };
    let id = match timeline.insert_constant_action(
        at.track,
        remote,
        key,
        subject,
        RemoteTarget::new(target),
        at.duration,
        start_at,
        ease,
    ) {
        Ok(id) => id,
        Err(error) => {
            return Err(error);
        },
    };
    let ghost inserted = timeline@;
    proof {
        assert(is_inserted(before, inserted, remote@, *at, key, subject, goal, ease, id));
        inserted_is_removable(before, inserted, remote@, *at, key, subject, goal, ease, id);
    }
    finish_placement(timeline, at, exact, id)
}

/// Inserts a keyframed clip into a timeline.
fn place_keyframes(
    timeline: &mut BevyTimeline,
    remote: &RemoteActionRegistry,
    at: &Placement,
    key: RemoteFieldKey,
    subject: Subject,
    keyframes: &Vec<RemoteKeyframe>,
    ease: Option<Ease>,
    exact: bool,
) -> (result: Result<ActionId, RemoteEditError>)
    ensures
        timeline_placed(
            old(timeline)@,
            final(timeline)@,
            remote@,
            *at,
            key,
            subject,
            InsertTarget::Keyframes(keyframes@),
            ease,
            exact,
            result,
        ),
{
    let ghost start = timeline@;
    make_room(timeline, at, exact);
    let ghost before = timeline@;
    assert(made_room(start, before, *at, exact));
    let ghost goal = InsertTarget::Keyframes(keyframes@);
    let start_at: Ticks = match at.start_at {
        Some(start) => start,
        None => 0,
    };
    let id = match timeline.insert_keyframes_action(
        at.track,
        remote,
        key,
        subject,
        keyframes,
        at.duration,
        start_at,
        ease,
    ) {
        Ok(id) => id,
        Err(error) => {
            return Err(error);
        },
    };
    let ghost inserted = timeline@;
    proof {
        assert(is_inserted(before, inserted, remote@, *at, key, subject, goal, ease, id));
        inserted_is_removable(before, inserted, remote@, *at, key, subject, goal, ease, id);
    }
    finish_placement(timeline, at, exact, id)
}

/// Gives an inserted clip its exact place and mutes it, as is asked for.
fn finish_placement(timeline: &mut BevyTimeline, at: &Placement, exact: bool, id: ActionId) -> (result:
    Result<ActionId, RemoteEditError>)
    requires
        removable(old(timeline)@, at.track, id),
    ensures
        exists|moved: TimelineModel| #[trigger]
            is_placed(
                old(timeline)@,
                moved,
                final(timeline)@,
                *at,
                exact,
                id,
                result,
            ),
{
    let ghost inserted = timeline@;
    // Journal restores need the clip back at its *exact* spot, not appended
    // after same-key siblings.
    if exact {
        match put_in_place(timeline, at, id) {
            Ok(()) => {},
            Err(error) => {
                assert(is_placed(
                    inserted,
                    inserted,
                    timeline@,
                    *at,
                    exact,
                    id,
                    Err(error),
                ));
                return Err(error);
            },
        }
    }
    let ghost moved = timeline@;
    let muted_insert = match at.enabled {
        Some(enabled) => !enabled,
        None => false,
    };
    if muted_insert {
        let set = timeline.set_action_enabled(id, false);
        assert(set is Ok);
    }
    assert(is_placed(inserted, moved, timeline@, *at, exact, id, Ok(id)));
    Ok(id)
}

/// What is kept about an inserted clip: its metadata and, for asset clips,
/// the addressing that makes them restorable.
pub open spec fn insert_recorded(
    studio: StudioModel,
    id: TimelineId,
    action: u64,
    at: Placement,
) -> StudioModel {
    let with_meta = if at.label is Some || at.color is Some {
        studio.with_edits(
            id,
            studio.edits_of(id).with_meta(action, ClipMeta { label: at.label, color: at.color }),
        )
    } else {
        studio
    };
    match at.asset_of {
        Some(path) => with_meta.with_edits(
            id,
            EditsModel {
                asset_refs: with_meta.edits_of(id).asset_refs.insert(action, (at.entity, path)),
                ..with_meta.edits_of(id)
            },
        ),
        None => with_meta,
    }
}

/// Maintain insert-time side tables: clip metadata and, for asset clips, the
/// addressing that makes them restorable.
fn record_insert_tables(studio: &mut Studio, id: TimelineId, action: u64, at: &Placement)
    ensures
        final(studio)@ == insert_recorded(old(studio)@, id, action, *at),
{
    if at.label.is_some() || at.color.is_some() {
        studio.state.set_clip_meta(
            id,
            action,
            ClipMeta { label: copy_text(&at.label), color: at.color },
        );
    }
    match &at.asset_of {
        Some(path) => {
            studio.state.set_asset_ref(id, action, at.entity, path.clone());
        },
        None => {},
    }
    assert(studio@ =~= insert_recorded(old(studio)@, id, action, *at));
}

/// The outcome of an edit: its result and its inverse.
pub type Applied = Result<(OpResult, EditOp), Fault>;

/// Whether putting a clip on a timeline had that outcome.
pub open spec fn clip_placed(
    id: TimelineId,
    at: Placement,
    key: RemoteFieldKey,
    subject: Subject,
    target: InsertTarget,
    ease: Option<Ease>,
    exact: bool,
    resolved: Option<Arc<Json>>,
    before: StudioModel,
    after: StudioModel,
    result: Applied,
) -> bool {
    if !before.timelines.contains_key(id) {
        result == Err::<(OpResult, EditOp), Fault>(Fault::NoTimeline { id: id.raw }) && after
            == before
    } else {
        exists|model: TimelineModel, placed: Result<ActionId, RemoteEditError>|
            {
                &&& #[trigger] timeline_placed(
                    before.timelines[id],
                    model,
                    before.registry.remote@,
                    at,
                    key,
                    subject,
                    target,
                    ease,
                    exact,
                    placed,
                )
                &&& match placed {
                    Err(error) => {
                        &&& result == Err::<(OpResult, EditOp), Fault>(Fault::Edit(error))
                        &&& after == before.with_timeline(id, model)
                    },
                    Ok(action) => {
                        &&& result == Ok::<(OpResult, EditOp), Fault>(
                            (
                                OpResult::Action { action_id: action.bits, resolved_to: resolved },
                                EditOp::Remove { track: at.track, action_id: action.bits },
                            ),
                        )
                        &&& after == insert_recorded(
                            before.with_timeline(id, model),
                            id,
                            action.bits,
                            at,
                        )
                    },
                }
            }
    }
}

/// Whether the target of an insert was settled so: as it is given, or a
/// relative one resolved.
pub open spec fn target_settled<H: RemoteHost>(
    host: &H,
    id: TimelineId,
    at: Placement,
    to: Json,
    to_relative: Option<Delta>,
    before: StudioModel,
    after: StudioModel,
    result: Result<Option<Arc<Json>>, Fault>,
) -> bool {
    match to_relative {
        None => result == Ok::<Option<Arc<Json>>, Fault>(None) && after == before,
        Some(delta) => match result {
            Ok(resolved) => resolved matches Some(sum) && relative_resolved(
                host,
                id,
                at,
                to,
                delta,
                before,
                after,
                Ok(*sum),
            ),
            Err(fault) => relative_resolved(host, id, at, to, delta, before, after, Err(fault)),
        },
    }
}

/// The target that is animated to.
pub open spec fn settled_target(to: Json, resolved: Option<Arc<Json>>) -> Json {
    match resolved {
        Some(sum) => *sum,
        None => to,
    }
}

/// Whether the field, the subject and the value of a constant insert were
/// found so.
pub open spec fn constant_planned<H: RemoteHost>(
    host: &H,
    catalog: CatalogModel,
    at: Placement,
    to: Json,
    result: Result<(RemoteFieldKey, Subject, Value), Fault>,
) -> bool {
    match catalog.entry(at.component@, at.field@) {
        None => result == Err::<(RemoteFieldKey, Subject, Value), Fault>(
            Fault::Op(OpFault::NotAnimatable { component: at.component, field: at.field }),
        ),
        Some(entry) => exists|decoded: Result<Value, CatalogError>|
            {
                &&& #[trigger] decodes(host, entry.pipeline.target_id, to, decoded)
                &&& match decoded {
                    Err(error) => result == Err::<(RemoteFieldKey, Subject, Value), Fault>(
                        Fault::Catalog(error),
                    ),
                    Ok(value) => match result {
                        Ok((key, subject, planned)) => {
                            &&& key == entry.key()
                            &&& planned == value
                            &&& subject_resolved(host, entry, at, Ok(subject))
                        },
                        Err(fault) => subject_resolved(host, entry, at, Err(fault)),
                    },
                }
            },
    }
}

/// Finds the field, the subject and the value of a constant insert.
fn plan_constant<H: RemoteHost>(host: &H, studio: &Studio, at: &Placement, to: &Json) -> (result:
    Result<(RemoteFieldKey, Subject, Value), Fault>)
    ensures
        constant_planned(host, studio.catalog@, *at, *to, result),
{
    let entry = match studio.catalog.get(at.component.as_str(), at.field.as_str()) {
        Some(entry) => entry,
        None => {
            return Err(
                Fault::Op(
                    OpFault::NotAnimatable {
                        component: at.component.clone(),
                        field: at.field.clone(),
                    },
                ),
            );
        },
    };
    let decoded = host.decode(entry.pipeline.target_id, to);
    assert(decodes(host, entry.pipeline.target_id, *to, decoded));
    let value = match decoded {
        Ok(value) => value,
        Err(error) => {
            return Err(Fault::Catalog(error));
        },
    };
    match resolve_subject(host, entry, at) {
        Ok(subject) => Ok((entry.key(), subject, value)),
        Err(fault) => Err(fault),
    }
}

/// Whether applying a constant insert had that outcome, by way of its ease,
/// the settled target, the studio behind it and what was found.
pub open spec fn insert_stepped<H: RemoteHost>(
    host: &H,
    id: TimelineId,
    at: Placement,
    to: Json,
    to_relative: Option<Delta>,
    exact: bool,
    before: StudioModel,
    eased: Result<Option<Ease>, Fault>,
    settled: Result<Option<Arc<Json>>, Fault>,
    between: StudioModel,
    planned: Result<(RemoteFieldKey, Subject, Value), Fault>,
    after: StudioModel,
    result: Applied,
) -> bool {
    &&& op_ease_resolves(at.ease, eased)
    &&& match eased {
        Err(fault) => result == Err::<(OpResult, EditOp), Fault>(fault) && after == before,
        Ok(ease) => {
            &&& target_settled(host, id, at, to, to_relative, before, between, settled)
            &&& match settled {
                Err(fault) => result == Err::<(OpResult, EditOp), Fault>(fault) && after == between,
                Ok(resolved) => {
                    &&& constant_planned(
                        host,
                        before.catalog,
                        at,
                        settled_target(to, resolved),
                        planned,
                    )
                    &&& match planned {
                        Err(fault) => result == Err::<(OpResult, EditOp), Fault>(fault) && after
                            == between,
                        Ok((key, subject, value)) => clip_placed(
                            id,
                            at,
                            key,
                            subject,
                            InsertTarget::Constant(value),
                            ease,
                            exact,
                            resolved,
                            between,
                            after,
                            result,
                        ),
                    }
                },
            }
        },
    }
}

/// Whether applying a constant insert had that outcome.
pub open spec fn insert_applied<H: RemoteHost>(
    host: &H,
    id: TimelineId,
    at: Placement,
    to: Json,
    to_relative: Option<Delta>,
    exact: bool,
    before: StudioModel,
    after: StudioModel,
    result: Applied,
) -> bool {
    exists|
        eased: Result<Option<Ease>, Fault>,
        settled: Result<Option<Arc<Json>>, Fault>,
        between: StudioModel,
        planned: Result<(RemoteFieldKey, Subject, Value), Fault>,
    | #[trigger]
        insert_stepped(
            host,
            id,
            at,
            to,
            to_relative,
            exact,
            before,
            eased,
            settled,
            between,
            planned,
            after,
            result,
        )
}

/// Puts the outcome of an insert into a timeline together.
fn conclude_placement(
    studio: &mut Studio,
    id: TimelineId,
    timeline: BevyTimeline,
    at: &Placement,
    placed: Result<ActionId, RemoteEditError>,
    resolved: Option<Arc<Json>>,
) -> (result: Applied)
    ensures
        match placed {
            Err(error) => {
                &&& result == Err::<(OpResult, EditOp), Fault>(Fault::Edit(error))
                &&& final(studio)@ == old(studio)@.with_timeline(id, timeline@)
            },
            Ok(action) => {
                &&& result == Ok::<(OpResult, EditOp), Fault>(
                    (
                        OpResult::Action { action_id: action.bits, resolved_to: resolved },
                        EditOp::Remove { track: at.track, action_id: action.bits },
                    ),
                )
                &&& final(studio)@ == insert_recorded(
                    old(studio)@.with_timeline(id, timeline@),
                    id,
                    action.bits,
                    *at,
                )
            },
        },
{
    studio.manager.put(id, timeline);
    assert(studio@ =~= old(studio)@.with_timeline(id, timeline@));
    match placed {
        Err(error) => Err(Fault::Edit(error)),
        Ok(action) => {
            let bits = action.to_bits();
            record_insert_tables(studio, id, bits, at);
            Ok(
                (
                    OpResult::Action { action_id: bits, resolved_to: resolved },
                    EditOp::Remove { track: at.track, action_id: bits },
                ),
            )
        },
    }
}

/// Taking a timeline out and putting another in its place is putting it there.
proof fn replaced_timeline(before: StudioModel, without: StudioModel, id: TimelineId, model: TimelineModel)
    requires
        without == (StudioModel { timelines: before.timelines.remove(id), ..before }),
    ensures
        without.with_timeline(id, model) == before.with_timeline(id, model),
{
    assert(without.with_timeline(id, model) =~= before.with_timeline(id, model));
}

/// Inserts a constant clip.
pub fn apply_insert<H: RemoteHost>(
    host: &H,
    studio: &mut Studio,
    id: TimelineId,
    at: &Placement,
    to: &Json,
    to_relative: Option<Delta>,
    exact: bool,
) -> (result: Applied)
    ensures
        insert_applied(
            host,
            id,
            *at,
            *to,
            to_relative,
            exact,
            old(studio)@,
            final(studio)@,
            result,
        ),
{
    let ghost before = studio@;
    let ghost no_target = Ok::<Option<Arc<Json>>, Fault>(None);
    let ghost no_plan: Result<(RemoteFieldKey, Subject, Value), Fault> = Err(Fault::NoManager);
    let eased = parse_op_ease(&at.ease);
    let ease = match eased {
        Ok(ease) => ease,
        Err(fault) => {
            assert(insert_stepped(
                host,
                id,
                *at,
                *to,
                to_relative,
                exact,
                before,
                eased,
                no_target,
                before,
                no_plan,
                studio@,
                Err(fault),
            ));
            return Err(fault);
        },
    };
    // Relative targets resolve to an absolute first, so the journal/export
    // never replay (and double-apply) a delta.
    let resolved: Option<Arc<Json>> = match to_relative {
        Some(delta) => match resolve_relative(host, studio, id, at, to, delta) {
            Ok(sum) => Some(Arc::new(sum)),
            Err(fault) => {
                assert(insert_stepped(
                    host,
                    id,
                    *at,
                    *to,
                    to_relative,
                    exact,
                    before,
                    Ok(ease),
                    Err(fault),
                    studio@,
                    no_plan,
                    studio@,
                    Err(fault),
                ));
                return Err(fault);
            },
        },
        None => None,
    };
    let ghost between = studio@;
    let planned = match &resolved {
        Some(sum) => plan_constant(host, studio, at, sum),
        None => plan_constant(host, studio, at, to),
    };
    let (key, subject, value) = match planned {
        Ok(plan) => plan,
        Err(fault) => {
            assert(insert_stepped(
                host,
                id,
                *at,
                *to,
                to_relative,
                exact,
                before,
                Ok(ease),
                Ok(resolved),
                between,
                planned,
                studio@,
                Err(fault),
            ));
            return Err(fault);
        },
    };
    let result = match studio.manager.take(&id) {
        None => {
            assert(studio@ =~= between);
            Err(Fault::NoTimeline { id: id.raw() })
        },
        Some(mut timeline) => {
            let ghost without = studio@;
            let placed = place_constant(
                &mut timeline,
                &studio.manager.registry().remote,
                at,
                key,
                subject,
                value,
                ease,
                exact,
            );
            proof {
                assert(without =~= (StudioModel {
                    timelines: between.timelines.remove(id),
                    ..between
                }));
                replaced_timeline(between, without, id, timeline@);
            }
            let target: Option<Arc<Json>> = match &resolved {
                Some(sum) => Some(sum.clone()),
                None => None,
            };
            conclude_placement(studio, id, timeline, at, placed, target)
        },
    };
    assert(clip_placed(
        id,
        *at,
        key,
        subject,
        InsertTarget::Constant(value),
        ease,
        exact,
        resolved,
        between,
        studio@,
        result,
    ));
    assert(insert_stepped(
        host,
        id,
        *at,
        *to,
        to_relative,
        exact,
        before,
        Ok(ease),
        Ok(resolved),
        between,
        planned,
        studio@,
        result,
    ));
    result
}

/// Whether the field, the subject and the points of a keyframed insert were
/// found so.
pub open spec fn keyframes_planned<H: RemoteHost>(
    host: &H,
    catalog: CatalogModel,
    at: Placement,
    keyframes: Seq<KeyframeDoc>,
    result: Result<(RemoteFieldKey, Subject, Seq<RemoteKeyframe>), Fault>,
) -> bool {
    match catalog.entry(at.component@, at.field@) {
        None => result == Err::<(RemoteFieldKey, Subject, Seq<RemoteKeyframe>), Fault>(
            Fault::Op(OpFault::NotAnimatable { component: at.component, field: at.field }),
        ),
        Some(entry) => exists|read: Result<Seq<RemoteKeyframe>, Fault>|
            {
                &&& #[trigger] keyframes_read(host, keyframes, entry.pipeline.target_id, read)
                &&& match read {
                    Err(fault) => result == Err::<
                        (RemoteFieldKey, Subject, Seq<RemoteKeyframe>),
                        Fault,
                    >(fault),
                    Ok(points) => match result {
                        Ok((key, subject, planned)) => {
                            &&& key == entry.key()
                            &&& planned == points
                            &&& subject_resolved(host, entry, at, Ok(subject))
                        },
                        Err(fault) => subject_resolved(host, entry, at, Err(fault)),
                    },
                }
            },
    }
}

/// The plan with its points as a sequence.
pub open spec fn plan_view(
    plan: Result<(RemoteFieldKey, Subject, Vec<RemoteKeyframe>), Fault>,
) -> Result<(RemoteFieldKey, Subject, Seq<RemoteKeyframe>), Fault> {
    match plan {
        Ok((key, subject, points)) => Ok((key, subject, points@)),
        Err(fault) => Err(fault),
    }
}

/// Finds the field, the subject and the points of a keyframed insert.
fn plan_keyframes<H: RemoteHost>(
    host: &H,
    studio: &Studio,
    at: &Placement,
    keyframes: &Vec<KeyframeDoc>,
) -> (result: Result<(RemoteFieldKey, Subject, Vec<RemoteKeyframe>), Fault>)
    ensures
        keyframes_planned(host, studio.catalog@, *at, keyframes@, plan_view(result)),
{
    let entry = match studio.catalog.get(at.component.as_str(), at.field.as_str()) {
        Some(entry) => entry,
        None => {
            return Err(
                Fault::Op(
                    OpFault::NotAnimatable {
                        component: at.component.clone(),
                        field: at.field.clone(),
                    },
                ),
            );
        },
    };
    let read = decode_keyframes(host, keyframes, entry.pipeline.target_id);
    assert(keyframes_read(host, keyframes@, entry.pipeline.target_id, points_view(read)));
    let points = match read {
        Ok(points) => points,
        Err(fault) => {
            return Err(fault);
        },
    };
    match resolve_subject(host, entry, at) {
        Ok(subject) => Ok((entry.key(), subject, points)),
        Err(fault) => Err(fault),
    }
}

/// Whether applying a keyframed insert had that outcome, by way of its ease
/// and what was found.
pub open spec fn keyframes_stepped<H: RemoteHost>(
    host: &H,
    id: TimelineId,
    at: Placement,
    keyframes: Seq<KeyframeDoc>,
    exact: bool,
    before: StudioModel,
    eased: Result<Option<Ease>, Fault>,
    planned: Result<(RemoteFieldKey, Subject, Seq<RemoteKeyframe>), Fault>,
    after: StudioModel,
    result: Applied,
) -> bool {
    &&& op_ease_resolves(at.ease, eased)
    &&& match eased {
        Err(fault) => result == Err::<(OpResult, EditOp), Fault>(fault) && after == before,
        Ok(ease) => {
            &&& keyframes_planned(host, before.catalog, at, keyframes, planned)
            &&& match planned {
                Err(fault) => result == Err::<(OpResult, EditOp), Fault>(fault) && after == before,
                Ok((key, subject, points)) => clip_placed(
                    id,
                    at,
                    key,
                    subject,
                    InsertTarget::Keyframes(points),
                    ease,
                    exact,
                    None,
                    before,
                    after,
                    result,
                ),
            }
        },
    }
}

/// Whether applying a keyframed insert had that outcome.
pub open spec fn insert_keyframes_applied<H: RemoteHost>(
    host: &H,
    id: TimelineId,
    at: Placement,
    keyframes: Seq<KeyframeDoc>,
    exact: bool,
    before: StudioModel,
    after: StudioModel,
    result: Applied,
) -> bool {
    exists|
        eased: Result<Option<Ease>, Fault>,
        planned: Result<(RemoteFieldKey, Subject, Seq<RemoteKeyframe>), Fault>,
    | #[trigger]
        keyframes_stepped(
            host,
            id,
            at,
            keyframes,
            exact,
            before,
            eased,
            planned,
            after,
            result,
        )
}

/// Inserts a keyframed clip.
pub fn apply_insert_keyframes<H: RemoteHost>(
    host: &H,
    studio: &mut Studio,
    id: TimelineId,
    at: &Placement,
    keyframes: &Vec<KeyframeDoc>,
    exact: bool,
) -> (result: Applied)
    ensures
        insert_keyframes_applied(
            host,
            id,
            *at,
            keyframes@,
            exact,
            old(studio)@,
            final(studio)@,
            result,
        ),
{
    let ghost before = studio@;
    let ghost no_plan: Result<(RemoteFieldKey, Subject, Seq<RemoteKeyframe>), Fault> = Err(
        Fault::NoManager,
    );
    let eased = parse_op_ease(&at.ease);
    let ease = match eased {
        Ok(ease) => ease,
        Err(fault) => {
            assert(keyframes_stepped(
                host,
                id,
                *at,
                keyframes@,
                exact,
                before,
                eased,
                no_plan,
                studio@,
                Err(fault),
            ));
            return Err(fault);
        },
    };
    let planned = plan_keyframes(host, studio, at, keyframes);
    let ghost plan = plan_view(planned);
    let (key, subject, points) = match planned {
        Ok(plan) => plan,
        Err(fault) => {
            assert(keyframes_stepped(
                host,
                id,
                *at,
                keyframes@,
                exact,
                before,
                Ok(ease),
                plan,
                studio@,
                Err(fault),
            ));
            return Err(fault);
        },
    };
    let result = match studio.manager.take(&id) {
        None => {
            assert(studio@ =~= before);
            Err(Fault::NoTimeline { id: id.raw() })
        },
        Some(mut timeline) => {
            let ghost without = studio@;
            let placed = place_keyframes(
                &mut timeline,
                &studio.manager.registry().remote,
                at,
                key,
                subject,
                &points,
                ease,
                exact,
            );
            proof {
                assert(without =~= (StudioModel {
                    timelines: before.timelines.remove(id),
                    ..before
                }));
                replaced_timeline(before, without, id, timeline@);
            }
            conclude_placement(studio, id, timeline, at, placed, None)
        },
    };
    assert(clip_placed(
        id,
        *at,
        key,
        subject,
        InsertTarget::Keyframes(points@),
        ease,
        exact,
        None,
        before,
        studio@,
        result,
    ));
    assert(keyframes_stepped(
        host,
        id,
        *at,
        keyframes@,
        exact,
        before,
        Ok(ease),
        plan,
        studio@,
        result,
    ));
    result
}

} // verus!
