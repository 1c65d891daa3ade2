//! Loading a document into a timeline.
use crate::action::Value;
use crate::bevy_motiongfx::manager::TimelineId;
use crate::bevy_motiongfx::remote::batch::apply::{
    content_stays_seekable, edit_finished, finish_edit, growing_stays_seekable, only_content,
    only_content_twice, stays_seekable,
};
use crate::bevy_motiongfx::remote::batch::op::{copy_text, EditOp, OpResult, Placement};
use crate::bevy_motiongfx::remote::batch::run::{
    all_tried, applied_until, apply_all, reverse_ops, try_all,
};
use crate::bevy_motiongfx::remote::batch::snapshot::{
    all_snapshotted, apply_clear, clear_applied, ops_view, snapshot_all_clips,
};
use crate::bevy_motiongfx::remote::batch::value::{decode_keyframes, keyframes_read, points_view};
use crate::bevy_motiongfx::remote::catalog::{CatalogModel, MotionGfxCatalog};
use crate::bevy_motiongfx::remote::fault::{Attempt, DocumentFault, Fault};
use crate::bevy_motiongfx::remote::host::{decodes, NamedEntity, RemoteHost};
use crate::bevy_motiongfx::remote::names::{are_named, bits_named, find_named};
use crate::bevy_motiongfx::remote::persist::document::{
    DocAction, DocSubject, Document, FORMAT, FORMAT_VERSION,
};
use crate::bevy_motiongfx::remote::persist::export::snapshots_change_content_only;
use crate::bevy_motiongfx::remote::state::markers::Marker;
use crate::bevy_motiongfx::remote::state::EditsModel;
use crate::bevy_motiongfx::remote::studio::{Studio, StudioModel};
use crate::remote::RemoteKeyframe;
use crate::seqs::take_one_more;
use crate::text::same_text;
use crate::timeline::edit::grown_to;
use crate::timeline::TimelineModel;
use std::sync::Arc;
use vstd::prelude::*;

verus! {

/// A request to load a document.
#[derive(Debug)]
pub struct ImportParams {
    pub id: u64,
    pub document: Document,
    /// `replace`, or if absent, clears the timeline first. `append` adds on
    /// top of the existing content.
    pub mode: Option<String>,
    /// Entities of names, before those that have the names.
    pub bindings: Vec<(String, u64)>,
}

/// Whether the timeline is cleared first.
pub open spec fn replaces(mode: Option<String>) -> Result<bool, Fault> {
    match mode {
        None => Ok(true),
        Some(mode) => if mode@ == "replace"@ {
            Ok(true)
        } else if mode@ == "append"@ {
            Ok(false)
        } else {
            Err(Fault::Document(DocumentFault::UnknownMode { mode }))
        },
    }
}

/// What is wrong with the document as a whole, or whether the timeline is
/// cleared first.
pub open spec fn opened(p: ImportParams) -> Result<bool, Fault> {
    if p.document.format@ != FORMAT@ {
        Err(Fault::Document(DocumentFault::UnknownFormat { format: p.document.format }))
    } else if !(1 <= p.document.format_version <= FORMAT_VERSION) {
        Err(
            Fault::Document(
                DocumentFault::UnsupportedVersion { version: p.document.format_version },
            ),
        )
    } else {
        replaces(p.mode)
    }
}

/// What is wrong with the document as a whole, or whether the timeline is
/// cleared first.
fn open_document(p: &ImportParams) -> (result: Result<bool, Fault>)
    ensures
        result == opened(*p),
{
    if !same_text(p.document.format.as_str(), FORMAT) {
        return Err(
            Fault::Document(DocumentFault::UnknownFormat { format: p.document.format.clone() }),
        );
    }
    if p.document.format_version < 1 || p.document.format_version > FORMAT_VERSION {
        return Err(
            Fault::Document(
                DocumentFault::UnsupportedVersion { version: p.document.format_version },
            ),
        );
    }
    match &p.mode {
        None => Ok(true),
        Some(mode) => {
            if same_text(mode.as_str(), "replace") {
                Ok(true)
            } else if same_text(mode.as_str(), "append") {
                Ok(false)
            } else {
                Err(Fault::Document(DocumentFault::UnknownMode { mode: mode.clone() }))
            }
        },
    }
}

/// The entity that a name is bound to: a later binding counts before an
/// earlier one.
pub open spec fn bound_to(bindings: Seq<(String, u64)>, name: Seq<char>) -> Option<u64>
    decreases bindings.len(),
{
    if bindings.len() == 0 {
        None
    } else if bindings.last().0@ == name {
        Some(bindings.last().1)
    } else {
        bound_to(bindings.drop_last(), name)
    }
}

/// The entity that a subject means: of a name what it is bound to, or else the
/// first that has it.
pub open spec fn entity_meant(
    subject: DocSubject,
    bindings: Seq<(String, u64)>,
    entities: Seq<NamedEntity>,
) -> Option<u64> {
    match subject {
        DocSubject::Resource => Some(0),
        DocSubject::Entity { entity } => Some(entity),
        DocSubject::Name { name } => match bound_to(bindings, name@) {
            Some(entity) => Some(entity),
            None => if bits_named(entities, name@).len() > 0 {
                Some(bits_named(entities, name@)[0])
            } else {
                None
            },
        },
    }
}

/// The entity that a name is bound to.
fn find_bound(bindings: &Vec<(String, u64)>, name: &str) -> (entity: Option<u64>)
    ensures
        entity == bound_to(bindings@, name@),
{
    let mut entity: Option<u64> = None;
    let mut i: usize = 0;
    assert(bindings@.take(0) =~= Seq::<(String, u64)>::empty());
    while i < bindings.len()
        invariant
            i <= bindings@.len(),
            entity == bound_to(bindings@.take(i as int), name@),
        decreases bindings@.len() - i,
    {
        proof {
            take_one_more(bindings@, i as int);
        }
        if same_text(bindings[i].0.as_str(), name) {
            entity = Some(bindings[i].1);
        }
        i += 1;
    }
    assert(bindings@.take(i as int) =~= bindings@);
    entity
}

/// The entity that a subject means.
fn find_meant(
    subject: &DocSubject,
    bindings: &Vec<(String, u64)>,
    entities: &Vec<NamedEntity>,
) -> (entity: Option<u64>)
    ensures
        entity == entity_meant(*subject, bindings@, entities@),
{
    match subject {
        DocSubject::Resource => Some(0),
        DocSubject::Entity { entity } => Some(*entity),
        DocSubject::Name { name } => match find_bound(bindings, name.as_str()) {
            Some(entity) => Some(entity),
            None => {
                let found = find_named(entities, name.as_str());
                if found.len() > 0 {
                    Some(found[0])
                } else {
                    None
                }
            },
        },
    }
}

/// Where the clip of an action goes.
pub open spec fn placement_planned(action: DocAction, track: usize, entity: u64) -> Placement {
    Placement {
        track,
        entity,
        component: action.component,
        field: action.field,
        asset_of: action.asset_of,
        duration: action.duration,
        start_at: Some(action.start),
        ease: action.ease,
        label: action.label,
        color: action.color,
        enabled: action.enabled,
    }
}

/// Whether the edit inserts the clip of an action, exactly where it says.
pub open spec fn inserts_action(action: DocAction, track: usize, entity: u64, op: EditOp) -> bool {
    match op {
        EditOp::Insert { at, to, to_relative, exact, restore_id } => {
            &&& action.to == Some(to)
            &&& action.keyframes is None
            &&& *at == placement_planned(action, track, entity)
            &&& to_relative is None
            &&& exact
            &&& restore_id is None
        },
        EditOp::InsertKeyframes { at, keyframes, exact, restore_id } => {
            &&& action.to is None
            &&& action.keyframes == Some(keyframes)
            &&& *at == placement_planned(action, track, entity)
            &&& exact
            &&& restore_id is None
        },
        _ => false,
    }
}

/// The places of the actions of a track.
pub open spec fn track_places(track: int, len: nat) -> Seq<(int, int)> {
    Seq::new(len, |i: int| (track, i))
}

/// The places of the actions of the first `n` tracks: track by track.
pub open spec fn doc_places(tracks: Seq<Vec<DocAction>>, n: int) -> Seq<(int, int)>
    decreases n,
{
    if n <= 0 {
        Seq::empty()
    } else {
        doc_places(tracks, n - 1) + track_places(n - 1, tracks[n - 1]@.len())
    }
}

/// The action at a place.
pub open spec fn action_at(tracks: Seq<Vec<DocAction>>, place: (int, int)) -> DocAction {
    tracks[place.0]@[place.1]
}

/// What is wrong with the action at a place.
pub open spec fn place_fault(
    tracks: Seq<Vec<DocAction>>,
    place: (int, int),
    bindings: Seq<(String, u64)>,
    entities: Seq<NamedEntity>,
) -> Option<Fault> {
    let action = action_at(tracks, place);
    let track = place.0 as usize;
    let index = place.1 as usize;
    if entity_meant(action.subject, bindings, entities) is None {
        Some(
            Fault::Document(
                DocumentFault::NoEntityNamed {
                    track,
                    action: index,
                    name: action.subject->name,
                },
            ),
        )
    } else if (action.to is Some) == (action.keyframes is Some) {
        Some(Fault::Document(DocumentFault::TargetMissing { track, action: index }))
    } else {
        None
    }
}

/// Whether the first of the actions of a document are inserted by those edits.
pub open spec fn are_planned(
    tracks: Seq<Vec<DocAction>>,
    bindings: Seq<(String, u64)>,
    entities: Seq<NamedEntity>,
    ops: Seq<EditOp>,
) -> bool {
    let places = doc_places(tracks, tracks.len() as int);
    &&& ops.len() <= places.len()
    &&& forall|i: int|
        0 <= i < ops.len() ==> {
            &&& place_fault(tracks, places[i], bindings, entities) is None
            &&& inserts_action(
                action_at(tracks, places[i]),
                places[i].0 as usize,
                entity_meant(action_at(tracks, places[i]).subject, bindings, entities)->0,
                #[trigger] ops[i],
            )
        }
}

/// Whether a document is planned so: every action is inserted, or there is
/// something wrong with one, and nothing with those in front of it.
pub open spec fn is_plan(
    tracks: Seq<Vec<DocAction>>,
    bindings: Seq<(String, u64)>,
    entities: Seq<NamedEntity>,
    result: Result<Seq<EditOp>, Fault>,
) -> bool {
    let places = doc_places(tracks, tracks.len() as int);
    match result {
        Ok(ops) => ops.len() == places.len() && are_planned(tracks, bindings, entities, ops),
        Err(fault) => exists|n: int| #[trigger]
            fails_first_at(tracks, bindings, entities, places, n, fault),
    }
}

/// Whether the action at one of the places is the first that something is
/// wrong with.
pub open spec fn fails_first_at(
    tracks: Seq<Vec<DocAction>>,
    bindings: Seq<(String, u64)>,
    entities: Seq<NamedEntity>,
    places: Seq<(int, int)>,
    n: int,
    fault: Fault,
) -> bool {
    &&& 0 <= n < places.len()
    &&& forall|i: int|
        0 <= i < n ==> place_fault(tracks, #[trigger] places[i], bindings, entities) is None
    &&& place_fault(tracks, places[n], bindings, entities) == Some(fault)
}

/// The place behind those of the tracks in front of it.
proof fn place_is_there(tracks: Seq<Vec<DocAction>>, t: int, i: int, n: int)
    requires
        0 <= t < n <= tracks.len(),
        0 <= i < tracks[t]@.len(),
    ensures
        doc_places(tracks, t).len() + i < doc_places(tracks, n).len(),
        doc_places(tracks, n)[doc_places(tracks, t).len() + i] == (t, i),
    decreases n,
{
    if n > t + 1 {
        place_is_there(tracks, t, i, n - 1);
    }
}

/// The edit that inserts the clip of an action.
fn plan_action(action: &DocAction, track: usize, entity: u64) -> (op: Option<EditOp>)
    ensures
        op is Some <==> (action.to is Some) != (action.keyframes is Some),
        op is Some ==> inserts_action(*action, track, entity, op->0),
{
    let at = Placement {
        track,
        entity,
        component: action.component.clone(),
        field: action.field.clone(),
        asset_of: copy_text(&action.asset_of),
        duration: action.duration,
        start_at: Some(action.start),
        ease: match &action.ease {
            Some(ease) => Some(ease.copy()),
            None => None,
        },
        label: copy_text(&action.label),
        color: action.color,
        enabled: action.enabled,
    };
    match (&action.to, &action.keyframes) {
        (Some(to), None) => Some(
            EditOp::Insert {
                at: Arc::new(at),
                to: to.clone(),
                to_relative: None,
                // Documents carry exact starts. Appending after same-key clips
                // would distort the layout.
                exact: true,
                restore_id: None,
            },
        ),
        (None, Some(keyframes)) => Some(
            EditOp::InsertKeyframes {
                at: Arc::new(at),
                keyframes: keyframes.clone(),
                exact: true,
                restore_id: None,
            },
        ),
        _ => None,
    }
}

/// The edits that insert the clips of a document.
pub fn plan_import(
    tracks: &Vec<Vec<DocAction>>,
    bindings: &Vec<(String, u64)>,
    entities: &Vec<NamedEntity>,
) -> (result: Result<Vec<EditOp>, Fault>)
    ensures
        is_plan(tracks@, bindings@, entities@, ops_view(result)),
{
    let ghost places = doc_places(tracks@, tracks@.len() as int);
    let mut ops: Vec<EditOp> = Vec::new();
    let mut t: usize = 0;
    while t < tracks.len()
        invariant
            t <= tracks@.len(),
            places == doc_places(tracks@, tracks@.len() as int),
            ops@.len() == doc_places(tracks@, t as int).len(),
            are_planned(tracks@, bindings@, entities@, ops@),
        decreases tracks@.len() - t,
    {
        let actions = &tracks[t];
        let mut i: usize = 0;
        while i < actions.len()
            invariant
                t < tracks@.len(),
                actions == tracks@[t as int],
                i <= actions@.len(),
                places == doc_places(tracks@, tracks@.len() as int),
                ops@.len() == doc_places(tracks@, t as int).len() + i,
                are_planned(tracks@, bindings@, entities@, ops@),
            decreases actions@.len() - i,
        {
            let action = &actions[i];
            let ghost n = ops@.len() as int;
            let ghost done = ops@;
            proof {
                place_is_there(tracks@, t as int, i as int, tracks@.len() as int);
                assert(places[n] == (t as int, i as int));
                assert forall|k: int| 0 <= k < n implies place_fault(
                    tracks@,
                    #[trigger] places[k],
                    bindings@,
                    entities@,
                ) is None by {
                    assert(inserts_action(
                        action_at(tracks@, places[k]),
                        places[k].0 as usize,
                        entity_meant(action_at(tracks@, places[k]).subject, bindings@, entities@)->0,
                        ops@[k],
                    ));
                }
            }
            let entity = match find_meant(&action.subject, bindings, entities) {
                Some(entity) => entity,
                None => {
                    let name = match &action.subject {
                        DocSubject::Name { name } => name.clone(),
                        _ => {
                            assert(false);
                            String::new()
                        },
                    };
                    let fault = Fault::Document(
                        DocumentFault::NoEntityNamed { track: t, action: i, name },
                    );
                    assert(fails_first_at(tracks@, bindings@, entities@, places, n, fault));
                    return Err(fault);
                },
            };
            match plan_action(action, t, entity) {
                Some(op) => {
                    ops.push(op);
                    assert forall|k: int| 0 <= k < ops@.len() implies {
                        &&& place_fault(tracks@, places[k], bindings@, entities@) is None
                        &&& inserts_action(
                            action_at(tracks@, places[k]),
                            places[k].0 as usize,
                            entity_meant(
                                action_at(tracks@, places[k]).subject,
                                bindings@,
                                entities@,
                            )->0,
                            #[trigger] ops@[k],
                        )
                    } by {
                        if k < n {
                            assert(ops@[k] == done[k]);
                        }
                    }
                },
                None => {
                    let fault = Fault::Document(
                        DocumentFault::TargetMissing { track: t, action: i },
                    );
                    assert(fails_first_at(tracks@, bindings@, entities@, places, n, fault));
                    return Err(fault);
                },
            }
            i += 1;
        }
        t += 1;
    }
    Ok(ops)
}

/// Whether the application can read what an insert holds, or why not.
pub open spec fn op_readable<H: RemoteHost>(
    host: &H,
    catalog: CatalogModel,
    op: EditOp,
    result: Result<(), Fault>,
) -> bool {
    match op {
        EditOp::Insert { at, to, .. } => match catalog.entry(at.component@, at.field@) {
            None => result == Err::<(), Fault>(
                Fault::Document(
                    DocumentFault::NotAnimatable { component: at.component, field: at.field },
                ),
            ),
            Some(entry) => value_readable(host, entry.pipeline.target_id, *to, result),
        },
        EditOp::InsertKeyframes { at, keyframes, .. } => match catalog.entry(
            at.component@,
            at.field@,
        ) {
            None => result == Err::<(), Fault>(
                Fault::Document(
                    DocumentFault::NotAnimatable { component: at.component, field: at.field },
                ),
            ),
            Some(entry) => points_readable(
                host,
                entry.pipeline.target_id,
                keyframes@,
                result,
            ),
        },
        _ => result is Ok,
    }
}

/// Whether the application can read a value, or why not.
pub open spec fn value_readable<H: RemoteHost>(
    host: &H,
    target: u64,
    value: crate::bevy_motiongfx::remote::json::Json,
    result: Result<(), Fault>,
) -> bool {
    match result {
        Ok(()) => exists|read: Value| #[trigger] decodes(host, target, value, Ok(read)),
        Err(fault) => fault matches Fault::Catalog(error) && decodes(
            host,
            target,
            value,
            Err(error),
        ),
    }
}

/// Whether the application can read keyframes, or why not.
pub open spec fn points_readable<H: RemoteHost>(
    host: &H,
    target: u64,
    keyframes: Seq<crate::bevy_motiongfx::remote::batch::op::KeyframeDoc>,
    result: Result<(), Fault>,
) -> bool {
    match result {
        Ok(()) => exists|points: Seq<RemoteKeyframe>| #[trigger]
            keyframes_read(host, keyframes, target, Ok(points)),
        Err(fault) => keyframes_read(host, keyframes, target, Err(fault)),
    }
}

/// Whether the application can read what an insert holds, or why not.
fn check_op<H: RemoteHost>(host: &H, catalog: &MotionGfxCatalog, op: &EditOp) -> (result: Result<
    (),
    Fault,
>)
    ensures
        op_readable(host, catalog@, *op, result),
{
    match op {
        EditOp::Insert { at, to, .. } => {
            let entry = match catalog.get(at.component.as_str(), at.field.as_str()) {
                Some(entry) => entry,
                None => {
                    return Err(
                        Fault::Document(
                            DocumentFault::NotAnimatable {
                                component: at.component.clone(),
                                field: at.field.clone(),
                            },
                        ),
                    );
                },
            };
            match host.decode(entry.pipeline.target_id, to) {
                Ok(value) => {
                    assert(decodes(host, entry.pipeline.target_id, **to, Ok(value)));
                    Ok(())
                },
                Err(error) => {
                    assert(decodes(host, entry.pipeline.target_id, **to, Err(error)));
                    Err(Fault::Catalog(error))
                },
            }
        },
        EditOp::InsertKeyframes { at, keyframes, .. } => {
            let entry = match catalog.get(at.component.as_str(), at.field.as_str()) {
                Some(entry) => entry,
                None => {
                    return Err(
                        Fault::Document(
                            DocumentFault::NotAnimatable {
                                component: at.component.clone(),
                                field: at.field.clone(),
                            },
                        ),
                    );
                },
            };
            let points = decode_keyframes(host, keyframes, entry.pipeline.target_id);
            assert(keyframes_read(
                host,
                keyframes@,
                entry.pipeline.target_id,
                points_view(points),
            ));
            match points {
                Ok(_) => Ok(()),
                Err(fault) => Err(fault),
            }
        },
        _ => Ok(()),
    }
}

/// Whether the first of the edits can be read.
pub open spec fn first_are_readable<H: RemoteHost>(
    host: &H,
    catalog: CatalogModel,
    ops: Seq<EditOp>,
    n: int,
) -> bool {
    forall|i: int| 0 <= i < n ==> op_readable(host, catalog, #[trigger] ops[i], Ok(()))
}

/// Whether the edits were checked so: all can be read, or one cannot, and
/// those in front of it can.
pub open spec fn ops_checked<H: RemoteHost>(
    host: &H,
    catalog: CatalogModel,
    ops: Seq<EditOp>,
    result: Result<(), Fault>,
) -> bool {
    match result {
        Ok(()) => first_are_readable(host, catalog, ops, ops.len() as int),
        Err(fault) => exists|n: int|
            {
                &&& 0 <= n < ops.len()
                &&& #[trigger] first_are_readable(host, catalog, ops, n)
                &&& op_readable(host, catalog, ops[n], Err(fault))
            },
    }
}

/// Checks that the application can read what the edits hold.
fn check_ops<H: RemoteHost>(host: &H, catalog: &MotionGfxCatalog, ops: &Vec<EditOp>) -> (result:
    Result<(), Fault>)
    ensures
        ops_checked(host, catalog@, ops@, result),
{
    let mut i: usize = 0;
    while i < ops.len()
        invariant
            i <= ops@.len(),
            first_are_readable(host, catalog@, ops@, i as int),
        decreases ops@.len() - i,
    {
        match check_op(host, catalog, &ops[i]) {
            Ok(()) => {},
            Err(fault) => {
                assert(first_are_readable(host, catalog@, ops@, i as int));
                return Err(fault);
            },
        }
        i += 1;
    }
    Ok(())
}

/// Whether the timeline, if there is one, has so many tracks then.
pub open spec fn tracks_ensured(
    id: TimelineId,
    count: usize,
    before: StudioModel,
    after: StudioModel,
) -> bool {
    if before.timelines.contains_key(id) {
        &&& after == before.with_timeline(id, after.timelines[id])
        &&& after.timelines[id] == (TimelineModel {
            tracks: after.timelines[id].tracks,
            ..before.timelines[id]
        })
        &&& grown_to(before.timelines[id].tracks, after.timelines[id].tracks, count)
    } else {
        after == before
    }
}

/// How many tracks a timeline has, if there is one.
pub open spec fn tracks_of(studio: StudioModel, id: TimelineId) -> usize {
    if studio.timelines.contains_key(id) {
        studio.timelines[id].tracks.len() as usize
    } else {
        0
    }
}

/// How many tracks a timeline has, if there is one.
fn count_tracks(studio: &Studio, id: TimelineId) -> (count: usize)
    ensures
        count == tracks_of(studio@, id),
{
    match studio.manager.get_timeline(&id) {
        Some(timeline) => timeline.tracks().len(),
        None => 0,
    }
}

/// Grows a timeline to so many tracks.
fn ensure_tracks(studio: &mut Studio, id: TimelineId, count: usize)
    ensures
        tracks_ensured(id, count, old(studio)@, final(studio)@),
        only_content(id, old(studio)@, final(studio)@),
{
    let ghost before = studio@;
    let mut timeline = match studio.manager.take(&id) {
        Some(timeline) => timeline,
        None => {
            assert(studio@ =~= before);
            return ;
        },
    };
    let ghost model = timeline@;
    timeline.ensure_track_count(count);
    let ghost grown = timeline@;
    studio.manager.put(id, timeline);
    proof {
        assert(studio@ =~= before.with_timeline(id, grown));
        assert(studio@.timelines.dom() =~= before.timelines.dom());
        growing_stays_seekable(model, grown, count);
    }
}

/// The markers with others added, later ones in place of earlier ones of the
/// same name.
pub open spec fn with_markers(
    markers: Map<Seq<char>, Marker>,
    added: Seq<(String, Marker)>,
) -> Map<Seq<char>, Marker>
    decreases added.len(),
{
    if added.len() == 0 {
        markers
    } else {
        with_markers(markers, added.drop_last()).insert(added.last().0@, added.last().1)
    }
}

/// Whether the markers of a document were loaded: in place of those that there
/// are, or on top of them.
pub open spec fn markers_loaded(
    id: TimelineId,
    replace: bool,
    added: Seq<(String, Marker)>,
    before: StudioModel,
    after: StudioModel,
) -> bool {
    let kept = if replace {
        Map::empty()
    } else {
        before.edits_of(id).markers
    };
    &&& after == (StudioModel { edits: after.edits, ..before })
    &&& after.edits_of(id) == (EditsModel {
        markers: with_markers(kept, added),
        ..before.edits_of(id)
    })
    &&& forall|other: TimelineId|
        other != id ==> #[trigger] after.edits_of(other) == before.edits_of(other)
}

/// Loads the markers of a document.
fn load_markers(studio: &mut Studio, id: TimelineId, replace: bool, added: &Vec<(String, Marker)>)
    ensures
        markers_loaded(id, replace, added@, old(studio)@, final(studio)@),
{
    let ghost before = studio@;
    if replace {
        studio.state.clear_markers(id);
    }
    let mut i: usize = 0;
    assert(added@.take(0) =~= Seq::<(String, Marker)>::empty());
    while i < added.len()
        invariant
            i <= added@.len(),
            markers_loaded(id, replace, added@.take(i as int), before, studio@),
        decreases added@.len() - i,
    {
        proof {
            take_one_more(added@, i as int);
        }
        let ghost front = added@.take(i as int);
        let ghost current = studio@;
        studio.state.set_marker(id, added[i].0.clone(), added[i].1);
        proof {
            let longer = added@.take(i + 1);
            assert(longer.drop_last() =~= front);
            assert(longer.last() == added@[i as int]);
            assert forall|other: TimelineId| other != id implies #[trigger] studio@.edits_of(other)
                == before.edits_of(other) by {
                assert(studio@.edits_of(other) == current.edits_of(other));
            }
        }
        i += 1;
    }
    assert(added@.take(i as int) =~= added@);
}

/// What is loaded before the clips of a document: nothing, or that the
/// timeline is cleared.
pub open spec fn clear_first(replace: bool) -> Seq<EditOp> {
    if replace {
        seq![EditOp::Clear]
    } else {
        Seq::empty()
    }
}

/// Whether the timeline was made ready: cleared if it is to be, with a
/// snapshot of what was there.
pub open spec fn made_ready<H: RemoteHost>(
    host: &H,
    id: TimelineId,
    replace: bool,
    before: StudioModel,
    taken: StudioModel,
    snapshot: Result<Seq<EditOp>, Fault>,
    cleared: StudioModel,
    outcome: OpResult,
    inverse: EditOp,
) -> bool {
    if replace {
        &&& all_snapshotted(host, id, before, taken, snapshot)
        &&& snapshot is Ok ==> clear_applied(id, taken, cleared, Ok((outcome, inverse)))
        &&& snapshot is Err ==> cleared == taken
    } else {
        &&& snapshot == Ok::<Seq<EditOp>, Fault>(Seq::empty())
        &&& taken == before
        &&& cleared == before
    }
}

/// Whether loading the clips and markers of a document had that outcome, by
/// way of the studios in between.
pub open spec fn load_stepped<H: RemoteHost>(
    host: &H,
    id: TimelineId,
    replace: bool,
    track_count: usize,
    ops: Seq<EditOp>,
    markers: Seq<(String, Marker)>,
    before: StudioModel,
    snapshot: Result<Seq<EditOp>, Fault>,
    cleared: StudioModel,
    ready: StudioModel,
    results: Seq<OpResult>,
    forward: Seq<EditOp>,
    inverses: Seq<EditOp>,
    fault: Option<Fault>,
    applied: StudioModel,
    marked: StudioModel,
    after: StudioModel,
    result: Result<(u64, usize), Fault>,
) -> bool {
    &&& is_made_ready(host, id, replace, before, snapshot, cleared)
    &&& match snapshot {
        Err(fault) => result == Err::<(u64, usize), Fault>(fault) && after == cleared,
        Ok(snapshot) => {
            &&& tracks_ensured(id, track_count, cleared, ready)
            &&& applied_until(host, id, ops, ready, applied, results, forward, inverses, fault)
            &&& match fault {
                // Taken back newest first, then what was there is restored, and
                // there are no fewer tracks than there were.
                Some(fault) => {
                    &&& result matches Err(Fault::At { attempt, index, cause, rollback_incomplete })
                    &&& attempt == Attempt::Import
                    &&& index == results.len()
                    &&& *cause == fault
                    &&& all_tried(
                        host,
                        id,
                        inverses.reverse() + snapshot,
                        applied,
                        marked,
                        rollback_incomplete,
                    )
                    &&& tracks_ensured(id, tracks_of(before, id), marked, after)
                },
                None => {
                    &&& markers_loaded(id, replace, markers, applied, marked)
                    &&& result matches Ok((version, inserted))
                    &&& inserted == ops.len()
                    &&& edit_finished(
                        host,
                        id,
                        clear_first(replace) + forward,
                        inverses.reverse() + snapshot,
                        marked,
                        after,
                        version,
                    )
                },
            }
        },
    }
}

/// Whether the timeline was made ready.
pub open spec fn is_made_ready<H: RemoteHost>(
    host: &H,
    id: TimelineId,
    replace: bool,
    before: StudioModel,
    snapshot: Result<Seq<EditOp>, Fault>,
    cleared: StudioModel,
) -> bool {
    exists|taken: StudioModel, outcome: OpResult, inverse: EditOp| #[trigger]
        made_ready(host, id, replace, before, taken, snapshot, cleared, outcome, inverse)
}

/// Whether loading the clips and markers of a document had that outcome.
pub open spec fn loaded<H: RemoteHost>(
    host: &H,
    id: TimelineId,
    replace: bool,
    track_count: usize,
    ops: Seq<EditOp>,
    markers: Seq<(String, Marker)>,
    before: StudioModel,
    after: StudioModel,
    result: Result<(u64, usize), Fault>,
) -> bool {
    exists|
        snapshot: Result<Seq<EditOp>, Fault>,
        cleared: StudioModel,
        ready: StudioModel,
        results: Seq<OpResult>,
        forward: Seq<EditOp>,
        inverses: Seq<EditOp>,
        fault: Option<Fault>,
        applied: StudioModel,
        marked: StudioModel,
    | #[trigger]
        load_stepped(
            host,
            id,
            replace,
            track_count,
            ops,
            markers,
            before,
            snapshot,
            cleared,
            ready,
            results,
            forward,
            inverses,
            fault,
            applied,
            marked,
            after,
            result,
        )
}

/// Makes the timeline ready. Returns a snapshot of what was there.
fn make_ready<H: RemoteHost>(host: &H, studio: &mut Studio, id: TimelineId, replace: bool) -> (snapshot:
    Result<Vec<EditOp>, Fault>)
    ensures
        is_made_ready(host, id, replace, old(studio)@, ops_view(snapshot), final(studio)@),
        only_content(id, old(studio)@, final(studio)@),
{
    let ghost before = studio@;
    let ghost no_outcome = OpResult::Removed;
    let ghost no_inverse = EditOp::Clear;
    if !replace {
        let none: Vec<EditOp> = Vec::new();
        assert(none@ =~= Seq::<EditOp>::empty());
        assert(made_ready(
            host,
            id,
            replace,
            before,
            before,
            Ok(none@),
            before,
            no_outcome,
            no_inverse,
        ));
        return Ok(none);
    }
    let shot = snapshot_all_clips(host, studio, id);
    let ghost taken = studio@;
    proof {
        snapshots_change_content_only(host, id, before, taken, ops_view(shot));
    }
    match shot {
        Err(fault) => {
            assert(made_ready(
                host,
                id,
                replace,
                before,
                taken,
                Err(fault),
                taken,
                no_outcome,
                no_inverse,
            ));
            Err(fault)
        },
        Ok(snapshot) => {
            let cleared = apply_clear(studio, id);
            let ghost came_to = cleared;
            proof {
                crate::bevy_motiongfx::remote::batch::apply::edits_change_content_only(
                    host,
                    id,
                    EditOp::Clear,
                    taken,
                    studio@,
                    came_to,
                );
                only_content_twice(id, before, taken, studio@);
            }
            match cleared {
                Ok((outcome, inverse)) => {
                    assert(made_ready(
                        host,
                        id,
                        replace,
                        before,
                        taken,
                        Ok(snapshot@),
                        studio@,
                        outcome,
                        inverse,
                    ));
                },
                Err(_) => {
                    assert(false);
                },
            }
            Ok(snapshot)
        },
    }
}

/// Edits in the opposite order, and others behind them.
fn backward_and(inverses: &Vec<EditOp>, snapshot: Vec<EditOp>) -> (ops: Vec<EditOp>)
    ensures
        ops@ == inverses@.reverse() + snapshot@,
{
    let mut ops = reverse_ops(inverses);
    let mut rest = snapshot;
    ops.append(&mut rest);
    ops
}

/// Loads the clips and markers of a document. Returns the new version, and how
/// many clips were inserted.
#[verifier::rlimit(30)]
fn load_ops<H: RemoteHost>(
    host: &H,
    studio: &mut Studio,
    id: TimelineId,
    replace: bool,
    track_count: usize,
    ops: &Vec<EditOp>,
    markers: &Vec<(String, Marker)>,
) -> (result: Result<(u64, usize), Fault>)
    ensures
        loaded(
            host,
            id,
            replace,
            track_count,
            ops@,
            markers@,
            old(studio)@,
            final(studio)@,
            result,
        ),
        result is Err ==> only_content(id, old(studio)@, final(studio)@),
        stays_seekable(old(studio)@, final(studio)@),
{
    let ghost before = studio@;
    let count = count_tracks(studio, id);
    let shot = make_ready(host, studio, id, replace);
    let ghost cleared = studio@;
    proof {
        content_stays_seekable(id, before, cleared);
    }
    let snapshot = match shot {
        Ok(snapshot) => snapshot,
        Err(fault) => {
            assert(load_stepped(
                host,
                id,
                replace,
                track_count,
                ops@,
                markers@,
                before,
                Err(fault),
                cleared,
                cleared,
                Seq::empty(),
                Seq::empty(),
                Seq::empty(),
                None,
                cleared,
                cleared,
                studio@,
                Err(fault),
            ));
            return Err(fault);
        },
    };
    let ghost kept = snapshot@;
    // A document may address tracks that the timeline does not have yet.
    ensure_tracks(studio, id, track_count);
    let ghost ready = studio@;
    let (run, fault) = apply_all(host, studio, id, ops);
    let ghost applied = studio@;
    let ghost cause = fault;
    let ghost results = run.results@;
    let ghost inverses = run.inverses@;
    let ghost stamped = run.forward@;
    let index: usize = run.results.len();
    let backward = backward_and(&run.inverses, snapshot);
    proof {
        only_content_twice(id, before, cleared, ready);
        only_content_twice(id, before, ready, applied);
        content_stays_seekable(id, before, applied);
    }
    match fault {
        Some(fault) => {
            let incomplete = try_all(host, studio, id, &backward);
            let ghost tried = studio@;
            ensure_tracks(studio, id, count);
            proof {
                only_content_twice(id, before, applied, tried);
                only_content_twice(id, before, tried, studio@);
                content_stays_seekable(id, before, studio@);
            }
            let told = Fault::At {
                attempt: Attempt::Import,
                index,
                cause: Box::new(fault),
                rollback_incomplete: incomplete,
            };
            assert(load_stepped(
                host,
                id,
                replace,
                track_count,
                ops@,
                markers@,
                before,
                Ok(kept),
                cleared,
                ready,
                results,
                stamped,
                inverses,
                cause,
                applied,
                tried,
                studio@,
                Err(told),
            ));
            Err(told)
        },
        None => {
            load_markers(studio, id, replace, markers);
            let ghost marked = studio@;
            assert(marked.timelines == applied.timelines);
            let mut forward: Vec<EditOp> = Vec::new();
            if replace {
                forward.push(EditOp::Clear);
            }
            let mut rest = run.forward;
            forward.append(&mut rest);
            assert(forward@ =~= clear_first(replace) + stamped);
            let version = finish_edit(host, studio, id, forward, backward);
            assert(load_stepped(
                host,
                id,
                replace,
                track_count,
                ops@,
                markers@,
                before,
                Ok(kept),
                cleared,
                ready,
                results,
                stamped,
                inverses,
                cause,
                applied,
                marked,
                studio@,
                Ok((version, ops.len())),
            ));
            Ok((version, ops.len()))
        },
    }
}

/// Whether importing an opened document had that outcome: nothing happens
/// where something is wrong with an action or a value cannot be read, and else
/// all is loaded.
pub open spec fn import_stepped<H: RemoteHost>(
    host: &H,
    p: ImportParams,
    replace: bool,
    entities: Vec<NamedEntity>,
    ops: Result<Seq<EditOp>, Fault>,
    checked: Result<(), Fault>,
    before: StudioModel,
    after: StudioModel,
    result: Result<(u64, usize), Fault>,
) -> bool {
    &&& are_named(host, entities)
    &&& is_plan(p.document.tracks@, p.bindings@, entities@, ops)
    &&& match ops {
        Err(fault) => result == Err::<(u64, usize), Fault>(fault) && after == before,
        Ok(ops) => {
            &&& ops_checked(host, before.catalog, ops, checked)
            &&& match checked {
                Err(fault) => result == Err::<(u64, usize), Fault>(fault) && after == before,
                Ok(()) => loaded(
                    host,
                    TimelineId { raw: p.id },
                    replace,
                    p.document.tracks@.len() as usize,
                    ops,
                    p.document.markers@,
                    before,
                    after,
                    result,
                ),
            }
        },
    }
}

/// Whether importing an opened document had that outcome.
pub open spec fn imported_with<H: RemoteHost>(
    host: &H,
    p: ImportParams,
    replace: bool,
    before: StudioModel,
    after: StudioModel,
    result: Result<(u64, usize), Fault>,
) -> bool {
    exists|
        entities: Vec<NamedEntity>,
        ops: Result<Seq<EditOp>, Fault>,
        checked: Result<(), Fault>,
    | #[trigger]
        import_stepped(host, p, replace, entities, ops, checked, before, after, result)
}

/// Whether importing a document had that outcome.
pub open spec fn imported<H: RemoteHost>(
    host: &H,
    p: ImportParams,
    before: StudioModel,
    after: StudioModel,
    result: Result<(u64, usize), Fault>,
) -> bool {
    match opened(p) {
        Err(fault) => result == Err::<(u64, usize), Fault>(fault) && after == before,
        Ok(replace) => imported_with(host, p, replace, before, after, result),
    }
}

/// Loads a document into a timeline. Everything is checked before anything
/// changes, a failure while loading is taken back, and the whole import is
/// kept as one entry. Returns the new version, and how many clips were
/// inserted.
pub fn timeline_import<H: RemoteHost>(host: &H, studio: &mut Studio, p: &ImportParams) -> (result:
    Result<(u64, usize), Fault>)
    ensures
        imported(host, *p, old(studio)@, final(studio)@, result),
        result is Err ==> only_content(TimelineId { raw: p.id }, old(studio)@, final(studio)@),
        stays_seekable(old(studio)@, final(studio)@),
{
    let ghost before = studio@;
    let replace = match open_document(p) {
        Ok(replace) => replace,
        Err(fault) => {
            return Err(fault);
        },
    };
    let entities = host.named_entities();
    assert(are_named(host, entities));
    let planned = plan_import(&p.document.tracks, &p.bindings, &entities);
    let ghost plan = ops_view(planned);
    let ops = match planned {
        Ok(ops) => ops,
        Err(fault) => {
            assert(import_stepped(
                host,
                *p,
                replace,
                entities,
                plan,
                Ok(()),
                before,
                studio@,
                Err(fault),
            ));
            return Err(fault);
        },
    };
    match check_ops(host, &studio.catalog, &ops) {
        Ok(()) => {},
        Err(fault) => {
            assert(import_stepped(
                host,
                *p,
                replace,
                entities,
                plan,
                Err(fault),
                before,
                studio@,
                Err(fault),
            ));
            return Err(fault);
        },
    }
    let result = load_ops(
        host,
        studio,
        TimelineId::from_raw(p.id),
        replace,
        p.document.tracks.len(),
        &ops,
        &p.document.markers,
    );
    assert(import_stepped(
        host,
        *p,
        replace,
        entities,
        plan,
        Ok(()),
        before,
        studio@,
        result,
    ));
    result
}

} // verus!
