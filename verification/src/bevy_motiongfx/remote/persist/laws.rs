//! What is written of a timeline, and what it is read as.
use crate::bevy_motiongfx::manager::TimelineId;
use crate::bevy_motiongfx::remote::batch::apply::{edit_concluded, edit_finished};
use crate::bevy_motiongfx::remote::batch::op::{EditOp, OpResult};
use crate::bevy_motiongfx::remote::catalog::CatalogModel;
use crate::bevy_motiongfx::remote::fault::Fault;
use crate::bevy_motiongfx::remote::host::{NamedEntity, RemoteHost};
use crate::bevy_motiongfx::remote::names_laws::found_are_named;
use crate::bevy_motiongfx::remote::persist::document::{DocAction, DocSubject};
use crate::bevy_motiongfx::remote::persist::export::{
    claims_name, is_ambiguous, obstacles, placement_of, raw_bits_warning, subject_written,
    warnings_told,
};
use crate::bevy_motiongfx::remote::persist::import::{
    bound_to, clear_first, doc_places, entity_meant, import_stepped, imported, load_stepped, opened,
    with_markers, ImportParams,
};
use crate::bevy_motiongfx::remote::persist::marker::{
    marked, marker_track, unmarked, MarkerSetParams,
};
use crate::bevy_motiongfx::remote::state::markers::Marker;
use crate::bevy_motiongfx::remote::studio::StudioModel;
use vstd::prelude::*;

verus! {

/// A marker is on the track that was asked for, or else where the playhead is. Setting or
/// dropping one leaves the others where they are, and is a new version each time.
pub proof fn markers_are_set_alone(
    studio: StudioModel,
    p: MarkerSetParams,
    marker: Marker,
    other: Seq<char>,
)
    requires
        other != p.name@,
    ensures
        p.track is Some ==> marker_track(studio, p) == p.track,
        p.track is None && studio.timelines.contains_key(TimelineId { raw: p.id })
            ==> marker_track(studio, p) == Some(
            studio.timelines[TimelineId { raw: p.id }].curr_index,
        ),
        p.track is None && !studio.timelines.contains_key(TimelineId { raw: p.id })
            ==> marker_track(studio, p) is None,
        ({
            let had = studio.edits_of(TimelineId { raw: p.id });
            let set = marked(had, p.name, marker);
            let dropped = unmarked(had, p.name);
            &&& set.markers.contains_key(p.name@) && set.markers[p.name@] == marker
            &&& !dropped.markers.contains_key(p.name@)
            &&& set.markers.contains_key(other) == had.markers.contains_key(other)
            &&& dropped.markers.contains_key(other) == had.markers.contains_key(other)
            &&& had.markers.contains_key(other) ==> set.markers[other] == had.markers[other]
                && dropped.markers[other] == had.markers[other]
            &&& had.version < u64::MAX ==> set.version == had.version + 1 && dropped.version
                == had.version + 1
            &&& set.clip_meta == had.clip_meta && dropped.clip_meta == had.clip_meta
        }),
{
}

/// Markers that are loaded on top of others leave those of other names where they are.
pub proof fn other_markers_stay(
    markers: Map<Seq<char>, Marker>,
    added: Seq<(String, Marker)>,
    name: Seq<char>,
)
    requires
        forall|i: int| 0 <= i < added.len() ==> (#[trigger] added[i]).0@ != name,
    ensures
        with_markers(markers, added).contains_key(name) == markers.contains_key(name),
        with_markers(markers, added)[name] == markers[name],
    decreases added.len(),
{
    if added.len() > 0 {
        let front = added.drop_last();
        assert forall|i: int| 0 <= i < front.len() implies (#[trigger] front[i]).0@ != name by {
            assert(added[i].0@ != name);
        }
        other_markers_stay(markers, front, name);
        assert(added[added.len() - 1].0@ != name);
    }
}

/// Of markers that are loaded, the last of a name counts.
pub proof fn last_markers_count(
    markers: Map<Seq<char>, Marker>,
    added: Seq<(String, Marker)>,
    i: int,
)
    requires
        0 <= i < added.len(),
        forall|j: int| i < j < added.len() ==> (#[trigger] added[j]).0@ != added[i].0@,
    ensures
        with_markers(markers, added).contains_key(added[i].0@),
        with_markers(markers, added)[added[i].0@] == added[i].1,
    decreases added.len(),
{
    if i < added.len() - 1 {
        let front = added.drop_last();
        assert forall|j: int| i < j < front.len() implies (#[trigger] front[j]).0@
            != front[i].0@ by {
            assert(added[j].0@ != added[i].0@);
        }
        last_markers_count(markers, front, i);
        assert(added[added.len() - 1].0@ != added[i].0@);
    }
}

/// The last binding of a name counts.
pub proof fn last_bindings_count(bindings: Seq<(String, u64)>, name: Seq<char>)
    ensures
        bound_to(bindings, name) is None <==> forall|i: int|
            0 <= i < bindings.len() ==> (#[trigger] bindings[i]).0@ != name,
        bound_to(bindings, name) matches Some(entity) ==> exists|i: int|
            0 <= i < bindings.len() && (#[trigger] bindings[i]).0@ == name && bindings[i].1 == entity
                && forall|j: int| i < j < bindings.len() ==> (#[trigger] bindings[j]).0@ != name,
    decreases bindings.len(),
{
    if bindings.len() > 0 {
        let front = bindings.drop_last();
        let n = front.len() as int;
        last_bindings_count(front, name);
        assert(bindings[n] == bindings.last());
        if bindings.last().0@ != name {
            match bound_to(front, name) {
                Some(entity) => {
                    let i = choose|i: int|
                        0 <= i < front.len() && (#[trigger] front[i]).0@ == name && front[i].1
                            == entity && forall|j: int|
                            i < j < front.len() ==> (#[trigger] front[j]).0@ != name;
                    assert(bindings[i].0@ == name);
                    assert forall|j: int| i < j < bindings.len() implies (#[trigger] bindings[j]).0@
                        != name by {
                        if j < n {
                            assert(front[j].0@ != name);
                        }
                    }
                },
                None => {
                    assert forall|i: int| 0 <= i < bindings.len() implies (
                    #[trigger] bindings[i]).0@ != name by {
                        if i < n {
                            assert(front[i].0@ != name);
                        }
                    }
                },
            }
        }
    }
}

/// A subject that is written by its bits means the entity with them. One that is written by
/// its name means what the name is bound to, or else the first entity that has it; where
/// there is neither it means none.
pub proof fn subjects_mean_entities(
    subject: DocSubject,
    bindings: Seq<(String, u64)>,
    entities: Seq<NamedEntity>,
)
    ensures
        subject matches DocSubject::Entity { entity } ==> entity_meant(subject, bindings, entities)
            == Some(entity),
        subject is Resource ==> entity_meant(subject, bindings, entities) is Some,
        subject matches DocSubject::Name { name } ==> {
            let meant = entity_meant(subject, bindings, entities);
            let is_bound = exists|i: int|
                0 <= i < bindings.len() && (#[trigger] bindings[i]).0@ == name@;
            &&& is_bound ==> meant == bound_to(bindings, name@) && meant is Some
            &&& !is_bound ==> (meant is None <==> forall|i: int|
                0 <= i < entities.len() ==> (#[trigger] entities[i]).name@ != name@)
            &&& !is_bound && meant is Some ==> exists|i: int|
                0 <= i < entities.len() && (#[trigger] entities[i]).name@ == name@
                    && entities[i].bits == meant->0 && forall|j: int|
                    0 <= j < i ==> (#[trigger] entities[j]).name@ != name@
        },
{
    match subject {
        DocSubject::Name { name } => {
            last_bindings_count(bindings, name@);
            let places = found_are_named(entities, name@);
            if places.len() > 0 {
                let i = places[0];
                assert(entities[i].name@ == name@);
                assert forall|j: int| 0 <= j < i implies (#[trigger] entities[j]).name@ != name@ by {
                    if entities[j].name@ == name@ {
                        assert(places.contains(j));
                        let k = choose|k: int| 0 <= k < places.len() && places[k] == j;
                        if k > 0 {
                            assert(places[0] < places[k]);
                        }
                    }
                }
            } else {
                assert forall|i: int| 0 <= i < entities.len() implies (#[trigger] entities[i]).name@
                    != name@ by {
                    if entities[i].name@ == name@ {
                        assert(places.contains(i));
                    }
                }
            }
        },
        _ => {},
    }
}

/// A clip is written by the name of its entity exactly where it has one and no clip of
/// another entity has the same, and else by the bits of its entity. One of a resource is
/// written by neither.
pub proof fn names_are_written_where_unique(
    catalog: CatalogModel,
    ops: Seq<EditOp>,
    names: Seq<Option<String>>,
    i: int,
)
    requires
        0 <= i < ops.len(),
        placement_of(ops[i]) is Some,
        !catalog.is_resource(
            placement_of(ops[i])->0.component@,
            placement_of(ops[i])->0.field@,
        ),
    ensures
        ({
            let written = subject_written(catalog, ops, names, i);
            &&& written is Name || written is Entity
            &&& written matches DocSubject::Name { name } ==> names[i] == Some(name) && forall|
                j: int,
            | #[trigger]
                claims_name(ops, names, j, name@) ==> placement_of(ops[j])->0.entity
                    == placement_of(ops[i])->0.entity
            &&& written matches DocSubject::Entity { entity } ==> entity == placement_of(
                ops[i],
            )->0.entity && (names[i] is None || exists|j: int, k: int|
                #![trigger claims_name(ops, names, j, names[i]->0@), claims_name(ops, names, k, names[i]->0@)]
                claims_name(ops, names, j, names[i]->0@) && claims_name(
                    ops,
                    names,
                    k,
                    names[i]->0@,
                ) && placement_of(ops[j])->0.entity != placement_of(ops[k])->0.entity)
        }),
{
    match subject_written(catalog, ops, names, i) {
        DocSubject::Name { name } => {
            assert(claims_name(ops, names, i, name@));
            assert(!is_ambiguous(ops, names, name@));
        },
        _ => {},
    }
}

/// Each clip whose entity is written by its bits is told of, and nothing else is.
pub proof fn raw_bits_are_told_of(
    catalog: CatalogModel,
    ops: Seq<EditOp>,
    names: Seq<Option<String>>,
    n: int,
)
    requires
        0 <= n <= ops.len(),
    ensures
        forall|i: int|
            0 <= i < n && (#[trigger] placement_of(ops[i])) is Some && subject_written(
                catalog,
                ops,
                names,
                i,
            ) is Entity ==> warnings_told(catalog, ops, names, n).contains(
                raw_bits_warning(placement_of(ops[i])->0.entity),
            ),
        (forall|i: int|
            0 <= i < n && (#[trigger] placement_of(ops[i])) is Some ==> !(subject_written(
                catalog,
                ops,
                names,
                i,
            ) is Entity)) ==> warnings_told(catalog, ops, names, n).len() == 0,
        warnings_told(catalog, ops, names, n).len() <= n,
    decreases n,
{
    if n > 0 {
        raw_bits_are_told_of(catalog, ops, names, n - 1);
        let front = warnings_told(catalog, ops, names, n - 1);
        let all = warnings_told(catalog, ops, names, n);
        assert forall|i: int|
            0 <= i < n && (#[trigger] placement_of(ops[i])) is Some && subject_written(
                catalog,
                ops,
                names,
                i,
            ) is Entity implies all.contains(raw_bits_warning(placement_of(ops[i])->0.entity)) by {
            if i < n - 1 {
                let told = raw_bits_warning(placement_of(ops[i])->0.entity);
                assert(front.contains(told));
                let k = choose|k: int| 0 <= k < front.len() && front[k] == told;
                assert(all[k] == told);
            } else {
                assert(all[all.len() - 1] == raw_bits_warning(placement_of(ops[i])->0.entity));
            }
        }
    }
}

/// What stands in the way of writing clips are those that cannot be restored, and each is
/// told of.
pub proof fn obstacles_are_unrestorable(ops: Seq<EditOp>, n: int)
    requires
        0 <= n <= ops.len(),
    ensures
        obstacles(ops, n).len() == 0 <==> forall|i: int|
            0 <= i < n ==> !((#[trigger] ops[i]) is Unrestorable),
        forall|i: int|
            0 <= i < n && (#[trigger] ops[i]) is Unrestorable ==> obstacles(ops, n).contains(
                ops[i]->reason,
            ),
    decreases n,
{
    if n > 0 {
        obstacles_are_unrestorable(ops, n - 1);
        let front = obstacles(ops, n - 1);
        let all = obstacles(ops, n);
        assert forall|i: int| 0 <= i < n && (#[trigger] ops[i]) is Unrestorable implies all.contains(
            ops[i]->reason,
        ) by {
            if i < n - 1 {
                assert(front.contains(ops[i]->reason));
                let k = choose|k: int| 0 <= k < front.len() && front[k] == ops[i]->reason;
                assert(all[k] == ops[i]->reason);
            } else {
                assert(all[all.len() - 1] == ops[i]->reason);
            }
        }
        if ops[n - 1] is Unrestorable {
            assert(all.len() > 0);
        }
    }
}

/// How many actions the first tracks of a document have.
pub open spec fn count_actions(tracks: Seq<Vec<DocAction>>, n: int) -> nat
    decreases n,
{
    if n <= 0 {
        0
    } else {
        count_actions(tracks, n - 1) + tracks[n - 1]@.len()
    }
}

/// Whether a marker is the last of its name.
pub open spec fn is_last_of_name(markers: Seq<(String, Marker)>, i: int) -> bool {
    &&& 0 <= i < markers.len()
    &&& forall|j: int| i < j < markers.len() ==> (#[trigger] markers[j]).0@ != markers[i].0@
}

/// Each action of a document has a place.
proof fn actions_have_places(tracks: Seq<Vec<DocAction>>, n: int)
    ensures
        doc_places(tracks, n).len() == count_actions(tracks, n),
    decreases n,
{
    if n > 0 {
        actions_have_places(tracks, n - 1);
    }
}

/// An import that is granted inserts as many clips as the document has actions, on a timeline
/// that has the last marker of each name that the document has, and tells the version that
/// the timeline then has.
pub proof fn imports_load_all_of_a_document<H: RemoteHost>(
    host: &H,
    p: ImportParams,
    before: StudioModel,
    after: StudioModel,
    version: u64,
    inserted: usize,
    i: int,
)
    requires
        imported(host, p, before, after, Ok((version, inserted))),
    ensures
        ({
            let has = after.edits_of(TimelineId { raw: p.id });
            let tracks = p.document.tracks@;
            let (name, marker) = p.document.markers@[i];
            &&& inserted == count_actions(tracks, tracks.len() as int)
            &&& has.version == version
            &&& is_last_of_name(p.document.markers@, i) ==> has.markers.contains_key(name@)
                && has.markers[name@] == marker
        }),
{
    let id = TimelineId { raw: p.id };
    let tracks = p.document.tracks@;
    let markers = p.document.markers@;
    let replace = opened(p)->Ok_0;
    let result = Ok::<(u64, usize), Fault>((version, inserted));
    let (entities, planned, checked) = choose|
        entities: Vec<NamedEntity>,
        planned: Result<Seq<EditOp>, Fault>,
        checked: Result<(), Fault>,
    | #[trigger]
        import_stepped(host, p, replace, entities, planned, checked, before, after, result);
    let ops = planned->Ok_0;
    actions_have_places(tracks, tracks.len() as int);
    let (snapshot, cleared, ready, results, forward, inverses, fault, applied, marked) = choose|
        snapshot: Result<Seq<EditOp>, Fault>,
        cleared: StudioModel,
        ready: StudioModel,
        results: Seq<OpResult>,
        forward: Seq<EditOp>,
        inverses: Seq<EditOp>,
        fault: Option<Fault>,
        applied: StudioModel,
        marked: StudioModel,
    | #[trigger]
        load_stepped(
            host,
            id,
            replace,
            tracks.len() as usize,
            ops,
            markers,
            before,
            snapshot,
            cleared,
            ready,
            results,
            forward,
            inverses,
            fault,
            applied,
            marked,
            after,
            result,
        );
    let kept = if replace {
        Map::empty()
    } else {
        applied.edits_of(id).markers
    };
    if is_last_of_name(markers, i) {
        last_markers_count(kept, markers, i);
    }
    concluding_keeps_markers(
        host,
        id,
        clear_first(replace) + forward,
        inverses.reverse() + snapshot->Ok_0,
        marked,
        after,
        version,
    );
}

/// Concluding a request keeps the markers, and tells the version.
proof fn concluding_keeps_markers<H: RemoteHost>(
    host: &H,
    id: TimelineId,
    forward: Seq<EditOp>,
    inverse: Seq<EditOp>,
    before: StudioModel,
    after: StudioModel,
    version: u64,
)
    requires
        edit_finished(host, id, forward, inverse, before, after, version),
    ensures
        after.edits_of(id).markers == before.edits_of(id).markers,
        after.edits_of(id).version == version,
{
    let (between, ops) = choose|between: StudioModel, ops: Vec<EditOp>|
        {
            &&& ops@ == forward
            &&& #[trigger] edit_concluded(host, id, ops, inverse, before, between, after, version)
        };
    assert(between.edits == before.edits);
}

} // verus!
