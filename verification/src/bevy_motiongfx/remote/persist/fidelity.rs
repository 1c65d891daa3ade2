//! What a document gives back of the timeline that it was written from.
use crate::bevy_motiongfx::remote::batch::op::{EditOp, Placement};
use crate::bevy_motiongfx::remote::catalog::CatalogModel;
use crate::bevy_motiongfx::remote::fault::Fault;
use crate::bevy_motiongfx::remote::host::NamedEntity;
use crate::bevy_motiongfx::remote::persist::document::{DocAction, Document};
use crate::bevy_motiongfx::remote::persist::export::{
    action_written, describe_clips, enabled_written, is_document, obstacles, placement_of,
    start_written, subject_written, track_by_track, track_written,
};
use crate::bevy_motiongfx::remote::persist::import::{
    action_at, doc_places, entity_meant, fails_first_at, inserts_action, is_plan, place_fault,
    placement_planned,
};
use crate::bevy_motiongfx::remote::state::markers::Marker;
use vstd::prelude::*;

verus! {

/// Where a clip of a document goes that was written from a clip: where that one
/// was.
pub open spec fn placed_again(catalog: CatalogModel, at: Placement) -> Placement {
    Placement {
        entity: if catalog.is_resource(at.component@, at.field@) {
            0
        } else {
            at.entity
        },
        start_at: Some(start_written(at)),
        enabled: enabled_written(at),
        ..at
    }
}

/// Whether one edit inserts the clip that another one describes: at the same
/// place, for as long, with the same target and looks.
pub open spec fn inserts_again(catalog: CatalogModel, op: EditOp, again: EditOp) -> bool {
    match op {
        EditOp::Insert { at, to, .. } => {
            &&& again matches EditOp::Insert {
                at: placed,
                to: target,
                to_relative,
                exact,
                restore_id,
            }
            &&& *placed == placed_again(catalog, *at)
            &&& target == to
            &&& to_relative is None
            &&& exact
            &&& restore_id is None
        },
        EditOp::InsertKeyframes { at, keyframes, .. } => {
            &&& again matches EditOp::InsertKeyframes {
                at: placed,
                keyframes: points,
                exact,
                restore_id,
            }
            &&& *placed == placed_again(catalog, *at)
            &&& points == keyframes
            &&& exact
            &&& restore_id is None
        },
        _ => false,
    }
}

/// Whether every name that was written means the entity that it was written
/// for.
pub open spec fn names_hold(
    catalog: CatalogModel,
    ops: Seq<EditOp>,
    names: Seq<Option<String>>,
    bindings: Seq<(String, u64)>,
    entities: Seq<NamedEntity>,
) -> bool {
    forall|i: int|
        0 <= i < ops.len() && placement_of(#[trigger] ops[i]) is Some && subject_written(
            catalog,
            ops,
            names,
            i,
        ) is Name ==> entity_meant(subject_written(catalog, ops, names, i), bindings, entities)
            == Some(placement_of(ops[i])->0.entity)
}

/// How many of the first `n` clips are in front of a track.
spec fn in_front(ops: Seq<EditOp>, track: int, n: int) -> int
    decreases n,
{
    if n <= 0 {
        0
    } else if placement_of(ops[n - 1])->0.track < track {
        n
    } else {
        in_front(ops, track, n - 1)
    }
}

/// Whether all edits place a clip.
spec fn all_place(ops: Seq<EditOp>) -> bool {
    forall|i: int| 0 <= i < ops.len() ==> placement_of(#[trigger] ops[i]) is Some
}

/// The clips in front of a track come before all others.
proof fn front_is_first(ops: Seq<EditOp>, track: int, n: int)
    requires
        all_place(ops),
        track_by_track(ops),
        0 <= n <= ops.len(),
    ensures
        0 <= in_front(ops, track, n) <= n,
        forall|i: int|
            0 <= i < n ==> (placement_of(#[trigger] ops[i])->0.track < track <==> i < in_front(
                ops,
                track,
                n,
            )),
    decreases n,
{
    if n > 0 {
        if placement_of(ops[n - 1])->0.track < track {
            assert forall|i: int| 0 <= i < n implies placement_of(#[trigger] ops[i])->0.track
                < track by {
                if i < n - 1 {
                    assert(placement_of(ops[i])->0.track <= placement_of(ops[n - 1])->0.track);
                }
            }
        } else {
            front_is_first(ops, track, n - 1);
        }
    }
}

/// The clips that are written on a track are those between the ones in front
/// of it and the ones behind it.
proof fn written_on_track(
    catalog: CatalogModel,
    ops: Seq<EditOp>,
    names: Seq<Option<String>>,
    track: int,
    m: int,
)
    requires
        all_place(ops),
        track_by_track(ops),
        0 <= m <= ops.len(),
    ensures
        ({
            let first = in_front(ops, track, ops.len() as int);
            let behind = in_front(ops, track + 1, ops.len() as int);
            let written = track_written(catalog, ops, names, track, m);
            &&& first <= behind
            &&& written.len() == if m <= first {
                0
            } else if m <= behind {
                m - first
            } else {
                behind - first
            }
            &&& forall|k: int|
                0 <= k < written.len() ==> #[trigger] track_written(
                    catalog,
                    ops,
                    names,
                    track,
                    m,
                )[k] == action_written(catalog, ops, names, first + k)
        }),
    decreases m,
{
    let n = ops.len() as int;
    let first = in_front(ops, track, n);
    let behind = in_front(ops, track + 1, n);
    front_is_first(ops, track, n);
    front_is_first(ops, track + 1, n);
    if first > behind {
        assert(placement_of(ops[behind])->0.track < track);
    }
    if m > 0 {
        written_on_track(catalog, ops, names, track, m - 1);
        let op = ops[m - 1];
        assert(placement_of(op) is Some);
        assert(placement_of(op)->0.track == track <==> first <= m - 1 < behind);
    }
}

/// The places of a document in front of a track are those of the clips in
/// front of it.
proof fn places_of_clips(
    catalog: CatalogModel,
    ops: Seq<EditOp>,
    names: Seq<Option<String>>,
    tracks: Seq<Vec<DocAction>>,
    t: int,
)
    requires
        all_place(ops),
        track_by_track(ops),
        0 <= t <= tracks.len(),
        forall|k: int|
            0 <= k < tracks.len() ==> (#[trigger] tracks[k])@ == track_written(
                catalog,
                ops,
                names,
                k,
                ops.len() as int,
            ),
    ensures
        doc_places(tracks, t).len() == in_front(ops, t, ops.len() as int),
        forall|i: int|
            0 <= i < doc_places(tracks, t).len() ==> {
                let place = #[trigger] doc_places(tracks, t)[i];
                &&& 0 <= place.0 < t
                &&& place.0 == placement_of(ops[i])->0.track
                &&& place.1 == i - in_front(ops, place.0, ops.len() as int)
            },
    decreases t,
{
    let n = ops.len() as int;
    front_is_first(ops, t, n);
    if t > 0 {
        places_of_clips(catalog, ops, names, tracks, t - 1);
        written_on_track(catalog, ops, names, t - 1, n);
        front_is_first(ops, t - 1, n);
        let front = doc_places(tracks, t - 1);
        assert(tracks[t - 1]@ == track_written(catalog, ops, names, t - 1, n));
        assert forall|i: int| 0 <= i < doc_places(tracks, t).len() implies {
            let place = #[trigger] doc_places(tracks, t)[i];
            &&& 0 <= place.0 < t
            &&& place.0 == placement_of(ops[i])->0.track
            &&& place.1 == i - in_front(ops, place.0, n)
        } by {
            if i < front.len() {
                assert(doc_places(tracks, t)[i] == front[i]);
            } else {
                assert(doc_places(tracks, t)[i] == (t - 1, i - front.len()));
                assert(placement_of(ops[i])->0.track < t);
                assert(!(placement_of(ops[i])->0.track < t - 1));
            }
        }
    } else {
        if in_front(ops, t, n) > 0 {
            assert(placement_of(ops[0])->0.track < 0);
        }
    }
}

/// Where no clip is an obstacle, all can be placed.
pub proof fn without_obstacles(ops: Seq<EditOp>, track_count: int, n: int)
    requires
        describe_clips(ops, track_count),
        0 <= n <= ops.len(),
        obstacles(ops, n).len() == 0,
    ensures
        forall|i: int|
            0 <= i < n ==> placement_of(#[trigger] ops[i]) is Some && placement_of(ops[i])->0.track
                < track_count,
    decreases n,
{
    if n > 0 {
        without_obstacles(ops, track_count, n - 1);
        assert(ops[n - 1] !is Unrestorable);
    }
}

/// A document gives back what was written: as long as its names still mean the
/// entities that they were written for, importing it inserts every clip again,
/// in the same order, on the same track, at the same start, for the same
/// duration, with the same target, ease and looks, and muted where it was.
pub proof fn documents_read_back(
    catalog: CatalogModel,
    markers: Seq<(String, Marker)>,
    track_count: int,
    ops: Seq<EditOp>,
    names: Seq<Option<String>>,
    document: &Document,
    bindings: Seq<(String, u64)>,
    entities: Seq<NamedEntity>,
    plan: Result<Seq<EditOp>, Fault>,
)
    requires
        names.len() == ops.len(),
        describe_clips(ops, track_count),
        track_by_track(ops),
        is_document(catalog, markers, track_count, ops, names, Ok(*document)),
        names_hold(catalog, ops, names, bindings, entities),
        is_plan(document.tracks@, bindings, entities, plan),
    ensures
        plan matches Ok(again) && again.len() == ops.len() && forall|i: int|
            0 <= i < ops.len() ==> inserts_again(catalog, #[trigger] ops[i], again[i]),
{
    let n = ops.len() as int;
    let tracks = document.tracks@;
    let places = doc_places(tracks, tracks.len() as int);
    without_obstacles(ops, track_count, n);
    front_is_first(ops, track_count, n);
    places_of_clips(catalog, ops, names, tracks, track_count);
    if n > 0 {
        assert(placement_of(ops[n - 1])->0.track < track_count);
    }
    assert forall|i: int| 0 <= i < n implies {
        &&& #[trigger] action_at(tracks, places[i]) == action_written(catalog, ops, names, i)
        &&& places[i].0 == placement_of(ops[i])->0.track
        &&& place_fault(tracks, places[i], bindings, entities) is None
    } by {
        let place = places[i];
        assert(place == doc_places(tracks, track_count)[i]);
        let first = in_front(ops, place.0, n);
        written_on_track(catalog, ops, names, place.0, n);
        front_is_first(ops, place.0, n);
        front_is_first(ops, place.0 + 1, n);
        assert(tracks[place.0]@ == track_written(catalog, ops, names, place.0, n));
        assert(placement_of(ops[i]) is Some);
        assert(tracks[place.0]@[i - first] == action_written(catalog, ops, names, first + (i
            - first)));
        let subject = subject_written(catalog, ops, names, i);
        assert(subject is Name ==> entity_meant(subject, bindings, entities) is Some);
    }
    match plan {
        Ok(again) => {
            assert forall|i: int| 0 <= i < n implies inserts_again(
                catalog,
                #[trigger] ops[i],
                again[i],
            ) by {
                let action = action_at(tracks, places[i]);
                let entity = entity_meant(action.subject, bindings, entities)->0;
                let track = places[i].0 as usize;
                let at = placement_of(ops[i])->0;
                assert(inserts_action(action, track, entity, again[i]));
                assert(placement_planned(action, track, entity) == placed_again(catalog, at));
            }
        },
        Err(fault) => {
            let k = choose|k: int| #[trigger]
                fails_first_at(tracks, bindings, entities, places, k, fault);
            assert(action_at(tracks, places[k]) == action_written(catalog, ops, names, k));
            assert(false);
        },
    }
}

} // verus!
