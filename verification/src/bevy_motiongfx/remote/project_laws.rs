//! What is saved of a project, and what it is loaded into.
use crate::bevy_motiongfx::manager::TimelineId;
use crate::bevy_motiongfx::remote::batch::op::EditOp;
use crate::bevy_motiongfx::remote::fault::Fault;
use crate::bevy_motiongfx::remote::host::RemoteHost;
use crate::bevy_motiongfx::remote::persist::import::{clear_first, imported, replaces, ImportParams};
use crate::bevy_motiongfx::remote::project::{
    cast, components_written, entry_loaded, entry_stepped, has_any, save_stepped, saved_ids, saves,
    LoadedTimeline, ProjectEntry, ProjectTimeline, SceneEntity, Written,
};
use crate::bevy_motiongfx::remote::studio::StudioModel;
use crate::bevy_motiongfx::remote::transport::{PlayerSlot, TimelineState};
use vstd::prelude::*;

verus! {

/// The entities of a project are those of the scene that have one of its components, in
/// their order: the places are where they stand in the scene.
pub proof fn casts_are_of_subjects(scene: Seq<SceneEntity>) -> (places: Seq<int>)
    ensures
        places.len() == cast(scene).len(),
        forall|k: int|
            0 <= k < places.len() ==> 0 <= #[trigger] places[k] < scene.len() && cast(scene)[k]
                == scene[places[k]] && has_any(scene[places[k]].subjects@),
        forall|k: int, l: int|
            0 <= k < l < places.len() ==> #[trigger] places[k] < #[trigger] places[l],
        forall|i: int|
            0 <= i < scene.len() && has_any((#[trigger] scene[i]).subjects@) ==> places.contains(i),
    decreases scene.len(),
{
    if scene.len() == 0 {
        Seq::empty()
    } else {
        let n = scene.len() - 1;
        let front = scene.drop_last();
        let before = casts_are_of_subjects(front);
        let places = if has_any(scene.last().subjects@) {
            before.push(n)
        } else {
            before
        };
        assert forall|k: int| 0 <= k < places.len() implies 0 <= #[trigger] places[k] < scene.len()
            && cast(scene)[k] == scene[places[k]] && has_any(scene[places[k]].subjects@) by {
            if k < before.len() {
                assert(places[k] == before[k]);
                assert(front[before[k]] == scene[before[k]]);
            }
        }
        assert forall|i: int|
            0 <= i < scene.len() && has_any((#[trigger] scene[i]).subjects@) implies places.contains(
            i,
        ) by {
            if i < n {
                assert(front[i] == scene[i]);
                assert(before.contains(i));
                let k = choose|k: int| 0 <= k < before.len() && before[k] == i;
                assert(places[k] == i);
            } else {
                assert(places[places.len() - 1] == i);
            }
        }
        places
    }
}

/// The components of an entity are written exactly where none of them fails: those that are
/// there are written with their values and those that are not are left out.
pub proof fn components_are_written_if_none_fails(components: Seq<(String, Written)>)
    ensures
        components_written(components) is Ok <==> forall|i: int|
            0 <= i < components.len() ==> !((#[trigger] components[i]).1 is Failed),
        components_written(components) matches Ok(written) ==> {
            &&& forall|i: int|
                0 <= i < components.len() && (#[trigger] components[i]).1 is Value
                    ==> written.contains((components[i].0, components[i].1->Value_0))
            &&& forall|k: int|
                0 <= k < written.len() ==> components.contains(
                    ((#[trigger] written[k]).0, Written::Value(written[k].1)),
                )
        },
    decreases components.len(),
{
    if components.len() > 0 {
        let front = components.drop_last();
        let n = front.len() as int;
        components_are_written_if_none_fails(front);
        assert(components[n] == components.last());
        assert forall|i: int| 0 <= i < n implies #[trigger] components[i] == front[i] by {}
        if components_written(front) is Err {
            let i = choose|i: int| 0 <= i < front.len() && ((#[trigger] front[i]).1 is Failed);
            assert(components[i].1 is Failed);
        }
        match components_written(components) {
            Ok(written) => {
                let had = components_written(front)->Ok_0;
                assert forall|i: int|
                    0 <= i < components.len() && (
                    #[trigger] components[i]).1 is Value implies written.contains(
                    (components[i].0, components[i].1->Value_0),
                ) by {
                    let one = (components[i].0, components[i].1->Value_0);
                    if i < n {
                        assert(front[i] == components[i]);
                        assert(had.contains(one));
                        let k = choose|k: int| 0 <= k < had.len() && had[k] == one;
                        assert(written[k] == one);
                    } else {
                        assert(written[written.len() - 1] == one);
                    }
                }
                assert forall|k: int| 0 <= k < written.len() implies components.contains(
                    ((#[trigger] written[k]).0, Written::Value(written[k].1)),
                ) by {
                    let one = (written[k].0, Written::Value(written[k].1));
                    if k < had.len() {
                        assert(written[k] == had[k]);
                        assert(front.contains(one));
                        let i = choose|i: int| 0 <= i < front.len() && front[i] == one;
                        assert(components[i] == one);
                    } else {
                        assert(components[n] == one);
                    }
                }
            },
            Err(_) => {
                if components_written(front) is Ok {
                    assert(components[n].1 is Failed);
                }
            },
        }
    }
}

/// Saving without naming a timeline saves every one, each once and in the order of their
/// ids; naming one saves that one.
pub proof fn every_timeline_is_saved<H: RemoteHost>(
    host: &H,
    id: Option<u64>,
    before: StudioModel,
    after: StudioModel,
    saved: Seq<ProjectTimeline>,
)
    requires
        saves(host, id, before, after, Ok(saved)),
    ensures
        id is Some ==> saved.len() == 1 && saved[0].id == id->0,
        id is None ==> {
            &&& forall|raw: u64| #[trigger]
                before.timelines.contains_key(TimelineId { raw }) ==> exists|i: int|
                    0 <= i < saved.len() && (#[trigger] saved[i]).id == raw
            &&& forall|i: int|
                0 <= i < saved.len() ==> before.timelines.contains_key(
                    TimelineId { raw: (#[trigger] saved[i]).id },
                )
            &&& forall|i: int, j: int|
                0 <= i < j < saved.len() ==> (#[trigger] saved[i]).id < (#[trigger] saved[j]).id
        },
{
    let (ids, trace, list) = choose|
        ids: Seq<u64>,
        trace: Seq<StudioModel>,
        list: Seq<ProjectTimeline>,
    |
        {
            &&& saved_ids(before, id, ids)
            &&& #[trigger] save_stepped(host, ids, trace, list, before, after, Ok(saved))
        };
    assert forall|i: int| 0 <= i < saved.len() implies (#[trigger] saved[i]).id == ids[i] by {}
    if id is None {
        assert forall|raw: u64| #[trigger]
            before.timelines.contains_key(TimelineId { raw }) implies exists|i: int|
            0 <= i < saved.len() && (#[trigger] saved[i]).id == raw by {
            assert(ids.contains(raw));
            let i = choose|i: int| 0 <= i < ids.len() && ids[i] == raw;
            assert(saved[i].id == raw);
        }
        assert forall|i: int| 0 <= i < saved.len() implies before.timelines.contains_key(
            TimelineId { raw: (#[trigger] saved[i]).id },
        ) by {
            assert(ids.contains(ids[i]));
        }
        assert forall|i: int, j: int| 0 <= i < j < saved.len() implies (#[trigger] saved[i]).id < (
        #[trigger] saved[j]).id by {
            assert(ids[i] < ids[j]);
        }
    }
}

/// A document is loaded into the timeline that it names, if there is one, and into a new one
/// if there is none; where it names none it is loaded into the one that was asked for. It
/// replaces what is there, and its name, if it has one, becomes that of the timeline.
pub proof fn documents_are_loaded_where_they_belong<H: RemoteHost>(
    host: &H,
    id: u64,
    bindings: Seq<(String, u64)>,
    entry: ProjectEntry,
    before: StudioModel,
    slots: Seq<PlayerSlot>,
    after: StudioModel,
    new_slots: Seq<PlayerSlot>,
    loaded: LoadedTimeline,
)
    requires
        entry_loaded(host, id, bindings, entry, before, slots, after, new_slots, Ok(loaded)),
    ensures
        entry.document is Ok,
        loaded.from == entry.id,
        entry.id is None ==> loaded.into == id && new_slots == slots,
        entry.id is Some && before.timelines.contains_key(TimelineId { raw: entry.id->0 })
            ==> loaded.into == entry.id->0 && new_slots == slots,
        entry.id is Some && !before.timelines.contains_key(TimelineId { raw: entry.id->0 })
            ==> loaded.into == before.next.raw,
        entry.name is Some ==> after.edits_of(TimelineId { raw: loaded.into }).name == entry.name,
        exists|p: ImportParams, chosen: StudioModel, came: StudioModel| #[trigger]
            imported(host, p, chosen, came, Ok((loaded.version, loaded.inserted))) && p.id
                == loaded.into && p.document == entry.document->Ok_0 && p.bindings@ == bindings
                && replaces(p.mode) == Ok::<bool, Fault>(true) && after.timelines
                == came.timelines,
{
    let (chosen, state, target, p, came, came_to) = choose|
        chosen: StudioModel,
        state: Result<TimelineState, Fault>,
        target: u64,
        p: ImportParams,
        came: StudioModel,
        came_to: Result<(u64, usize), Fault>,
    | #[trigger]
        entry_stepped(
            host,
            id,
            bindings,
            entry,
            before,
            slots,
            chosen,
            state,
            target,
            p,
            came,
            came_to,
            after,
            new_slots,
            Ok(loaded),
        );
    assert(imported(host, p, chosen, came, Ok((loaded.version, loaded.inserted))));
}

/// An import replaces what there is unless it is asked to append, and knows no other mode.
pub proof fn imports_replace_or_append(mode: Option<String>)
    ensures
        mode is None ==> replaces(mode) == Ok::<bool, Fault>(true),
        replaces(mode) is Err ==> mode is Some && mode->0@ != "replace"@ && mode->0@ != "append"@,
        replaces(mode) == Ok::<bool, Fault>(false) <==> mode is Some && mode->0@ == "append"@,
        clear_first(true) == seq![EditOp::Clear],
        clear_first(false).len() == 0,
{
    reveal_strlit("replace");
    reveal_strlit("append");
    assert("replace"@.len() != "append"@.len());
}

} // verus!
