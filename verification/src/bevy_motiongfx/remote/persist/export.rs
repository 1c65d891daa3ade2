//! Writing a timeline as a document.
use crate::bevy_motiongfx::manager::TimelineId;
use crate::bevy_motiongfx::remote::batch::apply::{
    baking_is_content, content_stays_seekable, only_content, only_content_twice, stays_seekable,
};
use crate::bevy_motiongfx::remote::batch::op::{copy_text, EditOp, Placement};
use crate::bevy_motiongfx::remote::batch::snapshot::{
    all_snapshotted, ops_view, snapshot_all_clips, snapshot_taken, snapshots_taken,
};
use crate::bevy_motiongfx::remote::batch::walk::{all_clips, clips_of_tracks, numbered_clips, track_clips};
use crate::bevy_motiongfx::remote::catalog::{CatalogModel, MotionGfxCatalog, SubjectKind};
use crate::bevy_motiongfx::remote::fault::{DocumentFault, Fault};
use crate::bevy_motiongfx::remote::host::{is_called, RemoteHost};
use crate::bevy_motiongfx::remote::persist::document::{
    DocAction, DocSubject, Document, FORMAT, FORMAT_VERSION,
};
use crate::bevy_motiongfx::remote::state::markers::{by_name, names_ascend, Marker};
use crate::bevy_motiongfx::remote::studio::{Studio, StudioModel};
use crate::text::{decimal, decimal_text, same_text, text3};
use crate::time::Ticks;
use crate::track::Track;
use vstd::prelude::*;
use vstd::string::StringExecFns;

verus! {

/// The placement of an insert, if the edit is one.
pub open spec fn placement_of(op: EditOp) -> Option<Placement> {
    match op {
        EditOp::Insert { at, .. } => Some(*at),
        EditOp::InsertKeyframes { at, .. } => Some(*at),
        _ => None,
    }
}

/// Whether the clip at a place is one of an entity with the name.
pub open spec fn claims_name(
    ops: Seq<EditOp>,
    names: Seq<Option<String>>,
    i: int,
    name: Seq<char>,
) -> bool {
    &&& 0 <= i < ops.len()
    &&& placement_of(ops[i]) is Some
    &&& names[i] matches Some(own) && own@ == name
}

/// Whether a name is that of several entities that the clips animate, so that
/// they cannot be told apart by it.
pub open spec fn is_ambiguous(
    ops: Seq<EditOp>,
    names: Seq<Option<String>>,
    name: Seq<char>,
) -> bool {
    exists|i: int, j: int|
        {
            &&& #[trigger] claims_name(ops, names, i, name)
            &&& #[trigger] claims_name(ops, names, j, name)
            &&& placement_of(ops[i])->0.entity != placement_of(ops[j])->0.entity
        }
}

/// What a clip animates, as it is written: by name where that is unique.
pub open spec fn subject_written(
    catalog: CatalogModel,
    ops: Seq<EditOp>,
    names: Seq<Option<String>>,
    i: int,
) -> DocSubject {
    let at = placement_of(ops[i])->0;
    if catalog.is_resource(at.component@, at.field@) {
        DocSubject::Resource
    } else {
        match names[i] {
            Some(name) => if is_ambiguous(ops, names, name@) {
                DocSubject::Entity { entity: at.entity }
            } else {
                DocSubject::Name { name }
            },
            None => DocSubject::Entity { entity: at.entity },
        }
    }
}

/// What is told of an entity that is written by its bits.
pub open spec fn raw_bits_warning(entity: u64) -> Seq<char> {
    "entity "@ + decimal(entity as nat)
        + " has no unique Name; exported as raw bits (re-bind on import via `bindings`)"@
}

/// When a clip starts, as it is written.
pub open spec fn start_written(at: Placement) -> Ticks {
    match at.start_at {
        Some(start) => start,
        None => 0,
    }
}

/// Whether a clip is enabled, as it is written: only where it is not.
pub open spec fn enabled_written(at: Placement) -> Option<bool> {
    if at.enabled == Some(false) {
        Some(false)
    } else {
        None
    }
}

/// A clip as it is written.
pub open spec fn action_written(
    catalog: CatalogModel,
    ops: Seq<EditOp>,
    names: Seq<Option<String>>,
    i: int,
) -> DocAction {
    let at = placement_of(ops[i])->0;
    DocAction {
        subject: subject_written(catalog, ops, names, i),
        component: at.component,
        field: at.field,
        to: match ops[i] {
            EditOp::Insert { to, .. } => Some(to),
            _ => None,
        },
        keyframes: match ops[i] {
            EditOp::InsertKeyframes { keyframes, .. } => Some(keyframes),
            _ => None,
        },
        start: start_written(at),
        duration: at.duration,
        ease: at.ease,
        label: at.label,
        color: at.color,
        enabled: enabled_written(at),
        asset_of: at.asset_of,
    }
}

/// The first `n` clips as they are written, those of one track.
pub open spec fn track_written(
    catalog: CatalogModel,
    ops: Seq<EditOp>,
    names: Seq<Option<String>>,
    track: int,
    n: int,
) -> Seq<DocAction>
    decreases n,
{
    if n <= 0 {
        Seq::empty()
    } else {
        let front = track_written(catalog, ops, names, track, n - 1);
        match placement_of(ops[n - 1]) {
            Some(at) => if at.track == track {
                front.push(action_written(catalog, ops, names, n - 1))
            } else {
                front
            },
            None => front,
        }
    }
}

/// What is told of the first `n` clips: of each whose entity is written by its
/// bits.
pub open spec fn warnings_told(
    catalog: CatalogModel,
    ops: Seq<EditOp>,
    names: Seq<Option<String>>,
    n: int,
) -> Seq<Seq<char>>
    decreases n,
{
    if n <= 0 {
        Seq::empty()
    } else {
        let front = warnings_told(catalog, ops, names, n - 1);
        match placement_of(ops[n - 1]) {
            Some(at) => if subject_written(catalog, ops, names, n - 1) is Entity {
                front.push(raw_bits_warning(at.entity))
            } else {
                front
            },
            None => front,
        }
    }
}

/// Why some of the first `n` clips cannot be written.
pub open spec fn obstacles(ops: Seq<EditOp>, n: int) -> Seq<String>
    decreases n,
{
    if n <= 0 {
        Seq::empty()
    } else {
        match ops[n - 1] {
            EditOp::Unrestorable { reason } => obstacles(ops, n - 1).push(reason),
            _ => obstacles(ops, n - 1),
        }
    }
}

/// Texts as they read.
pub open spec fn texts(list: Seq<String>) -> Seq<Seq<char>> {
    list.map_values(|text: String| text@)
}

/// Whether the edits describe clips of so many tracks.
pub open spec fn describe_clips(ops: Seq<EditOp>, track_count: int) -> bool {
    forall|i: int|
        0 <= i < ops.len() ==> {
            ||| (#[trigger] ops[i]) is Unrestorable
            ||| placement_of(ops[i]) matches Some(at) && at.track < track_count
        }
}

/// Whether the clips are written so: as a document, or not at all where one of
/// them cannot be.
pub open spec fn is_document(
    catalog: CatalogModel,
    markers: Seq<(String, Marker)>,
    track_count: int,
    ops: Seq<EditOp>,
    names: Seq<Option<String>>,
    result: Result<Document, Fault>,
) -> bool {
    let n = ops.len() as int;
    if obstacles(ops, n).len() > 0 {
        &&& result matches Err(Fault::Document(DocumentFault::Unserializable { reasons }))
        &&& reasons@ == obstacles(ops, n)
    } else {
        &&& result matches Ok(document)
        &&& document.format@ == FORMAT@
        &&& document.format_version == FORMAT_VERSION
        &&& document.tracks@.len() == track_count
        &&& forall|t: int|
            0 <= t < track_count ==> (#[trigger] document.tracks@[t])@ == track_written(
                catalog,
                ops,
                names,
                t,
                n,
            )
        &&& document.markers@ == markers
        &&& texts(document.warnings@) == warnings_told(catalog, ops, names, n)
    }
}

/// Whether a name is that of several entities.
fn find_ambiguous(ops: &Vec<EditOp>, names: &Vec<Option<String>>, name: &str) -> (ambiguous: bool)
    requires
        ops@.len() == names@.len(),
    ensures
        ambiguous == is_ambiguous(ops@, names@, name@),
{
    let mut owner: Option<u64> = None;
    let ghost mut first: int = 0;
    let mut i: usize = 0;
    while i < ops.len()
        invariant
            i <= ops@.len(),
            ops@.len() == names@.len(),
            owner is None ==> forall|k: int|
                0 <= k < i ==> !#[trigger] claims_name(ops@, names@, k, name@),
            owner matches Some(entity) ==> {
                &&& claims_name(ops@, names@, first, name@)
                &&& placement_of(ops@[first])->0.entity == entity
                &&& forall|k: int|
                    0 <= k < i && #[trigger] claims_name(ops@, names@, k, name@) ==> placement_of(
                        ops@[k],
                    )->0.entity == entity
            },
        decreases ops@.len() - i,
    {
        let own = match &names[i] {
            Some(own) => same_text(own.as_str(), name),
            None => false,
        };
        let placed = match &ops[i] {
            EditOp::Insert { at, .. } => Some(at),
            EditOp::InsertKeyframes { at, .. } => Some(at),
            _ => None,
        };
        match placed {
            Some(at) => {
                if own {
                    assert(claims_name(ops@, names@, i as int, name@));
                    match owner {
                        Some(entity) => {
                            if entity != at.entity {
                                assert(claims_name(ops@, names@, first, name@));
                                return true;
                            }
                        },
                        None => {
                            owner = Some(at.entity);
                            proof {
                                first = i as int;
                            }
                        },
                    }
                }
            },
            None => {},
        }
        i += 1;
    }
    false
}

/// What a clip animates, as it is written, and what is to be told of it.
fn write_subject(
    catalog: &MotionGfxCatalog,
    ops: &Vec<EditOp>,
    names: &Vec<Option<String>>,
    i: usize,
    at: &Placement,
) -> (subject: DocSubject)
    requires
        ops@.len() == names@.len(),
        i < ops@.len(),
        placement_of(ops@[i as int]) == Some(*at),
    ensures
        subject == subject_written(catalog@, ops@, names@, i as int),
{
    let resource = match catalog.get(at.component.as_str(), at.field.as_str()) {
        Some(entry) => entry.subject == SubjectKind::Resource,
        None => false,
    };
    if resource {
        return DocSubject::Resource;
    }
    match &names[i] {
        Some(name) => {
            if find_ambiguous(ops, names, name.as_str()) {
                DocSubject::Entity { entity: at.entity }
            } else {
                DocSubject::Name { name: name.clone() }
            }
        },
        None => DocSubject::Entity { entity: at.entity },
    }
}

/// A clip as it is written.
fn write_action(
    catalog: &MotionGfxCatalog,
    ops: &Vec<EditOp>,
    names: &Vec<Option<String>>,
    i: usize,
    at: &Placement,
) -> (action: DocAction)
    requires
        ops@.len() == names@.len(),
        i < ops@.len(),
        placement_of(ops@[i as int]) == Some(*at),
    ensures
        action == action_written(catalog@, ops@, names@, i as int),
{
    DocAction {
        subject: write_subject(catalog, ops, names, i, at),
        component: at.component.clone(),
        field: at.field.clone(),
        to: match &ops[i] {
            EditOp::Insert { to, .. } => Some(to.clone()),
            _ => None,
        },
        keyframes: match &ops[i] {
            EditOp::InsertKeyframes { keyframes, .. } => Some(keyframes.clone()),
            _ => None,
        },
        start: match at.start_at {
            Some(start) => start,
            None => 0,
        },
        duration: at.duration,
        ease: match &at.ease {
            Some(ease) => Some(ease.copy()),
            None => None,
        },
        label: copy_text(&at.label),
        color: at.color,
        enabled: match at.enabled {
            Some(false) => Some(false),
            _ => None,
        },
        asset_of: copy_text(&at.asset_of),
    }
}

/// Why clips cannot be written.
fn find_obstacles(ops: &Vec<EditOp>) -> (reasons: Vec<String>)
    ensures
        reasons@ == obstacles(ops@, ops@.len() as int),
{
    let mut reasons: Vec<String> = Vec::new();
    let mut i: usize = 0;
    while i < ops.len()
        invariant
            i <= ops@.len(),
            reasons@ == obstacles(ops@, i as int),
        decreases ops@.len() - i,
    {
        match &ops[i] {
            EditOp::Unrestorable { reason } => {
                reasons.push(reason.clone());
            },
            _ => {},
        }
        i += 1;
    }
    reasons
}

/// Writes clips, markers and the number of tracks as a document. The names are
/// those of the entities that the clips animate.
pub fn export_document(
    catalog: &MotionGfxCatalog,
    markers: Vec<(String, Marker)>,
    track_count: usize,
    ops: &Vec<EditOp>,
    names: &Vec<Option<String>>,
) -> (result: Result<Document, Fault>)
    requires
        ops@.len() == names@.len(),
        describe_clips(ops@, track_count as int),
    ensures
        is_document(catalog@, markers@, track_count as int, ops@, names@, result),
{
    let reasons = find_obstacles(ops);
    if reasons.len() > 0 {
        return Err(Fault::Document(DocumentFault::Unserializable { reasons }));
    }
    let mut tracks: Vec<Vec<DocAction>> = Vec::new();
    let mut warnings: Vec<String> = Vec::new();
    let mut t: usize = 0;
    while t < track_count
        invariant
            t <= track_count,
            tracks@.len() == t,
            forall|k: int| 0 <= k < t ==> (#[trigger] tracks@[k])@ == Seq::<DocAction>::empty(),
        decreases track_count - t,
    {
        tracks.push(Vec::new());
        t += 1;
    }
    let mut i: usize = 0;
    assert(texts(warnings@) =~= Seq::<Seq<char>>::empty());
    while i < ops.len()
        invariant
            i <= ops@.len(),
            ops@.len() == names@.len(),
            describe_clips(ops@, track_count as int),
            tracks@.len() == track_count,
            forall|k: int|
                0 <= k < track_count ==> (#[trigger] tracks@[k])@ == track_written(
                    catalog@,
                    ops@,
                    names@,
                    k,
                    i as int,
                ),
            texts(warnings@) == warnings_told(catalog@, ops@, names@, i as int),
        decreases ops@.len() - i,
    {
        let placed: Option<&Placement> = match &ops[i] {
            EditOp::Insert { at, .. } => Some(at),
            EditOp::InsertKeyframes { at, .. } => Some(at),
            _ => None,
        };
        let ghost told = warnings@;
        let ghost before = tracks@;
        match placed {
            Some(at) => {
                assert(placement_of(ops@[i as int]) == Some(*at));
                let action = write_action(catalog, ops, names, i, at);
                let raw = matches!(action.subject, DocSubject::Entity { .. });
                if raw {
                    let warning = text3(
                        "entity ",
                        decimal_text(at.entity).as_str(),
                        " has no unique Name; exported as raw bits (re-bind on import via `bindings`)",
                    );
                    warnings.push(warning);
                    assert(texts(warnings@) =~= texts(told).push(raw_bits_warning(at.entity)));
                }
                tracks[at.track].push(action);
                assert forall|k: int| 0 <= k < track_count implies (#[trigger] tracks@[k])@
                    == track_written(catalog@, ops@, names@, k, i + 1) by {
                    assert(before[k]@ == track_written(catalog@, ops@, names@, k, i as int));
                }
            },
            None => {
                assert forall|k: int| 0 <= k < track_count implies (#[trigger] tracks@[k])@
                    == track_written(catalog@, ops@, names@, k, i + 1) by {
                    assert(before[k]@ == track_written(catalog@, ops@, names@, k, i as int));
                }
            },
        }
        i += 1;
    }
    Ok(
        Document {
            format: String::from_str(FORMAT),
            format_version: FORMAT_VERSION,
            tracks,
            markers,
            warnings,
        },
    )
}

/// Whether these are the names of the entities that clips animate.
pub open spec fn are_called<H: RemoteHost>(
    host: &H,
    ops: Seq<EditOp>,
    names: Seq<Option<String>>,
) -> bool {
    &&& names.len() == ops.len()
    &&& forall|i: int|
        0 <= i < ops.len() ==> match placement_of(#[trigger] ops[i]) {
            Some(at) => is_called(host, at.entity, names[i]),
            None => names[i] is None,
        }
}

/// The names of the entities that clips animate.
fn collect_names<H: RemoteHost>(host: &H, ops: &Vec<EditOp>) -> (names: Vec<Option<String>>)
    ensures
        are_called(host, ops@, names@),
{
    let mut names: Vec<Option<String>> = Vec::new();
    let mut i: usize = 0;
    while i < ops.len()
        invariant
            i <= ops@.len(),
            names@.len() == i,
            forall|k: int|
                0 <= k < i ==> match placement_of(#[trigger] ops@[k]) {
                    Some(at) => is_called(host, at.entity, names@[k]),
                    None => names@[k] is None,
                },
        decreases ops@.len() - i,
    {
        let placed: Option<&Placement> = match &ops[i] {
            EditOp::Insert { at, .. } => Some(at),
            EditOp::InsertKeyframes { at, .. } => Some(at),
            _ => None,
        };
        let name: Option<String> = match placed {
            Some(at) => {
                let name = host.name_of(at.entity);
                assert(is_called(host, at.entity, name));
                name
            },
            None => None,
        };
        names.push(name);
        i += 1;
    }
    names
}

/// The clips of the first tracks are on those tracks.
proof fn clips_are_on_tracks(tracks: Seq<Track>, n: int)
    requires
        0 <= n <= tracks.len() <= usize::MAX,
    ensures
        forall|i: int|
            0 <= i < clips_of_tracks(tracks, n).len() ==> (#[trigger] clips_of_tracks(
                tracks,
                n,
            )[i]).0 < n,
        forall|i: int, j: int|
            0 <= i < j < clips_of_tracks(tracks, n).len() ==> (#[trigger] clips_of_tracks(
                tracks,
                n,
            )[i]).0 <= (#[trigger] clips_of_tracks(tracks, n)[j]).0,
    decreases n,
{
    if n > 0 {
        clips_are_on_tracks(tracks, n - 1);
        let front = clips_of_tracks(tracks, n - 1);
        let back = numbered_clips((n - 1) as usize, track_clips(tracks[n - 1]));
        assert forall|i: int| 0 <= i < (front + back).len() implies (#[trigger] (front + back)[i]).0
            < n by {
            if i >= front.len() {
                assert((front + back)[i] == back[i - front.len()]);
            } else {
                assert((front + back)[i] == front[i]);
            }
        }
        assert forall|i: int, j: int| 0 <= i < j < (front + back).len() implies (#[trigger] (front
            + back)[i]).0 <= (#[trigger] (front + back)[j]).0 by {
            if i < front.len() {
                assert((front + back)[i] == front[i]);
                if j < front.len() {
                    assert((front + back)[j] == front[j]);
                } else {
                    assert((front + back)[j] == back[j - front.len()]);
                }
            } else {
                assert((front + back)[i] == back[i - front.len()]);
                assert((front + back)[j] == back[j - front.len()]);
            }
        }
    }
}

/// Whether the clips come track by track.
pub open spec fn track_by_track(ops: Seq<EditOp>) -> bool {
    forall|i: int, j: int|
        0 <= i < j < ops.len() && placement_of(#[trigger] ops[i]) is Some && placement_of(
            #[trigger] ops[j],
        ) is Some ==> placement_of(ops[i])->0.track <= placement_of(ops[j])->0.track
}

/// Snapshots describe clips of the tracks that there are, track by track, and
/// taking them changes content only, not even how many tracks there are.
pub proof fn snapshots_describe_clips<H: RemoteHost>(
    host: &H,
    id: TimelineId,
    trace: Seq<StudioModel>,
    ops: Seq<EditOp>,
)
    requires
        trace.len() > 0,
        trace.first().timelines.contains_key(id),
        trace.first().timelines[id].tracks.len() <= usize::MAX,
        snapshots_taken(host, id, all_clips(trace.first().timelines[id]), trace, ops),
    ensures
        describe_clips(ops, trace.first().timelines[id].tracks.len() as int),
        track_by_track(ops),
        only_content(id, trace.first(), trace.last()),
        trace.last().timelines[id].tracks.len() == trace.first().timelines[id].tracks.len(),
    decreases ops.len(),
{
    let tracks = trace.first().timelines[id].tracks;
    let clips = all_clips(trace.first().timelines[id]);
    clips_are_on_tracks(tracks, tracks.len() as int);
    snapshots_keep_tracks(host, id, clips, trace, ops);
    assert forall|i: int| 0 <= i < ops.len() implies {
        ||| (#[trigger] ops[i]) is Unrestorable
        ||| placement_of(ops[i]) matches Some(at) && at.track == clips[i].0
    } by {
        assert(snapshot_taken(
            host,
            id,
            clips[i].0,
            clips[i].1,
            trace[i],
            trace[i + 1],
            Ok(ops[i]),
        ));
    }
    assert forall|i: int, j: int|
        0 <= i < j < ops.len() && placement_of(#[trigger] ops[i]) is Some && placement_of(
            #[trigger] ops[j],
        ) is Some implies placement_of(ops[i])->0.track <= placement_of(ops[j])->0.track by {
        assert(clips[i].0 <= clips[j].0);
    }
}

proof fn snapshots_keep_tracks<H: RemoteHost>(
    host: &H,
    id: TimelineId,
    clips: Seq<(usize, crate::action::ActionId)>,
    trace: Seq<StudioModel>,
    ops: Seq<EditOp>,
)
    requires
        trace.len() > 0,
        trace.first().timelines.contains_key(id),
        snapshots_taken(host, id, clips, trace, ops),
    ensures
        only_content(id, trace.first(), trace.last()),
        trace.last().timelines[id].tracks.len() == trace.first().timelines[id].tracks.len(),
    decreases ops.len(),
{
    if ops.len() > 0 {
        let n = ops.len() - 1;
        let shorter = trace.drop_last();
        let fewer = ops.drop_last();
        assert forall|i: int| 0 <= i < fewer.len() implies snapshot_taken(
            host,
            id,
            clips[i].0,
            clips[i].1,
            shorter[i],
            shorter[i + 1],
            Ok(#[trigger] fewer[i]),
        ) by {
            assert(fewer[i] == ops[i]);
        }
        snapshots_keep_tracks(host, id, clips, shorter, fewer);
        assert(snapshot_taken(
            host,
            id,
            clips[n].0,
            clips[n].1,
            trace[n],
            trace[n + 1],
            Ok(ops[n]),
        ));
        baking_is_content(host, id, trace[n], trace[n + 1]);
        only_content_twice(id, trace.first(), trace[n], trace[n + 1]);
    }
}

/// Snapshotting the clips of a timeline changes content only.
pub proof fn snapshots_change_content_only<H: RemoteHost>(
    host: &H,
    id: TimelineId,
    before: StudioModel,
    after: StudioModel,
    result: Result<Seq<EditOp>, Fault>,
)
    requires
        all_snapshotted(host, id, before, after, result),
    ensures
        only_content(id, before, after),
        before.timelines.contains_key(id) ==> after.timelines.contains_key(id),
{
    if before.timelines.contains_key(id) {
        let clips = all_clips(before.timelines[id]);
        match result {
            Ok(ops) => {
                let trace = choose|trace: Seq<StudioModel>|
                    {
                        &&& #[trigger] snapshots_taken(host, id, clips, trace, ops)
                        &&& trace.first() == before
                        &&& trace.last() == after
                    };
                snapshots_keep_tracks(host, id, clips, trace, ops);
            },
            Err(fault) => {
                let (trace, ops) = choose|trace: Seq<StudioModel>, ops: Seq<EditOp>|
                    {
                        &&& #[trigger] snapshots_taken(host, id, clips, trace, ops)
                        &&& trace.first() == before
                        &&& ops.len() < clips.len()
                        &&& snapshot_taken(
                            host,
                            id,
                            clips[ops.len() as int].0,
                            clips[ops.len() as int].1,
                            trace.last(),
                            after,
                            Err(fault),
                        )
                    };
                snapshots_keep_tracks(host, id, clips, trace, ops);
                baking_is_content(host, id, trace.last(), after);
                only_content_twice(id, before, trace.last(), after);
            },
        }
    }
}

/// Whether a timeline was exported so, by way of the snapshots of its clips
/// and the names of the entities that they animate.
pub open spec fn export_stepped<H: RemoteHost>(
    host: &H,
    id: TimelineId,
    before: StudioModel,
    after: StudioModel,
    ops: Result<Seq<EditOp>, Fault>,
    names: Seq<Option<String>>,
    markers: Seq<(String, Marker)>,
    result: Result<Document, Fault>,
) -> bool {
    &&& all_snapshotted(host, id, before, after, ops)
    &&& match ops {
        Err(fault) => result == Err::<Document, Fault>(fault),
        Ok(ops) => {
            &&& describe_clips(ops, after.timelines[id].tracks.len() as int)
            &&& track_by_track(ops)
            &&& are_called(host, ops, names)
            &&& names_ascend(markers)
            &&& by_name(markers) == after.edits_of(id).markers
            &&& is_document(
                after.catalog,
                markers,
                after.timelines[id].tracks.len() as int,
                ops,
                names,
                result,
            )
        },
    }
}

/// Whether a timeline was exported so.
pub open spec fn exported<H: RemoteHost>(
    host: &H,
    id: TimelineId,
    before: StudioModel,
    after: StudioModel,
    result: Result<Document, Fault>,
) -> bool {
    exists|
        ops: Result<Seq<EditOp>, Fault>,
        names: Seq<Option<String>>,
        markers: Seq<(String, Marker)>,
    | #[trigger]
        export_stepped(host, id, before, after, ops, names, markers, result)
}

/// Snapshots a timeline as a document.
pub fn timeline_export<H: RemoteHost>(host: &H, studio: &mut Studio, id: u64) -> (result: Result<
    Document,
    Fault,
>)
    ensures
        exported(host, TimelineId { raw: id }, old(studio)@, final(studio)@, result),
        only_content(TimelineId { raw: id }, old(studio)@, final(studio)@),
        stays_seekable(old(studio)@, final(studio)@),
{
    let ghost before = studio@;
    let tid = TimelineId::from_raw(id);
    let taken = snapshot_all_clips(host, studio, tid);
    proof {
        snapshots_change_content_only(host, tid, before, studio@, ops_view(taken));
        content_stays_seekable(tid, before, studio@);
    }
    let ops = match taken {
        Ok(ops) => ops,
        Err(fault) => {
            assert(export_stepped(
                host,
                tid,
                before,
                studio@,
                Err(fault),
                Seq::empty(),
                Seq::empty(),
                Err(fault),
            ));
            return Err(fault);
        },
    };
    let track_count: usize = match studio.manager.get_timeline(&tid) {
        Some(timeline) => timeline.track_count(),
        None => {
            assert(false);
            0
        },
    };
    proof {
        let clips = all_clips(before.timelines[tid]);
        let trace = choose|trace: Seq<StudioModel>|
            {
                &&& #[trigger] snapshots_taken(host, tid, clips, trace, ops@)
                &&& trace.first() == before
                &&& trace.last() == studio@
            };
        snapshots_keep_tracks(host, tid, clips, trace, ops@);
        snapshots_describe_clips(host, tid, trace, ops@);
    }
    let names = collect_names(host, &ops);
    let markers = studio.state.markers(&tid);
    let ghost list = markers@;
    let result = export_document(&studio.catalog, markers, track_count, &ops, &names);
    assert(export_stepped(
        host,
        tid,
        before,
        studio@,
        Ok(ops@),
        names@,
        list,
        result,
    ));
    result
}

} // verus!
