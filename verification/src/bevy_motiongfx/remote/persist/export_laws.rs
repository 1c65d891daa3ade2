//! What the documents of timelines that show the same have in common.
use crate::action::{ActionKey, InterpFn, Value};
use crate::bevy_motiongfx::manager::TimelineId;
use crate::bevy_motiongfx::remote::batch::clear_laws::{
    all_insert, op_names, restorable, snapshots_describe_all,
};
use crate::bevy_motiongfx::remote::batch::laws::tracks_laid_out;
use crate::bevy_motiongfx::remote::batch::op::{EditOp, KeyframeDoc};
use crate::bevy_motiongfx::remote::batch::restore_laws::{
    has_lane, listed, listed_one_more, neat, op_describes, owner_of, shown_lane, shows, Shown,
};
use crate::bevy_motiongfx::remote::batch::show_laws::{
    all_shown, lane_shown_in, shows_alike, timelines_show_all,
};
use crate::bevy_motiongfx::remote::batch::update_laws::reads_back;
use crate::bevy_motiongfx::remote::catalog::CatalogModel;
use crate::bevy_motiongfx::remote::ease::EaseParam;
use crate::bevy_motiongfx::remote::fault::Fault;
use crate::bevy_motiongfx::remote::host::{encodes, is_called, NamedEntity, RemoteHost};
use crate::bevy_motiongfx::remote::json::Json;
use crate::bevy_motiongfx::remote::names::are_named;
use crate::bevy_motiongfx::remote::persist::document::{DocAction, DocSubject, Document};
use crate::bevy_motiongfx::remote::persist::export::{
    action_written, are_called, claims_name, export_stepped, is_ambiguous, placement_of,
    track_written,
};
use crate::bevy_motiongfx::remote::persist::fidelity::{names_hold, without_obstacles};
use crate::bevy_motiongfx::remote::persist::import::{imported, replaces, ImportParams};
use crate::bevy_motiongfx::remote::persist::round_trip::exports_import_back;
use crate::bevy_motiongfx::remote::state::markers::{by_name, Marker};
use crate::bevy_motiongfx::remote::studio::StudioModel;
use crate::pipeline::PipelineKey;
use crate::subject::{Subject, UntypedField};
use vstd::prelude::*;

verus! {

/// Whether an application always writes a value the same, and calls an entity the
/// same.
pub open spec fn writes_once<H: RemoteHost>(host: &H) -> bool {
    &&& forall|value: Value, a: Json, b: Json|
        #[trigger] encodes(host, value, Some(a)) && #[trigger] encodes(host, value, Some(b)) ==> a
            == b
    &&& forall|entity: u64, a: Option<String>, b: Option<String>|
        #[trigger] is_called(host, entity, a) && #[trigger] is_called(host, entity, b)
            ==> called_alike(a, b)
}

/// Whether two names read the same.
pub open spec fn called_alike(a: Option<String>, b: Option<String>) -> bool {
    match (a, b) {
        (Some(a), Some(b)) => a@ == b@,
        (None, None) => true,
        _ => false,
    }
}

/// A subject of a document as it reads.
#[verifier::ext_equal]
pub enum SubjectText {
    Name(Seq<char>),
    Entity(u64),
    Resource,
}

/// What a subject of a document reads.
pub open spec fn subject_text(subject: DocSubject) -> SubjectText {
    match subject {
        DocSubject::Name { name } => SubjectText::Name(name@),
        DocSubject::Entity { entity } => SubjectText::Entity(entity),
        DocSubject::Resource => SubjectText::Resource,
    }
}

/// Whether two eases read the same.
pub open spec fn eases_alike(a: Option<EaseParam>, b: Option<EaseParam>) -> bool {
    match (a, b) {
        (Some(EaseParam::Named(a)), Some(EaseParam::Named(b))) => a@ == b@,
        (Some(EaseParam::Curve(a)), Some(EaseParam::Curve(b))) => a == b,
        (None, None) => true,
        _ => false,
    }
}

/// Whether two keyframes read the same.
pub open spec fn points_alike(a: KeyframeDoc, b: KeyframeDoc) -> bool {
    &&& a.t == b.t
    &&& a.value == b.value
    &&& eases_alike(a.ease, b.ease)
    &&& a.hold == b.hold
}

/// Whether two actions of documents read the same.
pub open spec fn actions_alike(a: DocAction, b: DocAction) -> bool {
    &&& subject_text(a.subject) == subject_text(b.subject)
    &&& a.component@ == b.component@
    &&& a.field@ == b.field@
    &&& match (a.to, b.to) {
        (Some(a), Some(b)) => *a == *b,
        (None, None) => true,
        _ => false,
    }
    &&& match (a.keyframes, b.keyframes) {
        (Some(a), Some(b)) => a@.len() == b@.len() && forall|i: int|
            0 <= i < a@.len() ==> points_alike(#[trigger] a@[i], b@[i]),
        (None, None) => true,
        _ => false,
    }
    &&& a.start == b.start
    &&& a.duration == b.duration
    &&& eases_alike(a.ease, b.ease)
    &&& a.label == b.label
    &&& a.color == b.color
    &&& a.enabled == b.enabled
    &&& a.asset_of is None && b.asset_of is None
}

/// Whether an action of a document is one of a field of a subject.
pub open spec fn addresses(
    action: DocAction,
    component: Seq<char>,
    field: Seq<char>,
    subject: SubjectText,
) -> bool {
    &&& action.component@ == component
    &&& action.field@ == field
    &&& subject_text(action.subject) == subject
}

/// Those of the actions of a document that are of a field of a subject.
pub open spec fn addressed(
    actions: Seq<DocAction>,
    component: Seq<char>,
    field: Seq<char>,
    subject: SubjectText,
) -> Seq<DocAction> {
    actions.filter(|action: DocAction| addresses(action, component, field, subject))
}

/// Whether lists of actions read the same.
pub open spec fn lists_alike(a: Seq<DocAction>, b: Seq<DocAction>) -> bool {
    &&& a.len() == b.len()
    &&& forall|i: int| 0 <= i < a.len() ==> actions_alike(#[trigger] a[i], b[i])
}

/// Whether two documents read the same, up to the order of the actions of a track
/// that are not of the same field of the same subject.
pub open spec fn documents_alike(a: Document, b: Document) -> bool {
    &&& a.format@ == b.format@
    &&& a.format_version == b.format_version
    &&& a.tracks@.len() == b.tracks@.len()
    &&& forall|t: int, component: Seq<char>, field: Seq<char>, subject: SubjectText|
        0 <= t < a.tracks@.len() ==> lists_alike(
            #[trigger] addressed(a.tracks@[t]@, component, field, subject),
            addressed(b.tracks@[t]@, component, field, subject),
        )
}

/// Whether an edit is one of a field of a subject on a track, as it is written.
spec fn is_one(
    catalog: CatalogModel,
    ops: Seq<EditOp>,
    names: Seq<Option<String>>,
    t: int,
    component: Seq<char>,
    field: Seq<char>,
    subject: SubjectText,
    i: int,
) -> bool {
    &&& placement_of(ops[i]) matches Some(at) && at.track == t
    &&& addresses(action_written(catalog, ops, names, i), component, field, subject)
}

/// Which of the first `n` edits are of a field of a subject on a track.
spec fn ones(
    catalog: CatalogModel,
    ops: Seq<EditOp>,
    names: Seq<Option<String>>,
    t: int,
    component: Seq<char>,
    field: Seq<char>,
    subject: SubjectText,
    n: int,
) -> Seq<int>
    decreases n,
{
    if n <= 0 {
        Seq::empty()
    } else {
        let front = ones(catalog, ops, names, t, component, field, subject, n - 1);
        if is_one(catalog, ops, names, t, component, field, subject, n - 1) {
            front.push(n - 1)
        } else {
            front
        }
    }
}

/// What is written of a field of a subject is what is written of those edits.
proof fn addressed_are_ones(
    catalog: CatalogModel,
    ops: Seq<EditOp>,
    names: Seq<Option<String>>,
    t: int,
    component: Seq<char>,
    field: Seq<char>,
    subject: SubjectText,
    n: int,
)
    requires
        0 <= n,
    ensures
        addressed(track_written(catalog, ops, names, t, n), component, field, subject) == ones(
            catalog,
            ops,
            names,
            t,
            component,
            field,
            subject,
            n,
        ).map_values(|i: int| action_written(catalog, ops, names, i)),
    decreases n,
{
    reveal(Seq::filter);
    let write = |i: int| action_written(catalog, ops, names, i);
    if n > 0 {
        addressed_are_ones(catalog, ops, names, t, component, field, subject, n - 1);
        let front = track_written(catalog, ops, names, t, n - 1);
        let all = track_written(catalog, ops, names, t, n);
        let held = ones(catalog, ops, names, t, component, field, subject, n - 1);
        if all != front {
            assert(all.drop_last() =~= front);
            assert(all.last() == action_written(catalog, ops, names, n - 1));
        }
        assert(held.push(n - 1).map_values(write) =~= held.map_values(write).push(write(n - 1)));
        if placement_of(ops[n - 1]) is Some && placement_of(ops[n - 1])->0.track == t {
            assert(all == front.push(action_written(catalog, ops, names, n - 1)));
            assert(all.drop_last() =~= front);
        }
    } else {
        assert(ones(catalog, ops, names, t, component, field, subject, n).map_values(write)
            =~= Seq::empty());
        assert(track_written(catalog, ops, names, t, n) =~= Seq::empty());
    }
}

/// The edits of a field of a subject are those whose clips are listed.
proof fn ones_are_listed(
    catalog: CatalogModel,
    ops: Seq<EditOp>,
    names: Seq<Option<String>>,
    shown: Seq<Shown>,
    t: int,
    component: Seq<char>,
    field: Seq<char>,
    subject: SubjectText,
    owner: Subject,
    own: UntypedField,
    n: int,
)
    requires
        0 <= n <= shown.len(),
        forall|i: int|
            0 <= i < shown.len() ==> (#[trigger] is_one(
                catalog,
                ops,
                names,
                t,
                component,
                field,
                subject,
                i,
            ) <==> shown[i].track == t && shown[i].subject == owner && shown[i].field == own),
    ensures
        ({
            let held = ones(catalog, ops, names, t, component, field, subject, n);
            &&& forall|k: int|
                0 <= k < held.len() ==> 0 <= #[trigger] held[k] < n && shown[held[k]].track == t
                    && shown[held[k]].subject == owner && shown[held[k]].field == own
            &&& listed(shown.take(n), t, owner, own) == held.map_values(|i: int| shown[i].clip)
        }),
    decreases n,
{
    let held = ones(catalog, ops, names, t, component, field, subject, n);
    let clip = |i: int| shown[i].clip;
    if n > 0 {
        ones_are_listed(
            catalog,
            ops,
            names,
            shown,
            t,
            component,
            field,
            subject,
            owner,
            own,
            n - 1,
        );
        let front = ones(catalog, ops, names, t, component, field, subject, n - 1);
        assert(shown.take(n) =~= shown.take(n - 1).push(shown[n - 1]));
        listed_one_more(shown.take(n - 1), shown[n - 1], t, owner, own);
        assert(front.push(n - 1).map_values(clip) =~= front.map_values(clip).push(clip(n - 1)));
        assert(is_one(catalog, ops, names, t, component, field, subject, n - 1) <==> (
        shown[n - 1].track == t && shown[n - 1].subject == owner && shown[n - 1].field == own));
    } else {
        assert(listed(shown.take(0), t, owner, own).len() == 0) by {
            reveal(Seq::filter);
        }
        assert(listed(shown.take(n), t, owner, own) =~= held.map_values(clip));
    }
}

/// Where no edit is of a field of a subject, none is among those.
proof fn no_ones(
    catalog: CatalogModel,
    ops: Seq<EditOp>,
    names: Seq<Option<String>>,
    t: int,
    component: Seq<char>,
    field: Seq<char>,
    subject: SubjectText,
    n: int,
)
    requires
        0 <= n,
        forall|i: int|
            0 <= i < n ==> !#[trigger] is_one(
                catalog,
                ops,
                names,
                t,
                component,
                field,
                subject,
                i,
            ),
    ensures
        ones(catalog, ops, names, t, component, field, subject, n).len() == 0,
    decreases n,
{
    if n > 0 {
        no_ones(catalog, ops, names, t, component, field, subject, n - 1);
        assert(!is_one(catalog, ops, names, t, component, field, subject, n - 1));
    }
}

/// Some clips as they show, the edits that insert them, and what the entities that
/// they animate are called.
struct Written {
    ops: Seq<EditOp>,
    names: Seq<Option<String>>,
    shown: Seq<Shown>,
}

/// Whether edits insert clips that show.
spec fn describes<H: RemoteHost>(
    host: &H,
    catalog: CatalogModel,
    remote: Map<PipelineKey, InterpFn>,
    a: Written,
) -> bool {
    &&& a.ops.len() == a.shown.len()
    &&& are_called(host, a.ops, a.names)
    &&& forall|i: int|
        0 <= i < a.ops.len() ==> op_describes(
            host,
            catalog,
            remote,
            #[trigger] a.ops[i],
            a.shown[i],
        ) && op_names(catalog, a.ops[i], a.shown[i])
}

/// Whether clips are among others.
spec fn are_among(a: Seq<Shown>, b: Seq<Shown>) -> bool {
    forall|i: int| 0 <= i < a.len() ==> b.contains(#[trigger] a[i])
}

/// A subject is called the same by both.
proof fn names_are_alike<H: RemoteHost>(
    host: &H,
    catalog: CatalogModel,
    remote: Map<PipelineKey, InterpFn>,
    a: Written,
    b: Written,
    i: int,
    j: int,
)
    requires
        writes_once(host),
        describes(host, catalog, remote, a),
        describes(host, catalog, remote, b),
        0 <= i < a.ops.len(),
        0 <= j < b.ops.len(),
        a.shown[i].subject.bits == b.shown[j].subject.bits,
    ensures
        called_alike(a.names[i], b.names[j]),
        placement_of(a.ops[i]) is Some,
        placement_of(b.ops[j]) is Some,
        placement_of(a.ops[i])->0.entity == placement_of(b.ops[j])->0.entity,
{
    assert(op_names(catalog, a.ops[i], a.shown[i]));
    assert(op_names(catalog, b.ops[j], b.shown[j]));
    let entity = a.shown[i].subject.bits;
    assert(is_called(host, entity, a.names[i]));
    assert(is_called(host, entity, b.names[j]));
}

/// A name that several entities have has several among more.
proof fn ambiguity_stays<H: RemoteHost>(
    host: &H,
    catalog: CatalogModel,
    remote: Map<PipelineKey, InterpFn>,
    a: Written,
    b: Written,
    name: Seq<char>,
)
    requires
        writes_once(host),
        describes(host, catalog, remote, a),
        describes(host, catalog, remote, b),
        are_among(a.shown, b.shown),
        is_ambiguous(a.ops, a.names, name),
    ensures
        is_ambiguous(b.ops, b.names, name),
{
    let (i, j) = choose|i: int, j: int|
        {
            &&& #[trigger] claims_name(a.ops, a.names, i, name)
            &&& #[trigger] claims_name(a.ops, a.names, j, name)
            &&& placement_of(a.ops[i])->0.entity != placement_of(a.ops[j])->0.entity
        };
    assert(b.shown.contains(a.shown[i]) && b.shown.contains(a.shown[j]));
    let m = choose|m: int| 0 <= m < b.shown.len() && b.shown[m] == a.shown[i];
    let n = choose|n: int| 0 <= n < b.shown.len() && b.shown[n] == a.shown[j];
    names_are_alike(host, catalog, remote, a, b, i, m);
    names_are_alike(host, catalog, remote, a, b, j, n);
    assert(claims_name(b.ops, b.names, m, name));
    assert(claims_name(b.ops, b.names, n, name));
}

/// A field of a subject is written the same by both.
proof fn addresses_are_alike<H: RemoteHost>(
    host: &H,
    catalog: CatalogModel,
    remote: Map<PipelineKey, InterpFn>,
    a: Written,
    b: Written,
    i: int,
    j: int,
)
    requires
        writes_once(host),
        describes(host, catalog, remote, a),
        describes(host, catalog, remote, b),
        are_among(a.shown, b.shown),
        are_among(b.shown, a.shown),
        0 <= i < a.ops.len(),
        0 <= j < b.ops.len(),
        a.shown[i].subject == b.shown[j].subject,
        a.shown[i].field == b.shown[j].field,
    ensures
        ({
            let x = action_written(catalog, a.ops, a.names, i);
            let y = action_written(catalog, b.ops, b.names, j);
            &&& x.component@ == y.component@
            &&& x.field@ == y.field@
            &&& subject_text(x.subject) == subject_text(y.subject)
        }),
{
    assert(op_names(catalog, a.ops[i], a.shown[i]));
    assert(op_names(catalog, b.ops[j], b.shown[j]));
    names_are_alike(host, catalog, remote, a, b, i, j);
    match a.names[i] {
        Some(name) => {
            if is_ambiguous(a.ops, a.names, name@) {
                ambiguity_stays(host, catalog, remote, a, b, name@);
            }
            if is_ambiguous(b.ops, b.names, name@) {
                ambiguity_stays(host, catalog, remote, b, a, name@);
            }
        },
        None => {},
    }
}

/// What is written as the same field of the same subject is of the same field of
/// the same subject.
proof fn addressed_is_of_owner<H: RemoteHost>(
    host: &H,
    catalog: CatalogModel,
    remote: Map<PipelineKey, InterpFn>,
    a: Written,
    b: Written,
    t: int,
    component: Seq<char>,
    field: Seq<char>,
    subject: SubjectText,
    i: int,
    j: int,
)
    requires
        writes_once(host),
        describes(host, catalog, remote, a),
        describes(host, catalog, remote, b),
        are_among(a.shown, b.shown),
        are_among(b.shown, a.shown),
        0 <= i < a.ops.len(),
        0 <= j < b.ops.len(),
        is_one(catalog, a.ops, a.names, t, component, field, subject, i),
    ensures
        is_one(catalog, b.ops, b.names, t, component, field, subject, j) <==> b.shown[j].track == t
            && b.shown[j].subject == a.shown[i].subject && b.shown[j].field == a.shown[i].field,
        a.shown[i].track == t,
{
    assert(op_names(catalog, a.ops[i], a.shown[i]));
    assert(op_names(catalog, b.ops[j], b.shown[j]));
    assert(op_describes(host, catalog, remote, a.ops[i], a.shown[i]));
    assert(op_describes(host, catalog, remote, b.ops[j], b.shown[j]));
    let (p, q) = (placement_of(a.ops[i])->0, placement_of(b.ops[j])->0);
    assert(p.track == a.shown[i].track);
    assert(q.track == b.shown[j].track);
    if b.shown[j].subject == a.shown[i].subject && b.shown[j].field == a.shown[i].field {
        addresses_are_alike(host, catalog, remote, a, b, i, j);
    }
    if is_one(catalog, b.ops, b.names, t, component, field, subject, j) {
        let entry = catalog.entry(component, field)->0;
        assert(entry.field == a.shown[i].field);
        assert(entry.field == b.shown[j].field);
        match subject {
            SubjectText::Name(name) => {
                assert(a.shown.contains(b.shown[j]));
                let m = choose|m: int| 0 <= m < a.shown.len() && a.shown[m] == b.shown[j];
                names_are_alike(host, catalog, remote, a, b, m, j);
                assert(claims_name(a.ops, a.names, i, name));
                assert(claims_name(a.ops, a.names, m, name));
                assert(p.entity == placement_of(a.ops[m])->0.entity);
            },
            _ => {},
        }
    }
}

/// Clips that show the same are written the same.
proof fn written_alike<H: RemoteHost>(
    host: &H,
    catalog: CatalogModel,
    remote: Map<PipelineKey, InterpFn>,
    a: Written,
    b: Written,
    i: int,
    j: int,
)
    requires
        writes_once(host),
        describes(host, catalog, remote, a),
        describes(host, catalog, remote, b),
        are_among(a.shown, b.shown),
        are_among(b.shown, a.shown),
        0 <= i < a.ops.len(),
        0 <= j < b.ops.len(),
        a.shown[i].subject == b.shown[j].subject,
        a.shown[i].field == b.shown[j].field,
        a.shown[i].clip == b.shown[j].clip,
    ensures
        actions_alike(
            action_written(catalog, a.ops, a.names, i),
            action_written(catalog, b.ops, b.names, j),
        ),
{
    addresses_are_alike(host, catalog, remote, a, b, i, j);
    assert(op_describes(host, catalog, remote, a.ops[i], a.shown[i]));
    assert(op_describes(host, catalog, remote, b.ops[j], b.shown[j]));
    let clip = a.shown[i].clip;
    match (a.ops[i], b.ops[j]) {
        (EditOp::Insert { to: x, .. }, EditOp::Insert { to: y, .. }) => {
            let value = clip.action->Constant_0;
            assert(encodes(host, value, Some(*x)));
            assert(encodes(host, value, Some(*y)));
        },
        (
            EditOp::InsertKeyframes { keyframes: x, .. },
            EditOp::InsertKeyframes { keyframes: y, .. },
        ) => {
            let points = clip.points->0;
            assert forall|k: int| 0 <= k < x@.len() implies points_alike(
                #[trigger] x@[k],
                y@[k],
            ) by {
                assert(encodes(host, points[k].value, Some(x@[k].value)));
                assert(encodes(host, points[k].value, Some(y@[k].value)));
            }
        },
        _ => {},
    }
}

/// Timelines that show the same list the same clips.
proof fn alike_are_listed(
    a: StudioModel,
    id: TimelineId,
    b: StudioModel,
    other: TimelineId,
    p: Seq<Shown>,
    q: Seq<Shown>,
    t: int,
    subject: Subject,
    field: UntypedField,
)
    requires
        shows(a, id, p),
        shows(b, other, q),
        shows_alike(a, id, b, other),
    ensures
        listed(p, t, subject, field) == listed(q, t, subject, field),
{
    let (x, y) = (a.timelines[id], b.timelines[other]);
    if listed(p, t, subject, field).len() > 0 {
        assert(has_lane(x, t, subject, field));
        let key = choose|key: ActionKey| #[trigger]
            x.tracks[t].lanes().contains_key(key) && owner_of(x, key) == subject && key.field
                == field;
        let clips = shown_lane(a, id, x.tracks[t].lanes()[key]);
        assert(lane_shown_in(b, other, t, subject, field, clips));
        let found = choose|found: ActionKey| #[trigger]
            y.tracks[t].lanes().contains_key(found) && owner_of(y, found) == subject && found.field
                == field && shown_lane(b, other, y.tracks[t].lanes()[found]) == clips;
        assert(y.tracks[t].lanes().contains_key(found));
    } else if listed(q, t, subject, field).len() > 0 {
        assert(has_lane(y, t, subject, field));
        let key = choose|key: ActionKey| #[trigger]
            y.tracks[t].lanes().contains_key(key) && owner_of(y, key) == subject && key.field
                == field;
        let clips = shown_lane(b, other, y.tracks[t].lanes()[key]);
        assert(lane_shown_in(a, id, t, subject, field, clips));
        let found = choose|found: ActionKey| #[trigger]
            x.tracks[t].lanes().contains_key(found) && owner_of(x, found) == subject && found.field
                == field && shown_lane(a, id, x.tracks[t].lanes()[found]) == clips;
        assert(x.tracks[t].lanes().contains_key(found));
    } else {
        assert(listed(p, t, subject, field) =~= listed(q, t, subject, field));
    }
}

/// A clip that is listed is there.
proof fn listed_is_there(shown: Seq<Shown>, one: Shown)
    ensures
        shown.contains(one) <==> listed(shown, one.track, one.subject, one.field).contains(one.clip),
{
    let pick = |x: Shown|
        x.track == one.track && x.subject == one.subject && x.field == one.field;
    let picked = shown.filter(pick);
    let clips = listed(shown, one.track, one.subject, one.field);
    shown.filter_lemma(pick);
    if shown.contains(one) {
        let i = choose|i: int| 0 <= i < shown.len() && shown[i] == one;
        assert(pick(shown[i]));
        assert(picked.contains(one));
        let k = choose|k: int| 0 <= k < picked.len() && picked[k] == one;
        assert(clips[k] == one.clip);
        assert(clips.contains(clips[k]));
    }
    if clips.contains(one.clip) {
        let k = choose|k: int| 0 <= k < clips.len() && clips[k] == one.clip;
        assert(pick(picked[k]));
        assert(picked[k] == one);
        assert(picked.contains(one));
        shown.lemma_filter_contains_rev(pick, one);
    }
}

/// Timelines that show the same show the same clips.
proof fn alike_are_among(
    a: StudioModel,
    id: TimelineId,
    b: StudioModel,
    other: TimelineId,
    p: Seq<Shown>,
    q: Seq<Shown>,
)
    requires
        shows(a, id, p),
        shows(b, other, q),
        shows_alike(a, id, b, other),
    ensures
        are_among(p, q),
        are_among(q, p),
{
    assert forall|i: int| 0 <= i < p.len() implies q.contains(#[trigger] p[i]) by {
        let one = p[i];
        alike_are_listed(a, id, b, other, p, q, one.track, one.subject, one.field);
        assert(p.contains(one));
        listed_is_there(p, one);
        listed_is_there(q, one);
    }
    assert forall|i: int| 0 <= i < q.len() implies p.contains(#[trigger] q[i]) by {
        let one = q[i];
        alike_are_listed(a, id, b, other, p, q, one.track, one.subject, one.field);
        assert(q.contains(one));
        listed_is_there(p, one);
        listed_is_there(q, one);
    }
}

/// What is written of a field of a subject on a track reads the same in both.
proof fn lanes_written_alike<H: RemoteHost>(
    host: &H,
    catalog: CatalogModel,
    remote: Map<PipelineKey, InterpFn>,
    a: Written,
    b: Written,
    t: int,
    component: Seq<char>,
    field: Seq<char>,
    subject: SubjectText,
)
    requires
        writes_once(host),
        describes(host, catalog, remote, a),
        describes(host, catalog, remote, b),
        are_among(a.shown, b.shown),
        are_among(b.shown, a.shown),
        forall|owner: Subject, own: UntypedField| #[trigger]
            listed(a.shown, t, owner, own) == listed(b.shown, t, owner, own),
    ensures
        lists_alike(
            addressed(
                track_written(catalog, a.ops, a.names, t, a.ops.len() as int),
                component,
                field,
                subject,
            ),
            addressed(
                track_written(catalog, b.ops, b.names, t, b.ops.len() as int),
                component,
                field,
                subject,
            ),
        ),
{
    let (m, n) = (a.ops.len() as int, b.ops.len() as int);
    addressed_are_ones(catalog, a.ops, a.names, t, component, field, subject, m);
    addressed_are_ones(catalog, b.ops, b.names, t, component, field, subject, n);
    let p = ones(catalog, a.ops, a.names, t, component, field, subject, m);
    let q = ones(catalog, b.ops, b.names, t, component, field, subject, n);
    if exists|i: int|
        0 <= i < m && #[trigger] is_one(
            catalog,
            a.ops,
            a.names,
            t,
            component,
            field,
            subject,
            i,
        ) {
        let i = choose|i: int|
            0 <= i < m && #[trigger] is_one(
                catalog,
                a.ops,
                a.names,
                t,
                component,
                field,
                subject,
                i,
            );
        let (owner, own) = (a.shown[i].subject, a.shown[i].field);
        assert forall|j: int| 0 <= j < a.shown.len() implies (#[trigger] is_one(
            catalog,
            a.ops,
            a.names,
            t,
            component,
            field,
            subject,
            j,
        ) <==> a.shown[j].track == t && a.shown[j].subject == owner && a.shown[j].field == own) by {
            assert(are_among(a.shown, a.shown)) by {
                assert forall|k: int| 0 <= k < a.shown.len() implies a.shown.contains(
                    #[trigger] a.shown[k],
                ) by {}
            }
            addressed_is_of_owner(
                host,
                catalog,
                remote,
                a,
                a,
                t,
                component,
                field,
                subject,
                i,
                j,
            );
        }
        assert forall|j: int| 0 <= j < b.shown.len() implies (#[trigger] is_one(
            catalog,
            b.ops,
            b.names,
            t,
            component,
            field,
            subject,
            j,
        ) <==> b.shown[j].track == t && b.shown[j].subject == owner && b.shown[j].field == own) by {
            addressed_is_of_owner(
                host,
                catalog,
                remote,
                a,
                b,
                t,
                component,
                field,
                subject,
                i,
                j,
            );
        }
        ones_are_listed(
            catalog,
            a.ops,
            a.names,
            a.shown,
            t,
            component,
            field,
            subject,
            owner,
            own,
            m,
        );
        ones_are_listed(
            catalog,
            b.ops,
            b.names,
            b.shown,
            t,
            component,
            field,
            subject,
            owner,
            own,
            n,
        );
        assert(a.shown.take(m) =~= a.shown);
        assert(b.shown.take(n) =~= b.shown);
        let clips = listed(a.shown, t, owner, own);
        assert(listed(b.shown, t, owner, own) == clips);
        assert(p.len() == clips.len() && q.len() == clips.len());
        assert forall|k: int| 0 <= k < p.len() implies actions_alike(
            action_written(catalog, a.ops, a.names, #[trigger] p[k]),
            action_written(catalog, b.ops, b.names, q[k]),
        ) by {
            assert(0 <= p[k] < m && 0 <= q[k] < n);
            assert(clips[k] == a.shown[p[k]].clip);
            assert(clips[k] == b.shown[q[k]].clip);
            written_alike(host, catalog, remote, a, b, p[k], q[k]);
        }
        let x = p.map_values(|i: int| action_written(catalog, a.ops, a.names, i));
        let y = q.map_values(|i: int| action_written(catalog, b.ops, b.names, i));
        assert forall|k: int| 0 <= k < x.len() implies actions_alike(#[trigger] x[k], y[k]) by {
            assert(x[k] == action_written(catalog, a.ops, a.names, p[k]));
        }
    } else {
        no_ones(catalog, a.ops, a.names, t, component, field, subject, m);
        assert forall|j: int| 0 <= j < n implies !#[trigger] is_one(
            catalog,
            b.ops,
            b.names,
            t,
            component,
            field,
            subject,
            j,
        ) by {
            if is_one(catalog, b.ops, b.names, t, component, field, subject, j) {
                assert(a.shown.contains(b.shown[j]));
                let i = choose|i: int| 0 <= i < a.shown.len() && a.shown[i] == b.shown[j];
                addressed_is_of_owner(
                    host,
                    catalog,
                    remote,
                    b,
                    a,
                    t,
                    component,
                    field,
                    subject,
                    j,
                    i,
                );
                assert(is_one(catalog, a.ops, a.names, t, component, field, subject, i));
            }
        }
        no_ones(catalog, b.ops, b.names, t, component, field, subject, n);
    }
}

/// Timelines that show the same are exported as documents that read the same, up to
/// the order of the actions of a track that are not of the same field of the same
/// subject. This is for timelines that can be restored and have as many tracks, and
/// for hosts that write a value always the same and read what they wrote.
pub proof fn alike_timelines_export_alike<H: RemoteHost>(
    host: &H,
    id: TimelineId,
    a: StudioModel,
    left: StudioModel,
    ops: Seq<EditOp>,
    names: Seq<Option<String>>,
    markers: Seq<(String, Marker)>,
    document: Document,
    other: TimelineId,
    b: StudioModel,
    right: StudioModel,
    other_ops: Seq<EditOp>,
    other_names: Seq<Option<String>>,
    other_markers: Seq<(String, Marker)>,
    again: Document,
)
    requires
        reads_back(host),
        writes_once(host),
        restorable(a, id),
        restorable(b, other),
        b.catalog == a.catalog,
        b.registry == a.registry,
        shows_alike(a, id, b, other),
        b.timelines[other].tracks.len() == a.timelines[id].tracks.len(),
        export_stepped(host, id, a, left, Ok(ops), names, markers, Ok(document)),
        export_stepped(
            host,
            other,
            b,
            right,
            Ok(other_ops),
            other_names,
            other_markers,
            Ok(again),
        ),
    ensures
        documents_alike(document, again),
{
    let remote = a.registry.remote@;
    let (m, n) = (left.timelines[id].tracks.len() as int, right.timelines[other].tracks.len() as int);
    without_obstacles(ops, m, ops.len() as int);
    without_obstacles(other_ops, n, other_ops.len() as int);
    assert(all_insert(ops));
    assert(all_insert(other_ops));
    snapshots_describe_all(host, id, a, left, ops);
    snapshots_describe_all(host, other, b, right, other_ops);
    timelines_show_all(a, id);
    timelines_show_all(b, other);
    let (p, q) = (all_shown(a, id), all_shown(b, other));
    alike_are_among(a, id, b, other, p, q);
    let x = Written { ops, names, shown: p };
    let y = Written { ops: other_ops, names: other_names, shown: q };
    assert forall|t: int, component: Seq<char>, field: Seq<char>, subject: SubjectText|
        0 <= t < document.tracks@.len() implies lists_alike(
        #[trigger] addressed(document.tracks@[t]@, component, field, subject),
        addressed(again.tracks@[t]@, component, field, subject),
    ) by {
        assert forall|owner: Subject, own: UntypedField| #[trigger]
            listed(x.shown, t, owner, own) == listed(y.shown, t, owner, own) by {
            alike_are_listed(a, id, b, other, p, q, t, owner, own);
        }
        lanes_written_alike(
            host,
            a.catalog,
            remote,
            x,
            y,
            t,
            component,
            field,
            subject,
        );
        assert(document.tracks@[t]@ == track_written(
            a.catalog,
            ops,
            names,
            t,
            ops.len() as int,
        ));
        assert(again.tracks@[t]@ == track_written(
            a.catalog,
            other_ops,
            other_names,
            t,
            other_ops.len() as int,
        ));
    }
}

/// Exporting what was imported gives the document that was imported, up to the
/// order of the actions of a track that are not of the same field of the same
/// subject. This is for timelines that can be restored, for hosts that write a value
/// always the same and read what they wrote, and as long as the names in the
/// document mean the entities that they were written for.
pub proof fn imports_export_back<H: RemoteHost>(
    host: &H,
    id: TimelineId,
    before: StudioModel,
    left: StudioModel,
    ops: Seq<EditOp>,
    names: Seq<Option<String>>,
    markers: Seq<(String, Marker)>,
    p: &ImportParams,
    start: StudioModel,
    end: StudioModel,
    result: Result<(u64, usize), Fault>,
    right: StudioModel,
    other_ops: Seq<EditOp>,
    other_names: Seq<Option<String>>,
    other_markers: Seq<(String, Marker)>,
    again: Document,
)
    requires
        reads_back(host),
        writes_once(host),
        restorable(before, id),
        before.timelines[id].tracks.len() >= 1,
        export_stepped(host, id, before, left, Ok(ops), names, markers, Ok(p.document)),
        replaces(p.mode) == Ok::<bool, Fault>(true),
        forall|entities: Vec<NamedEntity>| #[trigger]
            are_named(host, entities) ==> names_hold(
                before.catalog,
                ops,
                names,
                p.bindings@,
                entities@,
            ),
        start.timelines.contains_key(TimelineId { raw: p.id }),
        neat(start.timelines[TimelineId { raw: p.id }]),
        tracks_laid_out(start.timelines[TimelineId { raw: p.id }]),
        start.timelines[TimelineId { raw: p.id }].tracks.len() <= usize::MAX,
        start.catalog == before.catalog,
        start.registry == before.registry,
        imported(host, *p, start, end, result),
        export_stepped(
            host,
            TimelineId { raw: p.id },
            end,
            right,
            Ok(other_ops),
            other_names,
            other_markers,
            Ok(again),
        ),
    ensures
        documents_alike(p.document, again),
        by_name(again.markers@) == by_name(p.document.markers@),
{
    let target = TimelineId { raw: p.id };
    exports_import_back(
        host,
        id,
        before,
        left,
        ops,
        names,
        markers,
        p,
        start,
        end,
        result,
    );
    alike_timelines_export_alike(
        host,
        id,
        before,
        left,
        ops,
        names,
        markers,
        p.document,
        target,
        end,
        right,
        other_ops,
        other_names,
        other_markers,
        again,
    );
    let (m, n) = (
        left.timelines[id].tracks.len() as int,
        right.timelines[target].tracks.len() as int,
    );
    without_obstacles(ops, m, ops.len() as int);
    without_obstacles(other_ops, n, other_ops.len() as int);
    assert(all_insert(ops));
    assert(all_insert(other_ops));
    snapshots_describe_all(host, id, before, left, ops);
    snapshots_describe_all(host, target, end, right, other_ops);
}

} // verus!
