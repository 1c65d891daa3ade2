//! Scenes and their timelines as one document.
use crate::bevy_motiongfx::manager::TimelineId;
use crate::bevy_motiongfx::remote::batch::apply::stays_seekable;
use crate::bevy_motiongfx::remote::fault::{DocumentFault, Fault, OpFault};
use crate::bevy_motiongfx::remote::host::RemoteHost;
use crate::bevy_motiongfx::remote::json::Json;
use crate::bevy_motiongfx::remote::persist::document::Document;
use crate::bevy_motiongfx::remote::persist::export::{exported, timeline_export};
use crate::bevy_motiongfx::remote::persist::import::{imported, timeline_import, ImportParams};
use crate::bevy_motiongfx::remote::state::EditsModel;
use crate::bevy_motiongfx::remote::studio::{Studio, StudioModel};
use crate::bevy_motiongfx::remote::transport::{
    created, timeline_create, CreateParams, PlayerSlot, TimelineState,
};
use crate::seqs::take_one_more;
use crate::text::same_text;
use vstd::prelude::*;
use vstd::string::StringExecFns;

verus! {

/// The format of project documents.
pub const FORMAT: &'static str = "motiongfx-project";

/// The version of project documents. Since version 2 there can be several
/// timelines. Version 1 still loads.
pub const FORMAT_VERSION: u64 = 2;

/// Which component types make an entity part of the project.
#[derive(Debug)]
pub struct MotionGfxProjectConfig {
    /// An entity belongs to the project if it carries any of these
    /// (fully-qualified type paths).
    pub subjects: Vec<String>,
    /// Also saved from each project entity when present.
    pub extras: Vec<String>,
}

impl Default for MotionGfxProjectConfig {
    fn default() -> (config: Self)
        ensures
            config.subjects@.len() == 0,
            config.extras@.len() == 2,
            config.extras@[0]@ == "bevy_transform::components::transform::Transform"@,
            config.extras@[1]@ == "bevy_ecs::name::Name"@,
    {
        let mut extras: Vec<String> = Vec::new();
        extras.push(String::from_str("bevy_transform::components::transform::Transform"));
        extras.push(String::from_str("bevy_ecs::name::Name"));
        MotionGfxProjectConfig { subjects: Vec::new(), extras }
    }
}

/// Where a project is loaded from.
#[derive(Debug, Clone, Copy, PartialEq, Eq, Structural)]
pub enum LoadSource {
    /// The file at the path of the request.
    Path,
    /// The document of the request.
    Document,
}

/// Where a request has a project loaded from. A path and a document are
/// mutually exclusive.
pub fn load_source(has_path: bool, has_document: bool) -> (result: Result<LoadSource, Fault>)
    ensures
        result == match (has_path, has_document) {
            (true, true) => Err(Fault::Document(DocumentFault::SourceExclusive)),
            (true, false) => Ok(LoadSource::Path),
            (false, true) => Ok(LoadSource::Document),
            (false, false) => Err(Fault::Document(DocumentFault::SourceMissing)),
        },
{
    if has_path && has_document {
        Err(Fault::Document(DocumentFault::SourceExclusive))
    } else if has_path {
        Ok(LoadSource::Path)
    } else if has_document {
        Ok(LoadSource::Document)
    } else {
        Err(Fault::Document(DocumentFault::SourceMissing))
    }
}

/// Whether a path is among some.
pub open spec fn lists_path(paths: Seq<String>, path: Seq<char>) -> bool {
    exists|i: int| 0 <= i < paths.len() && (#[trigger] paths[i])@ == path
}

impl MotionGfxProjectConfig {
    /// Declares a component type a project subject. Once is enough.
    pub fn register_project_subject(&mut self, path: String)
        ensures
            final(self).extras == old(self).extras,
            final(self).subjects@ == if lists_path(old(self).subjects@, path@) {
                old(self).subjects@
            } else {
                old(self).subjects@.push(path)
            },
    {
        let mut i: usize = 0;
        while i < self.subjects.len()
            invariant
                *self == *old(self),
                i <= self.subjects@.len(),
                forall|k: int| 0 <= k < i ==> (#[trigger] self.subjects@[k])@ != path@,
            decreases self.subjects@.len() - i,
        {
            if same_text(self.subjects[i].as_str(), path.as_str()) {
                assert(self.subjects@[i as int]@ == path@);
                return ;
            }
            i += 1;
        }
        self.subjects.push(path);
    }
}

/// A timeline of a project.
#[derive(Debug)]
pub struct ProjectTimeline {
    pub id: u64,
    pub name: Option<String>,
    pub document: Document,
}

/// Whether numbers ascend, so that none is there twice.
pub open spec fn strictly_ascend(ids: Seq<u64>) -> bool {
    forall|i: int, j: int| 0 <= i < j < ids.len() ==> #[trigger] ids[i] < #[trigger] ids[j]
}

/// The timelines that are saved: one, or all of them in order.
pub open spec fn saved_ids(studio: StudioModel, id: Option<u64>, ids: Seq<u64>) -> bool {
    match id {
        Some(id) => ids == seq![id],
        None => {
            &&& strictly_ascend(ids)
            &&& forall|raw: u64| ids.contains(raw) <==> #[trigger] studio.timelines.contains_key(
                TimelineId { raw },
            )
        },
    }
}

/// Puts a number where it belongs among ascending ones.
fn insert_sorted(ids: &mut Vec<u64>, id: u64)
    requires
        strictly_ascend(old(ids)@),
        !old(ids)@.contains(id),
    ensures
        strictly_ascend(final(ids)@),
        forall|other: u64|
            #![trigger final(ids)@.contains(other)]
            #![trigger old(ids)@.contains(other)]
            final(ids)@.contains(other) <==> old(ids)@.contains(other) || other == id,
{
    let ghost before = ids@;
    let mut at: usize = 0;
    while at < ids.len() && ids[at] <= id
        invariant
            ids@ == before,
            at <= ids@.len(),
            forall|k: int| 0 <= k < at ==> #[trigger] ids@[k] <= id,
        decreases ids@.len() - at,
    {
        at += 1;
    }
    proof {
        assert forall|k: int| at <= k < before.len() implies id < #[trigger] before[k] by {
            assert(before.contains(before[k]));
            if k > at {
                assert(before[at as int] < before[k]);
            }
        }
        assert forall|k: int| 0 <= k < at implies #[trigger] before[k] < id by {
            assert(before.contains(before[k]));
        }
    }
    ids.insert(at, id);
    proof {
        crate::seqs::insert_adds_one(before, at as int, id);
        assert forall|i: int, j: int| 0 <= i < j < ids@.len() implies #[trigger] ids@[i]
            < #[trigger] ids@[j] by {
            let a = if i <= at {
                i
            } else {
                i - 1
            };
            let b = if j <= at {
                j
            } else {
                j - 1
            };
            if i != at {
                assert(ids@[i] == before[a]);
            }
            if j != at {
                assert(ids@[j] == before[b]);
            }
        }
    }
}

/// The timelines that are saved.
fn list_saved(studio: &Studio, id: Option<u64>) -> (ids: Vec<u64>)
    ensures
        saved_ids(studio@, id, ids@),
{
    let mut ids: Vec<u64> = Vec::new();
    match id {
        Some(id) => {
            ids.push(id);
            assert(ids@ =~= seq![id]);
        },
        None => {
            let all = studio.manager.ids();
            let mut i: usize = 0;
            while i < all.len()
                invariant
                    i <= all@.len(),
                    all@.no_duplicates(),
                    strictly_ascend(ids@),
                    forall|raw: u64| #[trigger]
                        ids@.contains(raw) <==> all@.take(i as int).contains(TimelineId { raw }),
                decreases all@.len() - i,
            {
                let ghost front = all@.take(i as int);
                proof {
                    take_one_more(all@, i as int);
                    crate::seqs::push_adds_one(front, all@[i as int]);
                    let raw = all@[i as int].raw;
                    if front.contains(TimelineId { raw }) {
                        let k = choose|k: int| 0 <= k < front.len() && front[k] == all@[i as int];
                        assert(all@[k] == all@[i as int]);
                    }
                }
                insert_sorted(&mut ids, all[i].raw());
                i += 1;
            }
            assert(all@.take(i as int) =~= all@);
            proof {
                assert forall|raw: u64|
                    ids@.contains(raw) <==> #[trigger] studio@.timelines.contains_key(
                        TimelineId { raw },
                    ) by {
                    assert(ids@.contains(raw) <==> all@.contains(TimelineId { raw }));
                }
            }
        },
    }
    ids
}

/// Whether the first of the timelines were saved one after another.
pub open spec fn timelines_saved<H: RemoteHost>(
    host: &H,
    ids: Seq<u64>,
    trace: Seq<StudioModel>,
    saved: Seq<ProjectTimeline>,
) -> bool {
    &&& saved.len() <= ids.len()
    &&& trace.len() == saved.len() + 1
    &&& forall|i: int|
        0 <= i < saved.len() ==> {
            &&& (#[trigger] saved[i]).id == ids[i]
            &&& saved[i].name == trace[i + 1].edits_of(TimelineId { raw: ids[i] }).name
            &&& exported(
                host,
                TimelineId { raw: ids[i] },
                trace[i],
                trace[i + 1],
                Ok(saved[i].document),
            )
        }
}

/// Whether saving timelines had that outcome, by way of the studios in
/// between.
pub open spec fn save_stepped<H: RemoteHost>(
    host: &H,
    ids: Seq<u64>,
    trace: Seq<StudioModel>,
    saved: Seq<ProjectTimeline>,
    before: StudioModel,
    after: StudioModel,
    result: Result<Seq<ProjectTimeline>, Fault>,
) -> bool {
    &&& timelines_saved(host, ids, trace, saved)
    &&& trace.first() == before
    &&& match result {
        Ok(list) => list == saved && saved.len() == ids.len() && trace.last() == after,
        Err(fault) => saved.len() < ids.len() && exported(
            host,
            TimelineId { raw: ids[saved.len() as int] },
            trace.last(),
            after,
            Err(fault),
        ),
    }
}

/// Whether saving timelines had that outcome: all were exported, or one could
/// not be.
pub open spec fn saves<H: RemoteHost>(
    host: &H,
    id: Option<u64>,
    before: StudioModel,
    after: StudioModel,
    result: Result<Seq<ProjectTimeline>, Fault>,
) -> bool {
    exists|ids: Seq<u64>, trace: Seq<StudioModel>, saved: Seq<ProjectTimeline>|
        {
            &&& saved_ids(before, id, ids)
            &&& #[trigger] save_stepped(host, ids, trace, saved, before, after, result)
        }
}

/// The list of a result.
pub open spec fn saved_view(result: Result<Vec<ProjectTimeline>, Fault>) -> Result<
    Seq<ProjectTimeline>,
    Fault,
> {
    match result {
        Ok(list) => Ok(list@),
        Err(fault) => Err(fault),
    }
}

/// Exports one timeline, or all of them.
fn save_timelines<H: RemoteHost>(host: &H, studio: &mut Studio, id: Option<u64>) -> (result: Result<
    Vec<ProjectTimeline>,
    Fault,
>)
    ensures
        saves(host, id, old(studio)@, final(studio)@, saved_view(result)),
        stays_seekable(old(studio)@, final(studio)@),
{
    let ghost before = studio@;
    let ids = list_saved(studio, id);
    let mut saved: Vec<ProjectTimeline> = Vec::new();
    let ghost mut trace: Seq<StudioModel> = seq![before];
    let mut i: usize = 0;
    while i < ids.len()
        invariant
            before == old(studio)@,
            i <= ids@.len(),
            saved@.len() == i,
            saved_ids(before, id, ids@),
            timelines_saved(host, ids@, trace, saved@),
            trace.first() == before,
            trace.last() == studio@,
            stays_seekable(before, studio@),
        decreases ids@.len() - i,
    {
        let ghost done = saved@;
        let ghost shorter = trace;
        match timeline_export(host, studio, ids[i]) {
            Ok(document) => {
                let name: Option<String> = match studio.state.name(&TimelineId::from_raw(ids[i])) {
                    Some(name) => Some(name.clone()),
                    None => None,
                };
                saved.push(ProjectTimeline { id: ids[i], name, document });
                proof {
                    trace = trace.push(studio@);
                    assert forall|k: int| 0 <= k < saved@.len() implies {
                        &&& (#[trigger] saved@[k]).id == ids@[k]
                        &&& saved@[k].name == trace[k + 1].edits_of(
                            TimelineId { raw: ids@[k] },
                        ).name
                        &&& exported(
                            host,
                            TimelineId { raw: ids@[k] },
                            trace[k],
                            trace[k + 1],
                            Ok(saved@[k].document),
                        )
                    } by {
                        if k < done.len() {
                            assert(saved@[k] == done[k]);
                            assert(trace[k] == shorter[k] && trace[k + 1] == shorter[k + 1]);
                        }
                    }
                }
            },
            Err(fault) => {
                assert(save_stepped(host, ids@, trace, saved@, before, studio@, Err(fault)));
                return Err(fault);
            },
        }
        i += 1;
    }
    assert(save_stepped(host, ids@, trace, saved@, before, studio@, Ok(saved@)));
    Ok(saved)
}

/// How a component of an entity is written.
#[derive(Debug)]
pub enum Written {
    /// The entity does not have it.
    Absent,
    Value(Json),
    /// It cannot be written.
    Failed(String),
}

/// An entity of the scene.
#[derive(Debug)]
pub struct SceneEntity {
    pub bits: u64,
    pub name: Option<String>,
    /// The components that would make it part of the project.
    pub subjects: Vec<(String, Written)>,
    /// The components that are saved too.
    pub extras: Vec<(String, Written)>,
}

/// An entity of a project.
#[derive(Debug)]
pub struct ProjectEntity {
    pub name: Option<String>,
    pub components: Vec<(String, Json)>,
}

/// Whether one of the components is there.
pub open spec fn has_any(components: Seq<(String, Written)>) -> bool {
    exists|i: int| 0 <= i < components.len() && (#[trigger] components[i]).1 !is Absent
}

/// The entities that are part of the project.
pub open spec fn cast(scene: Seq<SceneEntity>) -> Seq<SceneEntity>
    decreases scene.len(),
{
    if scene.len() == 0 {
        scene
    } else if has_any(scene.last().subjects@) {
        cast(scene.drop_last()).push(scene.last())
    } else {
        cast(scene.drop_last())
    }
}

/// The components that are there as they are written, or why the first that
/// cannot be written cannot.
pub open spec fn components_written(components: Seq<(String, Written)>) -> Result<
    Seq<(String, Json)>,
    Fault,
>
    decreases components.len(),
{
    if components.len() == 0 {
        Ok(Seq::empty())
    } else {
        match components_written(components.drop_last()) {
            Err(fault) => Err(fault),
            Ok(front) => match components.last().1 {
                Written::Absent => Ok(front),
                Written::Value(value) => Ok(front.push((components.last().0, value))),
                Written::Failed(reason) => Err(
                    Fault::Document(
                        DocumentFault::CannotSerialize { component: components.last().0, reason },
                    ),
                ),
            },
        }
    }
}

/// The components of an entity as they are written.
pub open spec fn entity_written(entity: SceneEntity) -> Result<Seq<(String, Json)>, Fault> {
    components_written(entity.subjects@ + entity.extras@)
}

/// Whether the first of the entities are written so.
pub open spec fn cast_written(members: Seq<SceneEntity>, written: Seq<ProjectEntity>) -> bool {
    &&& written.len() <= members.len()
    &&& forall|i: int|
        0 <= i < written.len() ==> {
            &&& (#[trigger] written[i]).name == members[i].name
            &&& entity_written(members[i]) == Ok::<Seq<(String, Json)>, Fault>(
                written[i].components@,
            )
        }
}

/// Whether the entities of the project were collected so: all of them, or not
/// because of the first that cannot be written.
pub open spec fn is_collected(
    scene: Seq<SceneEntity>,
    result: Result<Seq<ProjectEntity>, Fault>,
) -> bool {
    let members = cast(scene);
    match result {
        Ok(written) => written.len() == members.len() && cast_written(members, written),
        Err(fault) => exists|written: Seq<ProjectEntity>|
            {
                &&& #[trigger] cast_written(members, written)
                &&& written.len() < members.len()
                &&& entity_written(members[written.len() as int]) == Err::<
                    Seq<(String, Json)>,
                    Fault,
                >(fault)
            },
    }
}

/// The list of a result.
pub open spec fn collected_view(result: Result<Vec<ProjectEntity>, Fault>) -> Result<
    Seq<ProjectEntity>,
    Fault,
> {
    match result {
        Ok(list) => Ok(list@),
        Err(fault) => Err(fault),
    }
}

/// Whether one of the components is there.
fn find_any(components: &Vec<(String, Written)>) -> (found: bool)
    ensures
        found == has_any(components@),
{
    let mut i: usize = 0;
    while i < components.len()
        invariant
            i <= components@.len(),
            forall|k: int| 0 <= k < i ==> (#[trigger] components@[k]).1 is Absent,
        decreases components@.len() - i,
    {
        match &components[i].1 {
            Written::Absent => {},
            _ => {
                assert(components@[i as int].1 !is Absent);
                return true;
            },
        }
        i += 1;
    }
    false
}

/// Adds the components that are there as they are written.
fn write_components(list: &Vec<(String, Written)>, written: &mut Vec<(String, Json)>, front: Ghost<
    Seq<(String, Written)>,
>) -> (result: Result<(), Fault>)
    requires
        components_written(front@) == Ok::<Seq<(String, Json)>, Fault>(old(written)@),
    ensures
        match components_written(front@ + list@) {
            Ok(all) => result is Ok && final(written)@ == all,
            Err(fault) => result == Err::<(), Fault>(fault),
        },
{
    let mut i: usize = 0;
    assert(front@ + list@.take(0) =~= front@);
    while i < list.len()
        invariant
            i <= list@.len(),
            components_written(front@ + list@.take(i as int)) == Ok::<Seq<(String, Json)>, Fault>(
                written@,
            ),
        decreases list@.len() - i,
    {
        proof {
            let longer = front@ + list@.take(i + 1);
            assert(longer.drop_last() =~= front@ + list@.take(i as int));
            assert(longer.last() == list@[i as int]);
        }
        match &list[i].1 {
            Written::Absent => {},
            Written::Value(value) => {
                written.push((list[i].0.clone(), value.copy()));
            },
            Written::Failed(reason) => {
                proof {
                    fails_early(front@ + list@, front@.len() + i + 1);
                    assert((front@ + list@).take(front@.len() + i + 1) =~= front@ + list@.take(
                        i + 1,
                    ));
                }
                return Err(
                    Fault::Document(
                        DocumentFault::CannotSerialize {
                            component: list[i].0.clone(),
                            reason: reason.clone(),
                        },
                    ),
                );
            },
        }
        i += 1;
    }
    assert(list@.take(i as int) =~= list@);
    Ok(())
}

/// What cannot be written in front cannot be written at all.
proof fn fails_early(components: Seq<(String, Written)>, n: int)
    requires
        0 <= n <= components.len(),
    ensures
        components_written(components.take(n)) is Err ==> components_written(components)
            == components_written(components.take(n)),
    decreases components.len(),
{
    if n < components.len() {
        assert(components.drop_last().take(n) =~= components.take(n));
        fails_early(components.drop_last(), n);
    } else {
        assert(components.take(n) =~= components);
    }
}

/// An entity as it is written.
fn write_entity(entity: &SceneEntity) -> (result: Result<ProjectEntity, Fault>)
    ensures
        match entity_written(*entity) {
            Ok(components) => result matches Ok(written) && written.name == entity.name
                && written.components@ == components,
            Err(fault) => result == Err::<ProjectEntity, Fault>(fault),
        },
{
    let mut components: Vec<(String, Json)> = Vec::new();
    let ghost none: Seq<(String, Written)> = Seq::empty();
    proof {
        assert(none + entity.subjects@ =~= entity.subjects@);
        fails_early(entity.subjects@ + entity.extras@, entity.subjects@.len() as int);
        assert((entity.subjects@ + entity.extras@).take(entity.subjects@.len() as int)
            =~= entity.subjects@);
        assert(components@ =~= Seq::<(String, Json)>::empty());
    }
    match write_components(&entity.subjects, &mut components, Ghost(none)) {
        Ok(()) => {},
        Err(fault) => {
            return Err(fault);
        },
    }
    match write_components(&entity.extras, &mut components, Ghost(entity.subjects@)) {
        Ok(()) => {},
        Err(fault) => {
            return Err(fault);
        },
    }
    let name: Option<String> = match &entity.name {
        Some(name) => Some(name.clone()),
        None => None,
    };
    Ok(ProjectEntity { name, components })
}

/// Collects the entities of the project.
pub fn collect_entities(scene: &Vec<SceneEntity>) -> (result: Result<Vec<ProjectEntity>, Fault>)
    ensures
        is_collected(scene@, collected_view(result)),
{
    let mut written: Vec<ProjectEntity> = Vec::new();
    let mut i: usize = 0;
    assert(scene@.take(0) =~= Seq::<SceneEntity>::empty());
    while i < scene.len()
        invariant
            i <= scene@.len(),
            written@.len() == cast(scene@.take(i as int)).len(),
            cast_written(cast(scene@.take(i as int)), written@),
        decreases scene@.len() - i,
    {
        let ghost before = cast(scene@.take(i as int));
        let ghost done = written@;
        proof {
            take_one_more(scene@, i as int);
        }
        if find_any(&scene[i].subjects) {
            match write_entity(&scene[i]) {
                Ok(entity) => {
                    written.push(entity);
                    assert forall|k: int| 0 <= k < written@.len() implies {
                        &&& (#[trigger] written@[k]).name == before.push(scene@[i as int])[k].name
                        &&& entity_written(before.push(scene@[i as int])[k]) == Ok::<
                            Seq<(String, Json)>,
                            Fault,
                        >(written@[k].components@)
                    } by {
                        if k < done.len() {
                            assert(written@[k] == done[k]);
                        }
                    }
                },
                Err(fault) => {
                    proof {
                        cast_begins(scene@, i + 1);
                        let members = cast(scene@);
                        assert(cast(scene@.take(i + 1)) == before.push(scene@[i as int]));
                        assert forall|k: int| 0 <= k < before.push(scene@[i as int]).len() implies members[k]
                            == #[trigger] before.push(scene@[i as int])[k] by {
                            assert(cast(scene@.take(i + 1))[k] == members[k]);
                        }
                        assert forall|k: int| 0 <= k < written@.len() implies {
                            &&& (#[trigger] written@[k]).name == members[k].name
                            &&& entity_written(members[k]) == Ok::<Seq<(String, Json)>, Fault>(
                                written@[k].components@,
                            )
                        } by {
                            assert(members[k] == before.push(scene@[i as int])[k]);
                        }
                        assert(members[written@.len() as int] == before.push(
                            scene@[i as int],
                        )[written@.len() as int]);
                        assert(cast_written(members, written@));
                    }
                    return Err(fault);
                },
            }
        }
        i += 1;
    }
    assert(scene@.take(i as int) =~= scene@);
    Ok(written)
}

/// The cast of a front part of the scene are the first of the cast.
proof fn cast_begins(scene: Seq<SceneEntity>, n: int)
    requires
        0 <= n <= scene.len(),
    ensures
        cast(scene.take(n)).len() <= cast(scene).len(),
        forall|k: int|
            0 <= k < cast(scene.take(n)).len() ==> #[trigger] cast(scene.take(n))[k] == cast(
                scene,
            )[k],
    decreases scene.len(),
{
    if n < scene.len() {
        assert(scene.drop_last().take(n) =~= scene.take(n));
        cast_begins(scene.drop_last(), n);
    } else {
        assert(scene.take(n) =~= scene);
    }
}

/// The entities that are part of the project: those that are despawned where
/// the stage is cleared.
pub fn find_project_subjects(scene: &Vec<SceneEntity>) -> (doomed: Vec<u64>)
    ensures
        doomed@ == cast(scene@).map_values(|entity: SceneEntity| entity.bits),
{
    let mut doomed: Vec<u64> = Vec::new();
    let mut i: usize = 0;
    assert(scene@.take(0) =~= Seq::<SceneEntity>::empty());
    while i < scene.len()
        invariant
            i <= scene@.len(),
            doomed@ == cast(scene@.take(i as int)).map_values(|entity: SceneEntity| entity.bits),
        decreases scene@.len() - i,
    {
        proof {
            take_one_more(scene@, i as int);
        }
        let ghost before = cast(scene@.take(i as int));
        if find_any(&scene[i].subjects) {
            doomed.push(scene[i].bits);
            assert(before.push(scene@[i as int]).map_values(|entity: SceneEntity| entity.bits)
                =~= doomed@);
        }
        i += 1;
    }
    assert(scene@.take(i as int) =~= scene@);
    doomed
}

/// A project as a document.
#[derive(Debug)]
pub struct ProjectDocument {
    pub format: String,
    pub format_version: u64,
    pub entities: Vec<ProjectEntity>,
    pub timelines: Vec<ProjectTimeline>,
}

/// Whether saving a project had that outcome.
pub open spec fn project_saved<H: RemoteHost>(
    host: &H,
    config: MotionGfxProjectConfig,
    scene: Seq<SceneEntity>,
    id: Option<u64>,
    before: StudioModel,
    after: StudioModel,
    result: Result<ProjectDocument, Fault>,
) -> bool {
    match result {
        Ok(document) => {
            &&& saves(host, id, before, after, Ok(document.timelines@))
            &&& config.subjects@.len() > 0
            &&& is_collected(scene, Ok(document.entities@))
            &&& document.format@ == FORMAT@
            &&& document.format_version == FORMAT_VERSION
        },
        Err(fault) => {
            ||| saves(host, id, before, after, Err(fault))
            ||| saves_all(host, id, before, after) && if config.subjects@.len() == 0 {
                fault == Fault::Document(DocumentFault::NoProjectSubjects)
            } else {
                is_collected(scene, Err(fault))
            }
        },
    }
}

/// Whether all timelines were saved.
pub open spec fn saves_all<H: RemoteHost>(
    host: &H,
    id: Option<u64>,
    before: StudioModel,
    after: StudioModel,
) -> bool {
    exists|list: Seq<ProjectTimeline>| #[trigger] saves(host, id, before, after, Ok(list))
}

/// Bundles the entities of the project and its timelines.
pub fn project_save<H: RemoteHost>(
    host: &H,
    studio: &mut Studio,
    config: &MotionGfxProjectConfig,
    scene: &Vec<SceneEntity>,
    id: Option<u64>,
) -> (result: Result<ProjectDocument, Fault>)
    ensures
        project_saved(host, *config, scene@, id, old(studio)@, final(studio)@, result),
        stays_seekable(old(studio)@, final(studio)@),
{
    let ghost before = studio@;
    let timelines = match save_timelines(host, studio, id) {
        Ok(timelines) => timelines,
        Err(fault) => {
            return Err(fault);
        },
    };
    assert(saves(host, id, before, studio@, Ok(timelines@)));
    if config.subjects.len() == 0 {
        return Err(Fault::Document(DocumentFault::NoProjectSubjects));
    }
    match collect_entities(scene) {
        Ok(entities) => Ok(
            ProjectDocument {
                format: String::from_str(FORMAT),
                format_version: FORMAT_VERSION,
                entities,
                timelines,
            },
        ),
        Err(fault) => Err(fault),
    }
}

/// Whether a document is a project, going by its format, which is quoted as it
/// was written.
pub fn check_project(format: &Option<String>, shown: &String) -> (result: Result<(), Fault>)
    ensures
        if format matches Some(text) && text@ == FORMAT@ {
            result == Ok::<(), Fault>(())
        } else {
            result == Err::<(), Fault>(
                Fault::Document(DocumentFault::NotProject { format: *shown }),
            )
        },
{
    let known = match format {
        Some(text) => same_text(text.as_str(), FORMAT),
        None => false,
    };
    if known {
        Ok(())
    } else {
        Err(Fault::Document(DocumentFault::NotProject { format: shown.clone() }))
    }
}

/// A timeline of a document to load.
#[derive(Debug)]
pub struct ProjectEntry {
    pub id: Option<u64>,
    pub name: Option<String>,
    /// The document, or why it cannot be read.
    pub document: Result<Document, String>,
}

/// A timeline that was loaded.
#[derive(Debug, Clone, Copy, PartialEq, Eq, Structural)]
pub struct LoadedTimeline {
    pub from: Option<u64>,
    pub into: u64,
    pub version: u64,
    pub inserted: usize,
}

/// What is asked of a timeline that is created for a document.
pub open spec fn blank_params() -> CreateParams {
    CreateParams { name: None, tracks: None, player: None }
}

/// Whether a timeline was chosen to load a document into: its own where there
/// is one, the one asked for where it names none, and else a new one.
pub open spec fn target_chosen(
    id: u64,
    from: Option<u64>,
    before: StudioModel,
    after: StudioModel,
    slots: Seq<PlayerSlot>,
    new_slots: Seq<PlayerSlot>,
    state: Result<TimelineState, Fault>,
    target: u64,
) -> bool {
    match from {
        None => target == id && after == before && new_slots == slots,
        Some(raw) => if before.timelines.contains_key(TimelineId { raw }) {
            target == raw && after == before && new_slots == slots
        } else {
            &&& created(blank_params(), before, after, slots, new_slots, state)
            &&& state matches Ok(state) && target == state.id
        },
    }
}

/// The studio with a timeline called by a name, if there is one.
pub open spec fn called(studio: StudioModel, id: u64, name: Option<String>) -> StudioModel {
    match name {
        Some(_) => studio.with_edits(
            TimelineId { raw: id },
            EditsModel { name, ..studio.edits_of(TimelineId { raw: id }) },
        ),
        None => studio,
    }
}

/// Whether loading a document had that outcome, by way of the studios in
/// between.
pub open spec fn entry_stepped<H: RemoteHost>(
    host: &H,
    id: u64,
    bindings: Seq<(String, u64)>,
    entry: ProjectEntry,
    before: StudioModel,
    slots: Seq<PlayerSlot>,
    chosen: StudioModel,
    state: Result<TimelineState, Fault>,
    target: u64,
    p: ImportParams,
    loaded: StudioModel,
    came_to: Result<(u64, usize), Fault>,
    after: StudioModel,
    new_slots: Seq<PlayerSlot>,
    result: Result<LoadedTimeline, Fault>,
) -> bool {
    &&& target_chosen(id, entry.id, before, chosen, slots, new_slots, state, target)
    &&& match entry.document {
        Err(reason) => {
            &&& result == Err::<LoadedTimeline, Fault>(Fault::Op(OpFault::Unreadable { reason }))
            &&& after == chosen
        },
        Ok(document) => {
            &&& p.id == target
            &&& p.document == document
            &&& p.mode matches Some(mode) && mode@ == "replace"@
            &&& p.bindings@ == bindings
            &&& imported(host, p, chosen, loaded, came_to)
            &&& match came_to {
                Err(fault) => result == Err::<LoadedTimeline, Fault>(fault) && after == loaded,
                Ok((version, inserted)) => {
                    &&& after == called(loaded, target, entry.name)
                    &&& result == Ok::<LoadedTimeline, Fault>(
                        LoadedTimeline { from: entry.id, into: target, version, inserted },
                    )
                },
            }
        },
    }
}

/// Whether loading a document had that outcome.
pub open spec fn entry_loaded<H: RemoteHost>(
    host: &H,
    id: u64,
    bindings: Seq<(String, u64)>,
    entry: ProjectEntry,
    before: StudioModel,
    slots: Seq<PlayerSlot>,
    after: StudioModel,
    new_slots: Seq<PlayerSlot>,
    result: Result<LoadedTimeline, Fault>,
) -> bool {
    exists|
        chosen: StudioModel,
        state: Result<TimelineState, Fault>,
        target: u64,
        p: ImportParams,
        loaded: StudioModel,
        came_to: Result<(u64, usize), Fault>,
    | #[trigger]
        entry_stepped(
            host,
            id,
            bindings,
            entry,
            before,
            slots,
            chosen,
            state,
            target,
            p,
            loaded,
            came_to,
            after,
            new_slots,
            result,
        )
}

/// A copy of bindings.
fn copy_bindings(bindings: &Vec<(String, u64)>) -> (copy: Vec<(String, u64)>)
    ensures
        copy@ == bindings@,
{
    let mut copy: Vec<(String, u64)> = Vec::new();
    let mut i: usize = 0;
    while i < bindings.len()
        invariant
            i <= bindings@.len(),
            copy@ == bindings@.take(i as int),
        decreases bindings@.len() - i,
    {
        copy.push((bindings[i].0.clone(), bindings[i].1));
        assert(copy@ =~= bindings@.take(i + 1));
        i += 1;
    }
    assert(copy@ =~= bindings@);
    copy
}

/// Loads a document into its timeline.
fn load_entry<H: RemoteHost>(
    host: &H,
    studio: &mut Studio,
    slots: &mut Vec<PlayerSlot>,
    id: u64,
    bindings: &Vec<(String, u64)>,
    entry: ProjectEntry,
) -> (result: Result<LoadedTimeline, Fault>)
    ensures
        entry_loaded(
            host,
            id,
            bindings@,
            entry,
            old(studio)@,
            old(slots)@,
            final(studio)@,
            final(slots)@,
            result,
        ),
        stays_seekable(old(studio)@, final(studio)@),
{
    let ghost before = studio@;
    let ghost ghost_entry = entry;
    let ghost mut state: Result<TimelineState, Fault> = Err(Fault::NoManager);
    let target: u64 = match entry.id {
        None => id,
        Some(raw) => {
            if studio.manager.get_timeline(&TimelineId::from_raw(raw)).is_some() {
                raw
            } else {
                let made = timeline_create(
                    studio,
                    slots,
                    CreateParams { name: None, tracks: None, player: None },
                );
                proof {
                    state = made;
                }
                match made {
                    Ok(made) => made.id,
                    Err(_) => {
                        assert(false);
                        0
                    },
                }
            }
        },
    };
    let ghost chosen = studio@;
    let from = entry.id;
    let name = entry.name;
    let p = match entry.document {
        Ok(document) => ImportParams {
            id: target,
            document,
            mode: Some(String::from_str("replace")),
            bindings: copy_bindings(bindings),
        },
        Err(reason) => {
            let ghost unread: ImportParams = arbitrary();
            let fault = Fault::Op(OpFault::Unreadable { reason });
            assert(entry_stepped(
                host,
                id,
                bindings@,
                ghost_entry,
                before,
                old(slots)@,
                chosen,
                state,
                target,
                unread,
                chosen,
                Err(fault),
                studio@,
                slots@,
                Err(fault),
            ));
            return Err(fault);
        },
    };
    let came_to = timeline_import(host, studio, &p);
    let ghost loaded = studio@;
    let (version, inserted) = match came_to {
        Ok(outcome) => outcome,
        Err(fault) => {
            assert(entry_stepped(
                host,
                id,
                bindings@,
                ghost_entry,
                before,
                old(slots)@,
                chosen,
                state,
                target,
                p,
                loaded,
                Err(fault),
                studio@,
                slots@,
                Err(fault),
            ));
            return Err(fault);
        },
    };
    let ghost given = name;
    match name {
        Some(name) => {
            studio.state.set_name(TimelineId::from_raw(target), Some(name));
        },
        None => {},
    }
    assert(studio@ =~= called(loaded, target, given));
    let outcome = LoadedTimeline { from, into: target, version, inserted };
    assert(entry_stepped(
        host,
        id,
        bindings@,
        ghost_entry,
        before,
        old(slots)@,
        chosen,
        state,
        target,
        p,
        loaded,
        Ok((version, inserted)),
        studio@,
        slots@,
        Ok(outcome),
    ));
    Ok(outcome)
}

/// Whether the first of the documents were loaded one after another.
pub open spec fn entries_loaded<H: RemoteHost>(
    host: &H,
    id: u64,
    bindings: Seq<(String, u64)>,
    entries: Seq<ProjectEntry>,
    trace: Seq<(StudioModel, Seq<PlayerSlot>)>,
    loaded: Seq<LoadedTimeline>,
) -> bool {
    &&& loaded.len() <= entries.len()
    &&& trace.len() == loaded.len() + 1
    &&& forall|i: int|
        0 <= i < loaded.len() ==> entry_loaded(
            host,
            id,
            bindings,
            entries[i],
            trace[i].0,
            trace[i].1,
            trace[i + 1].0,
            trace[i + 1].1,
            Ok(#[trigger] loaded[i]),
        )
}

/// Whether loading documents had that outcome, by way of the studios in
/// between: all were loaded, or one could not be.
pub open spec fn load_stepped<H: RemoteHost>(
    host: &H,
    id: u64,
    bindings: Seq<(String, u64)>,
    entries: Seq<ProjectEntry>,
    trace: Seq<(StudioModel, Seq<PlayerSlot>)>,
    loaded: Seq<LoadedTimeline>,
    before: (StudioModel, Seq<PlayerSlot>),
    after: (StudioModel, Seq<PlayerSlot>),
    result: Result<Seq<LoadedTimeline>, Fault>,
) -> bool {
    &&& entries_loaded(host, id, bindings, entries, trace, loaded)
    &&& trace.first() == before
    &&& match result {
        Ok(list) => list == loaded && loaded.len() == entries.len() && trace.last() == after,
        Err(fault) => loaded.len() < entries.len() && entry_loaded(
            host,
            id,
            bindings,
            entries[loaded.len() as int],
            trace.last().0,
            trace.last().1,
            after.0,
            after.1,
            Err(fault),
        ),
    }
}

/// Whether loading documents had that outcome.
pub open spec fn project_loaded<H: RemoteHost>(
    host: &H,
    id: u64,
    bindings: Seq<(String, u64)>,
    entries: Seq<ProjectEntry>,
    before: (StudioModel, Seq<PlayerSlot>),
    after: (StudioModel, Seq<PlayerSlot>),
    result: Result<Seq<LoadedTimeline>, Fault>,
) -> bool {
    exists|trace: Seq<(StudioModel, Seq<PlayerSlot>)>, loaded: Seq<LoadedTimeline>| #[trigger]
        load_stepped(host, id, bindings, entries, trace, loaded, before, after, result)
}

/// The list of a result.
pub open spec fn loaded_view(result: Result<Vec<LoadedTimeline>, Fault>) -> Result<
    Seq<LoadedTimeline>,
    Fault,
> {
    match result {
        Ok(list) => Ok(list@),
        Err(fault) => Err(fault),
    }
}

/// Loads the timelines of a project, bound by name to its entities. Documents
/// that name no timeline go into the one with the id.
pub fn project_load<H: RemoteHost>(
    host: &H,
    studio: &mut Studio,
    slots: &mut Vec<PlayerSlot>,
    id: u64,
    bindings: &Vec<(String, u64)>,
    entries: Vec<ProjectEntry>,
) -> (result: Result<Vec<LoadedTimeline>, Fault>)
    ensures
        project_loaded(
            host,
            id,
            bindings@,
            entries@,
            (old(studio)@, old(slots)@),
            (final(studio)@, final(slots)@),
            loaded_view(result),
        ),
        stays_seekable(old(studio)@, final(studio)@),
{
    let ghost before = (studio@, slots@);
    let ghost all = entries@;
    let mut rest = entries;
    let mut loaded: Vec<LoadedTimeline> = Vec::new();
    let ghost mut trace: Seq<(StudioModel, Seq<PlayerSlot>)> = seq![before];
    assert(rest@ =~= all.skip(0));
    while rest.len() > 0
        invariant
            all == entries@,
            before == (old(studio)@, old(slots)@),
            loaded@.len() <= all.len(),
            rest@ == all.skip(loaded@.len() as int),
            entries_loaded(host, id, bindings@, all, trace, loaded@),
            trace.first() == before,
            trace.last() == (studio@, slots@),
            stays_seekable(before.0, studio@),
        decreases rest@.len(),
    {
        let ghost done = loaded@;
        let ghost shorter = trace;
        let entry = rest.remove(0);
        proof {
            assert(entry == all[done.len() as int]);
            assert(rest@ =~= all.skip(done.len() as int + 1));
        }
        match load_entry(host, studio, slots, id, bindings, entry) {
            Ok(outcome) => {
                loaded.push(outcome);
                proof {
                    trace = trace.push((studio@, slots@));
                    assert forall|k: int| 0 <= k < loaded@.len() implies entry_loaded(
                        host,
                        id,
                        bindings@,
                        all[k],
                        trace[k].0,
                        trace[k].1,
                        trace[k + 1].0,
                        trace[k + 1].1,
                        Ok(#[trigger] loaded@[k]),
                    ) by {
                        if k < done.len() {
                            assert(loaded@[k] == done[k]);
                            assert(trace[k] == shorter[k] && trace[k + 1] == shorter[k + 1]);
                        }
                    }
                }
            },
            Err(fault) => {
                assert(load_stepped(
                    host,
                    id,
                    bindings@,
                    all,
                    trace,
                    loaded@,
                    before,
                    (studio@, slots@),
                    Err(fault),
                ));
                return Err(fault);
            },
        }
    }
    assert(load_stepped(
        host,
        id,
        bindings@,
        all,
        trace,
        loaded@,
        before,
        (studio@, slots@),
        Ok(loaded@),
    ));
    Ok(loaded)
}

} // verus!
