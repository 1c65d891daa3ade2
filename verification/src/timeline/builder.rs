//! Putting a timeline together.
use crate::action::world::{claimed, is_uid_for, new_record, ActionModel};
use crate::action::{
    Action, ActionBuilder, ActionId, ActionRecord, ActionWorld, InterpActionBuilder, InterpFn,
};
use crate::pipeline::{PipelineKey, PipelineUntyped};
use crate::registry::Registry;
use crate::subject::{Subject, Tagged, UntypedField};
use crate::table::Table;
use crate::timeline::edit::{bumped, decremented};
use crate::timeline::queue::QueueCache;
use crate::timeline::{Timeline, TimelineModel};
use crate::track::Track;
use core::marker::PhantomData;
use vstd::prelude::*;

verus! {

/// A timeline that is being put together.
pub struct TimelineBuilder<W: Tagged> {
    action_world: ActionWorld,
    pipeline_counts: Table<PipelineKey, u32>,
    tracks: Vec<Track>,
    marker: PhantomData<W>,
}

/// What a timeline builder holds.
#[verifier::ext_equal]
pub struct BuilderModel {
    pub actions: ActionModel,
    pub counts: Map<PipelineKey, u32>,
    pub tracks: Seq<Track>,
}

impl<W: Tagged> View for TimelineBuilder<W> {
    type V = BuilderModel;

    closed spec fn view(&self) -> BuilderModel {
        BuilderModel {
            actions: self.action_world@,
            counts: self.pipeline_counts@,
            tracks: self.tracks@,
        }
    }
}

/// Whether an action was added on the field of a subject, with nothing but
/// its function and maybe an interpolation, and counted.
pub open spec fn acted(
    before: BuilderModel,
    after: BuilderModel,
    world: u64,
    subject: Subject,
    field: UntypedField,
    action: Action,
    interp: Option<InterpFn>,
    builder: ActionBuilder,
) -> bool {
    let uid = builder.key.subject_id.uid;
    &&& builder.key.field == field
    &&& builder.key.subject_id.type_id == subject.type_id
    &&& !before.actions.has(builder.id)
    &&& is_uid_for(before.actions.known, subject, uid)
    &&& after.actions == (ActionModel {
        actions: before.actions.actions.insert(
            builder.id,
            ActionRecord { interp, ..new_record(builder.key, field.target_id, action) },
        ),
        subjects: claimed(before.actions.subjects, subject, uid),
        known: before.actions.known.insert((subject.type_id, uid), subject.bits),
        baselines: before.actions.baselines,
    })
    &&& after.counts == bumped(before.counts, PipelineKey::of_action_key(world, builder.key))
    &&& after.tracks == before.tracks
}

impl<W: Tagged> TimelineBuilder<W> {
    /// Creates an empty timeline builder.
    pub fn new() -> (builder: Self)
        ensures
            builder@ == (BuilderModel {
                actions: ActionModel::empty(),
                counts: Map::empty(),
                tracks: Seq::empty(),
            }),
    {
        TimelineBuilder {
            action_world: ActionWorld::new(),
            pipeline_counts: Table::new(),
            tracks: Vec::new(),
            marker: PhantomData,
        }
    }

    /// Add an [`Action`] that interpolates, on a field that can then be edited
    /// at runtime too.
    pub fn act(
        &mut self,
        registry: &mut Registry,
        target: Subject,
        field: UntypedField,
        action: Action,
        interp: InterpFn,
    ) -> (builder: InterpActionBuilder)
        ensures
            acted(
                old(self)@,
                final(self)@,
                W::tag(),
                target,
                field,
                action,
                Some(interp),
                builder.inner,
            ),
            registered(*old(registry), *final(registry), W::tag(), target, field),
            final(registry).remote@ == ({
                let key = pipeline_of(W::tag(), target, field);
                if old(registry).remote@.contains_key(key) {
                    old(registry).remote@
                } else {
                    old(registry).remote@.insert(key, interp)
                }
            }),
    {
        // Register the remote constructor so this field can also
        // be edited at runtime.
        let key = PipelineKey {
            world_id: W::type_tag(),
            subject_id: target.type_id,
            source_id: field.source_id,
            target_id: field.target_id,
        };
        registry.remote.register(key, interp);
        self.act_step(registry, target, field, action, interp)
    }

    /// Add an [`Action`] with an interpolation of its own, such as a step.
    pub fn act_step(
        &mut self,
        registry: &mut Registry,
        target: Subject,
        field: UntypedField,
        action: Action,
        interp: InterpFn,
    ) -> (builder: InterpActionBuilder)
        ensures
            acted(
                old(self)@,
                final(self)@,
                W::tag(),
                target,
                field,
                action,
                Some(interp),
                builder.inner,
            ),
            registered(*old(registry), *final(registry), W::tag(), target, field),
            final(registry).remote@ == old(registry).remote@,
    {
        let ghost before = self@;
        let builder = self.act_builder(registry, target, field, action);
        let builder = builder.with_interp(&mut self.action_world, interp);
        assert(self@.actions.actions =~= before.actions.actions.insert(
            builder.inner.id,
            ActionRecord {
                interp: Some(interp),
                ..new_record(builder.inner.key, field.target_id, action)
            },
        ));
        builder
    }

    /// Add an [`Action`] without interpolation, returning an
    /// [`ActionBuilder`] for manual configuration.
    pub fn act_builder(
        &mut self,
        registry: &mut Registry,
        target: Subject,
        field: UntypedField,
        action: Action,
    ) -> (builder: ActionBuilder)
        ensures
            acted(
                old(self)@,
                final(self)@,
                W::tag(),
                target,
                field,
                action,
                None,
                builder,
            ),
            registered(*old(registry), *final(registry), W::tag(), target, field),
            final(registry).remote@ == old(registry).remote@,
    {
        let key = PipelineKey {
            world_id: W::type_tag(),
            subject_id: target.type_id,
            source_id: field.source_id,
            target_id: field.target_id,
        };
        registry.register(key, field);
        let count: u32 = match self.pipeline_counts.get(&key) {
            Some(count) => count.saturating_add(1),
            None => 1,
        };
        self.pipeline_counts.insert(key, count);
        self.action_world.add(target, field, field.target_id, action)
    }

    /// Remove an [`Action`].
    pub fn unact(&mut self, id: ActionId) -> (removed: bool)
        ensures
            removed == old(self)@.actions.has(id),
            !removed ==> final(self)@ == old(self)@,
            removed ==> {
                let key = old(self)@.actions.actions[id].key;
                &&& final(self)@.actions.actions == old(self)@.actions.actions.remove(id)
                &&& final(self)@.actions.subjects == crate::action::world::released(
                    old(self)@.actions.subjects,
                    (key.subject_id.type_id, key.subject_id.uid),
                )
                &&& final(self)@.actions.known == old(self)@.actions.known
                &&& final(self)@.actions.baselines == old(self)@.actions.baselines
                &&& final(self)@.counts == decremented(
                    old(self)@.counts,
                    PipelineKey::of_action_key(W::tag(), key),
                )
                &&& final(self)@.tracks == old(self)@.tracks
            },
    {
        let key = match self.action_world.remove(id) {
            Some(key) => PipelineKey::from_action_key::<W>(key),
            None => {
                return false;
            },
        };
        let count: u32 = match self.pipeline_counts.get(&key) {
            Some(count) => *count,
            None => {
                return true;
            },
        };
        if count <= 1 {
            self.pipeline_counts.remove(&key);
        } else {
            self.pipeline_counts.insert(key, count - 1);
        }
        true
    }

    /// Add [`Track`]\(s\) to the timeline.
    pub fn add_tracks(&mut self, tracks: Vec<Track>)
        ensures
            final(self)@ == (BuilderModel {
                tracks: old(self)@.tracks + tracks@,
                ..old(self)@
            }),
    {
        let mut tracks = tracks;
        self.tracks.append(&mut tracks);
    }

    /// Compile into a [`Timeline`]. There is a track.
    ///
    /// Use [`Self::try_compile`] to explicitly handle the case where
    /// there may be none.
    pub fn compile(self) -> (timeline: Timeline<W>)
        requires
            self@.tracks.len() >= 1,
        ensures
            timeline@ == compiled(self@),
            timeline@.playable(),
    {
        Timeline {
            action_world: self.action_world,
            pipeline_counts: self.pipeline_counts,
            tracks: self.tracks,
            queue_cache: QueueCache::new(),
            curr_time: 0,
            target_time: 0,
            curr_index: 0,
            target_index: 0,
            marker: PhantomData,
        }
    }

    /// Similar to [`Self::compile`] but return `None` where there is no track.
    pub fn try_compile(self) -> (timeline: Option<Timeline<W>>)
        ensures
            timeline is Some <==> self@.tracks.len() >= 1,
            timeline is Some ==> timeline->0@ == compiled(self@) && timeline->0@.playable(),
    {
        if self.tracks.len() > 0 {
            Some(self.compile())
        } else {
            None
        }
    }
}

/// The timeline of what a builder holds, with the playhead at its start.
pub open spec fn compiled(model: BuilderModel) -> TimelineModel {
    TimelineModel {
        actions: model.actions,
        counts: model.counts,
        tracks: model.tracks,
        queue: Map::empty(),
        curr_time: 0,
        target_time: 0,
        curr_index: 0,
        target_index: 0,
    }
}

/// The pipeline of a field of a subject.
pub open spec fn pipeline_of(world: u64, subject: Subject, field: UntypedField) -> PipelineKey {
    PipelineKey {
        world_id: world,
        subject_id: subject.type_id,
        source_id: field.source_id,
        target_id: field.target_id,
    }
}

/// Whether the field and its pipeline were declared.
pub open spec fn registered(
    before: Registry,
    after: Registry,
    world: u64,
    subject: Subject,
    field: UntypedField,
) -> bool {
    let key = pipeline_of(world, subject, field);
    &&& after.accessor@ == before.accessor@.insert(field)
    &&& after.pipeline@ == before.pipeline@.insert(key, PipelineUntyped { key })
}

} // verus!
