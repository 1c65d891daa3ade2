//! The timelines of an application.
use crate::bevy_motiongfx::world::BevyTimeline;
use crate::action::InterpFn;
use crate::pipeline::{PipelineKey, PipelineUntyped};
use crate::registry::Registry;
use crate::subject::UntypedField;
use crate::table::{RawKey, Table, TableKey};
use crate::timeline::TimelineModel;
use vstd::prelude::*;

verus! {

/// The identity of a timeline.
#[derive(Debug, Clone, Copy, PartialEq, Eq, PartialOrd, Ord, Hash, Structural)]
pub struct TimelineId {
    pub raw: u64,
}

impl TimelineId {
    /// The timeline with the number.
    pub fn from_raw(raw: u64) -> (id: Self)
        ensures
            id.raw == raw,
    {
        TimelineId { raw }
    }

    /// The number of the timeline.
    pub fn raw(&self) -> (raw: u64)
        ensures
            raw == self.raw,
    {
        self.raw
    }
}

impl TableKey for TimelineId {
    open spec fn raw(self) -> RawKey {
        (self.raw, 0, 0, 0, 0)
    }

    proof fn raw_is_injective(a: Self, b: Self) {
    }

    fn to_raw(&self) -> (raw: RawKey) {
        (self.raw, 0, 0, 0, 0)
    }
}

/// The timelines of an application and what it has declared.
pub struct MotionGfxManager {
    registry: Registry,
    timelines: Table<TimelineId, BevyTimeline>,
    next: u64,
}

/// What each timeline holds.
pub type Timelines = Map<TimelineId, TimelineModel>;

impl View for MotionGfxManager {
    type V = Timelines;

    closed spec fn view(&self) -> Timelines {
        self.timelines@.map_values(|timeline: BevyTimeline| timeline@)
    }
}

impl MotionGfxManager {
    /// What the application has declared.
    pub closed spec fn spec_registry(&self) -> &Registry {
        &self.registry
    }

    /// What the application has declared.
    #[verifier::when_used_as_spec(spec_registry)]
    pub fn registry(&self) -> (registry: &Registry)
        ensures
            registry == self.spec_registry(),
    {
        &self.registry
    }

    /// What the application has declared, to declare more.
    pub fn registry_mut(&mut self) -> (registry: &mut Registry)
        ensures
            *registry == *old(self).registry(),
            *final(self).registry() == *final(registry),
            final(self)@ == old(self)@,
            final(self).next_id() == old(self).next_id(),
    {
        &mut self.registry
    }

    /// Declares a field, the pipeline that animates it, and that it can be
    /// edited while a timeline runs.
    pub fn register_remote(&mut self, key: PipelineKey, field: UntypedField, interp: InterpFn)
        ensures
            final(self).registry().accessor@ == old(self).registry().accessor@.insert(field),
            final(self).registry().pipeline@ == old(self).registry().pipeline@.insert(
                key,
                PipelineUntyped { key },
            ),
            final(self).registry().remote@ == (if old(self).registry().remote@.contains_key(key) {
                old(self).registry().remote@
            } else {
                old(self).registry().remote@.insert(key, interp)
            }),
            final(self)@ == old(self)@,
            final(self).next_id() == old(self).next_id(),
    {
        self.registry.register_remote(key, field, interp);
    }

    /// The id that the next timeline gets.
    pub closed spec fn next_id(self) -> TimelineId {
        TimelineId { raw: self.next }
    }

    /// A manager without timelines, of an application that has declared
    /// nothing yet.
    pub fn new() -> (manager: Self)
        ensures
            manager@ == Map::<TimelineId, TimelineModel>::empty(),
            manager.next_id().raw == 0,
            manager.registry().accessor@ == Set::<UntypedField>::empty(),
            manager.registry().pipeline@ == Map::<PipelineKey, PipelineUntyped>::empty(),
            manager.registry().remote@ == Map::<PipelineKey, InterpFn>::empty(),
    {
        let manager = MotionGfxManager {
            registry: Registry::new(),
            timelines: Table::new(),
            next: 0,
        };
        assert(manager@ =~= Map::<TimelineId, TimelineModel>::empty());
        manager
    }

    /// The timeline with the id.
    pub fn get_timeline(&self, id: &TimelineId) -> (timeline: Option<&BevyTimeline>)
        ensures
            timeline is Some <==> self@.contains_key(*id),
            timeline is Some ==> timeline->0@ == self@[*id],
    {
        self.timelines.get(id)
    }

    /// Takes the timeline with the id out, to change it.
    pub fn take(&mut self, id: &TimelineId) -> (timeline: Option<BevyTimeline>)
        ensures
            timeline is Some <==> old(self)@.contains_key(*id),
            timeline is Some ==> timeline->0@ == old(self)@[*id],
            final(self)@ == old(self)@.remove(*id),
            final(self).registry() == old(self).registry(),
            final(self).next_id() == old(self).next_id(),
    {
        let ghost before = self@;
        let timeline = self.timelines.remove(id);
        assert(self@ =~= before.remove(*id));
        timeline
    }

    /// Puts a timeline under an id.
    pub fn put(&mut self, id: TimelineId, timeline: BevyTimeline)
        ensures
            final(self)@ == old(self)@.insert(id, timeline@),
            final(self).registry() == old(self).registry(),
            final(self).next_id() == old(self).next_id(),
    {
        let ghost before = self@;
        self.timelines.insert(id, timeline);
        assert(self@ =~= before.insert(id, timeline@));
    }

    /// Adds a timeline under a new id.
    pub fn add_timeline(&mut self, timeline: BevyTimeline) -> (id: TimelineId)
        ensures
            id == old(self).next_id(),
            final(self)@ == old(self)@.insert(id, timeline@),
            final(self).registry() == old(self).registry(),
            final(self).next_id().raw == (if id.raw == u64::MAX {
                0
            } else {
                id.raw + 1
            }),
    {
        let id = TimelineId { raw: self.next };
        self.put(id, timeline);
        self.next = self.next.wrapping_add(1);
        id
    }

    /// Drops a timeline.
    pub fn remove_timeline(&mut self, id: &TimelineId) -> (timeline: Option<BevyTimeline>)
        ensures
            timeline is Some <==> old(self)@.contains_key(*id),
            timeline is Some ==> timeline->0@ == old(self)@[*id],
            final(self)@ == old(self)@.remove(*id),
            final(self).registry() == old(self).registry(),
    {
        self.take(id)
    }

    /// Every timeline, once.
    pub fn ids(&self) -> (ids: Vec<TimelineId>)
        ensures
            ids@.no_duplicates(),
            forall|id: TimelineId| ids@.contains(id) <==> self@.contains_key(id),
    {
        self.timelines.keys()
    }
}

} // verus!
