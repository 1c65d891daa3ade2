//! The timelines of an application and what is kept to edit them.
use crate::action::InterpFn;
use crate::bevy_motiongfx::manager::{MotionGfxManager, TimelineId, Timelines};
use crate::bevy_motiongfx::remote::catalog::{CatalogModel, MotionGfxCatalog};
use crate::bevy_motiongfx::remote::fault::Fault;
use crate::bevy_motiongfx::remote::state::{edits_of, Edits, EditsModel, MotionGfxEditState};
use crate::pipeline::{PipelineKey, PipelineUntyped};
use crate::registry::Registry;
use crate::subject::UntypedField;
use crate::timeline::play::timeline_baked;
use crate::timeline::TimelineModel;
use crate::world::SubjectSource;
use vstd::prelude::*;

verus! {

/// The timelines of an application and what is kept to edit them.
pub struct Studio {
    pub manager: MotionGfxManager,
    pub state: MotionGfxEditState,
    pub catalog: MotionGfxCatalog,
}

/// What a studio holds.
#[verifier::ext_equal]
pub struct StudioModel {
    pub registry: Registry,
    pub timelines: Timelines,
    pub next: TimelineId,
    pub edits: Edits,
    pub catalog: CatalogModel,
}

impl StudioModel {
    /// With another state of a timeline.
    pub open spec fn with_timeline(self, id: TimelineId, model: TimelineModel) -> Self {
        StudioModel { timelines: self.timelines.insert(id, model), ..self }
    }

    /// With something else kept about the edits of a timeline.
    pub open spec fn with_edits(self, id: TimelineId, edits: EditsModel) -> Self {
        StudioModel { edits: self.edits.insert(id, edits), ..self }
    }

    /// What is kept about the edits of a timeline.
    pub open spec fn edits_of(self, id: TimelineId) -> EditsModel {
        edits_of(self.edits, id)
    }
}

impl View for Studio {
    type V = StudioModel;

    open spec fn view(&self) -> StudioModel {
        StudioModel {
            registry: *self.manager.registry(),
            timelines: self.manager@,
            next: self.manager.next_id(),
            edits: self.state@,
            catalog: self.catalog@,
        }
    }
}

/// Whether baking a timeline leads from one studio to another. There is
/// nothing to bake where there is no such timeline.
pub open spec fn baked<H: SubjectSource>(
    host: &H,
    id: TimelineId,
    before: StudioModel,
    after: StudioModel,
) -> bool {
    if before.timelines.contains_key(id) {
        &&& timeline_baked(
            host,
            before.registry,
            before.timelines[id],
            after.timelines[id],
        )
        &&& after == before.with_timeline(id, after.timelines[id])
    } else {
        after == before
    }
}

impl Studio {
    /// A studio without timelines.
    pub fn new() -> (studio: Self)
        ensures
            studio@.timelines == Map::<TimelineId, TimelineModel>::empty(),
            studio@.edits == Map::<TimelineId, EditsModel>::empty(),
            studio@.catalog == (CatalogModel { entries: Map::empty(), by_field: Map::empty() }),
            studio@.next.raw == 0,
            studio@.registry.accessor@ == Set::<UntypedField>::empty(),
            studio@.registry.pipeline@ == Map::<PipelineKey, PipelineUntyped>::empty(),
            studio@.registry.remote@ == Map::<PipelineKey, InterpFn>::empty(),
    {
        Studio {
            manager: MotionGfxManager::new(),
            state: MotionGfxEditState::default(),
            catalog: MotionGfxCatalog::default(),
        }
    }

    /// Re-bake a timeline's segments. Safe to repeat, needed before reading
    /// values from a freshly edited timeline.
    pub fn bake<H: SubjectSource>(&mut self, host: &H, id: &TimelineId)
        ensures
            baked(host, *id, old(self)@, final(self)@),
    {
        let ghost before = self@;
        match self.manager.take(id) {
            Some(mut timeline) => {
                timeline.bake_actions(self.manager.registry(), host);
                let ghost model = timeline@;
                self.manager.put(*id, timeline);
                assert(self@ =~= before.with_timeline(*id, model));
            },
            None => {
                assert(self@ =~= before);
            },
        }
    }
}

/// Fails where there are no timelines at all.
pub fn require_manager(present: bool) -> (result: Result<(), Fault>)
    ensures
        result == if present {
            Ok(())
        } else {
            Err::<(), Fault>(Fault::NoManager)
        },
{
    if present {
        Ok(())
    } else {
        Err(Fault::NoManager)
    }
}

} // verus!
