//! What a program has declared to be animatable.
use crate::pipeline::{PipelineKey, PipelineUntyped};
use crate::remote::RemoteActionRegistry;
use crate::subject::{TypeTag, UntypedField};
use crate::table::Table;
use vstd::prelude::*;

verus! {

/// The fields that can be read and written.
pub struct AccessorRegistry {
    fields: Table<UntypedField, ()>,
}

impl View for AccessorRegistry {
    type V = Set<UntypedField>;

    closed spec fn view(&self) -> Set<UntypedField> {
        self.fields@.dom()
    }
}

impl AccessorRegistry {
    /// A registry without fields.
    pub fn new() -> (registry: Self)
        ensures
            registry@ == Set::<UntypedField>::empty(),
    {
        AccessorRegistry { fields: Table::new() }
    }

    /// Declares a field.
    pub fn register(&mut self, field: UntypedField)
        ensures
            final(self)@ == old(self)@.insert(field),
    {
        self.fields.insert(field, ());
    }

    /// Whether the field is declared and is one of type `target` in sources
    /// of type `source`.
    pub fn get(&self, field: &UntypedField, source: TypeTag, target: TypeTag) -> (found: bool)
        ensures
            found == accessible(self@, *field, source, target),
    {
        self.fields.contains_key(field) && field.source_id == source && field.target_id == target
    }
}

/// Whether the field is among the declared ones and has the given types.
pub open spec fn accessible(
    fields: Set<UntypedField>,
    field: UntypedField,
    source: TypeTag,
    target: TypeTag,
) -> bool {
    fields.contains(field) && field.source_id == source && field.target_id == target
}

/// The pipelines that can run.
pub struct PipelineRegistry {
    pipelines: Table<PipelineKey, PipelineUntyped>,
}

impl View for PipelineRegistry {
    type V = Map<PipelineKey, PipelineUntyped>;

    closed spec fn view(&self) -> Map<PipelineKey, PipelineUntyped> {
        self.pipelines@
    }
}

impl PipelineRegistry {
    /// A registry without pipelines.
    pub fn new() -> (registry: Self)
        ensures
            registry@ == Map::<PipelineKey, PipelineUntyped>::empty(),
    {
        PipelineRegistry { pipelines: Table::new() }
    }

    /// Declares a pipeline.
    pub fn register(&mut self, key: PipelineKey, pipeline: PipelineUntyped)
        ensures
            final(self)@ == old(self)@.insert(key, pipeline),
    {
        self.pipelines.insert(key, pipeline);
    }

    /// The pipeline of a key.
    pub fn get(&self, key: &PipelineKey) -> (pipeline: Option<PipelineUntyped>)
        ensures
            pipeline is Some <==> self@.contains_key(*key),
            pipeline is Some ==> pipeline->0 == self@[*key],
    {
        match self.pipelines.get(key) {
            Some(pipeline) => Some(*pipeline),
            None => None,
        }
    }
}

/// Everything that a program has declared.
pub struct Registry {
    pub accessor: AccessorRegistry,
    pub pipeline: PipelineRegistry,
    pub remote: RemoteActionRegistry,
}

impl Registry {
    /// A registry without anything.
    pub fn new() -> (registry: Self)
        ensures
            registry.accessor@ == Set::<UntypedField>::empty(),
            registry.pipeline@ == Map::<PipelineKey, PipelineUntyped>::empty(),
            registry.remote@ == Map::<PipelineKey, crate::action::InterpFn>::empty(),
    {
        Registry {
            accessor: AccessorRegistry::new(),
            pipeline: PipelineRegistry::new(),
            remote: RemoteActionRegistry::new(),
        }
    }

    /// Declares a field and the pipeline that animates it.
    pub fn register(&mut self, key: PipelineKey, field: UntypedField)
        ensures
            final(self).accessor@ == old(self).accessor@.insert(field),
            final(self).pipeline@ == old(self).pipeline@.insert(key, PipelineUntyped { key }),
            final(self).remote@ == old(self).remote@,
    {
        self.accessor.register(field);
        self.pipeline.register(key, PipelineUntyped { key });
    }

    /// Declares a field, the pipeline that animates it, and that it can be
    /// edited while a timeline runs.
    pub fn register_remote(
        &mut self,
        key: PipelineKey,
        field: UntypedField,
        interp: crate::action::InterpFn,
    )
        ensures
            final(self).accessor@ == old(self).accessor@.insert(field),
            final(self).pipeline@ == old(self).pipeline@.insert(key, PipelineUntyped { key }),
            final(self).remote@ == (if old(self).remote@.contains_key(key) {
                old(self).remote@
            } else {
                old(self).remote@.insert(key, interp)
            }),
    {
        self.register(key, field);
        self.remote.register(key, interp);
    }
}

} // verus!
