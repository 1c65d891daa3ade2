//! Baking and sampling the actions of a timeline.
use crate::action::world::ActionModel;
use crate::action::ActionKey;
use crate::pipeline::{
    marked_apart, only_baked, only_baked_twice, pipeline_sampled, track_baked, writes_are_typed,
    written_once, PipelineKey, PipelineUntyped, Write,
};
use crate::registry::Registry;
use crate::seqs::push_adds_one;
use crate::subject::{Tagged, UntypedField};
use crate::timeline::{Timeline, TimelineModel};
use crate::track::Track;
use crate::world::SubjectSource;
use vstd::prelude::*;

verus! {

/// Whether the steps of `trace` bake the tracks one after another.
pub open spec fn tracks_baked<H: SubjectSource>(
    source: &H,
    pipeline: PipelineKey,
    fields: Set<UntypedField>,
    tracks: Seq<Track>,
    trace: Seq<ActionModel>,
) -> bool {
    &&& trace.len() == tracks.len() + 1
    &&& forall|i: int|
        0 <= i < tracks.len() ==> track_baked(
            source,
            pipeline,
            fields,
            #[trigger] tracks[i],
            trace[i],
            trace[i + 1],
        )
}

/// Whether baking all tracks with the pipeline of `key` leads from one world
/// to another. A pipeline that is not registered bakes nothing.
pub open spec fn pipeline_baked<H: SubjectSource>(
    source: &H,
    pipelines: Map<PipelineKey, PipelineUntyped>,
    fields: Set<UntypedField>,
    key: PipelineKey,
    tracks: Seq<Track>,
    before: ActionModel,
    after: ActionModel,
) -> bool {
    if pipelines.contains_key(key) {
        exists|trace: Seq<ActionModel>| #[trigger]
            tracks_baked(source, pipelines[key].key, fields, tracks, trace) && trace.first()
                == before && trace.last() == after
    } else {
        after == before
    }
}

/// Whether the steps of `trace` bake with the pipelines of `order` one after
/// another.
pub open spec fn pipelines_baked<H: SubjectSource>(
    source: &H,
    pipelines: Map<PipelineKey, PipelineUntyped>,
    fields: Set<UntypedField>,
    order: Seq<PipelineKey>,
    tracks: Seq<Track>,
    trace: Seq<ActionModel>,
) -> bool {
    &&& trace.len() == order.len() + 1
    &&& forall|i: int|
        0 <= i < order.len() ==> pipeline_baked(
            source,
            pipelines,
            fields,
            #[trigger] order[i],
            tracks,
            trace[i],
            trace[i + 1],
        )
}

/// Whether baking a timeline with every pipeline that it uses leads from one
/// world to another.
pub open spec fn timeline_baked<H: SubjectSource>(
    source: &H,
    registry: Registry,
    before: TimelineModel,
    after: TimelineModel,
) -> bool {
    &&& exists|order: Seq<PipelineKey>, trace: Seq<ActionModel>|
        {
            &&& #[trigger] pipelines_baked(
                source,
                registry.pipeline@,
                registry.accessor@,
                order,
                before.tracks,
                trace,
            )
            &&& order.no_duplicates()
            &&& forall|key: PipelineKey| order.contains(key) <==> before.counts.contains_key(key)
            &&& trace.first() == before.actions
            &&& trace.last() == after.actions
        }
    &&& after == (TimelineModel { actions: after.actions, ..before })
    &&& only_baked(before.actions, after.actions)
}

/// The writes of several pipelines, one after another.
pub open spec fn pipelines_sampled<H: SubjectSource>(
    source: &H,
    pipelines: Map<PipelineKey, PipelineUntyped>,
    fields: Set<UntypedField>,
    model: ActionModel,
    order: Seq<PipelineKey>,
    parts: Seq<Seq<Write>>,
) -> bool {
    &&& parts.len() == order.len()
    &&& forall|i: int|
        0 <= i < order.len() ==> if pipelines.contains_key(#[trigger] order[i]) {
            pipeline_sampled(source, pipelines[order[i]].key, fields, model, parts[i])
        } else {
            parts[i] == Seq::<Write>::empty()
        }
}

/// Whether the pipeline has something to write: actions, or a sequence that
/// has lost all of its actions.
pub open spec fn pipeline_in_use(model: TimelineModel, world: u64, key: PipelineKey) -> bool {
    model.counts.contains_key(key) || exists|emptied: ActionKey| #[trigger]
        model.actions.emptied(emptied) && key == PipelineKey::of_action_key(world, emptied)
}

/// Whether each pipeline that has something to write is one of a kind: pipelines
/// stand under their own keys, and those that are counted are of one world.
pub open spec fn pipelines_apart(
    pipelines: Map<PipelineKey, PipelineUntyped>,
    model: TimelineModel,
    world: u64,
) -> bool {
    &&& forall|key: PipelineKey| #[trigger]
        pipelines.contains_key(key) ==> pipelines[key].key == key
    &&& forall|key: PipelineKey| #[trigger] model.counts.contains_key(key) ==> key.world_id == world
}

/// Parts of which none writes a field twice, nor two of them the same one, write
/// no field twice.
proof fn parts_write_once(parts: Seq<Seq<Write>>, keys: Seq<PipelineKey>)
    requires
        parts.len() == keys.len(),
        forall|i: int, j: int|
            0 <= i < j < keys.len() ==> {
                let (a, b) = (#[trigger] keys[i], #[trigger] keys[j]);
                (a.subject_id, a.source_id, a.target_id) != (b.subject_id, b.source_id, b.target_id)
            },
        forall|i: int| 0 <= i < parts.len() ==> written_once(#[trigger] parts[i]),
        forall|i: int, k: int|
            0 <= i < parts.len() && 0 <= k < parts[i].len() ==> {
                let write = #[trigger] parts[i][k];
                &&& write.subject.type_id == keys[i].subject_id
                &&& write.field.source_id == keys[i].source_id
                &&& write.field.target_id == keys[i].target_id
            },
    ensures
        written_once(parts.flatten()),
        forall|k: int|
            0 <= k < parts.flatten().len() ==> typed_by_one(keys, #[trigger] parts.flatten()[k]),
    decreases parts.len(),
{
    if parts.len() == 0 {
        assert(parts.flatten() =~= Seq::<Write>::empty());
    } else {
        let n = parts.len() - 1;
        let front = parts.drop_last();
        let last = parts.last();
        assert forall|i: int| 0 <= i < front.len() implies written_once(#[trigger] front[i]) by {
            assert(front[i] == parts[i]);
        }
        assert forall|i: int, k: int| 0 <= i < front.len() && 0 <= k < front[i].len() implies {
            let write = #[trigger] front[i][k];
            &&& write.subject.type_id == keys.drop_last()[i].subject_id
            &&& write.field.source_id == keys.drop_last()[i].source_id
            &&& write.field.target_id == keys.drop_last()[i].target_id
        } by {
            assert(front[i][k] == parts[i][k]);
        }
        parts_write_once(front, keys.drop_last());
        front.lemma_flatten_push(last);
        assert(front.push(last) =~= parts);
        let whole = front.flatten() + last;
        assert(parts.flatten() == whole);
        let m = front.flatten().len();
        assert(written_once(last)) by {
            assert(parts[n] == last);
        }
        assert forall|k: int| 0 <= k < whole.len() implies typed_by_one(
            keys,
            #[trigger] whole[k],
        ) by {
            if k < m {
                assert(whole[k] == front.flatten()[k]);
                let i = choose|i: int|
                    0 <= i < keys.drop_last().len() && is_typed(
                        #[trigger] keys.drop_last()[i],
                        whole[k],
                    );
                assert(is_typed(keys[i], whole[k]));
            } else {
                assert(whole[k] == parts[n][k - m]);
                assert(is_typed(keys[n], whole[k]));
            }
        }
        assert forall|i: int, j: int| 0 <= i < j < whole.len() implies !((
        #[trigger] whole[i]).subject == (#[trigger] whole[j]).subject && whole[i].field
            == whole[j].field) by {
            if j < m {
                assert(whole[i] == front.flatten()[i] && whole[j] == front.flatten()[j]);
            } else if i >= m {
                assert(whole[i] == last[i - m] && whole[j] == last[j - m]);
            } else {
                assert(whole[i] == front.flatten()[i]);
                let p = choose|p: int|
                    0 <= p < keys.drop_last().len() && is_typed(
                        #[trigger] keys.drop_last()[p],
                        whole[i],
                    );
                assert(is_typed(keys[p], whole[i]));
                assert(whole[j] == parts[n][j - m]);
                assert(keys[p] != keys[n]);
            }
        }
    }
}

/// Whether a write is of the types of one of the pipelines.
spec fn typed_by_one(keys: Seq<PipelineKey>, write: Write) -> bool {
    exists|i: int| 0 <= i < keys.len() && is_typed(#[trigger] keys[i], write)
}

/// Whether a write is of the types of a pipeline.
spec fn is_typed(key: PipelineKey, write: Write) -> bool {
    &&& write.subject.type_id == key.subject_id
    &&& write.field.source_id == key.source_id
    &&& write.field.target_id == key.target_id
}

impl<W: Tagged> Timeline<W> {
    /// Bakes the actions of every track with every pipeline that they use.
    pub fn bake_actions<H: SubjectSource>(&mut self, registry: &Registry, source: &H)
        ensures
            timeline_baked(source, *registry, old(self)@, final(self)@),
            old(self)@.playable() ==> final(self)@.playable(),
    {
        let ghost before = self@;
        let keys = self.pipeline_counts.keys();
        let ghost mut trace: Seq<ActionModel> = seq![before.actions];
        let mut i: usize = 0;
        while i < keys.len()
            invariant
                i <= keys@.len(),
                self@ == (TimelineModel { actions: self@.actions, ..before }),
                only_baked(before.actions, self@.actions),
                trace.len() == i + 1,
                trace.first() == before.actions,
                trace.last() == self@.actions,
                forall|j: int|
                    0 <= j < i ==> pipeline_baked(
                        source,
                        registry.pipeline@,
                        registry.accessor@,
                        #[trigger] keys@[j],
                        before.tracks,
                        trace[j],
                        trace[j + 1],
                    ),
            decreases keys@.len() - i,
        {
            let ghost ready = self@.actions;
            match registry.pipeline.get(&keys[i]) {
                Some(pipeline) => {
                    self.bake_tracks(&pipeline, registry, source);
                },
                None => {},
            }
            proof {
                only_baked_twice(before.actions, ready, self@.actions);
                trace = trace.push(self@.actions);
            }
            i += 1;
        }
        assert(pipelines_baked(
            source,
            registry.pipeline@,
            registry.accessor@,
            keys@,
            before.tracks,
            trace,
        ));
    }

    /// Bakes every track with one pipeline.
    fn bake_tracks<H: SubjectSource>(
        &mut self,
        pipeline: &PipelineUntyped,
        registry: &Registry,
        source: &H,
    )
        ensures
            final(self)@ == (TimelineModel { actions: final(self)@.actions, ..old(self)@ }),
            only_baked(old(self)@.actions, final(self)@.actions),
            exists|trace: Seq<ActionModel>| #[trigger]
                tracks_baked(source, pipeline.key, registry.accessor@, old(self)@.tracks, trace)
                    && trace.first() == old(self)@.actions
                    && trace.last() == final(self)@.actions,
    {
        let ghost before = self@;
        let ghost mut trace: Seq<ActionModel> = seq![before.actions];
        let mut t: usize = 0;
        while t < self.tracks.len()
            invariant
                t <= before.tracks.len(),
                self@ == (TimelineModel { actions: self@.actions, ..before }),
                only_baked(before.actions, self@.actions),
                trace.len() == t + 1,
                trace.first() == before.actions,
                trace.last() == self@.actions,
                forall|j: int|
                    0 <= j < t ==> track_baked(
                        source,
                        pipeline.key,
                        registry.accessor@,
                        #[trigger] before.tracks[j],
                        trace[j],
                        trace[j + 1],
                    ),
            decreases before.tracks.len() - t,
        {
            let ghost ready = self@.actions;
            pipeline.bake(source, &self.tracks[t], &mut self.action_world, &registry.accessor);
            proof {
                only_baked_twice(before.actions, ready, self@.actions);
                trace = trace.push(self@.actions);
            }
            t += 1;
        }
        assert(tracks_baked(
            source,
            pipeline.key,
            registry.accessor@,
            before.tracks,
            trace,
        ));
    }

    /// The pipelines that have something to write.
    fn pipelines_to_sample(&self) -> (keys: Vec<PipelineKey>)
        ensures
            keys@.no_duplicates(),
            forall|key: PipelineKey|
                keys@.contains(key) <==> pipeline_in_use(self@, W::tag(), key),
    {
        let mut keys = self.pipeline_counts.keys();
        let ghost counted = keys@;
        let emptied = self.action_world.emptied_baseline_keys();
        let mut i: usize = 0;
        while i < emptied.len()
            invariant
                i <= emptied@.len(),
                keys@.no_duplicates(),
                forall|key: PipelineKey|
                    counted.contains(key) <==> self@.counts.contains_key(key),
                forall|key: PipelineKey|
                    #![trigger keys@.contains(key)]
                    #![trigger counted.contains(key)]
                    keys@.contains(key) <==> counted.contains(key) || exists|j: int|
                        0 <= j < i && key == PipelineKey::of_action_key(
                            W::tag(),
                            #[trigger] emptied@[j],
                        ),
            decreases emptied@.len() - i,
        {
            let key = PipelineKey::from_action_key::<W>(emptied[i]);
            let ghost known = keys@;
            if !contains_pipeline(&keys, key) {
                keys.push(key);
                proof {
                    push_adds_one(known, key);
                }
            }
            assert forall|k: PipelineKey|
                #![trigger keys@.contains(k)]
                #![trigger counted.contains(k)]
                keys@.contains(k) <==> counted.contains(k) || exists|j: int|
                    0 <= j < i + 1 && k == PipelineKey::of_action_key(
                        W::tag(),
                        #[trigger] emptied@[j],
                    ) by {
                assert(known.contains(k) <==> counted.contains(k) || exists|j: int|
                    0 <= j < i && k == PipelineKey::of_action_key(W::tag(), #[trigger] emptied@[j]));
                if k == key {
                    assert(k == PipelineKey::of_action_key(W::tag(), emptied@[i as int]));
                }
            }
            i += 1;
        }
        assert forall|key: PipelineKey|
            keys@.contains(key) <==> pipeline_in_use(self@, W::tag(), key) by {
            assert(keys@.contains(key) <==> counted.contains(key) || exists|j: int|
                0 <= j < emptied@.len() && key == PipelineKey::of_action_key(
                    W::tag(),
                    #[trigger] emptied@[j],
                ));
            if exists|j: int|
                0 <= j < emptied@.len() && key == PipelineKey::of_action_key(
                    W::tag(),
                    #[trigger] emptied@[j],
                ) {
                let j = choose|j: int|
                    0 <= j < emptied@.len() && key == PipelineKey::of_action_key(
                        W::tag(),
                        #[trigger] emptied@[j],
                    );
                assert(emptied@.contains(emptied@[j]));
                assert(self@.actions.emptied(emptied@[j]));
            }
            if exists|e: ActionKey| #[trigger]
                self@.actions.emptied(e) && key == PipelineKey::of_action_key(W::tag(), e) {
                let e = choose|e: ActionKey| #[trigger]
                    self@.actions.emptied(e) && key == PipelineKey::of_action_key(W::tag(), e);
                assert(emptied@.contains(e));
                let j = choose|j: int| 0 <= j < emptied@.len() && emptied@[j] == e;
                assert(key == PipelineKey::of_action_key(W::tag(), emptied@[j]));
            }
        }
        keys
    }

    /// The values that the queued actions give to their fields, and the
    /// baselines of the sequences that have lost all of their actions. No field
    /// is written twice, unless several actions of one sequence are marked.
    pub fn sample_queued_actions<H: SubjectSource>(&self, registry: &Registry, source: &H) -> (writes:
        Vec<Write>)
        ensures
            exists|order: Seq<PipelineKey>, parts: Seq<Seq<Write>>|
                {
                    &&& #[trigger] pipelines_sampled(
                        source,
                        registry.pipeline@,
                        registry.accessor@,
                        self@.actions,
                        order,
                        parts,
                    )
                    &&& order.no_duplicates()
                    &&& forall|key: PipelineKey|
                        order.contains(key) <==> pipeline_in_use(self@, W::tag(), key)
                    &&& writes@ == parts.flatten()
                },
            marked_apart(self@.actions) && pipelines_apart(
                registry.pipeline@,
                self@,
                W::tag(),
            ) ==> written_once(writes@),
    {
        let keys = self.pipelines_to_sample();
        let mut writes: Vec<Write> = Vec::new();
        let ghost mut parts: Seq<Seq<Write>> = Seq::empty();
        let mut i: usize = 0;
        assert(parts.flatten() =~= Seq::<Write>::empty());
        while i < keys.len()
            invariant
                i <= keys@.len(),
                parts.len() == i,
                writes@ == parts.flatten(),
                forall|j: int|
                    0 <= j < i ==> if registry.pipeline@.contains_key(#[trigger] keys@[j]) {
                        pipeline_sampled(
                            source,
                            registry.pipeline@[keys@[j]].key,
                            registry.accessor@,
                            self@.actions,
                            parts[j],
                        )
                    } else {
                        parts[j] == Seq::<Write>::empty()
                    },
                marked_apart(self@.actions) ==> forall|j: int|
                    0 <= j < i ==> written_once(#[trigger] parts[j]),
            decreases keys@.len() - i,
        {
            let ghost known = parts;
            match registry.pipeline.get(&keys[i]) {
                Some(pipeline) => {
                    let mut part = pipeline.sample(source, &self.action_world, &registry.accessor);
                    proof {
                        parts = parts.push(part@);
                    }
                    writes.append(&mut part);
                },
                None => {
                    proof {
                        parts = parts.push(Seq::empty());
                    }
                },
            }
            proof {
                known.lemma_flatten_push(parts.last());
                assert(writes@ =~= known.flatten() + parts.last());
            }
            i += 1;
        }
        assert(pipelines_sampled(
            source,
            registry.pipeline@,
            registry.accessor@,
            self@.actions,
            keys@,
            parts,
        ));
        proof {
            let pipelines = registry.pipeline@;
            if marked_apart(self@.actions) && pipelines_apart(pipelines, self@, W::tag()) {
                assert forall|i: int, j: int| 0 <= i < j < keys@.len() implies {
                    let (a, b) = (#[trigger] keys@[i], #[trigger] keys@[j]);
                    (a.subject_id, a.source_id, a.target_id) != (
                        b.subject_id,
                        b.source_id,
                        b.target_id,
                    )
                } by {
                    assert(keys@.contains(keys@[i]) && keys@.contains(keys@[j]));
                    assert(keys@[i] != keys@[j]);
                    assert(keys@[i].world_id == keys@[j].world_id);
                }
                assert forall|i: int, k: int| 0 <= i < parts.len() && 0 <= k < parts[i].len() implies {
                    let write = #[trigger] parts[i][k];
                    &&& write.subject.type_id == keys@[i].subject_id
                    &&& write.field.source_id == keys@[i].source_id
                    &&& write.field.target_id == keys@[i].target_id
                } by {
                    assert(pipelines.contains_key(keys@[i]));
                    writes_are_typed(
                        source,
                        pipelines[keys@[i]].key,
                        registry.accessor@,
                        self@.actions,
                        parts[i],
                    );
                }
                parts_write_once(parts, keys@);
            }
        }
        writes
    }
}

/// Whether the key is among the keys.
fn contains_pipeline(keys: &Vec<PipelineKey>, key: PipelineKey) -> (found: bool)
    ensures
        found == keys@.contains(key),
{
    let mut i: usize = 0;
    while i < keys.len()
        invariant
            i <= keys@.len(),
            forall|j: int| 0 <= j < i ==> #[trigger] keys@[j] != key,
        decreases keys@.len() - i,
    {
        if keys[i] == key {
            return true;
        }
        i += 1;
    }
    false
}

} // verus!
