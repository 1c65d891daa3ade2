//! Animations of any reflected field, outside of timelines.
use crate::bevy_motiongfx::remote::fault::{AnimateFault, Fault};
use crate::bevy_motiongfx::remote::host::{ComponentFacts, LeafFacts, RemoteHost};
use crate::bevy_motiongfx::remote::json::{Json, Number};
use crate::bevy_motiongfx::remote::names::{entity_resolved, resolve_subject_entity};
use crate::table::{RawKey, Table, TableKey};
use crate::time::{earlier, ticks_add, ticks_min, Ticks};
use vstd::prelude::*;

verus! {

/// A unique id for a dynamic animation.
#[derive(Debug, Clone, Copy, PartialEq, Eq, Structural)]
pub struct DynAnimId(pub u64);

impl TableKey for DynAnimId {
    open spec fn raw(self) -> RawKey {
        (self.0, 0, 0, 0, 0)
    }

    proof fn raw_is_injective(a: Self, b: Self) {
    }

    fn to_raw(&self) -> (raw: RawKey) {
        (self.0, 0, 0, 0, 0)
    }
}

/// What a single field should do over the course of the animation.
#[derive(Debug)]
pub enum FieldKind {
    /// Linear numeric tween. `from` are the bits of a double-precision number.
    Tween { from: u64, to: Number },
    /// Apply a value once the animation is at its end.
    Discrete { applied: bool, value: Json },
}

/// One animated field of a component on an entity.
#[derive(Debug)]
pub struct FieldAnim {
    /// Reflection path into the component, e.g. `translation.x`. An empty
    /// string targets the component itself.
    pub path: String,
    pub kind: FieldKind,
}

/// An animation targeting one component on one entity.
#[derive(Debug)]
pub struct DynAnimation {
    pub entity: u64,
    /// Fully-qualified component type path.
    pub component: String,
    pub duration: Ticks,
    pub elapsed: Ticks,
    pub playing: bool,
    pub fields: Vec<FieldAnim>,
}

/// All reflection-driven animations.
pub struct DynAnimations {
    next: u64,
    anims: Table<DynAnimId, DynAnimation>,
}

/// The animations by their ids, and the id of the next one.
#[verifier::ext_equal]
pub struct DynModel {
    pub next: u64,
    pub anims: Map<DynAnimId, DynAnimation>,
}

impl View for DynAnimations {
    type V = DynModel;

    closed spec fn view(&self) -> DynModel {
        DynModel { next: self.next, anims: self.anims@ }
    }
}

/// The id behind an id: the first one follows the last one.
pub open spec fn id_behind(id: u64) -> u64 {
    if id == u64::MAX {
        0
    } else {
        (id + 1) as u64
    }
}

impl DynAnimations {
    /// No animations.
    pub fn new() -> (anims: Self)
        ensures
            anims@ == (DynModel { next: 0, anims: Map::empty() }),
    {
        DynAnimations { next: 0, anims: Table::new() }
    }

    /// Adds an animation. Returns its id.
    fn insert(&mut self, anim: DynAnimation) -> (id: DynAnimId)
        ensures
            id == DynAnimId(old(self)@.next),
            final(self)@ == (DynModel {
                next: id_behind(old(self)@.next),
                anims: old(self)@.anims.insert(id, anim),
            }),
    {
        let id = DynAnimId(self.next);
        self.next = self.next.wrapping_add(1);
        self.anims.insert(id, anim);
        id
    }

    /// Every animation, once.
    pub fn ids(&self) -> (ids: Vec<DynAnimId>)
        ensures
            ids@.no_duplicates(),
            forall|id: DynAnimId| ids@.contains(id) <==> self@.anims.contains_key(id),
    {
        self.anims.keys()
    }

    /// An animation.
    pub fn get(&self, id: &DynAnimId) -> (anim: Option<&DynAnimation>)
        ensures
            anim is Some <==> self@.anims.contains_key(*id),
            anim is Some ==> *anim->0 == self@.anims[*id],
    {
        self.anims.get(id)
    }

    /// Takes an animation out.
    pub fn take(&mut self, id: &DynAnimId) -> (anim: Option<DynAnimation>)
        ensures
            anim is Some <==> old(self)@.anims.contains_key(*id),
            anim is Some ==> anim->0 == old(self)@.anims[*id],
            final(self)@ == (DynModel { anims: old(self)@.anims.remove(*id), ..old(self)@ }),
    {
        let anim = self.anims.remove(id);
        assert(self@.anims =~= old(self)@.anims.remove(*id));
        anim
    }

    /// Puts an animation back.
    pub fn put(&mut self, id: DynAnimId, anim: DynAnimation)
        ensures
            final(self)@ == (DynModel { anims: old(self)@.anims.insert(id, anim), ..old(self)@ }),
    {
        self.anims.insert(id, anim);
    }
}

impl Default for DynAnimations {
    fn default() -> (anims: Self)
        ensures
            anims@ == (DynModel { next: 0, anims: Map::empty() }),
    {
        DynAnimations::new()
    }
}

/// A field to animate.
#[derive(Debug)]
pub struct FieldParam {
    /// Reflection path within the component.
    pub path: String,
    /// Target value. A number requests a numeric tween, any other value a
    /// discrete set at the end of the animation.
    pub to: Json,
}

/// A request to animate fields of a component.
#[derive(Debug)]
pub struct AnimateParams {
    /// Target entity. Mutually exclusive with `entity_name`.
    pub entity: Option<u64>,
    /// Target entity by its unique name.
    pub entity_name: Option<String>,
    /// Fully-qualified component type path to animate.
    pub component: String,
    pub duration: Ticks,
    /// Whether to start playing immediately.
    pub playing: bool,
    pub fields: Vec<FieldParam>,
}

/// What is wrong with a request before anything is looked up.
pub open spec fn request_fault(p: AnimateParams) -> Option<Fault> {
    if p.duration <= 0 {
        Some(Fault::Animate(AnimateFault::Duration))
    } else if p.fields@.len() == 0 {
        Some(Fault::Animate(AnimateFault::NoFields))
    } else {
        None
    }
}

/// What is wrong with a component on an entity.
pub open spec fn component_fault(
    facts: ComponentFacts,
    entity: u64,
    component: String,
) -> Option<Fault> {
    if !facts.is_registered {
        Some(Fault::Animate(AnimateFault::UnknownType { component }))
    } else if !facts.is_component {
        Some(Fault::Animate(AnimateFault::NotComponent { component }))
    } else if !facts.entity_exists {
        Some(Fault::Animate(AnimateFault::NoEntity { entity }))
    } else if !facts.has_component {
        Some(Fault::Animate(AnimateFault::NotPresent { entity, component }))
    } else {
        None
    }
}

/// What a field does, or why it cannot.
pub open spec fn field_planned(field: FieldParam, facts: LeafFacts) -> Result<FieldKind, Fault> {
    match facts.path_fault {
        Some(reason) => Err(Fault::Animate(AnimateFault::Path { path: field.path, reason })),
        None => match field.to {
            Json::Number(to) => match facts.number {
                Some(from) => Ok(FieldKind::Tween { from, to }),
                None => Err(Fault::Animate(AnimateFault::NotNumeric { path: field.path })),
            },
            _ => if !facts.type_registered {
                Err(
                    Fault::Animate(
                        AnimateFault::LeafType { path: field.path, type_path: facts.type_path },
                    ),
                )
            } else {
                match facts.value_fault {
                    Some(reason) => Err(
                        Fault::Animate(AnimateFault::LeafValue { path: field.path, reason }),
                    ),
                    None => Ok(FieldKind::Discrete { applied: false, value: field.to }),
                }
            },
        },
    }
}

/// What is wrong with a request before anything is looked up.
pub fn check_request(p: &AnimateParams) -> (fault: Option<Fault>)
    ensures
        fault == request_fault(*p),
{
    if p.duration <= 0 {
        Some(Fault::Animate(AnimateFault::Duration))
    } else if p.fields.len() == 0 {
        Some(Fault::Animate(AnimateFault::NoFields))
    } else {
        None
    }
}

/// What is wrong with a component on an entity.
pub fn check_component(facts: &ComponentFacts, entity: u64, component: &String) -> (fault: Option<
    Fault,
>)
    ensures
        fault == component_fault(*facts, entity, *component),
{
    if !facts.is_registered {
        Some(Fault::Animate(AnimateFault::UnknownType { component: component.clone() }))
    } else if !facts.is_component {
        Some(Fault::Animate(AnimateFault::NotComponent { component: component.clone() }))
    } else if !facts.entity_exists {
        Some(Fault::Animate(AnimateFault::NoEntity { entity }))
    } else if !facts.has_component {
        Some(Fault::Animate(AnimateFault::NotPresent { entity, component: component.clone() }))
    } else {
        None
    }
}

/// What a field does, or why it cannot.
pub fn plan_field(field: &FieldParam, facts: &LeafFacts) -> (result: Result<FieldKind, Fault>)
    ensures
        result == field_planned(*field, *facts),
{
    match &facts.path_fault {
        Some(reason) => {
            return Err(
                Fault::Animate(
                    AnimateFault::Path { path: field.path.clone(), reason: reason.clone() },
                ),
            );
        },
        None => {},
    }
    match field.to.as_number() {
        Some(to) => match facts.number {
            Some(from) => Ok(FieldKind::Tween { from, to }),
            None => Err(Fault::Animate(AnimateFault::NotNumeric { path: field.path.clone() })),
        },
        None => {
            if !facts.type_registered {
                return Err(
                    Fault::Animate(
                        AnimateFault::LeafType {
                            path: field.path.clone(),
                            type_path: facts.type_path.clone(),
                        },
                    ),
                );
            }
            match &facts.value_fault {
                Some(reason) => Err(
                    Fault::Animate(
                        AnimateFault::LeafValue { path: field.path.clone(), reason: reason.clone() },
                    ),
                ),
                None => Ok(FieldKind::Discrete { applied: false, value: field.to.copy() }),
            }
        },
    }
}

/// Whether the application said that of the values that the paths lead to.
pub open spec fn are_leaves<H: RemoteHost>(
    host: &H,
    entity: u64,
    component: &str,
    fields: Seq<FieldParam>,
    leaves: Seq<LeafFacts>,
) -> bool {
    &&& leaves.len() <= fields.len()
    &&& forall|i: int|
        0 <= i < leaves.len() ==> is_leaf(
            host,
            entity,
            component,
            fields[i],
            #[trigger] leaves[i],
        )
}

/// Whether the application said that of the value that a path leads to.
pub open spec fn is_leaf<H: RemoteHost>(
    host: &H,
    entity: u64,
    component: &str,
    field: FieldParam,
    leaf: LeafFacts,
) -> bool {
    exists|path: &str|
        {
            &&& path@ == field.path@
            &&& #[trigger] says_of_leaf(host, entity, component, path, field.to, leaf)
        }
}

/// Whether the application said that of the value that a path leads to.
pub open spec fn says_of_leaf<H: RemoteHost>(
    host: &H,
    entity: u64,
    component: &str,
    path: &str,
    to: Json,
    leaf: LeafFacts,
) -> bool {
    call_ensures(H::leaf_facts, (host, entity, component, path, &to), leaf)
}

/// Whether the application said that of a component on an entity.
pub open spec fn says_of_component<H: RemoteHost>(
    host: &H,
    entity: u64,
    component: &str,
    facts: ComponentFacts,
) -> bool {
    call_ensures(H::component_facts, (host, entity, component), facts)
}

/// Whether these are what the first fields do.
pub open spec fn fields_planned(
    fields: Seq<FieldParam>,
    leaves: Seq<LeafFacts>,
    anims: Seq<FieldAnim>,
) -> bool {
    &&& anims.len() <= leaves.len() <= fields.len()
    &&& forall|i: int|
        0 <= i < anims.len() ==> {
            &&& (#[trigger] anims[i]).path == fields[i].path
            &&& field_planned(fields[i], leaves[i]) == Ok::<FieldKind, Fault>(anims[i].kind)
        }
}

/// Whether adding an animation had that outcome, by way of what the
/// application said.
pub open spec fn animate_stepped<H: RemoteHost>(
    host: &H,
    p: AnimateParams,
    resolved: Result<u64, Fault>,
    component: &str,
    facts: ComponentFacts,
    leaves: Seq<LeafFacts>,
    fields: Vec<FieldAnim>,
    before: DynModel,
    after: DynModel,
    result: Result<(DynAnimId, usize), Fault>,
) -> bool {
    match request_fault(p) {
        Some(fault) => result == Err::<(DynAnimId, usize), Fault>(fault) && after == before,
        None => {
            &&& entity_resolved(host, p.entity, p.entity_name, resolved)
            &&& match resolved {
                Err(fault) => result == Err::<(DynAnimId, usize), Fault>(fault) && after == before,
                Ok(entity) => {
                    &&& component@ == p.component@
                    &&& says_of_component(host, entity, component, facts)
                    &&& match component_fault(facts, entity, p.component) {
                        Some(fault) => result == Err::<(DynAnimId, usize), Fault>(fault) && after
                            == before,
                        None => fields_animated(
                            host,
                            p,
                            entity,
                            component,
                            leaves,
                            fields,
                            before,
                            after,
                            result,
                        ),
                    }
                },
            }
        },
    }
}

/// Whether adding an animation of fields of a component that is there had
/// that outcome: it is added, or nothing happens because of the first field
/// that cannot be animated.
pub open spec fn fields_animated<H: RemoteHost>(
    host: &H,
    p: AnimateParams,
    entity: u64,
    component: &str,
    leaves: Seq<LeafFacts>,
    fields: Vec<FieldAnim>,
    before: DynModel,
    after: DynModel,
    result: Result<(DynAnimId, usize), Fault>,
) -> bool {
    &&& are_leaves(host, entity, component, p.fields@, leaves)
    &&& fields_planned(p.fields@, leaves, fields@)
    &&& match result {
        Ok((id, count)) => {
            &&& fields@.len() == p.fields@.len()
            &&& count == p.fields@.len()
            &&& id == DynAnimId(before.next)
            &&& after == (DynModel {
                next: id_behind(before.next),
                anims: before.anims.insert(
                    id,
                    DynAnimation {
                        entity,
                        component: p.component,
                        duration: p.duration,
                        elapsed: 0,
                        playing: p.playing,
                        fields,
                    },
                ),
            })
        },
        Err(fault) => {
            &&& leaves.len() == fields@.len() + 1
            &&& field_planned(p.fields@[fields@.len() as int], leaves.last()) == Err::<
                FieldKind,
                Fault,
            >(fault)
            &&& after == before
        },
    }
}

/// Whether adding an animation had that outcome.
pub open spec fn animated<H: RemoteHost>(
    host: &H,
    p: AnimateParams,
    before: DynModel,
    after: DynModel,
    result: Result<(DynAnimId, usize), Fault>,
) -> bool {
    exists|
        resolved: Result<u64, Fault>,
        component: &str,
        facts: ComponentFacts,
        leaves: Seq<LeafFacts>,
        fields: Vec<FieldAnim>,
    | #[trigger]
        animate_stepped(
            host,
            p,
            resolved,
            component,
            facts,
            leaves,
            fields,
            before,
            after,
            result,
        )
}

/// Adds an animation to an existing entity. Resolves and validates every field
/// up front. Where something is wrong, nothing is added. Returns the id, and
/// how many fields are animated.
#[verifier::rlimit(30)]
pub fn brp_animate<H: RemoteHost>(host: &H, anims: &mut DynAnimations, p: &AnimateParams) -> (result:
    Result<(DynAnimId, usize), Fault>)
    ensures
        animated(host, *p, old(anims)@, final(anims)@, result),
        result is Err ==> final(anims)@ == old(anims)@,
{
    let ghost before = anims@;
    let ghost no_facts = ComponentFacts {
        is_registered: false,
        is_component: false,
        entity_exists: false,
        has_component: false,
    };
    let mut fields: Vec<FieldAnim> = Vec::new();
    match check_request(p) {
        Some(fault) => {
            assert(animate_stepped(
                host,
                *p,
                Err(fault),
                "",
                no_facts,
                Seq::empty(),
                fields,
                before,
                anims@,
                Err(fault),
            ));
            return Err(fault);
        },
        None => {},
    }
    let resolved = resolve_subject_entity(host, p.entity, &p.entity_name);
    let entity = match resolved {
        Ok(entity) => entity,
        Err(fault) => {
            assert(animate_stepped(
                host,
                *p,
                Err(fault),
                "",
                no_facts,
                Seq::empty(),
                fields,
                before,
                anims@,
                Err(fault),
            ));
            return Err(fault);
        },
    };
    let component = p.component.as_str();
    let facts = host.component_facts(entity, component);
    assert(says_of_component(host, entity, component, facts));
    match check_component(&facts, entity, &p.component) {
        Some(fault) => {
            assert(animate_stepped(
                host,
                *p,
                Ok(entity),
                component,
                facts,
                Seq::empty(),
                fields,
                before,
                anims@,
                Err(fault),
            ));
            return Err(fault);
        },
        None => {},
    }
    let ghost mut leaves: Seq<LeafFacts> = Seq::empty();
    let mut i: usize = 0;
    while i < p.fields.len()
        invariant
            before == old(anims)@,
            anims@ == before,
            i <= p.fields@.len(),
            component@ == p.component@,
            request_fault(*p) is None,
            entity_resolved(host, p.entity, p.entity_name, Ok(entity)),
            says_of_component(host, entity, component, facts),
            component_fault(facts, entity, p.component) is None,
            leaves.len() == i,
            fields@.len() == i,
            are_leaves(host, entity, component, p.fields@, leaves),
            fields_planned(p.fields@, leaves, fields@),
        decreases p.fields@.len() - i,
    {
        let field = &p.fields[i];
        let path = field.path.as_str();
        let leaf = host.leaf_facts(entity, component, path, &field.to);
        let ghost done = fields@;
        let ghost known = leaves;
        proof {
            assert(says_of_leaf(host, entity, component, path, field.to, leaf));
            assert(is_leaf(host, entity, component, *field, leaf));
            leaves = known.push(leaf);
            assert forall|k: int| 0 <= k < leaves.len() implies is_leaf(
                host,
                entity,
                component,
                p.fields@[k],
                #[trigger] leaves[k],
            ) by {
                if k < known.len() {
                    assert(leaves[k] == known[k]);
                }
            }
        }
        match plan_field(field, &leaf) {
            Ok(kind) => {
                fields.push(FieldAnim { path: field.path.clone(), kind });
                proof {
                    assert forall|k: int| 0 <= k < fields@.len() implies {
                        &&& (#[trigger] fields@[k]).path == p.fields@[k].path
                        &&& field_planned(p.fields@[k], leaves[k]) == Ok::<FieldKind, Fault>(
                            fields@[k].kind,
                        )
                    } by {
                        if k < done.len() {
                            assert(fields@[k] == done[k]);
                        }
                    }
                }
            },
            Err(fault) => {
                proof {
                    assert forall|k: int| 0 <= k < fields@.len() implies {
                        &&& (#[trigger] fields@[k]).path == p.fields@[k].path
                        &&& field_planned(p.fields@[k], leaves[k]) == Ok::<FieldKind, Fault>(
                            fields@[k].kind,
                        )
                    } by {
                        assert(leaves[k] == known[k]);
                    }
                    assert(animate_stepped(
                        host,
                        *p,
                        Ok(entity),
                        component,
                        facts,
                        leaves,
                        fields,
                        before,
                        anims@,
                        Err(fault),
                    ));
                }
                return Err(fault);
            },
        }
        i += 1;
    }
    let count: usize = fields.len();
    let ghost kept = fields;
    let id = anims.insert(
        DynAnimation {
            entity,
            component: p.component.clone(),
            duration: p.duration,
            elapsed: 0,
            playing: p.playing,
            fields,
        },
    );
    assert(animate_stepped(
        host,
        *p,
        Ok(entity),
        component,
        facts,
        leaves,
        kept,
        before,
        anims@,
        Ok((id, count)),
    ));
    Ok((id, count))
}

/// What there is to tell about an animation.
#[derive(Debug)]
pub struct DynAnimState {
    pub id: u64,
    pub entity: u64,
    pub component: String,
    pub duration: Ticks,
    pub elapsed: Ticks,
    pub playing: bool,
    pub fields: usize,
}

/// What there is to tell about an animation.
pub open spec fn told_of_animation(id: DynAnimId, anim: DynAnimation) -> DynAnimState {
    DynAnimState {
        id: id.0,
        entity: anim.entity,
        component: anim.component,
        duration: anim.duration,
        elapsed: anim.elapsed,
        playing: anim.playing,
        fields: anim.fields@.len() as usize,
    }
}

/// Whether every animation is told about, once.
pub open spec fn tells_animations(
    anims: Map<DynAnimId, DynAnimation>,
    ids: Seq<DynAnimId>,
    states: Seq<DynAnimState>,
) -> bool {
    &&& ids.no_duplicates()
    &&& forall|id: DynAnimId| ids.contains(id) <==> anims.contains_key(id)
    &&& states.len() == ids.len()
    &&& forall|i: int|
        0 <= i < states.len() ==> #[trigger] states[i] == told_of_animation(ids[i], anims[ids[i]])
}

/// Whether every animation is told about.
pub open spec fn tells_all(anims: Map<DynAnimId, DynAnimation>, states: Seq<DynAnimState>) -> bool {
    exists|ids: Seq<DynAnimId>| #[trigger] tells_animations(anims, ids, states)
}

/// Summarises all dynamic animations.
pub fn brp_list_animations(anims: &DynAnimations) -> (states: Vec<DynAnimState>)
    ensures
        tells_all(anims@.anims, states@),
{
    let ids = anims.ids();
    let mut states: Vec<DynAnimState> = Vec::new();
    let mut i: usize = 0;
    while i < ids.len()
        invariant
            i <= ids@.len(),
            forall|id: DynAnimId| ids@.contains(id) <==> anims@.anims.contains_key(id),
            states@.len() == i,
            forall|k: int|
                0 <= k < states@.len() ==> #[trigger] states@[k] == told_of_animation(
                    ids@[k],
                    anims@.anims[ids@[k]],
                ),
        decreases ids@.len() - i,
    {
        assert(ids@.contains(ids@[i as int]));
        match anims.get(&ids[i]) {
            Some(anim) => {
                states.push(
                    DynAnimState {
                        id: ids[i].0,
                        entity: anim.entity,
                        component: anim.component.clone(),
                        duration: anim.duration,
                        elapsed: anim.elapsed,
                        playing: anim.playing,
                        fields: anim.fields.len(),
                    },
                );
            },
            None => {
                assert(false);
            },
        }
        i += 1;
    }
    assert(tells_animations(anims@.anims, ids@, states@));
    states
}

/// Drops a dynamic animation.
pub fn brp_remove_animation(anims: &mut DynAnimations, id: u64) -> (result: Result<u64, Fault>)
    ensures
        if old(anims)@.anims.contains_key(DynAnimId(id)) {
            &&& result == Ok::<u64, Fault>(id)
            &&& final(anims)@ == (DynModel {
                anims: old(anims)@.anims.remove(DynAnimId(id)),
                ..old(anims)@
            })
        } else {
            &&& result == Err::<u64, Fault>(Fault::Animate(AnimateFault::NoAnimation { id }))
            &&& final(anims)@ == old(anims)@
        },
{
    let ghost before = anims@;
    let removed = anims.take(&DynAnimId(id));
    if removed.is_none() {
        assert(before.anims.remove(DynAnimId(id)) =~= before.anims);
        return Err(Fault::Animate(AnimateFault::NoAnimation { id }));
    }
    Ok(id)
}

impl DynAnimation {
    /// The animation after some time: it does not go past its end, and stops
    /// there.
    pub open spec fn after(self, delta: Ticks) -> Self {
        let elapsed = earlier(crate::time::saturated(self.elapsed + delta), self.duration);
        if self.playing {
            DynAnimation { elapsed, playing: elapsed < self.duration, ..self }
        } else {
            self
        }
    }

    /// Lets time pass.
    pub fn advance(&mut self, delta: Ticks)
        ensures
            *final(self) == old(self).after(delta),
    {
        if self.playing {
            self.elapsed = ticks_min(ticks_add(self.elapsed, delta), self.duration);
            if self.elapsed >= self.duration {
                self.playing = false;
            }
        }
    }

    /// Whether there is something to apply the animation to. One whose entity
    /// is gone stops.
    pub fn drive(&mut self, facts: &ComponentFacts) -> (drives: bool)
        ensures
            drives == (facts.is_registered && facts.is_component && facts.entity_exists
                && facts.has_component),
            *final(self) == if facts.is_registered && facts.is_component && !facts.entity_exists {
                DynAnimation { playing: false, ..*old(self) }
            } else {
                *old(self)
            },
    {
        if !facts.is_registered || !facts.is_component {
            return false;
        }
        if !facts.entity_exists {
            self.playing = false;
            return false;
        }
        facts.has_component
    }

    /// What the field does now, if its path leads somewhere, and the field
    /// after that: a discrete value is applied once, at the end.
    pub open spec fn field_step(self, i: int, reachable: bool) -> (Option<FieldWrite>, FieldKind) {
        match self.fields@[i].kind {
            FieldKind::Tween { from, to } => (
                if reachable {
                    Some(
                        FieldWrite::Number {
                            from,
                            to,
                            elapsed: self.elapsed,
                            duration: self.duration,
                        },
                    )
                } else {
                    None
                },
                self.fields@[i].kind,
            ),
            FieldKind::Discrete { applied, value } => if reachable && !applied && self.elapsed
                >= self.duration {
                (Some(FieldWrite::Value(value)), FieldKind::Discrete { applied: true, value })
            } else {
                (None, self.fields@[i].kind)
            },
        }
    }

    /// What a field does now.
    pub fn step_field(&mut self, i: usize, reachable: bool) -> (write: Option<FieldWrite>)
        requires
            i < old(self).fields@.len(),
        ensures
            write == old(self).field_step(i as int, reachable).0,
            final(self).fields@ == old(self).fields@.update(
                i as int,
                FieldAnim {
                    kind: old(self).field_step(i as int, reachable).1,
                    ..old(self).fields@[i as int]
                },
            ),
            *final(self) == (DynAnimation { fields: final(self).fields, ..*old(self) }),
    {
        let ended = self.elapsed >= self.duration;
        let write: Option<FieldWrite> = match &self.fields[i].kind {
            FieldKind::Tween { from, to } => if reachable {
                Some(
                    FieldWrite::Number {
                        from: *from,
                        to: *to,
                        elapsed: self.elapsed,
                        duration: self.duration,
                    },
                )
            } else {
                None
            },
            FieldKind::Discrete { applied, value } => if reachable && !*applied && ended {
                Some(FieldWrite::Value(value.copy()))
            } else {
                None
            },
        };
        match &write {
            Some(FieldWrite::Value(value)) => {
                let path = self.fields[i].path.clone();
                let kind = FieldKind::Discrete { applied: true, value: value.copy() };
                self.fields.set(i, FieldAnim { path, kind });
            },
            _ => {
                assert(self.fields@ =~= self.fields@.update(i as int, self.fields@[i as int]));
            },
        }
        write
    }
}

/// What is written into a field.
#[derive(Debug)]
pub enum FieldWrite {
    /// The number at a part of the way.
    Number { from: u64, to: Number, elapsed: Ticks, duration: Ticks },
    Value(Json),
}

/// An animation that has come to its end stops there, and a discrete value
/// counts as applied from then on.
pub proof fn animations_come_to_rest(anim: &DynAnimation, delta: Ticks, i: int)
    requires
        anim.elapsed >= anim.duration,
        delta >= 0,
        0 <= i < anim.fields@.len(),
    ensures
        !anim.after(delta).playing,
        anim.field_step(i, true).1 matches FieldKind::Discrete { applied, .. } ==> applied,
{
}

/// What there is to a component of an entity to spawn.
#[derive(Debug)]
pub struct SpawnFacts {
    /// Whether the type path is known.
    pub is_registered: bool,
    /// Whether it is that of a component.
    pub is_component: bool,
    /// Why the value is not one of the type, if it is not.
    pub value_fault: Option<String>,
}

/// What is wrong with a component of an entity to spawn.
pub open spec fn spawn_fault(component: String, facts: SpawnFacts) -> Option<Fault> {
    if !facts.is_registered {
        Some(Fault::Animate(AnimateFault::UnknownType { component }))
    } else if !facts.is_component {
        Some(Fault::Animate(AnimateFault::NotComponent { component }))
    } else {
        match facts.value_fault {
            Some(reason) => Some(
                Fault::Animate(AnimateFault::ComponentValue { component, reason }),
            ),
            None => None,
        }
    }
}

/// What is wrong with an entity to spawn: with its first component that
/// something is wrong with.
pub open spec fn first_spawn_fault(components: Seq<(String, SpawnFacts)>) -> Option<Fault>
    decreases components.len(),
{
    if components.len() == 0 {
        None
    } else {
        match first_spawn_fault(components.drop_last()) {
            Some(fault) => Some(fault),
            None => spawn_fault(components.last().0, components.last().1),
        }
    }
}

/// Whether an entity can be spawned. Nothing is where something is wrong with
/// one of its components.
pub fn brp_spawn(components: &Vec<(String, SpawnFacts)>) -> (result: Result<(), Fault>)
    ensures
        match first_spawn_fault(components@) {
            Some(fault) => result == Err::<(), Fault>(fault),
            None => result == Ok::<(), Fault>(()),
        },
{
    let mut i: usize = 0;
    assert(components@.take(0) =~= Seq::<(String, SpawnFacts)>::empty());
    while i < components.len()
        invariant
            i <= components@.len(),
            first_spawn_fault(components@.take(i as int)) is None,
        decreases components@.len() - i,
    {
        let (component, facts) = &components[i];
        let fault: Option<Fault> = if !facts.is_registered {
            Some(Fault::Animate(AnimateFault::UnknownType { component: component.clone() }))
        } else if !facts.is_component {
            Some(Fault::Animate(AnimateFault::NotComponent { component: component.clone() }))
        } else {
            match &facts.value_fault {
                Some(reason) => Some(
                    Fault::Animate(
                        AnimateFault::ComponentValue {
                            component: component.clone(),
                            reason: reason.clone(),
                        },
                    ),
                ),
                None => None,
            }
        };
        proof {
            crate::seqs::take_one_more(components@, i as int);
        }
        match fault {
            Some(fault) => {
                proof {
                    found_first(components@, i + 1);
                }
                return Err(fault);
            },
            None => {},
        }
        i += 1;
    }
    assert(components@.take(i as int) =~= components@);
    Ok(())
}

/// The first fault of a front part is the first of all.
proof fn found_first(components: Seq<(String, SpawnFacts)>, n: int)
    requires
        0 <= n <= components.len(),
        first_spawn_fault(components.take(n)) is Some,
    ensures
        first_spawn_fault(components) == first_spawn_fault(components.take(n)),
    decreases components.len(),
{
    if n < components.len() {
        assert(components.drop_last().take(n) =~= components.take(n));
        found_first(components.drop_last(), n);
    } else {
        assert(components.take(n) =~= components);
    }
}

} // verus!
