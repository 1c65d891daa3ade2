//! What editing asks of the application around it.
use crate::action::{CubicBezier, Value};
use crate::bevy_motiongfx::remote::batch::op::{Delta, KeyframeTime};
use crate::bevy_motiongfx::remote::fault::CatalogError;
use crate::bevy_motiongfx::remote::json::{Json, Number};
use crate::subject::TypeTag;
use crate::time::Phase;
use crate::world::SubjectSource;
use vstd::prelude::*;

verus! {

/// What there is to a component's field on an entity.
#[derive(Debug, Clone, Copy, PartialEq, Eq, Structural)]
pub struct LiveFacts {
    /// Whether the type path is that of a component.
    pub is_component: bool,
    pub entity_exists: bool,
    /// The value of the field, if the entity has it and it is a number.
    pub number: Option<Number>,
}

/// What there is to the handles of a component on an entity.
#[derive(Debug)]
pub struct AssetFacts {
    /// Whether the type path is known.
    pub is_registered: bool,
    /// Whether it is that of a component.
    pub is_component: bool,
    pub entity_exists: bool,
    pub has_component: bool,
    /// The fields of the component, then the component itself: for each the
    /// asset, if it is a handle.
    pub candidates: Vec<Option<u64>>,
}

/// What there is to a component on an entity.
#[derive(Debug, Clone, Copy, PartialEq, Eq, Structural)]
pub struct ComponentFacts {
    /// Whether the type path is known.
    pub is_registered: bool,
    /// Whether it is that of a component.
    pub is_component: bool,
    pub entity_exists: bool,
    pub has_component: bool,
}

/// What there is to a value that a path leads to, and to one that it is to
/// have.
#[derive(Debug)]
pub struct LeafFacts {
    /// Why the path leads nowhere, if it does.
    pub path_fault: Option<String>,
    /// The bits of the value as a double-precision number, if it is a number.
    pub number: Option<u64>,
    pub type_path: String,
    /// Whether the type path is known.
    pub type_registered: bool,
    /// Why the value that it is to have is not one of its type, if it is not.
    pub value_fault: Option<String>,
}

/// An entity that has a name.
#[derive(Debug)]
pub struct NamedEntity {
    pub bits: u64,
    pub name: String,
}

/// The application that timelines are edited in.
pub trait RemoteHost: SubjectSource {
    /// The value of the type that is written as `value`.
    fn decode(&self, target: TypeTag, value: &Json) -> Result<Value, CatalogError>;

    /// How a value is written, if it can be.
    fn encode(&self, value: Value) -> Option<Json>;

    /// A number with another one added.
    fn sum(&self, base: Number, delta: Delta) -> Json;

    /// The number at a part of the way from one to another.
    fn blend(&self, start: Number, end: Number, t: Option<Phase>) -> Number;

    /// The ease of the segment behind a keyframe that lets the values glide
    /// through all of them, none where the segment is flat.
    fn glide(&self, times: &Vec<KeyframeTime>, values: &Vec<Number>, segment: usize) -> Option<
        CubicBezier,
    >;

    /// What there is to a component's field on an entity.
    fn live_facts(&self, entity: u64, component: &str, field: &str) -> LiveFacts;

    /// What there is to the handles of a component on an entity.
    fn asset_facts(&self, entity: u64, component: &str) -> AssetFacts;

    /// Every entity that has a name.
    fn named_entities(&self) -> Vec<NamedEntity>;

    /// The name of an entity, if it has one.
    fn name_of(&self, entity: u64) -> Option<String>;

    /// Whether there is such an entity.
    fn entity_exists(&self, entity: u64) -> bool;

    /// What there is to a component on an entity.
    fn component_facts(&self, entity: u64, component: &str) -> ComponentFacts;

    /// What there is to a value of a component on an entity, and to one that
    /// it is to have.
    fn leaf_facts(&self, entity: u64, component: &str, path: &str, to: &Json) -> LeafFacts;
}

/// Whether the application reads a value that way.
pub open spec fn decodes<H: RemoteHost>(
    host: &H,
    target: TypeTag,
    value: Json,
    result: Result<Value, CatalogError>,
) -> bool {
    call_ensures(H::decode, (host, target, &value), result)
}

/// Whether the application writes a value that way.
pub open spec fn encodes<H: RemoteHost>(host: &H, value: Value, result: Option<Json>) -> bool {
    call_ensures(H::encode, (host, value), result)
}

/// Whether the application adds two numbers that way.
pub open spec fn sums<H: RemoteHost>(host: &H, base: Number, delta: Delta, sum: Json) -> bool {
    call_ensures(H::sum, (host, base, delta), sum)
}

/// Whether the application blends two numbers that way.
pub open spec fn blends<H: RemoteHost>(
    host: &H,
    start: Number,
    end: Number,
    t: Option<Phase>,
    number: Number,
) -> bool {
    call_ensures(H::blend, (host, start, end, t), number)
}

/// Whether the application calls an entity that.
pub open spec fn is_called<H: RemoteHost>(host: &H, entity: u64, name: Option<String>) -> bool {
    call_ensures(H::name_of, (host, entity), name)
}

} // verus!
