//! The identities that actions are addressed by: types, subjects and fields.
use crate::table::{RawKey, TableKey};
use vstd::prelude::*;

verus! {

/// The number that stands for a type at run time. Different types have
/// different numbers.
pub type TypeTag = u64;

/// The tag of the placeholder subject.
pub const UNIT_TAG: u64 = 0;

/// The tag of [`EntityId`].
pub const ENTITY_TAG: u64 = 1;

/// The tag of [`AssetId`].
pub const ASSET_TAG: u64 = 2;

/// The tag of [`ResourceSubject`](crate::bevy_motiongfx::world::ResourceSubject).
pub const RESOURCE_TAG: u64 = 3;

/// The tag of [`BevyWorld`](crate::bevy_motiongfx::world::BevyWorld).
pub const BEVY_WORLD_TAG: u64 = 4;

/// A type that can be told apart from others at run time.
pub trait Tagged {
    /// The number of the type.
    spec fn tag() -> TypeTag;

    /// The number of the type.
    fn type_tag() -> (tag: TypeTag)
        ensures
            tag == Self::tag(),
    ;
}

/// A type whose values identify what an action animates.
pub trait SubjectId: TableKey + Tagged {

}

/// The bits of an entity.
#[derive(Debug, Clone, Copy, PartialEq, Eq, PartialOrd, Ord, Hash, Structural)]
pub struct EntityId {
    pub bits: u64,
}

impl TableKey for EntityId {
    open spec fn raw(self) -> RawKey {
        (self.bits, 0, 0, 0, 0)
    }

    proof fn raw_is_injective(a: Self, b: Self) {
    }

    fn to_raw(&self) -> (raw: RawKey) {
        (self.bits, 0, 0, 0, 0)
    }
}

impl Tagged for EntityId {
    open spec fn tag() -> TypeTag {
        ENTITY_TAG
    }

    fn type_tag() -> (tag: TypeTag) {
        ENTITY_TAG
    }
}

impl SubjectId for EntityId {

}

/// The number that an asset is known by.
#[derive(Debug, Clone, Copy, PartialEq, Eq, PartialOrd, Ord, Hash, Structural)]
pub struct AssetId {
    pub bits: u64,
}

impl TableKey for AssetId {
    open spec fn raw(self) -> RawKey {
        (self.bits, 0, 0, 0, 0)
    }

    proof fn raw_is_injective(a: Self, b: Self) {
    }

    fn to_raw(&self) -> (raw: RawKey) {
        (self.bits, 0, 0, 0, 0)
    }
}

impl Tagged for AssetId {
    open spec fn tag() -> TypeTag {
        ASSET_TAG
    }

    fn type_tag() -> (tag: TypeTag) {
        ASSET_TAG
    }
}

impl SubjectId for AssetId {

}

/// A subject with its type erased: the type's tag and the identifier's bits.
#[derive(Debug, Clone, Copy, PartialEq, Eq, Structural)]
pub struct Subject {
    pub type_id: TypeTag,
    pub bits: u64,
}

/// A field of type `target_id` inside a source of type `source_id`, with both
/// types erased. `path` is the number of the field's path.
#[derive(Debug, Clone, Copy, PartialEq, Eq, PartialOrd, Ord, Hash, Structural)]
pub struct UntypedField {
    pub source_id: TypeTag,
    pub target_id: TypeTag,
    pub path: u64,
}

impl UntypedField {
    /// A field of no particular type.
    pub fn placeholder_with_path(path: u64) -> (field: Self)
        ensures
            field == (UntypedField { source_id: UNIT_TAG, target_id: UNIT_TAG, path }),
    {
        UntypedField { source_id: UNIT_TAG, target_id: UNIT_TAG, path }
    }

    /// Whether `self` comes before `other`, or is it.
    pub open spec fn sorts_at_most(self, other: Self) -> bool {
        ||| self.source_id < other.source_id
        ||| self.source_id == other.source_id && self.target_id < other.target_id
        ||| self.source_id == other.source_id && self.target_id == other.target_id && self.path
            <= other.path
    }

    /// Whether `self` comes before `other`, or is it.
    pub fn at_most(&self, other: &Self) -> (at_most: bool)
        ensures
            at_most == self.sorts_at_most(*other),
    {
        if self.source_id != other.source_id {
            self.source_id < other.source_id
        } else if self.target_id != other.target_id {
            self.target_id < other.target_id
        } else {
            self.path <= other.path
        }
    }
}

impl TableKey for UntypedField {
    open spec fn raw(self) -> RawKey {
        (self.source_id, self.target_id, self.path, 0, 0)
    }

    proof fn raw_is_injective(a: Self, b: Self) {
    }

    fn to_raw(&self) -> (raw: RawKey) {
        (self.source_id, self.target_id, self.path, 0, 0)
    }
}

/// Fields are in order by what has them, then by what their values are, then by their path:
/// of two one is not behind the other, two that are not behind one another are the same,
/// and the order leads on.
pub proof fn fields_are_ordered(a: UntypedField, b: UntypedField, c: UntypedField)
    ensures
        a.sorts_at_most(b) || b.sorts_at_most(a),
        a.sorts_at_most(b) && b.sorts_at_most(a) ==> a == b,
        a.sorts_at_most(b) && b.sorts_at_most(c) ==> a.sorts_at_most(c),
        a.sorts_at_most(b) ==> a.source_id <= b.source_id,
        a.sorts_at_most(b) && a.source_id == b.source_id ==> a.target_id <= b.target_id,
{
}

} // verus!
