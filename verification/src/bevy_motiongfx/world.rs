//! The world of a Bevy application as something to animate.
use crate::subject::{SubjectId, Tagged, TypeTag, BEVY_WORLD_TAG, RESOURCE_TAG};
use crate::table::{RawKey, TableKey};
use crate::timeline::{Timeline, TimelineBuilder};
use vstd::prelude::*;

verus! {

/// The type of worlds that timelines of an application animate.
#[derive(Debug, Clone, Copy, PartialEq, Eq, Structural)]
pub struct BevyWorld;

impl Tagged for BevyWorld {
    open spec fn tag() -> TypeTag {
        BEVY_WORLD_TAG
    }

    fn type_tag() -> (tag: TypeTag) {
        BEVY_WORLD_TAG
    }
}

/// Subject id for resources. Because a resource has exactly
/// one instance per world, its id is just a unit struct.
#[derive(Debug, Clone, Copy, PartialEq, Eq, PartialOrd, Ord, Hash, Structural)]
pub struct ResourceSubject;

impl TableKey for ResourceSubject {
    open spec fn raw(self) -> RawKey {
        (0, 0, 0, 0, 0)
    }

    proof fn raw_is_injective(a: Self, b: Self) {
    }

    fn to_raw(&self) -> (raw: RawKey) {
        (0, 0, 0, 0, 0)
    }
}

impl Tagged for ResourceSubject {
    open spec fn tag() -> TypeTag {
        RESOURCE_TAG
    }

    fn type_tag() -> (tag: TypeTag) {
        RESOURCE_TAG
    }
}

impl SubjectId for ResourceSubject {

}

/// A timeline of an application.
pub type BevyTimeline = Timeline<BevyWorld>;

/// A timeline of an application that is being put together.
pub type BevyTimelineBuilder = TimelineBuilder<BevyWorld>;

} // verus!
