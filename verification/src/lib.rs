//! Motion graphics timelines: clips that move the fields of subjects.
use vstd::prelude::*;

pub mod action;
pub mod bevy_motiongfx;
pub mod live;
pub mod name_table;
pub mod peniko_motiongfx;
pub mod pipeline;
pub mod registry;
pub mod remote;
pub mod remote_laws;
pub mod seqs;
pub mod sequence;
pub mod subject;
pub mod table;
pub mod text;
pub mod text_laws;
pub mod time;
pub mod timeline;
pub mod track;
pub mod typst_motiongfx;
pub mod world;

verus! {

/// Auto trait for types that implement [`Send`] + [`Sync`] + `'static`.
pub trait ThreadSafe: Send + Sync + 'static {

}

impl<T> ThreadSafe for T where T: Send + Sync + 'static {

}

} // verus!
