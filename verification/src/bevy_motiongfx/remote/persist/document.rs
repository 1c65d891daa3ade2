//! The document form of a timeline.
use crate::bevy_motiongfx::remote::batch::op::{Color, KeyframeDoc};
use crate::bevy_motiongfx::remote::ease::EaseParam;
use crate::bevy_motiongfx::remote::json::Json;
use crate::bevy_motiongfx::remote::state::markers::Marker;
use crate::time::Ticks;
use std::sync::Arc;
use vstd::prelude::*;

verus! {

/// The format of timeline documents.
pub const FORMAT: &'static str = "motiongfx-timeline";

/// The version of timeline documents. Since version 2 actions may carry
/// keyframes instead of a target, since version 3 a label, a colour and
/// whether they are enabled. Earlier versions still import.
pub const FORMAT_VERSION: u64 = 3;

/// What an action of a document animates.
#[derive(Debug)]
pub enum DocSubject {
    /// The entity with a name.
    Name { name: String },
    /// An entity by its bits.
    Entity { entity: u64 },
    /// A resource.
    Resource,
}

/// An action of a document.
#[derive(Debug)]
pub struct DocAction {
    pub subject: DocSubject,
    pub component: String,
    pub field: String,
    /// Constant tween target. Exactly one of `to` and `keyframes`.
    pub to: Option<Arc<Json>>,
    /// Keyframed clip points.
    pub keyframes: Option<Arc<Vec<KeyframeDoc>>>,
    pub start: Ticks,
    pub duration: Ticks,
    pub ease: Option<EaseParam>,
    pub label: Option<String>,
    pub color: Option<Color>,
    /// `false` = the clip is muted.
    pub enabled: Option<bool>,
    /// Asset addressing: the handle-bearing component on the subject entity.
    pub asset_of: Option<String>,
}

/// A timeline as a document.
#[derive(Debug)]
pub struct Document {
    pub format: String,
    pub format_version: u64,
    /// The actions of each track.
    pub tracks: Vec<Vec<DocAction>>,
    /// The markers by name.
    pub markers: Vec<(String, Marker)>,
    /// What could not be written as one would like.
    pub warnings: Vec<String>,
}

} // verus!
