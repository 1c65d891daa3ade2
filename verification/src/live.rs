//! The names of live editing: what edits a timeline while it runs edits it
//! live.
use crate::remote::{
    RemoteActionError, RemoteActionRegistry, RemoteEditError, RemoteFieldKey, RemoteKeyframe,
    RemoteTarget,
};
use vstd::prelude::*;

verus! {

/// A target of any type.
pub type LiveTarget = RemoteTarget;

/// A keyframe of any type.
pub type LiveKeyframe = RemoteKeyframe;

/// Errors from a live action construction.
pub type LiveActionError = RemoteActionError;

/// Errors from a structural live edit on a compiled
/// [`Timeline`](crate::timeline::Timeline).
pub type LiveEditError = RemoteEditError;

/// Registry of the pipelines whose fields can be edited live.
pub type LiveActionRegistry = RemoteActionRegistry;

/// Identifies an animatable field at runtime.
pub type LiveFieldKey = RemoteFieldKey;

} // verus!
