//! Edits of a timeline.
use crate::bevy_motiongfx::remote::ease::EaseParam;
use crate::bevy_motiongfx::remote::json::Json;
use crate::time::{Phase, Ticks};
use std::sync::Arc;
use vstd::prelude::*;

verus! {

/// The bits of a double-precision number that is added to a value.
pub type Delta = u64;

/// The display colour of a clip.
pub type Color = [u8; 3];

/// A copy of a text.
pub fn copy_text(text: &Option<String>) -> (copy: Option<String>)
    ensures
        copy == *text,
{
    match text {
        Some(text) => Some(text.clone()),
        None => None,
    }
}

/// The time of a keyframe as it travels.
#[derive(Debug, Clone, Copy, PartialEq, Eq, Structural)]
pub enum KeyframeTime {
    /// A part of the clip, which may lie outside of it.
    At(Phase),
    Infinite { negative: bool },
    NotANumber { negative: bool },
}

impl KeyframeTime {
    /// The place among all times: what is no number at the very ends, next to
    /// it the infinities.
    pub open spec fn spec_rank(self) -> int {
        match self {
            KeyframeTime::NotANumber { negative: true } => i64::MIN - 2,
            KeyframeTime::Infinite { negative: true } => i64::MIN - 1,
            KeyframeTime::At(phase) => phase as int,
            KeyframeTime::Infinite { negative: false } => i64::MAX + 1,
            KeyframeTime::NotANumber { negative: false } => i64::MAX + 2,
        }
    }

    /// The place among all times.
    pub fn rank(self) -> (rank: i128)
        ensures
            rank == self.spec_rank(),
    {
        match self {
            KeyframeTime::NotANumber { negative: true } => i64::MIN as i128 - 2,
            KeyframeTime::Infinite { negative: true } => i64::MIN as i128 - 1,
            KeyframeTime::At(phase) => phase as i128,
            KeyframeTime::Infinite { negative: false } => i64::MAX as i128 + 1,
            KeyframeTime::NotANumber { negative: false } => i64::MAX as i128 + 2,
        }
    }
}

/// One keyframe: a normalized time, a value, and an optional segment ease.
#[derive(Debug)]
pub struct KeyframeDoc {
    pub t: KeyframeTime,
    /// The time as it was written, to quote it.
    pub shown: String,
    pub value: Json,
    pub ease: Option<EaseParam>,
    /// Step: hold the previous value, snap at `t`.
    pub hold: Option<bool>,
}

/// Where a clip goes, for how long, and how it is shown.
#[derive(Debug)]
pub struct Placement {
    pub track: usize,
    pub entity: u64,
    pub component: String,
    pub field: String,
    /// Asset subject: the handle-bearing component on `entity`. `component`
    /// is then the asset's type path. `None` = component subject.
    pub asset_of: Option<String>,
    pub duration: Ticks,
    pub start_at: Option<Ticks>,
    pub ease: Option<EaseParam>,
    pub label: Option<String>,
    pub color: Option<Color>,
    /// `false` inserts muted. Absent/`true` = enabled.
    pub enabled: Option<bool>,
}

/// What changes about a clip. What is absent stays.
#[derive(Debug)]
pub struct UpdatePatch {
    pub to: Option<Arc<Json>>,
    /// Relative retarget: current baked end plus this delta.
    pub to_relative: Option<Delta>,
    pub ease: Option<EaseParam>,
    /// Replace a keyframed action's points.
    pub keyframes: Option<Arc<Vec<KeyframeDoc>>>,
    /// Set or clear the label.
    pub label: Option<Option<String>>,
    /// Set or clear the display colour.
    pub color: Option<Option<Color>>,
    /// Mute (`false`) / unmute (`true`).
    pub enabled: Option<bool>,
}

/// One timeline edit.
#[derive(Debug)]
pub enum EditOp {
    Insert {
        at: Arc<Placement>,
        /// Absolute target. Null when `to_relative` is given.
        to: Arc<Json>,
        /// Relative target: animate to `base + to_relative`, where `base` is
        /// the last same-key clip's baked end, or the live value.
        to_relative: Option<Delta>,
        /// Schedule at exactly `start_at` instead of appending, to restore a
        /// clip mid-sequence.
        exact: bool,
        /// The action id this restores. Remapped to the new id after
        /// applying.
        restore_id: Option<u64>,
    },
    /// One clip whose value follows `keyframes`.
    InsertKeyframes {
        at: Arc<Placement>,
        keyframes: Arc<Vec<KeyframeDoc>>,
        exact: bool,
        restore_id: Option<u64>,
    },
    Remove { track: usize, action_id: u64 },
    Move { track: usize, action_id: u64, start_at: Ticks, duration: Option<Ticks> },
    Update { action_id: u64, patch: Arc<UpdatePatch> },
    Clear,
    /// Stands for an inverse that can't be applied. Fails with `reason`.
    Unrestorable { reason: String },
}

/// What an edit came to.
#[derive(Debug)]
pub enum OpResult {
    /// The edited action, and the absolute target of a relative one.
    Action { action_id: u64, resolved_to: Option<Arc<Json>> },
    Removed,
    Cleared { timeline: u64 },
}

impl OpResult {
    /// The edited action, if there is one.
    pub open spec fn spec_action_id(self) -> Option<u64> {
        match self {
            OpResult::Action { action_id, .. } => Some(action_id),
            _ => None,
        }
    }

    /// The edited action, if there is one.
    pub fn action_id(&self) -> (id: Option<u64>)
        ensures
            id == self.spec_action_id(),
    {
        match self {
            OpResult::Action { action_id, .. } => Some(*action_id),
            _ => None,
        }
    }
}

/// `id`, or what it is called now.
pub open spec fn renamed_id(id: u64, from: u64, to: u64) -> u64 {
    if id == from {
        to
    } else {
        id
    }
}

/// The edit with what refers to the action `from` referring to `to`.
pub open spec fn remapped(op: EditOp, from: u64, to: u64) -> EditOp {
    match op {
        EditOp::Remove { track, action_id } => EditOp::Remove {
            track,
            action_id: renamed_id(action_id, from, to),
        },
        EditOp::Move { track, action_id, start_at, duration } => EditOp::Move {
            track,
            action_id: renamed_id(action_id, from, to),
            start_at,
            duration,
        },
        EditOp::Update { action_id, patch } => EditOp::Update {
            action_id: renamed_id(action_id, from, to),
            patch,
        },
        EditOp::Insert { at, to: target, to_relative, exact, restore_id } => EditOp::Insert {
            at,
            to: target,
            to_relative,
            exact,
            restore_id: remapped_restore(restore_id, from, to),
        },
        EditOp::InsertKeyframes { at, keyframes, exact, restore_id } => EditOp::InsertKeyframes {
            at,
            keyframes,
            exact,
            restore_id: remapped_restore(restore_id, from, to),
        },
        EditOp::Clear => op,
        EditOp::Unrestorable { .. } => op,
    }
}

/// The id that is restored, or what it is called now.
pub open spec fn remapped_restore(id: Option<u64>, from: u64, to: u64) -> Option<u64> {
    match id {
        Some(id) => Some(renamed_id(id, from, to)),
        None => None,
    }
}

/// The edits with what refers to the action `from` referring to `to`.
pub open spec fn remapped_all(ops: Seq<EditOp>, from: u64, to: u64) -> Seq<EditOp> {
    ops.map_values(|op: EditOp| remapped(op, from, to))
}

/// Whether the edit is the applied one as it is kept: an insert knows the
/// action that it created, and a relative target is the absolute one that it
/// came to.
pub open spec fn is_stamped(op: EditOp, result: OpResult, stamped: EditOp) -> bool {
    match op {
        EditOp::Insert { at, to, to_relative, exact, .. } => match result {
            OpResult::Action { action_id, resolved_to: Some(resolved) } => stamped
                == (EditOp::Insert {
                at,
                to: resolved,
                to_relative: None,
                exact,
                restore_id: Some(action_id),
            }),
            _ => stamped == (EditOp::Insert {
                at,
                to,
                to_relative,
                exact,
                restore_id: result.spec_action_id(),
            }),
        },
        EditOp::InsertKeyframes { at, keyframes, exact, .. } => stamped == (
        EditOp::InsertKeyframes {
            at,
            keyframes,
            exact,
            restore_id: result.spec_action_id(),
        }),
        EditOp::Update { action_id, patch } => match result {
            OpResult::Action { resolved_to: Some(resolved), .. } => {
                &&& stamped matches EditOp::Update { action_id: stamped_id, patch: stamped_patch }
                &&& stamped_id == action_id
                &&& *stamped_patch == (UpdatePatch {
                    to: Some(resolved),
                    to_relative: None,
                    ..*patch
                })
            },
            _ => stamped == op,
        },
        _ => stamped == op,
    }
}

impl EditOp {
    /// A one-word label for this op.
    pub open spec fn spec_kind_label(&self) -> Seq<char> {
        match self {
            EditOp::Insert { .. } => "insert"@,
            EditOp::InsertKeyframes { .. } => "insert keyframes"@,
            EditOp::Remove { .. } => "remove"@,
            EditOp::Move { .. } => "move"@,
            EditOp::Update { .. } => "update"@,
            EditOp::Clear => "clear"@,
            EditOp::Unrestorable { .. } => "-"@,
        }
    }

    /// A one-word label for this op, for an undo-history panel.
    pub fn kind_label(&self) -> (label: &'static str)
        ensures
            label@ == self.spec_kind_label(),
    {
        match self {
            EditOp::Insert { .. } => "insert",
            EditOp::InsertKeyframes { .. } => "insert keyframes",
            EditOp::Remove { .. } => "remove",
            EditOp::Move { .. } => "move",
            EditOp::Update { .. } => "update",
            EditOp::Clear => "clear",
            EditOp::Unrestorable { .. } => "-",
        }
    }

    /// A copy of the edit.
    pub fn copy(&self) -> (copy: Self)
        ensures
            copy == *self,
    {
        match self {
            EditOp::Insert { at, to, to_relative, exact, restore_id } => EditOp::Insert {
                at: at.clone(),
                to: to.clone(),
                to_relative: *to_relative,
                exact: *exact,
                restore_id: *restore_id,
            },
            EditOp::InsertKeyframes { at, keyframes, exact, restore_id } => {
                EditOp::InsertKeyframes {
                    at: at.clone(),
                    keyframes: keyframes.clone(),
                    exact: *exact,
                    restore_id: *restore_id,
                }
            },
            EditOp::Remove { track, action_id } => EditOp::Remove {
                track: *track,
                action_id: *action_id,
            },
            EditOp::Move { track, action_id, start_at, duration } => EditOp::Move {
                track: *track,
                action_id: *action_id,
                start_at: *start_at,
                duration: *duration,
            },
            EditOp::Update { action_id, patch } => EditOp::Update {
                action_id: *action_id,
                patch: patch.clone(),
            },
            EditOp::Clear => EditOp::Clear,
            EditOp::Unrestorable { reason } => EditOp::Unrestorable { reason: reason.clone() },
        }
    }

    /// Rewrite references to action id `from` to `to`.
    pub fn remap_action_id(&mut self, from: u64, to: u64)
        ensures
            *final(self) == remapped(*old(self), from, to),
    {
        match self {
            EditOp::Remove { action_id, .. } => {
                if *action_id == from {
                    *action_id = to;
                }
            },
            EditOp::Move { action_id, .. } => {
                if *action_id == from {
                    *action_id = to;
                }
            },
            EditOp::Update { action_id, .. } => {
                if *action_id == from {
                    *action_id = to;
                }
            },
            EditOp::Insert { restore_id, .. } => {
                if *restore_id == Some(from) {
                    *restore_id = Some(to);
                }
            },
            EditOp::InsertKeyframes { restore_id, .. } => {
                if *restore_id == Some(from) {
                    *restore_id = Some(to);
                }
            },
            EditOp::Clear => {},
            EditOp::Unrestorable { .. } => {},
        }
    }

    /// The id that an insert restores, if there is one.
    pub open spec fn spec_restores(self) -> Option<u64> {
        match self {
            EditOp::Insert { restore_id, .. } => restore_id,
            EditOp::InsertKeyframes { restore_id, .. } => restore_id,
            _ => None,
        }
    }

    /// The id that an insert restores, if there is one.
    pub fn restores(&self) -> (id: Option<u64>)
        ensures
            id == self.spec_restores(),
    {
        match self {
            EditOp::Insert { restore_id, .. } => *restore_id,
            EditOp::InsertKeyframes { restore_id, .. } => *restore_id,
            _ => None,
        }
    }
}

/// A copy of a patch with an absolute target.
fn patch_with_target(patch: &UpdatePatch, to: Arc<Json>) -> (with_target: UpdatePatch)
    ensures
        with_target == (UpdatePatch { to: Some(to), to_relative: None, ..*patch }),
{
    UpdatePatch {
        to: Some(to),
        to_relative: None,
        ease: match &patch.ease {
            Some(ease) => Some(ease.copy()),
            None => None,
        },
        keyframes: match &patch.keyframes {
            Some(keyframes) => Some(keyframes.clone()),
            None => None,
        },
        label: match &patch.label {
            Some(label) => Some(copy_text(label)),
            None => None,
        },
        color: patch.color,
        enabled: patch.enabled,
    }
}

/// Stamp an applied insert with the action id it created so undo/redo can
/// remap references. Also folds a resolved relative target in, so replays
/// apply the absolute, not the delta.
pub fn stamp_insert_id(op: EditOp, result: &OpResult) -> (stamped: EditOp)
    ensures
        is_stamped(op, *result, stamped),
{
    let resolved: Option<Arc<Json>> = match result {
        OpResult::Action { resolved_to: Some(resolved), .. } => Some(resolved.clone()),
        _ => None,
    };
    match op {
        EditOp::Insert { at, to, to_relative, exact, .. } => match resolved {
            Some(resolved) => EditOp::Insert {
                at,
                to: resolved,
                to_relative: None,
                exact,
                restore_id: result.action_id(),
            },
            None => EditOp::Insert {
                at,
                to,
                to_relative,
                exact,
                restore_id: result.action_id(),
            },
        },
        EditOp::InsertKeyframes { at, keyframes, exact, .. } => EditOp::InsertKeyframes {
            at,
            keyframes,
            exact,
            restore_id: result.action_id(),
        },
        EditOp::Update { action_id, patch } => match resolved {
            Some(resolved) => EditOp::Update {
                action_id,
                patch: Arc::new(patch_with_target(&patch, resolved)),
            },
            None => EditOp::Update { action_id, patch },
        },
        other => other,
    }
}

/// Renaming an action renames it wherever an edit refers to it: afterwards
/// nothing refers to the old name.
pub proof fn remapping_leaves_no_reference(op: EditOp, from: u64, to: u64)
    requires
        from != to,
    ensures
        remapped(op, from, to).spec_restores() != Some(from),
        remapped(op, from, to) matches EditOp::Remove { action_id, .. } ==> action_id != from,
        remapped(op, from, to) matches EditOp::Move { action_id, .. } ==> action_id != from,
        remapped(op, from, to) matches EditOp::Update { action_id, .. } ==> action_id != from,
{
}

} // verus!
