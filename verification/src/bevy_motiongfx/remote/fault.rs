//! What can be wrong with a request, and how it is told.
use crate::remote::{RemoteActionError, RemoteEditError};
use crate::text::{decimal, decimal_text, text2, text3, text4, text5, text6, text7};
use vstd::prelude::*;
use vstd::string::StringExecFns;

verus! {

/// The kind of a fault.
#[derive(Debug, Clone, Copy, PartialEq, Eq, Structural)]
pub enum ErrorCode {
    InvalidParams,
    InternalError,
    EntityNotFound,
    ComponentError,
    ComponentNotPresent,
    ResourceError,
}

/// Failure modes when bridging a travelling value into an animated one.
#[derive(Debug)]
pub enum CatalogError {
    /// The target type is not in the type registry.
    TypeNotRegistered,
    /// The value did not deserialize against the target type.
    Deserialize(String),
    /// The value could not be turned into one of the target type.
    FromReflect,
}

impl CatalogError {
    /// The kind of the fault.
    pub open spec fn spec_code(self) -> ErrorCode {
        match self {
            CatalogError::TypeNotRegistered => ErrorCode::ComponentError,
            _ => ErrorCode::InvalidParams,
        }
    }

    /// The kind of the fault.
    pub fn code(&self) -> (code: ErrorCode)
        ensures
            code == self.spec_code(),
    {
        match self {
            CatalogError::TypeNotRegistered => ErrorCode::ComponentError,
            _ => ErrorCode::InvalidParams,
        }
    }

    /// The fault in words.
    pub open spec fn spec_message(self) -> Seq<char> {
        match self {
            CatalogError::TypeNotRegistered => "target type is not in the type registry"@,
            CatalogError::Deserialize(reason) => "could not deserialize `to`: "@ + reason@,
            CatalogError::FromReflect => "`to` value did not match the target field type"@,
        }
    }

    /// The fault in words.
    pub fn message(&self) -> (message: String)
        ensures
            message@ == self.spec_message(),
    {
        match self {
            CatalogError::TypeNotRegistered => String::from_str(
                "target type is not in the type registry",
            ),
            CatalogError::Deserialize(reason) => text2(
                "could not deserialize `to`: ",
                reason.as_str(),
            ),
            CatalogError::FromReflect => String::from_str(
                "`to` value did not match the target field type",
            ),
        }
    }
}

/// The kind of a fault of a structural edit.
pub open spec fn edit_error_code(error: RemoteEditError) -> ErrorCode {
    match error {
        RemoteEditError::Action(RemoteActionError::Unregistered) => ErrorCode::ComponentError,
        RemoteEditError::Action(_) => ErrorCode::InvalidParams,
        RemoteEditError::Overlap { .. } => ErrorCode::InvalidParams,
        RemoteEditError::NotFound => ErrorCode::ResourceError,
        RemoteEditError::TrackOutOfRange => ErrorCode::ResourceError,
    }
}

/// A fault of a structural edit in words.
pub open spec fn edit_error_message(error: RemoteEditError) -> Seq<char> {
    match error {
        RemoteEditError::Action(
            RemoteActionError::Unregistered,
        ) => "field is not registered for remote editing"@,
        RemoteEditError::Action(
            RemoteActionError::TypeMismatch,
        ) => "subject or target type mismatch"@,
        RemoteEditError::Action(
            RemoteActionError::InvalidKeyframes(fault),
        ) => "invalid keyframes: "@ + fault.spec_reason(),
        RemoteEditError::Overlap { conflict } => "clip would overlap action "@ + decimal(
            conflict.bits as nat,
        ),
        RemoteEditError::NotFound => "no action with that id on the given track"@,
        RemoteEditError::TrackOutOfRange => "track index out of range"@,
    }
}

/// The kind of a fault of a structural edit.
pub fn code_of_edit_error(error: &RemoteEditError) -> (code: ErrorCode)
    ensures
        code == edit_error_code(*error),
{
    match error {
        RemoteEditError::Action(RemoteActionError::Unregistered) => ErrorCode::ComponentError,
        RemoteEditError::Action(_) => ErrorCode::InvalidParams,
        RemoteEditError::Overlap { .. } => ErrorCode::InvalidParams,
        RemoteEditError::NotFound => ErrorCode::ResourceError,
        RemoteEditError::TrackOutOfRange => ErrorCode::ResourceError,
    }
}

/// A fault of a structural edit in words.
pub fn message_of_edit_error(error: &RemoteEditError) -> (message: String)
    ensures
        message@ == edit_error_message(*error),
{
    match error {
        RemoteEditError::Action(RemoteActionError::Unregistered) => String::from_str(
            "field is not registered for remote editing",
        ),
        RemoteEditError::Action(RemoteActionError::TypeMismatch) => String::from_str(
            "subject or target type mismatch",
        ),
        RemoteEditError::Action(RemoteActionError::InvalidKeyframes(fault)) => text2(
            "invalid keyframes: ",
            fault.reason(),
        ),
        RemoteEditError::Overlap { conflict } => text2(
            "clip would overlap action ",
            decimal_text(conflict.bits).as_str(),
        ),
        RemoteEditError::NotFound => String::from_str("no action with that id on the given track"),
        RemoteEditError::TrackOutOfRange => String::from_str("track index out of range"),
    }
}

/// Why a request does not name a subject.
#[derive(Debug)]
pub enum SubjectFault {
    /// Both `entity` and `entity_name` are given.
    Exclusive,
    /// Neither `entity` nor `entity_name` is given.
    Missing,
    /// No entity has the name.
    NoneNamed { name: String },
    /// Several entities have the name.
    ManyNamed { name: String, matches: Vec<u64> },
    /// The name is not a string.
    NameNotText,
}

impl SubjectFault {
    /// The kind of the fault.
    pub open spec fn spec_code(self) -> ErrorCode
    {
        match self {
            SubjectFault::Exclusive => ErrorCode::InvalidParams,
            SubjectFault::Missing => ErrorCode::InvalidParams,
            SubjectFault::NoneNamed { .. } => ErrorCode::EntityNotFound,
            SubjectFault::ManyNamed { .. } => ErrorCode::InvalidParams,
            SubjectFault::NameNotText => ErrorCode::InvalidParams,
        }
    }

    /// The kind of the fault.
    pub fn code(&self) -> (code: ErrorCode)
        ensures
            code == self.spec_code(),
    {
        match self {
            SubjectFault::Exclusive => ErrorCode::InvalidParams,
            SubjectFault::Missing => ErrorCode::InvalidParams,
            SubjectFault::NoneNamed { .. } => ErrorCode::EntityNotFound,
            SubjectFault::ManyNamed { .. } => ErrorCode::InvalidParams,
            SubjectFault::NameNotText => ErrorCode::InvalidParams,
        }
    }

    /// The fault in words.
    pub open spec fn spec_message(self) -> Seq<char>
    {
        match self {
            SubjectFault::Exclusive => "`entity` and `entity_name` are mutually exclusive"@,
            SubjectFault::Missing => "one of `entity` or `entity_name` is required"@,
            SubjectFault::NoneNamed { name } => "no entity named `"@ + name@ + "`"@,
            SubjectFault::ManyNamed { name, matches } => decimal(matches@.len())
                + " entities are named `"@ + name@ + "`. use raw `entity` bits instead."@,
            SubjectFault::NameNotText => "`entity_name` must be a string"@,
        }
    }

    /// The fault in words.
    pub fn message(&self) -> (message: String)
        ensures
            message@ == self.spec_message(),
    {
        match self {
            SubjectFault::Exclusive => String::from_str(
                "`entity` and `entity_name` are mutually exclusive",
            ),
            SubjectFault::Missing => String::from_str(
                "one of `entity` or `entity_name` is required",
            ),
            SubjectFault::NoneNamed { name } => text3("no entity named `", name.as_str(), "`"),
            SubjectFault::ManyNamed { name, matches } => text4(
                decimal_text(matches.len() as u64).as_str(),
                " entities are named `",
                name.as_str(),
                "`. use raw `entity` bits instead.",
            ),
            SubjectFault::NameNotText => String::from_str("`entity_name` must be a string"),
        }
    }
}

/// Why a component does not lead to an asset.
#[derive(Debug)]
pub enum AssetFault {
    /// The type is not known.
    NotRegistered { component: String },
    /// The type is not a component.
    NotComponent { component: String },
    /// The entity does not exist.
    NoEntity { entity: u64 },
    /// The entity does not have the component.
    NotPresent { entity: u64, component: String },
    /// The component holds no handle.
    NoHandle { entity: u64, component: String },
}

impl AssetFault {
    /// The kind of the fault.
    pub open spec fn spec_code(self) -> ErrorCode
    {
        match self {
            AssetFault::NotRegistered { .. } => ErrorCode::ComponentError,
            AssetFault::NotComponent { .. } => ErrorCode::ComponentError,
            AssetFault::NoEntity { .. } => ErrorCode::EntityNotFound,
            AssetFault::NotPresent { .. } => ErrorCode::ComponentError,
            AssetFault::NoHandle { .. } => ErrorCode::ComponentError,
        }
    }

    /// The kind of the fault.
    pub fn code(&self) -> (code: ErrorCode)
        ensures
            code == self.spec_code(),
    {
        match self {
            AssetFault::NotRegistered { .. } => ErrorCode::ComponentError,
            AssetFault::NotComponent { .. } => ErrorCode::ComponentError,
            AssetFault::NoEntity { .. } => ErrorCode::EntityNotFound,
            AssetFault::NotPresent { .. } => ErrorCode::ComponentError,
            AssetFault::NoHandle { .. } => ErrorCode::ComponentError,
        }
    }

    /// The fault in words.
    pub open spec fn spec_message(self) -> Seq<char>
    {
        match self {
            AssetFault::NotRegistered { component } => "`"@ + component@
                + "` is not a registered type"@,
            AssetFault::NotComponent { component } => "`"@ + component@ + "` is not a component"@,
            AssetFault::NoEntity { entity } => "entity "@ + decimal(entity as nat)
                + " does not exist"@,
            AssetFault::NotPresent { entity, component } => "entity "@ + decimal(entity as nat)
                + " has no `"@ + component@ + "`"@,
            AssetFault::NoHandle { entity, component } => "no `Handle<_>` found in `"@ + component@
                + "` on entity"@ + decimal(entity as nat)
                + " (is the handle type reflect-registered?)"@,
        }
    }

    /// The fault in words.
    pub fn message(&self) -> (message: String)
        ensures
            message@ == self.spec_message(),
    {
        match self {
            AssetFault::NotRegistered { component } => text3(
                "`",
                component.as_str(),
                "` is not a registered type",
            ),
            AssetFault::NotComponent { component } => text3(
                "`",
                component.as_str(),
                "` is not a component",
            ),
            AssetFault::NoEntity { entity } => text3(
                "entity ",
                decimal_text(*entity).as_str(),
                " does not exist",
            ),
            AssetFault::NotPresent { entity, component } => text5(
                "entity ",
                decimal_text(*entity).as_str(),
                " has no `",
                component.as_str(),
                "`",
            ),
            AssetFault::NoHandle { entity, component } => text5(
                "no `Handle<_>` found in `",
                component.as_str(),
                "` on entity",
                decimal_text(*entity).as_str(),
                " (is the handle type reflect-registered?)",
            ),
        }
    }
}

/// Why an edit cannot be applied as it is written.
#[derive(Debug)]
pub enum OpFault {
    /// The ease is neither a name nor a curve.
    EaseUnreadable { reason: String },
    /// No ease has the name.
    UnknownEase { name: String },
    /// A control point of the curve lies outside.
    CurveOutOfRange,
    /// A keyframe to smooth is not a number.
    SmoothNeedsNumbers,
    /// `smooth` is neither true nor false.
    SmoothNotBool,
    /// There are no keyframes to smooth.
    SmoothNeedsKeyframes,
    /// The keyframe list is empty.
    NoKeyframes,
    /// A keyframe lies outside of its clip.
    KeyframeTime { index: usize, shown: String },
    /// Both `to` and `to_relative` are given.
    ToExclusive,
    /// Both a target and keyframes are given.
    KeyframesExclusive,
    /// A relative target on a subject that is no component.
    RelativeComponentOnly,
    /// A relative target on a field that is not a number.
    RelativeNumeric,
    /// A relative target on a field whose value cannot be read.
    RelativeUnreadable { component: String, field: String },
    /// The entity does not exist.
    NoEntity { entity: u64 },
    /// The field cannot be edited.
    NotAnimatable { component: String, field: String },
    /// A resource is addressed as an asset.
    ResourceTakesNoAsset,
    /// The bits are not those of an entity.
    InvalidEntity,
    /// An update without a change.
    NothingToUpdate,
    /// The field of the action cannot be edited.
    FieldNotAnimatable,
    /// The field of the action cannot be given a value.
    FieldTypeUnknown,
    /// The action has no keyframes to replace.
    NotKeyframed,
    /// The action has keyframes, not a target.
    Keyframed,
    /// The value of the action cannot be read.
    NoSnapshot,
    /// The edit stands for one that cannot be applied.
    Unrestorable { reason: String },
    /// A batch without edits.
    OpsEmpty,
    /// A reference to an action is neither an id nor an index.
    RefShape,
    /// A reference to an edit is not an index.
    RefIndex,
    /// A reference to an edit that has not created an action.
    RefTarget { op: u64 },
    /// The edit cannot be read.
    Unreadable { reason: String },
    /// A clear inside a batch.
    NotBatchable,
}

impl OpFault {
    /// The kind of the fault.
    pub open spec fn spec_code(self) -> ErrorCode
    {
        match self {
            OpFault::EaseUnreadable { .. } => ErrorCode::InvalidParams,
            OpFault::UnknownEase { .. } => ErrorCode::InvalidParams,
            OpFault::CurveOutOfRange => ErrorCode::InvalidParams,
            OpFault::SmoothNeedsNumbers => ErrorCode::InvalidParams,
            OpFault::SmoothNotBool => ErrorCode::InvalidParams,
            OpFault::SmoothNeedsKeyframes => ErrorCode::InvalidParams,
            OpFault::NoKeyframes => ErrorCode::InvalidParams,
            OpFault::KeyframeTime { .. } => ErrorCode::InvalidParams,
            OpFault::ToExclusive => ErrorCode::InvalidParams,
            OpFault::KeyframesExclusive => ErrorCode::InvalidParams,
            OpFault::RelativeComponentOnly => ErrorCode::InvalidParams,
            OpFault::RelativeNumeric => ErrorCode::InvalidParams,
            OpFault::RelativeUnreadable { .. } => ErrorCode::InvalidParams,
            OpFault::NoEntity { .. } => ErrorCode::EntityNotFound,
            OpFault::NotAnimatable { .. } => ErrorCode::ComponentError,
            OpFault::ResourceTakesNoAsset => ErrorCode::InvalidParams,
            OpFault::InvalidEntity => ErrorCode::EntityNotFound,
            OpFault::NothingToUpdate => ErrorCode::InvalidParams,
            OpFault::FieldNotAnimatable => ErrorCode::ComponentError,
            OpFault::FieldTypeUnknown => ErrorCode::ComponentError,
            OpFault::NotKeyframed => ErrorCode::InvalidParams,
            OpFault::Keyframed => ErrorCode::InvalidParams,
            OpFault::NoSnapshot => ErrorCode::InternalError,
            OpFault::Unrestorable { .. } => ErrorCode::InternalError,
            OpFault::OpsEmpty => ErrorCode::InvalidParams,
            OpFault::RefShape => ErrorCode::InvalidParams,
            OpFault::RefIndex => ErrorCode::InvalidParams,
            OpFault::RefTarget { .. } => ErrorCode::InvalidParams,
            OpFault::Unreadable { .. } => ErrorCode::InvalidParams,
            OpFault::NotBatchable => ErrorCode::InvalidParams,
        }
    }

    /// The kind of the fault.
    pub fn code(&self) -> (code: ErrorCode)
        ensures
            code == self.spec_code(),
    {
        match self {
            OpFault::EaseUnreadable { .. } => ErrorCode::InvalidParams,
            OpFault::UnknownEase { .. } => ErrorCode::InvalidParams,
            OpFault::CurveOutOfRange => ErrorCode::InvalidParams,
            OpFault::SmoothNeedsNumbers => ErrorCode::InvalidParams,
            OpFault::SmoothNotBool => ErrorCode::InvalidParams,
            OpFault::SmoothNeedsKeyframes => ErrorCode::InvalidParams,
            OpFault::NoKeyframes => ErrorCode::InvalidParams,
            OpFault::KeyframeTime { .. } => ErrorCode::InvalidParams,
            OpFault::ToExclusive => ErrorCode::InvalidParams,
            OpFault::KeyframesExclusive => ErrorCode::InvalidParams,
            OpFault::RelativeComponentOnly => ErrorCode::InvalidParams,
            OpFault::RelativeNumeric => ErrorCode::InvalidParams,
            OpFault::RelativeUnreadable { .. } => ErrorCode::InvalidParams,
            OpFault::NoEntity { .. } => ErrorCode::EntityNotFound,
            OpFault::NotAnimatable { .. } => ErrorCode::ComponentError,
            OpFault::ResourceTakesNoAsset => ErrorCode::InvalidParams,
            OpFault::InvalidEntity => ErrorCode::EntityNotFound,
            OpFault::NothingToUpdate => ErrorCode::InvalidParams,
            OpFault::FieldNotAnimatable => ErrorCode::ComponentError,
            OpFault::FieldTypeUnknown => ErrorCode::ComponentError,
            OpFault::NotKeyframed => ErrorCode::InvalidParams,
            OpFault::Keyframed => ErrorCode::InvalidParams,
            OpFault::NoSnapshot => ErrorCode::InternalError,
            OpFault::Unrestorable { .. } => ErrorCode::InternalError,
            OpFault::OpsEmpty => ErrorCode::InvalidParams,
            OpFault::RefShape => ErrorCode::InvalidParams,
            OpFault::RefIndex => ErrorCode::InvalidParams,
            OpFault::RefTarget { .. } => ErrorCode::InvalidParams,
            OpFault::Unreadable { .. } => ErrorCode::InvalidParams,
            OpFault::NotBatchable => ErrorCode::InvalidParams,
        }
    }

    /// The fault in words.
    pub open spec fn spec_message(self) -> Seq<char>
    {
        match self {
            OpFault::EaseUnreadable { reason } => reason@,
            OpFault::UnknownEase { name } => "unknown ease `"@ + name@ + "`"@,
            OpFault::CurveOutOfRange => "cubic_bezier x1/x2 must lie in [0,1]"@,
            OpFault::SmoothNeedsNumbers => "`smooth` needs numeric keyframe values"@,
            OpFault::SmoothNotBool => "`smooth` must be a boolean"@,
            OpFault::SmoothNeedsKeyframes => "`smooth` requires `keyframes`"@,
            OpFault::NoKeyframes => "`keyframes` must not be empty"@,
            OpFault::KeyframeTime { index, shown } => "keyframe "@ + decimal(index as nat)
                + ": `t` must lie in [0, 1] (got "@ + shown@ + ")"@,
            OpFault::ToExclusive => "`to` and `to_relative` are mutually exclusive"@,
            OpFault::KeyframesExclusive => "`to` and `keyframes` are mutually exclusive"@,
            OpFault::RelativeComponentOnly => "`to_relative` supports component subjects only"@,
            OpFault::RelativeNumeric => "`to_relative` needs a numeric field"@,
            OpFault::RelativeUnreadable { component, field } => "`to_relative` needs a numeric field with a readable live value (`"@
                + component@ + "`.`"@ + field@ + "`)"@,
            OpFault::NoEntity { entity } => "entity "@ + decimal(entity as nat) + " does not exist"@,
            OpFault::NotAnimatable { component, field } => "`"@ + component@ + "`.`"@ + field@
                + "` is not registered as animatable (animate it via act() or call App::register_animatable)"@,
            OpFault::ResourceTakesNoAsset => "resource fields take no `asset_of`"@,
            OpFault::InvalidEntity => "missing or invalid `entity` bits"@,
            OpFault::NothingToUpdate => "provide at least one of `to` / `to_relative` / `ease` / `keyframes` / `label` / `color` / `enabled`"@,
            OpFault::FieldNotAnimatable => "the action's field is not registered as animatable"@,
            OpFault::FieldTypeUnknown => "the action's field is not registered as animatable, so its value type is unknown (ease-only updates still work)"@,
            OpFault::NotKeyframed => "`keyframes` can only update an action that already has keyframes (use remove + insert_keyframes to convert a constant clip)"@,
            OpFault::Keyframed => "this action has keyframes; update them via `keyframes`, not `to`"@,
            OpFault::NoSnapshot => "could not snapshot the current value"@,
            OpFault::Unrestorable { reason } => "cannot apply this edit: "@ + reason@,
            OpFault::OpsEmpty => "`ops` must not be empty"@,
            OpFault::RefShape => "`action_id` must be a raw id or {\"$op\": <index>}"@,
            OpFault::RefIndex => "`$op` must be an op index"@,
            OpFault::RefTarget { op } => "{\"$op\": "@ + decimal(op as nat)
                + "} must reference an EARLIER op of this batch that created an action (an insert)"@,
            OpFault::Unreadable { reason } => reason@,
            OpFault::NotBatchable => "`clear` is not a batch op; call motiongfx.timeline_clear"@,
        }
    }

    /// The fault in words.
    pub fn message(&self) -> (message: String)
        ensures
            message@ == self.spec_message(),
    {
        match self {
            OpFault::EaseUnreadable { reason } => String::from_str(reason.as_str()),
            OpFault::UnknownEase { name } => text3("unknown ease `", name.as_str(), "`"),
            OpFault::CurveOutOfRange => String::from_str("cubic_bezier x1/x2 must lie in [0,1]"),
            OpFault::SmoothNeedsNumbers => String::from_str(
                "`smooth` needs numeric keyframe values",
            ),
            OpFault::SmoothNotBool => String::from_str("`smooth` must be a boolean"),
            OpFault::SmoothNeedsKeyframes => String::from_str("`smooth` requires `keyframes`"),
            OpFault::NoKeyframes => String::from_str("`keyframes` must not be empty"),
            OpFault::KeyframeTime { index, shown } => text5(
                "keyframe ",
                decimal_text(*index as u64).as_str(),
                ": `t` must lie in [0, 1] (got ",
                shown.as_str(),
                ")",
            ),
            OpFault::ToExclusive => String::from_str(
                "`to` and `to_relative` are mutually exclusive",
            ),
            OpFault::KeyframesExclusive => String::from_str(
                "`to` and `keyframes` are mutually exclusive",
            ),
            OpFault::RelativeComponentOnly => String::from_str(
                "`to_relative` supports component subjects only",
            ),
            OpFault::RelativeNumeric => String::from_str("`to_relative` needs a numeric field"),
            OpFault::RelativeUnreadable { component, field } => text5(
                "`to_relative` needs a numeric field with a readable live value (`",
                component.as_str(),
                "`.`",
                field.as_str(),
                "`)",
            ),
            OpFault::NoEntity { entity } => text3(
                "entity ",
                decimal_text(*entity).as_str(),
                " does not exist",
            ),
            OpFault::NotAnimatable { component, field } => text5(
                "`",
                component.as_str(),
                "`.`",
                field.as_str(),
                "` is not registered as animatable (animate it via act() or call App::register_animatable)",
            ),
            OpFault::ResourceTakesNoAsset => String::from_str("resource fields take no `asset_of`"),
            OpFault::InvalidEntity => String::from_str("missing or invalid `entity` bits"),
            OpFault::NothingToUpdate => String::from_str(
                "provide at least one of `to` / `to_relative` / `ease` / `keyframes` / `label` / `color` / `enabled`",
            ),
            OpFault::FieldNotAnimatable => String::from_str(
                "the action's field is not registered as animatable",
            ),
            OpFault::FieldTypeUnknown => String::from_str(
                "the action's field is not registered as animatable, so its value type is unknown (ease-only updates still work)",
            ),
            OpFault::NotKeyframed => String::from_str(
                "`keyframes` can only update an action that already has keyframes (use remove + insert_keyframes to convert a constant clip)",
            ),
            OpFault::Keyframed => String::from_str(
                "this action has keyframes; update them via `keyframes`, not `to`",
            ),
            OpFault::NoSnapshot => String::from_str("could not snapshot the current value"),
            OpFault::Unrestorable { reason } => text2("cannot apply this edit: ", reason.as_str()),
            OpFault::OpsEmpty => String::from_str("`ops` must not be empty"),
            OpFault::RefShape => String::from_str(
                "`action_id` must be a raw id or {\"$op\": <index>}",
            ),
            OpFault::RefIndex => String::from_str("`$op` must be an op index"),
            OpFault::RefTarget { op } => text3(
                "{\"$op\": ",
                decimal_text(*op).as_str(),
                "} must reference an EARLIER op of this batch that created an action (an insert)",
            ),
            OpFault::Unreadable { reason } => String::from_str(reason.as_str()),
            OpFault::NotBatchable => String::from_str(
                "`clear` is not a batch op; call motiongfx.timeline_clear",
            ),
        }
    }
}

/// Why a document cannot be imported or exported.
#[derive(Debug)]
pub enum DocumentFault {
    /// The document is of another format.
    UnknownFormat { format: String },
    /// The document is of an unknown version.
    UnsupportedVersion { version: u64 },
    /// The mode is neither of the two.
    UnknownMode { mode: String },
    /// No entity has the name of a subject.
    NoEntityNamed { track: usize, action: usize, name: String },
    /// An action has neither or both kinds of target.
    TargetMissing { track: usize, action: usize },
    /// The field of an action cannot be edited.
    NotAnimatable { component: String, field: String },
    /// Some clips cannot be described.
    Unserializable { reasons: Vec<String> },
    /// Both a path and a document are given.
    SourceExclusive,
    /// Neither a path nor a document is given.
    SourceMissing,
    /// The document is not a project.
    NotProject { format: String },
    /// No component makes an entity part of the project.
    NoProjectSubjects,
    /// A component cannot be written.
    CannotSerialize { component: String, reason: String },
}

impl DocumentFault {
    /// The kind of the fault.
    pub open spec fn spec_code(self) -> ErrorCode
    {
        match self {
            DocumentFault::UnknownFormat { .. } => ErrorCode::InvalidParams,
            DocumentFault::UnsupportedVersion { .. } => ErrorCode::InvalidParams,
            DocumentFault::UnknownMode { .. } => ErrorCode::InvalidParams,
            DocumentFault::NoEntityNamed { .. } => ErrorCode::EntityNotFound,
            DocumentFault::TargetMissing { .. } => ErrorCode::InvalidParams,
            DocumentFault::NotAnimatable { .. } => ErrorCode::ComponentError,
            DocumentFault::Unserializable { .. } => ErrorCode::ComponentError,
            DocumentFault::SourceExclusive => ErrorCode::InvalidParams,
            DocumentFault::SourceMissing => ErrorCode::InvalidParams,
            DocumentFault::NotProject { .. } => ErrorCode::InvalidParams,
            DocumentFault::NoProjectSubjects => ErrorCode::ResourceError,
            DocumentFault::CannotSerialize { .. } => ErrorCode::ComponentError,
        }
    }

    /// The kind of the fault.
    pub fn code(&self) -> (code: ErrorCode)
        ensures
            code == self.spec_code(),
    {
        match self {
            DocumentFault::UnknownFormat { .. } => ErrorCode::InvalidParams,
            DocumentFault::UnsupportedVersion { .. } => ErrorCode::InvalidParams,
            DocumentFault::UnknownMode { .. } => ErrorCode::InvalidParams,
            DocumentFault::NoEntityNamed { .. } => ErrorCode::EntityNotFound,
            DocumentFault::TargetMissing { .. } => ErrorCode::InvalidParams,
            DocumentFault::NotAnimatable { .. } => ErrorCode::ComponentError,
            DocumentFault::Unserializable { .. } => ErrorCode::ComponentError,
            DocumentFault::SourceExclusive => ErrorCode::InvalidParams,
            DocumentFault::SourceMissing => ErrorCode::InvalidParams,
            DocumentFault::NotProject { .. } => ErrorCode::InvalidParams,
            DocumentFault::NoProjectSubjects => ErrorCode::ResourceError,
            DocumentFault::CannotSerialize { .. } => ErrorCode::ComponentError,
        }
    }

    /// The fault in words.
    pub open spec fn spec_message(self) -> Seq<char>
    {
        match self {
            DocumentFault::UnknownFormat { format } => "unknown format `"@ + format@
                + "` (expected `motiongfx-timeline`)"@,
            DocumentFault::UnsupportedVersion { version } => "unsupported format_version "@
                + decimal(version as nat) + " (expected 1..=3)"@,
            DocumentFault::UnknownMode { mode } => "unknown mode `"@ + mode@
                + "` (expected `replace` or `append`)"@,
            DocumentFault::NoEntityNamed { track, action, name } => "track "@
                + decimal(track as nat) + " action "@ + decimal(action as nat)
                + ": no entity named `"@ + name@ + "` (pass it via `bindings`)"@,
            DocumentFault::TargetMissing { track, action } => "track "@ + decimal(track as nat)
                + " action "@ + decimal(action as nat)
                + ": exactly one of `to` / `keyframes` is required"@,
            DocumentFault::NotAnimatable { component, field } => "`"@ + component@ + "`.`"@ + field@
                + "` is not registered as animatable on this app"@,
            DocumentFault::Unserializable { reasons } => decimal(reasons@.len())
                + " clip(s) cannot be exported; register their fields as animatable"@,
            DocumentFault::SourceExclusive => "`path` and `document` are mutually exclusive"@,
            DocumentFault::SourceMissing => "pass `path` or `document`"@,
            DocumentFault::NotProject { format } => "not a motiongfx-project document (format = "@
                + format@ + ")"@,
            DocumentFault::NoProjectSubjects => "no project subjects registered; call App::register_project_subject::<T>() for every spawnable type"@,
            DocumentFault::CannotSerialize { component, reason } => "cannot serialize `"@
                + component@ + "`: "@ + reason@,
        }
    }

    /// The fault in words.
    pub fn message(&self) -> (message: String)
        ensures
            message@ == self.spec_message(),
    {
        match self {
            DocumentFault::UnknownFormat { format } => text3(
                "unknown format `",
                format.as_str(),
                "` (expected `motiongfx-timeline`)",
            ),
            DocumentFault::UnsupportedVersion { version } => text3(
                "unsupported format_version ",
                decimal_text(*version).as_str(),
                " (expected 1..=3)",
            ),
            DocumentFault::UnknownMode { mode } => text3(
                "unknown mode `",
                mode.as_str(),
                "` (expected `replace` or `append`)",
            ),
            DocumentFault::NoEntityNamed { track, action, name } => text7(
                "track ",
                decimal_text(*track as u64).as_str(),
                " action ",
                decimal_text(*action as u64).as_str(),
                ": no entity named `",
                name.as_str(),
                "` (pass it via `bindings`)",
            ),
            DocumentFault::TargetMissing { track, action } => text5(
                "track ",
                decimal_text(*track as u64).as_str(),
                " action ",
                decimal_text(*action as u64).as_str(),
                ": exactly one of `to` / `keyframes` is required",
            ),
            DocumentFault::NotAnimatable { component, field } => text5(
                "`",
                component.as_str(),
                "`.`",
                field.as_str(),
                "` is not registered as animatable on this app",
            ),
            DocumentFault::Unserializable { reasons } => text2(
                decimal_text(reasons.len() as u64).as_str(),
                " clip(s) cannot be exported; register their fields as animatable",
            ),
            DocumentFault::SourceExclusive => String::from_str(
                "`path` and `document` are mutually exclusive",
            ),
            DocumentFault::SourceMissing => String::from_str("pass `path` or `document`"),
            DocumentFault::NotProject { format } => text3(
                "not a motiongfx-project document (format = ",
                format.as_str(),
                ")",
            ),
            DocumentFault::NoProjectSubjects => String::from_str(
                "no project subjects registered; call App::register_project_subject::<T>() for every spawnable type",
            ),
            DocumentFault::CannotSerialize { component, reason } => text4(
                "cannot serialize `",
                component.as_str(),
                "`: ",
                reason.as_str(),
            ),
        }
    }
}

/// Why a dynamic animation cannot be added.
#[derive(Debug)]
pub enum AnimateFault {
    /// The duration is not positive.
    Duration,
    /// There is nothing to animate.
    NoFields,
    /// The type is not known.
    UnknownType { component: String },
    /// The type is not a component.
    NotComponent { component: String },
    /// The entity does not exist.
    NoEntity { entity: u64 },
    /// The entity does not have the component.
    NotPresent { entity: u64, component: String },
    /// The path leads nowhere.
    Path { path: String, reason: String },
    /// A number is asked of a field that is none.
    NotNumeric { path: String },
    /// The type of the field is not known.
    LeafType { path: String, type_path: String },
    /// The value does not fit the field.
    LeafValue { path: String, reason: String },
    /// The value does not fit the component.
    ComponentValue { component: String, reason: String },
    /// There is no such animation.
    NoAnimation { id: u64 },
}

impl AnimateFault {
    /// The kind of the fault.
    pub open spec fn spec_code(self) -> ErrorCode
    {
        match self {
            AnimateFault::Duration => ErrorCode::InvalidParams,
            AnimateFault::NoFields => ErrorCode::InvalidParams,
            AnimateFault::UnknownType { .. } => ErrorCode::ComponentError,
            AnimateFault::NotComponent { .. } => ErrorCode::ComponentError,
            AnimateFault::NoEntity { .. } => ErrorCode::EntityNotFound,
            AnimateFault::NotPresent { .. } => ErrorCode::ComponentNotPresent,
            AnimateFault::Path { .. } => ErrorCode::InvalidParams,
            AnimateFault::NotNumeric { .. } => ErrorCode::InvalidParams,
            AnimateFault::LeafType { .. } => ErrorCode::ComponentError,
            AnimateFault::LeafValue { .. } => ErrorCode::InvalidParams,
            AnimateFault::ComponentValue { .. } => ErrorCode::InvalidParams,
            AnimateFault::NoAnimation { .. } => ErrorCode::ResourceError,
        }
    }

    /// The kind of the fault.
    pub fn code(&self) -> (code: ErrorCode)
        ensures
            code == self.spec_code(),
    {
        match self {
            AnimateFault::Duration => ErrorCode::InvalidParams,
            AnimateFault::NoFields => ErrorCode::InvalidParams,
            AnimateFault::UnknownType { .. } => ErrorCode::ComponentError,
            AnimateFault::NotComponent { .. } => ErrorCode::ComponentError,
            AnimateFault::NoEntity { .. } => ErrorCode::EntityNotFound,
            AnimateFault::NotPresent { .. } => ErrorCode::ComponentNotPresent,
            AnimateFault::Path { .. } => ErrorCode::InvalidParams,
            AnimateFault::NotNumeric { .. } => ErrorCode::InvalidParams,
            AnimateFault::LeafType { .. } => ErrorCode::ComponentError,
            AnimateFault::LeafValue { .. } => ErrorCode::InvalidParams,
            AnimateFault::ComponentValue { .. } => ErrorCode::InvalidParams,
            AnimateFault::NoAnimation { .. } => ErrorCode::ResourceError,
        }
    }

    /// The fault in words.
    pub open spec fn spec_message(self) -> Seq<char>
    {
        match self {
            AnimateFault::Duration => "duration must be > 0"@,
            AnimateFault::NoFields => "no fields to animate"@,
            AnimateFault::UnknownType { component } => "Unknown/unregistered type: "@ + component@,
            AnimateFault::NotComponent { component } => "`"@ + component@
                + "` is not a ReflectComponent"@,
            AnimateFault::NoEntity { entity } => "No such entity: "@ + decimal(entity as nat),
            AnimateFault::NotPresent { entity, component } => "Entity "@ + decimal(entity as nat)
                + " has no `"@ + component@ + "`"@,
            AnimateFault::Path { path, reason } => "path `"@ + path@ + "`: "@ + reason@,
            AnimateFault::NotNumeric { path } => "field `"@ + path@
                + "` is not numeric; cannot tween"@,
            AnimateFault::LeafType { path, type_path } => "field `"@ + path@ + "` type `"@
                + type_path@ + "` not registered"@,
            AnimateFault::LeafValue { path, reason } => "field `"@ + path@ + "`: "@ + reason@,
            AnimateFault::ComponentValue { component, reason } => "`"@ + component@ + "`: "@
                + reason@,
            AnimateFault::NoAnimation { id } => "No animation with id "@ + decimal(id as nat),
        }
    }

    /// The fault in words.
    pub fn message(&self) -> (message: String)
        ensures
            message@ == self.spec_message(),
    {
        match self {
            AnimateFault::Duration => String::from_str("duration must be > 0"),
            AnimateFault::NoFields => String::from_str("no fields to animate"),
            AnimateFault::UnknownType { component } => text2(
                "Unknown/unregistered type: ",
                component.as_str(),
            ),
            AnimateFault::NotComponent { component } => text3(
                "`",
                component.as_str(),
                "` is not a ReflectComponent",
            ),
            AnimateFault::NoEntity { entity } => text2(
                "No such entity: ",
                decimal_text(*entity).as_str(),
            ),
            AnimateFault::NotPresent { entity, component } => text5(
                "Entity ",
                decimal_text(*entity).as_str(),
                " has no `",
                component.as_str(),
                "`",
            ),
            AnimateFault::Path { path, reason } => text4(
                "path `",
                path.as_str(),
                "`: ",
                reason.as_str(),
            ),
            AnimateFault::NotNumeric { path } => text3(
                "field `",
                path.as_str(),
                "` is not numeric; cannot tween",
            ),
            AnimateFault::LeafType { path, type_path } => text5(
                "field `",
                path.as_str(),
                "` type `",
                type_path.as_str(),
                "` not registered",
            ),
            AnimateFault::LeafValue { path, reason } => text4(
                "field `",
                path.as_str(),
                "`: ",
                reason.as_str(),
            ),
            AnimateFault::ComponentValue { component, reason } => text4(
                "`",
                component.as_str(),
                "`: ",
                reason.as_str(),
            ),
            AnimateFault::NoAnimation { id } => text2(
                "No animation with id ",
                decimal_text(*id).as_str(),
            ),
        }
    }
}

/// What was being done when an edit among several failed.
#[derive(Debug, Clone, Copy, PartialEq, Eq, Structural)]
pub enum Attempt {
    Undo,
    Redo,
    Batch,
    Import,
}

/// What is wrong with a request.
#[derive(Debug)]
pub enum Fault {
    /// There are no timelines at all.
    NoManager,
    /// There are no timelines to list.
    NothingToList,
    /// There is no catalog.
    NoCatalog,
    /// There is no catalog, and nothing that would add one.
    NoCatalogPlugin,
    /// There is no such timeline.
    NoTimeline { id: u64 },
    /// The timeline has no player.
    NoPlayer { id: u64 },
    /// The timeline has no such marker.
    NoMarker { name: String, id: u64 },
    /// A marker and a time or track are given.
    MarkerExclusive,
    /// The number of tracks is out of range.
    TrackCount,
    /// The number of tracks to add is out of range.
    AddCount,
    /// No edit is left to undo.
    NothingToUndo,
    /// No edit is left to redo.
    NothingToRedo,
    /// The timeline has no such track.
    TrackOutOfRange,
    /// Nothing animates the field.
    NoClips { component: String, field: String, track: usize },
    /// The field is not a number.
    NotNumeric,
    /// The values of a clip cannot be read.
    NoSegment,
    Subject(SubjectFault),
    Asset(AssetFault),
    Op(OpFault),
    Document(DocumentFault),
    Animate(AnimateFault),
    Catalog(CatalogError),
    /// A structural edit failed.
    Edit(RemoteEditError),
    /// The edit at `index` of several failed.
    At {
        attempt: Attempt,
        index: usize,
        cause: Box<Fault>,
        /// Whether the edits in front of it could not all be undone.
        rollback_incomplete: bool,
    },
}

/// The words in front of the index of what failed.
pub open spec fn attempt_words(attempt: Attempt) -> Seq<char> {
    match attempt {
        Attempt::Undo => "undo failed at op "@,
        Attempt::Redo => "redo failed at op "@,
        Attempt::Batch => "batch op "@,
        Attempt::Import => "import failed at action "@,
    }
}

/// The words behind the index of what failed.
pub open spec fn attempt_colon(attempt: Attempt) -> Seq<char> {
    match attempt {
        Attempt::Batch => " failed: "@,
        _ => ": "@,
    }
}

impl Fault {
    /// The kind of the fault.
    pub open spec fn spec_code(self) -> ErrorCode
        decreases self,
    {
        match self {
            Fault::NoManager => ErrorCode::ResourceError,
            Fault::NothingToList => ErrorCode::ResourceError,
            Fault::NoCatalog => ErrorCode::ResourceError,
            Fault::NoCatalogPlugin => ErrorCode::ResourceError,
            Fault::NoTimeline { .. } => ErrorCode::ResourceError,
            Fault::NoPlayer { .. } => ErrorCode::ResourceError,
            Fault::NoMarker { .. } => ErrorCode::ResourceError,
            Fault::MarkerExclusive => ErrorCode::InvalidParams,
            Fault::TrackCount => ErrorCode::InvalidParams,
            Fault::AddCount => ErrorCode::InvalidParams,
            Fault::NothingToUndo => ErrorCode::ResourceError,
            Fault::NothingToRedo => ErrorCode::ResourceError,
            Fault::TrackOutOfRange => ErrorCode::ResourceError,
            Fault::NoClips { .. } => ErrorCode::ResourceError,
            Fault::NotNumeric => ErrorCode::InvalidParams,
            Fault::NoSegment => ErrorCode::InternalError,
            Fault::Subject(fault) => fault.spec_code(),
            Fault::Asset(fault) => fault.spec_code(),
            Fault::Op(fault) => fault.spec_code(),
            Fault::Document(fault) => fault.spec_code(),
            Fault::Animate(fault) => fault.spec_code(),
            Fault::Catalog(fault) => fault.spec_code(),
            Fault::Edit(error) => edit_error_code(error),
            Fault::At { cause, .. } => cause.spec_code(),
        }
    }

    /// The kind of the fault.
    pub fn code(&self) -> (code: ErrorCode)
        ensures
            code == self.spec_code(),
        decreases self,
    {
        match self {
            Fault::NoManager => ErrorCode::ResourceError,
            Fault::NothingToList => ErrorCode::ResourceError,
            Fault::NoCatalog => ErrorCode::ResourceError,
            Fault::NoCatalogPlugin => ErrorCode::ResourceError,
            Fault::NoTimeline { .. } => ErrorCode::ResourceError,
            Fault::NoPlayer { .. } => ErrorCode::ResourceError,
            Fault::NoMarker { .. } => ErrorCode::ResourceError,
            Fault::MarkerExclusive => ErrorCode::InvalidParams,
            Fault::TrackCount => ErrorCode::InvalidParams,
            Fault::AddCount => ErrorCode::InvalidParams,
            Fault::NothingToUndo => ErrorCode::ResourceError,
            Fault::NothingToRedo => ErrorCode::ResourceError,
            Fault::TrackOutOfRange => ErrorCode::ResourceError,
            Fault::NoClips { .. } => ErrorCode::ResourceError,
            Fault::NotNumeric => ErrorCode::InvalidParams,
            Fault::NoSegment => ErrorCode::InternalError,
            Fault::Subject(fault) => fault.code(),
            Fault::Asset(fault) => fault.code(),
            Fault::Op(fault) => fault.code(),
            Fault::Document(fault) => fault.code(),
            Fault::Animate(fault) => fault.code(),
            Fault::Catalog(fault) => fault.code(),
            Fault::Edit(error) => code_of_edit_error(error),
            Fault::At { cause, .. } => cause.code(),
        }
    }

    /// The fault in words.
    pub open spec fn spec_message(self) -> Seq<char>
        decreases self,
    {
        match self {
            Fault::NoManager => "MotionGfxManager resource missing: add BevyMotionGfxPlugin"@,
            Fault::NothingToList => "MotionGfxManager resource missing"@,
            Fault::NoCatalog => "MotionGfxCatalog resource missing"@,
            Fault::NoCatalogPlugin => "MotionGfxCatalog resource missing: add MotionGfxRemotePlugin"@,
            Fault::NoTimeline { id } => "No timeline with id "@ + decimal(id as nat),
            Fault::NoPlayer { id } => "Timeline "@ + decimal(id as nat) + " has no RealtimePlayer"@,
            Fault::NoMarker { name, id } => "no marker `"@ + name@ + "` on timeline "@
                + decimal(id as nat),
            Fault::MarkerExclusive => "`marker` is mutually exclusive with `time`/`track`"@,
            Fault::TrackCount => "tracks must lie in 1..=1024"@,
            Fault::AddCount => "count must lie in 1..=1024"@,
            Fault::NothingToUndo => "nothing to undo"@,
            Fault::NothingToRedo => "nothing to redo"@,
            Fault::TrackOutOfRange => "track index out of range"@,
            Fault::NoClips { component, field, track } => "no clips animate `"@ + component@
                + "`.`"@ + field@ + "` of that entity on track "@ + decimal(track as nat),
            Fault::NotNumeric => "value_at supports numeric fields only"@,
            Fault::NoSegment => "could not serialize the segment"@,
            Fault::Subject(fault) => fault.spec_message(),
            Fault::Asset(fault) => fault.spec_message(),
            Fault::Op(fault) => fault.spec_message(),
            Fault::Document(fault) => fault.spec_message(),
            Fault::Animate(fault) => fault.spec_message(),
            Fault::Catalog(fault) => fault.spec_message(),
            Fault::Edit(error) => edit_error_message(error),
            Fault::At { attempt, index, cause, .. } => attempt_words(attempt) + decimal(
                index as nat,
            ) + attempt_colon(attempt) + cause.spec_message(),
        }
    }

    /// The fault in words.
    pub fn message(&self) -> (message: String)
        ensures
            message@ == self.spec_message(),
        decreases self,
    {
        match self {
            Fault::NoManager => String::from_str(
                "MotionGfxManager resource missing: add BevyMotionGfxPlugin",
            ),
            Fault::NothingToList => String::from_str("MotionGfxManager resource missing"),
            Fault::NoCatalog => String::from_str("MotionGfxCatalog resource missing"),
            Fault::NoCatalogPlugin => String::from_str(
                "MotionGfxCatalog resource missing: add MotionGfxRemotePlugin",
            ),
            Fault::NoTimeline { id } => text2("No timeline with id ", decimal_text(*id).as_str()),
            Fault::NoPlayer { id } => text3(
                "Timeline ",
                decimal_text(*id).as_str(),
                " has no RealtimePlayer",
            ),
            Fault::NoMarker { name, id } => text4(
                "no marker `",
                name.as_str(),
                "` on timeline ",
                decimal_text(*id).as_str(),
            ),
            Fault::MarkerExclusive => String::from_str(
                "`marker` is mutually exclusive with `time`/`track`",
            ),
            Fault::TrackCount => String::from_str("tracks must lie in 1..=1024"),
            Fault::AddCount => String::from_str("count must lie in 1..=1024"),
            Fault::NothingToUndo => String::from_str("nothing to undo"),
            Fault::NothingToRedo => String::from_str("nothing to redo"),
            Fault::TrackOutOfRange => String::from_str("track index out of range"),
            Fault::NoClips { component, field, track } => text6(
                "no clips animate `",
                component.as_str(),
                "`.`",
                field.as_str(),
                "` of that entity on track ",
                decimal_text(*track as u64).as_str(),
            ),
            Fault::NotNumeric => String::from_str("value_at supports numeric fields only"),
            Fault::NoSegment => String::from_str("could not serialize the segment"),
            Fault::Subject(fault) => fault.message(),
            Fault::Asset(fault) => fault.message(),
            Fault::Op(fault) => fault.message(),
            Fault::Document(fault) => fault.message(),
            Fault::Animate(fault) => fault.message(),
            Fault::Catalog(fault) => fault.message(),
            Fault::Edit(error) => message_of_edit_error(error),
            Fault::At { attempt, index, cause, .. } => {
                let words = match attempt {
                    Attempt::Undo => "undo failed at op ",
                    Attempt::Redo => "redo failed at op ",
                    Attempt::Batch => "batch op ",
                    Attempt::Import => "import failed at action ",
                };
                let colon = match attempt {
                    Attempt::Batch => " failed: ",
                    _ => ": ",
                };
                text4(
                    words,
                    decimal_text(*index as u64).as_str(),
                    colon,
                    cause.message().as_str(),
                )
            },
        }
    }
}

} // verus!
