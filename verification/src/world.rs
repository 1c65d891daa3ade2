//! What the library asks of the world that it animates.
use crate::action::{Ease, InterpFn, Value};
use crate::subject::{Subject, UntypedField};
use crate::time::Phase;
use vstd::prelude::*;

verus! {

/// A world that holds animated subjects and knows the functions that actions
/// refer to by number.
pub trait SubjectSource {
    /// The value of a field of a subject, if there is such a subject.
    fn get_source(&self, subject: Subject, field: UntypedField) -> Option<Value>;

    /// The target value that a custom action gives for a starting value.
    fn act(&self, action: u64, start: Value) -> Value;

    /// What an ease makes of a part of a clip.
    fn ease(&self, ease: Ease, t: Option<Phase>) -> Option<Phase>;

    /// The value at a part of the way from `start` to `end`.
    fn interp(&self, interp: InterpFn, start: Value, end: Value, t: Option<Phase>) -> Value;
}

} // verus!
