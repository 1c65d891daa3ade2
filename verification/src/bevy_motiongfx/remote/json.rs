//! Values as they travel.
use vstd::prelude::*;

verus! {

/// A number as it travels.
#[derive(Debug, Clone, Copy, PartialEq, Eq, Structural)]
pub enum Number {
    PosInt(u64),
    NegInt(i64),
    /// The bits of a double-precision number.
    Float(u64),
}

/// A value as it travels.
#[derive(Debug)]
pub enum Json {
    Null,
    Number(Number),
    /// The text of anything else.
    Other(String),
}

impl Json {
    /// A copy of the value.
    pub fn copy(&self) -> (copy: Self)
        ensures
            copy == *self,
    {
        match self {
            Json::Null => Json::Null,
            Json::Number(number) => Json::Number(*number),
            Json::Other(text) => Json::Other(text.clone()),
        }
    }

    /// Whether the value is null.
    pub fn is_null(&self) -> (is_null: bool)
        ensures
            is_null == (self is Null),
    {
        match self {
            Json::Null => true,
            _ => false,
        }
    }

    /// The number, if the value is one.
    pub open spec fn number(self) -> Option<Number> {
        match self {
            Json::Number(number) => Some(number),
            _ => None,
        }
    }

    /// The number, if the value is one.
    pub fn as_number(&self) -> (number: Option<Number>)
        ensures
            number == self.number(),
    {
        match self {
            Json::Number(number) => Some(*number),
            _ => None,
        }
    }
}

} // verus!
