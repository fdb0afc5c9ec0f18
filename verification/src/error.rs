//! Typed failures of the reshaping engine.

use vstd::prelude::*;

verus! {

/// The kind of value a transformation expected to find.
#[derive(Debug, Clone, Copy, PartialEq, Eq, Structural)]
pub enum Shape {
    Object,
    Array,
}

/// A navigation segment does not exist in the current object.
#[derive(Debug, PartialEq, Eq)]
pub struct PathNotFound {
    pub at_path: String,
}

/// Navigation hit a value that is not an object before the path was
/// exhausted.
#[derive(Debug, PartialEq, Eq)]
pub struct WrongValueAtPath {
    pub at_path: String,
}

/// Every way a reshaping operation can fail. Each variant names the input
/// position that caused it.
#[derive(Debug, PartialEq, Eq)]
pub enum ReshapeError {
    /// See [`PathNotFound`].
    PathNotFound(PathNotFound),
    /// See [`WrongValueAtPath`].
    NotAnObject(WrongValueAtPath),
    /// The value targeted for a transformation is not of the kind the
    /// operation requires. `at_path` is the object key under which the
    /// mismatch sits, or empty for the transformation's own target.
    WrongShape { expected: Shape, at_path: String },
    /// An entry's value already carries the field the `Integrate` strategy
    /// would inject.
    KeyFieldCollision { key: String },
    /// An array element lacks the field that should become its key.
    MissingKeyField { field: String },
    /// The extracted key field does not hold a string.
    NonStringKey { field: String },
    /// Two array elements produce the same key.
    DuplicateKey { key: String },
}

/// The mathematical shape of a [`ReshapeError`].
pub enum ErrV {
    PathNotFound { at_segment: Seq<char> },
    NotAnObject { at_segment: Seq<char> },
    WrongShape { expected: Shape, at_path: Seq<char> },
    KeyFieldCollision { key: Seq<char> },
    MissingKeyField { field: Seq<char> },
    NonStringKey { field: Seq<char> },
    DuplicateKey { key: Seq<char> },
}

impl ReshapeError {
    /// The mathematical view of this error.
    pub open spec fn v(self) -> ErrV {
        match self {
            ReshapeError::PathNotFound(e) => ErrV::PathNotFound { at_segment: e.at_path@ },
            ReshapeError::NotAnObject(e) => ErrV::NotAnObject { at_segment: e.at_path@ },
            ReshapeError::WrongShape { expected, at_path } => ErrV::WrongShape {
                expected,
                at_path: at_path@,
            },
            ReshapeError::KeyFieldCollision { key } => ErrV::KeyFieldCollision { key: key@ },
            ReshapeError::MissingKeyField { field } => ErrV::MissingKeyField { field: field@ },
            ReshapeError::NonStringKey { field } => ErrV::NonStringKey { field: field@ },
            ReshapeError::DuplicateKey { key } => ErrV::DuplicateKey { key: key@ },
        }
    }
}

} // verus!
