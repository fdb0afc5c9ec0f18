//! A verified JSON value-reshaping engine.
//!
//! The library owns a plain JSON value model and the logic that navigates
//! into a nested value by a dotted path, validates the shape found there,
//! and converts between the object and array representations of the same
//! data. Reading, parsing, formatting and writing are left to callers.

pub mod error;
pub mod laws;
pub mod path;
pub mod reshape;
pub mod value;

pub use error::PathNotFound;
pub use error::ReshapeError;
pub use error::Shape;
pub use error::WrongValueAtPath;
pub use reshape::Operation;
pub use reshape::ToArrayStrategy;
pub use value::JsonV;
pub use value::Value;
