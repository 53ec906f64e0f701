//! The two disjoint error families of the engine: configuration errors,
//! raised only while constructing a formatter, and format errors, raised
//! only while formatting one value.

use vstd::prelude::*;

verus! {

/// An error raised while building a formatter from a name and arguments.
/// The payload names the offending formatter name, key, or value.
#[derive(Debug, Clone)]
pub enum ConfigError {
    /// The formatter name is not one of the recognized ones.
    UnknownFormatter(String),
    /// An argument key is not recognized by the named formatter.
    UnknownArg(String),
    /// An argument value does not have the shape its key requires.
    BadValue(String),
    /// `max_width` is smaller than `min_width`.
    InvalidWidths,
    /// A rotation interval below the smallest accepted one was configured.
    RotIntervalTooSmall,
}

/// An error raised while formatting one value with one formatter.
#[derive(Debug, Clone, PartialEq, Eq, Structural)]
pub enum FormatError {
    /// The value variant is not one the formatter accepts.
    TypeMismatch,
    /// A conversion between units of different physical dimensions was asked for.
    UnitMismatch,
    /// The formatter deliberately has no rendering for this value yet.
    NotImplemented,
}

} // verus!
