//! The failures of the dependency parsers.

use crate::decimal::error_text;
use crate::decimal::NumberError;
use vstd::prelude::*;

verus! {

/// Why a text is not a dependency, a dependency type or a version constraint.
#[derive(Debug, Clone, Copy, PartialEq, Eq, Structural, Hash)]
pub enum DependencyParseError {
    /// The marker is none of `!`, `?`, `(?)`, `~` and the empty text.
    InvalidType,
    /// A constraint has a comparator and no version after it.
    MissingVersion,
    /// The version of a constraint has a part that is no number.
    InvalidNumber(NumberError),
    /// The comparator of a constraint is none of `<`, `<=`, `=`, `>=`, `>`.
    InvalidComparator,
    /// The dependency is empty or holds white space only.
    EmptyDependency,
}

/// The message that goes with each failure.
pub open spec fn failure_text(e: DependencyParseError) -> Seq<char> {
    match e {
        DependencyParseError::InvalidType => "Invalid dependency type"@,
        DependencyParseError::MissingVersion => "Invalid dependency version: failed to get version"@,
        DependencyParseError::InvalidNumber(cause) => error_text(cause),
        DependencyParseError::InvalidComparator => "Invalid dependency version"@,
        DependencyParseError::EmptyDependency => "Invalid dependency: empty string"@,
    }
}

impl DependencyParseError {
    /// The message that goes with this failure.
    pub fn message(&self) -> (m: &'static str)
        ensures
            m@ == failure_text(*self),
    {
        match self {
            DependencyParseError::InvalidType => "Invalid dependency type",
            DependencyParseError::MissingVersion => {
                "Invalid dependency version: failed to get version"
            },
            DependencyParseError::InvalidNumber(cause) => cause.message(),
            DependencyParseError::InvalidComparator => "Invalid dependency version",
            DependencyParseError::EmptyDependency => "Invalid dependency: empty string",
        }
    }
}

} // verus!
