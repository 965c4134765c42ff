//! Versions of packages and the dependencies between them.
//!
//! A [`Version`] is a totally ordered triple with a canonical text form. A
//! [`DependencyVersion`] is a constraint on versions, a [`DependencyType`] the
//! kind of a dependency, and a [`Dependency`] names a package and carries
//! both. Each of them is read from text and written to text, and a
//! dependency answers whether it allows a candidate package or conflicts with
//! it. The contracts speak of text as sequences of characters.

pub mod decimal;
pub mod dependency;
pub mod dependency_type;
pub mod dependency_version;
pub mod error;
pub mod metadata;
pub mod query;
pub mod text;
pub mod version;

pub use decimal::NumberError;
pub use dependency::Dependency;
pub use dependency::DependencyUtil;
pub use dependency_type::DependencyType;
pub use dependency_version::DependencyVersion;
pub use error::DependencyParseError;
pub use metadata::ModInfo;
pub use query::DependencyExt;
pub use version::Version;
pub use version::VersionParseError;
