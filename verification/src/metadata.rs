//! The metadata record of a package.

use crate::dependency::Dependency;
use crate::version::Version;
use vstd::prelude::*;

verus! {

/// What a package says of itself: its name and version, who made it, and the
/// packages it depends on.
#[derive(Debug, Clone)]
pub struct ModInfo {
    pub name: String,
    pub version: Version,
    pub title: String,
    pub author: String,
    pub contact: Option<String>,
    pub homepage: Option<String>,
    pub description: Option<String>,
    pub factorio_version: Option<String>,
    pub dependencies: Vec<Dependency>,
}

} // verus!
