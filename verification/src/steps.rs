//! The data carried by the container build steps that copy from other
//! containers or sub-configurations, as plain values, with the dependency
//! relation each step declares.

use vstd::prelude::*;

verus! {

/// Builds from another container's setup steps.
pub struct Container(pub String);

/// Builds from a source directory inside another container.
pub struct Build {
    pub container: String,
    pub source: String,
    pub path: Option<String>,
    pub temporary_mount: Option<String>,
    pub content_hash: bool,
}

/// Where a sub-configuration comes from, when it comes from git.
pub struct GitSource {
    pub url: String,
    pub revision: Option<String>,
    pub branch: Option<String>,
}

/// Where a sub-configuration comes from.
pub enum Source {
    Git(GitSource),
    Container(String),
    Directory,
}

/// Builds a container defined in a sub-configuration file.
pub struct SubConfig {
    pub source: Source,
    pub path: String,
    pub container: String,
    pub cache: Option<bool>,
}

/// Copies binaries and their dynamic library dependencies from another
/// container.
pub struct LddCopy {
    pub libraries_from_container: String,
    pub binaries: Vec<String>,
}

impl Container {
    /// The container this step depends on: always the named one.
    pub fn is_dependent_on<'a>(&'a self) -> (r: Option<&'a str>)
        ensures
            r is Some && r->0@ == self.0@,
    {
        Some(self.0.as_str())
    }
}

impl Build {
    /// The container this step depends on: always the source container.
    pub fn is_dependent_on<'a>(&'a self) -> (r: Option<&'a str>)
        ensures
            r is Some && r->0@ == self.container@,
    {
        Some(self.container.as_str())
    }
}

impl SubConfig {
    /// The container this step depends on: the source container when the
    /// sub-configuration comes from one, nothing otherwise.
    pub fn is_dependent_on<'a>(&'a self) -> (r: Option<&'a str>)
        ensures
            match self.source {
                Source::Container(_) => r is Some && r->0@ == self.source->Container_0@,
                _ => r is None,
            },
    {
        match &self.source {
            Source::Directory => None,
            Source::Container(name) => Some(name.as_str()),
            Source::Git(_) => None,
        }
    }
}

impl LddCopy {
    /// The container this step depends on: always the library source.
    pub fn is_dependent_on<'a>(&'a self) -> (r: Option<&'a str>)
        ensures
            r is Some && r->0@ == self.libraries_from_container@,
    {
        Some(self.libraries_from_container.as_str())
    }
}

} // verus!
