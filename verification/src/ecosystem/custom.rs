//! Ecosystems without built-in support: nothing is read or written.
use vstd::prelude::*;
use crate::error::HarmoniaError;
use crate::project::repo::{Dependency, deps_parsed};
use crate::project::version::Version;
use crate::text::string_of;

verus! {

/// An ecosystem configured by commands only.
#[derive(Debug, Clone, Copy)]
pub struct CustomPlugin;

impl CustomPlugin {
    pub fn id(&self) -> (r: &'static str)
        ensures
            r@ == "custom"@,
    {
        "custom"
    }

    /// No file describes such a package.
    pub fn file_patterns(&self) -> (r: Vec<&'static str>)
        ensures
            r@.len() == 0,
    {
        Vec::new()
    }

    pub fn parse_version(&self, path: &str, content: &str) -> (r: Result<Option<Version>, HarmoniaError>)
        ensures
            r matches Ok(None),
    {
        Ok(None)
    }

    pub fn parse_dependencies(&self, path: &str, content: &str) -> (r: Result<Vec<Dependency>, HarmoniaError>)
        ensures
            r matches Ok(v) ==> deps_parsed(v@),
            r matches Ok(v) && v@.len() == 0,
    {
        Ok(Vec::new())
    }

    pub fn update_version(&self, path: &str, content: &str, new_version: &Version) -> (r: Result<String, HarmoniaError>)
        ensures
            r matches Ok(s) && s@ == content@,
    {
        Ok(string_of(content))
    }

    pub fn update_dependency(&self, path: &str, content: &str, dep: &str, constraint: &str) -> (r: Result<
        String,
        HarmoniaError,
    >)
        ensures
            r matches Ok(s) && s@ == content@,
    {
        Ok(string_of(content))
    }

    pub fn default_test_command(&self) -> (r: Option<&'static str>)
        ensures
            r is None,
    {
        None
    }

    pub fn default_lint_command(&self) -> (r: Option<&'static str>)
        ensures
            r is None,
    {
        None
    }
}

} // verus!
