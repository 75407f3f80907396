//! Workspace and repository configuration, as plain values.
pub mod repo;
pub mod resolve;
pub mod tree;
pub mod edit;
pub mod workspace;

use vstd::prelude::*;
use crate::text::{concat2, concat3, string_of};

verus! {

/// Why a workspace or its configuration could not be loaded.
#[derive(Debug)]
pub enum ConfigError {
    WorkspaceNotFound,
    ConfigNotFound(String),
    InvalidWorkspace(String),
    Io(String),
    Toml { path: String, message: String },
}

impl ConfigError {
    pub open spec fn spec_message(&self) -> Seq<char> {
        match self {
            ConfigError::WorkspaceNotFound => "workspace not found"@,
            ConfigError::ConfigNotFound(p) => "config file not found: "@ + p@,
            ConfigError::InvalidWorkspace(p) => "invalid workspace root: "@ + p@,
            ConfigError::Io(m) => "io error: "@ + m@,
            ConfigError::Toml { path, message } => "failed to parse config at "@ + path@ + ": "@ + message@,
        }
    }

    /// The error's text.
    pub fn message(&self) -> (r: String)
        ensures
            r@ == self.spec_message(),
    {
        match self {
            ConfigError::WorkspaceNotFound => string_of("workspace not found"),
            ConfigError::ConfigNotFound(p) => concat2("config file not found: ", p.as_str()),
            ConfigError::InvalidWorkspace(p) => concat2("invalid workspace root: ", p.as_str()),
            ConfigError::Io(m) => concat2("io error: ", m.as_str()),
            ConfigError::Toml { path, message } => {
                let head = concat3("failed to parse config at ", path.as_str(), ": ");
                concat2(head.as_str(), message.as_str())
            },
        }
    }
}

} // verus!
