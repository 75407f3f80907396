//! Language ecosystems: which files describe a package, and how versions
//! and dependencies are read from and written into them.
use vstd::prelude::*;
use crate::ecosystem::custom::CustomPlugin;
use crate::ecosystem::go::GoPlugin;
use crate::ecosystem::node::NodePlugin;
use crate::ecosystem::python::PythonPlugin;
use crate::ecosystem::rust::RustPlugin;

pub mod go;
pub mod python;
pub mod manifest;
pub mod rust;
pub mod node;
pub mod custom;
pub mod document;
pub mod versioning;

verus! {

/// A package ecosystem.
#[derive(Debug, Clone, PartialEq, Eq, Hash)]
pub enum EcosystemId {
    Python,
    Rust,
    Node,
    Go,
    Java,
    Custom(String),
}

/// The support for one ecosystem.
#[derive(Debug, Clone, Copy)]
pub enum Plugin {
    Python(PythonPlugin),
    Rust(RustPlugin),
    Node(NodePlugin),
    Go(GoPlugin),
    Custom(CustomPlugin),
}

/// The support for an ecosystem; Java and custom ecosystems have only
/// configured commands.
pub open spec fn spec_plugin_for(id: EcosystemId) -> Plugin {
    match id {
        EcosystemId::Python => Plugin::Python(PythonPlugin),
        EcosystemId::Rust => Plugin::Rust(RustPlugin),
        EcosystemId::Node => Plugin::Node(NodePlugin),
        EcosystemId::Go => Plugin::Go(GoPlugin),
        EcosystemId::Java => Plugin::Custom(CustomPlugin),
        EcosystemId::Custom(_) => Plugin::Custom(CustomPlugin),
    }
}

/// The support for an ecosystem.
pub fn plugin_for(id: &EcosystemId) -> (r: Plugin)
    ensures
        r == spec_plugin_for(*id),
{
    match id {
        EcosystemId::Python => Plugin::Python(PythonPlugin),
        EcosystemId::Rust => Plugin::Rust(RustPlugin),
        EcosystemId::Node => Plugin::Node(NodePlugin),
        EcosystemId::Go => Plugin::Go(GoPlugin),
        EcosystemId::Java => Plugin::Custom(CustomPlugin),
        EcosystemId::Custom(_) => Plugin::Custom(CustomPlugin),
    }
}

impl Plugin {
    pub open spec fn spec_id(&self) -> Seq<char> {
        match self {
            Plugin::Python(_) => "python"@,
            Plugin::Rust(_) => "rust"@,
            Plugin::Node(_) => "node"@,
            Plugin::Go(_) => "go"@,
            Plugin::Custom(_) => "custom"@,
        }
    }

    /// The file that describes a package of the ecosystem, if any.
    pub open spec fn spec_manifest(&self) -> Option<Seq<char>> {
        match self {
            Plugin::Python(_) => Some("pyproject.toml"@),
            Plugin::Rust(_) => Some("Cargo.toml"@),
            Plugin::Node(_) => Some("package.json"@),
            Plugin::Go(_) => Some("go.mod"@),
            Plugin::Custom(_) => None,
        }
    }

    pub open spec fn spec_test_command(&self) -> Option<Seq<char>> {
        match self {
            Plugin::Python(_) => Some("pytest"@),
            Plugin::Rust(_) => Some("cargo test"@),
            Plugin::Node(_) => Some("npm test"@),
            Plugin::Go(_) => Some("go test ./..."@),
            Plugin::Custom(_) => None,
        }
    }

    pub open spec fn spec_lint_command(&self) -> Option<Seq<char>> {
        match self {
            Plugin::Python(_) => Some("ruff check ."@),
            Plugin::Rust(_) => Some("cargo clippy"@),
            Plugin::Node(_) => Some("npm run lint"@),
            Plugin::Go(_) => Some("golangci-lint run"@),
            Plugin::Custom(_) => None,
        }
    }

    /// The ecosystem's name.
    pub fn id(&self) -> (r: &'static str)
        ensures
            r@ == self.spec_id(),
    {
        match self {
            Plugin::Python(p) => p.id(),
            Plugin::Rust(p) => p.id(),
            Plugin::Node(p) => p.id(),
            Plugin::Go(p) => p.id(),
            Plugin::Custom(p) => p.id(),
        }
    }

    /// The files that describe a package of the ecosystem.
    pub fn file_patterns(&self) -> (r: Vec<&'static str>)
        ensures
            match self.spec_manifest() {
                Some(m) => r@.len() == 1 && r@[0]@ == m,
                None => r@.len() == 0,
            },
    {
        match self {
            Plugin::Python(p) => p.file_patterns(),
            Plugin::Rust(p) => p.file_patterns(),
            Plugin::Node(p) => p.file_patterns(),
            Plugin::Go(p) => p.file_patterns(),
            Plugin::Custom(p) => p.file_patterns(),
        }
    }

    /// The ecosystem's usual test command.
    pub fn default_test_command(&self) -> (r: Option<&'static str>)
        ensures
            crate::text::opt_str_view(r) == self.spec_test_command(),
    {
        match self {
            Plugin::Python(p) => p.default_test_command(),
            Plugin::Rust(p) => p.default_test_command(),
            Plugin::Node(p) => p.default_test_command(),
            Plugin::Go(p) => p.default_test_command(),
            Plugin::Custom(p) => p.default_test_command(),
        }
    }

    /// The ecosystem's usual lint command.
    pub fn default_lint_command(&self) -> (r: Option<&'static str>)
        ensures
            crate::text::opt_str_view(r) == self.spec_lint_command(),
    {
        match self {
            Plugin::Python(p) => p.default_lint_command(),
            Plugin::Rust(p) => p.default_lint_command(),
            Plugin::Node(p) => p.default_lint_command(),
            Plugin::Go(p) => p.default_lint_command(),
            Plugin::Custom(p) => p.default_lint_command(),
        }
    }
}

} // verus!
