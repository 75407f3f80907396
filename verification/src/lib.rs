//! Verified core of a poly-repo orchestrator: version arithmetic, dependency
//! graph algorithms, constraint analysis, changeset selection and the pure
//! decision helpers used by the command line front end.
pub mod text;
pub mod numbers;
pub mod order;
pub mod project;
pub mod config;
pub mod ecosystem;
pub mod graph;
pub mod error;
pub mod forge;
pub mod git;
pub mod cli;
