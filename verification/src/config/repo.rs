//! Per-repository configuration (`.harmonia.toml` inside a repository).
use vstd::prelude::*;

verus! {

/// A repository's own configuration.
#[derive(Debug, Clone, Default)]
pub struct RepoConfig {
    pub package: Option<PackageConfig>,
    pub versioning: Option<RepoVersioningConfig>,
    pub dependencies: Option<DepsConfig>,
    pub hooks: Option<RepoHooksConfig>,
    pub ci: Option<CiConfig>,
}

/// The package a repository publishes.
#[derive(Debug, Clone, Default)]
pub struct PackageConfig {
    pub name: Option<String>,
    pub ecosystem: Option<String>,
}

/// Where and how a repository's version is read and bumped.
#[derive(Debug, Clone, Default)]
pub struct RepoVersioningConfig {
    pub file: Option<String>,
    pub path: Option<String>,
    pub strategy: Option<String>,
    pub bump_mode: Option<String>,
    pub pattern: Option<String>,
}

/// Where a repository's dependencies are declared and which are internal.
#[derive(Debug, Clone, Default)]
pub struct DepsConfig {
    pub file: Option<String>,
    pub path: Option<String>,
    pub internal_pattern: Option<String>,
    pub internal_packages: Option<Vec<String>>,
}

/// A repository's hooks; `custom` maps a hook name to its command.
#[derive(Debug, Clone, Default)]
pub struct RepoHooksConfig {
    pub disable_workspace_hooks: Option<Vec<String>>,
    pub pre_commit: Option<String>,
    pub pre_push: Option<String>,
    pub custom: Option<Vec<(String, String)>>,
}

/// A repository's CI expectations.
#[derive(Debug, Clone, Default)]
pub struct CiConfig {
    pub required_checks: Option<Vec<String>>,
    pub timeout_minutes: Option<u64>,
}

} // verus!
