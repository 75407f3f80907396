//! Workspace configuration (`.harmonia/config.toml` or `.harmonia.toml`).
use vstd::prelude::*;
use crate::text::string_of;

verus! {

/// The `[workspace]` table.
#[derive(Debug, Clone)]
pub struct WorkspaceSettings {
    pub name: String,
    pub repos_dir: String,
}

impl Default for WorkspaceSettings {
    fn default() -> (r: Self)
        ensures
            r.name@ == Seq::<char>::empty(),
            r.repos_dir@ == "repos"@,
    {
        WorkspaceSettings { name: String::new(), repos_dir: default_repos_dir() }
    }
}

/// The default directory, under the workspace root, that holds repositories.
pub fn default_repos_dir() -> (r: String)
    ensures
        r@ == "repos"@,
{
    string_of("repos")
}

/// The whole workspace configuration; `repos` maps a repository key to its
/// entry, each key once.
#[derive(Debug, Clone, Default)]
pub struct WorkspaceConfig {
    pub workspace: WorkspaceSettings,
    pub forge: Option<ForgeConfig>,
    pub repos: Vec<(String, RepoEntry)>,
    pub groups: Option<GroupsConfig>,
    pub defaults: Option<DefaultsConfig>,
    pub hooks: Option<HooksConfig>,
    pub mr: Option<MrConfig>,
    pub versioning: Option<VersioningConfig>,
    pub changesets: Option<ChangesetsConfig>,
}

/// The `[forge]` table.
#[derive(Debug, Clone, Default)]
pub struct ForgeConfig {
    pub forge_type: String,
    pub host: Option<String>,
    pub default_group: Option<String>,
    pub token: Option<String>,
}

/// One entry of the `[repos]` table.
#[derive(Debug, Clone, Default)]
pub struct RepoEntry {
    pub url: Option<String>,
    pub default_branch: Option<String>,
    pub package_name: Option<String>,
    pub depends_on: Vec<String>,
    pub external: bool,
    pub ignored: bool,
}

/// The `[groups]` table: an optional default group and named groups.
#[derive(Debug, Clone, Default)]
pub struct GroupsConfig {
    pub default: Option<String>,
    pub groups: Vec<(String, Vec<String>)>,
}

/// The `[defaults]` table.
#[derive(Debug, Clone, Default)]
pub struct DefaultsConfig {
    pub default_branch: Option<String>,
    pub clone_protocol: Option<String>,
    pub clone_depth: Option<String>,
    pub include_untracked: Option<bool>,
}

/// The `[hooks]` table; `custom` maps a hook name to its command.
#[derive(Debug, Clone, Default)]
pub struct HooksConfig {
    pub pre_commit: Option<String>,
    pub pre_push: Option<String>,
    pub post_mr_create: Option<String>,
    pub custom: Option<Vec<(String, String)>>,
}

/// The `[mr]` table.
#[derive(Debug, Clone, Default)]
pub struct MrConfig {
    pub template: Option<String>,
    pub link_strategy: Option<String>,
    pub create_tracking_issue: Option<bool>,
    pub issue_template: Option<String>,
    pub add_trailers: Option<bool>,
    pub labels: Option<Vec<String>>,
    pub require_tests: Option<bool>,
    pub draft: Option<bool>,
}

/// The `[versioning]` table.
#[derive(Debug, Clone, Default)]
pub struct VersioningConfig {
    pub strategy: Option<String>,
    pub bump_mode: Option<String>,
    pub calver_format: Option<String>,
    pub cascade_bumps: Option<bool>,
}

/// The `[changesets]` table.
#[derive(Debug, Clone, Default)]
pub struct ChangesetsConfig {
    pub enabled: Option<bool>,
    pub dir: Option<String>,
}

} // verus!
