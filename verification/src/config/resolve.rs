//! Locating a workspace's root and configuration file.
use vstd::prelude::*;
use crate::order::{contains_str, views};
use crate::text::{find_sub, opt_string_view, str_contains, string_of};

verus! {

/// A workspace root and its configuration file.
#[derive(Debug, Clone)]
pub struct ResolvedWorkspace {
    pub root: String,
    pub config_path: String,
}

/// Where the workspace is taken from, in order of precedence: both
/// `--workspace` and `--config`, `--workspace`, `--config`,
/// `HARMONIA_WORKSPACE`, `HARMONIA_CONFIG`, else a search upwards from the
/// current directory.
#[derive(Debug, Clone, PartialEq, Eq)]
pub enum WorkspaceSource {
    RootAndConfig(String, String),
    Root(String),
    Config(String),
    Search,
}

/// The source as plain values: a tag and the texts it carries.
pub open spec fn source_view(s: WorkspaceSource) -> (int, Seq<char>, Seq<char>) {
    match s {
        WorkspaceSource::RootAndConfig(r, c) => (0, r@, c@),
        WorkspaceSource::Root(r) => (1, r@, Seq::empty()),
        WorkspaceSource::Config(c) => (2, Seq::empty(), c@),
        WorkspaceSource::Search => (3, Seq::empty(), Seq::empty()),
    }
}

/// Where the workspace is taken from.
pub open spec fn spec_workspace_source(
    root: Option<Seq<char>>,
    config: Option<Seq<char>>,
    env_workspace: Option<Seq<char>>,
    env_config: Option<Seq<char>>,
) -> (int, Seq<char>, Seq<char>) {
    match (root, config) {
        (Some(r), Some(c)) => (0, r, c),
        (Some(r), None) => (1, r, Seq::empty()),
        (None, Some(c)) => (2, Seq::empty(), c),
        (None, None) => match env_workspace {
            Some(r) => (1, r, Seq::empty()),
            None => match env_config {
                Some(c) => (2, Seq::empty(), c),
                None => (3, Seq::empty(), Seq::empty()),
            },
        },
    }
}

/// Where the workspace is taken from, given the command-line flags and the
/// two environment variables.
pub fn workspace_source(
    root: Option<String>,
    config: Option<String>,
    env_workspace: Option<String>,
    env_config: Option<String>,
) -> (r: WorkspaceSource)
    ensures
        source_view(r) == spec_workspace_source(
            opt_string_view(root),
            opt_string_view(config),
            opt_string_view(env_workspace),
            opt_string_view(env_config),
        ),
{
    match (root, config) {
        (Some(r), Some(c)) => WorkspaceSource::RootAndConfig(r, c),
        (Some(r), None) => WorkspaceSource::Root(r),
        (None, Some(c)) => WorkspaceSource::Config(c),
        (None, None) => match env_workspace {
            Some(r) => WorkspaceSource::Root(r),
            None => match env_config {
                Some(c) => WorkspaceSource::Config(c),
                None => WorkspaceSource::Search,
            },
        },
    }
}

/// The tables that mark a `.harmonia.toml` as a workspace configuration.
pub open spec fn marker_tables() -> Seq<Seq<char>> {
    seq!["workspace"@, "repos"@, "groups"@, "defaults"@, "forge"@, "mr"@, "changesets"@]
}

/// Some marker table is among `keys`.
pub open spec fn has_marker_key(keys: Seq<Seq<char>>) -> bool {
    exists|i: int| 0 <= i < marker_tables().len() && keys.contains(#[trigger] marker_tables()[i])
}

/// Some marker table header (`[workspace]` and so on) occurs in the text.
pub open spec fn has_marker_header(contents: Seq<char>) -> bool {
    exists|i: int|
        0 <= i < marker_tables().len() && find_sub(contents, "["@ + #[trigger] marker_tables()[i] + "]"@) is Some
}

/// Whether a `.harmonia.toml` configures a workspace (and not only a
/// repository): by its top-level tables when it parses as TOML (`keys`),
/// else by the table headers its text holds.
pub open spec fn spec_looks_like_workspace_config(contents: Seq<char>, keys: Option<Seq<Seq<char>>>) -> bool {
    match keys {
        Some(k) => has_marker_key(k),
        None => has_marker_header(contents),
    }
}

/// The marker tables.
fn markers() -> (r: Vec<&'static str>)
    ensures
        r@.len() == marker_tables().len(),
        forall|i: int| 0 <= i < r@.len() ==> #[trigger] r@[i]@ == marker_tables()[i],
{
    vec!["workspace", "repos", "groups", "defaults", "forge", "mr", "changesets"]
}

/// Whether a marker table is among the keys.
fn any_marker_key(k: &Vec<String>) -> (r: bool)
    ensures
        r == has_marker_key(views(k@)),
{
    let m = markers();
    let mut i: usize = 0;
    while i < m.len()
        invariant
            i <= m@.len(),
            m@.len() == marker_tables().len(),
            forall|j: int| 0 <= j < m@.len() ==> #[trigger] m@[j]@ == marker_tables()[j],
            forall|j: int| 0 <= j < i ==> !views(k@).contains(#[trigger] marker_tables()[j]),
        decreases m@.len() - i,
    {
        if contains_str(k, m[i]) {
            proof {
                assert(views(k@).contains(marker_tables()[i as int]));
            }
            return true;
        }
        i += 1;
    }
    false
}

/// Whether a marker table header occurs in the text.
fn any_marker_header(contents: &str) -> (r: bool)
    ensures
        r == has_marker_header(contents@),
{
    let m = markers();
    let mut i: usize = 0;
    while i < m.len()
        invariant
            i <= m@.len(),
            m@.len() == marker_tables().len(),
            forall|j: int| 0 <= j < m@.len() ==> #[trigger] m@[j]@ == marker_tables()[j],
            forall|j: int| 0 <= j < i ==> find_sub(contents@, "["@ + #[trigger] marker_tables()[j] + "]"@) is None,
        decreases m@.len() - i,
    {
        let header = crate::text::concat3("[", m[i], "]");
        if str_contains(contents, header.as_str()) {
            proof {
                assert(header@ == "["@ + marker_tables()[i as int] + "]"@);
            }
            return true;
        }
        i += 1;
    }
    false
}

/// Whether a `.harmonia.toml` configures a workspace.
pub fn looks_like_workspace_config(contents: &str, keys: Option<Vec<String>>) -> (r: bool)
    ensures
        r == spec_looks_like_workspace_config(contents@, match keys {
            Some(k) => Some(views(k@)),
            None => None,
        }),
{
    match keys {
        Some(k) => any_marker_key(&k),
        None => any_marker_header(contents),
    }
}

} // verus!
