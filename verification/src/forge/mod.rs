//! Code-hosting forges: merge requests, issues and CI status as plain values,
//! and the decisions taken on what a forge reports.
use vstd::prelude::*;
use crate::config::workspace::ForgeConfig;
use crate::error::HarmoniaError;
use crate::text::{concat3, string_of, trim_spec, trim_str};

pub mod encode;
pub mod traits;
pub mod github;
pub mod gitlab;

verus! {

/// A forge user.
#[derive(Debug, Clone)]
pub struct User {
    pub id: Option<u64>,
    pub username: String,
}

/// One pipeline (or status context) of a commit.
#[derive(Debug, Clone)]
pub struct Pipeline {
    pub id: String,
    pub status: String,
}

/// One named check of a commit.
#[derive(Debug, Clone)]
pub struct CheckRun {
    pub name: String,
    pub status: String,
}

/// A merge (pull) request.
#[derive(Debug, Clone)]
pub struct MergeRequest {
    pub id: String,
    pub iid: u64,
    pub title: String,
    pub description: String,
    pub source_branch: String,
    pub target_branch: String,
    pub state: MrState,
    pub url: String,
    pub ci_status: Option<CiStatus>,
    pub approvals: Vec<User>,
    pub labels: Vec<String>,
}

/// The state of a merge request.
#[derive(Debug, Clone, Copy, PartialEq, Eq, Structural)]
pub enum MrState {
    Open,
    Merged,
    Closed,
    Draft,
}

/// The CI status of a commit.
#[derive(Debug, Clone)]
pub struct CiStatus {
    pub state: CiState,
    pub pipelines: Vec<Pipeline>,
    pub checks: Vec<CheckRun>,
}

/// The overall CI state of a commit.
#[derive(Debug, Clone, Copy, PartialEq, Eq, Structural)]
pub enum CiState {
    Pending,
    Running,
    Success,
    Failed,
    Canceled,
    Skipped,
}

/// An issue.
#[derive(Debug, Clone)]
pub struct Issue {
    pub id: String,
    pub iid: u64,
    pub title: String,
    pub url: String,
    pub state: IssueState,
}

/// The state of an issue.
#[derive(Debug, Clone, Copy, PartialEq, Eq, Structural)]
pub enum IssueState {
    Open,
    Closed,
}

/// The forges a client exists for.
#[derive(Debug, Clone, Copy, PartialEq, Eq, Structural)]
pub enum ForgeKind {
    GitHub,
    GitLab,
}

/// What a forge client is built from.
#[derive(Debug, Clone)]
pub struct ClientSettings {
    pub kind: ForgeKind,
    pub host: String,
    pub token: String,
    pub default_group: Option<String>,
}

/// The public host of a known forge type.
pub open spec fn spec_default_host(forge_type: Seq<char>) -> Option<Seq<char>> {
    if forge_type == "gitlab"@ {
        Some("gitlab.com"@)
    } else if forge_type == "github"@ {
        Some("github.com"@)
    } else {
        None
    }
}

/// The public host of a known forge type.
pub fn default_host_for_forge_type(forge_type: &str) -> (r: Option<String>)
    ensures
        match r {
            Some(h) => spec_default_host(forge_type@) == Some(h@),
            None => spec_default_host(forge_type@) is None,
        },
{
    if crate::text::str_eq(forge_type, "gitlab") {
        Some(string_of("gitlab.com"))
    } else if crate::text::str_eq(forge_type, "github") {
        Some(string_of("github.com"))
    } else {
        None
    }
}

/// A token, trimmed, unless it is blank.
pub open spec fn usable_token(t: Option<Seq<char>>) -> Option<Seq<char>> {
    match t {
        Some(s) => if trim_spec(s).len() > 0 {
            Some(trim_spec(s))
        } else {
            None
        },
        None => None,
    }
}

/// The token from the environment when it is usable, else the configured
/// one when it is.
pub open spec fn spec_token(config_token: Option<Seq<char>>, env_token: Option<Seq<char>>) -> Option<Seq<char>> {
    if usable_token(env_token) is Some {
        usable_token(env_token)
    } else {
        usable_token(config_token)
    }
}

fn usable(t: Option<&str>) -> (r: Option<String>)
    ensures
        match r {
            Some(s) => usable_token(crate::text::opt_str_view(t)) == Some(s@),
            None => usable_token(crate::text::opt_str_view(t)) is None,
        },
{
    match t {
        Some(s) => {
            let trimmed = trim_str(s);
            if trimmed.unicode_len() > 0 {
                Some(trimmed)
            } else {
                None
            }
        },
        None => None,
    }
}

/// The token to authenticate with: the environment's, else the configured one.
pub fn forge_token_from_sources(config_token: Option<&str>, env_token: Option<String>) -> (r: Option<String>)
    ensures
        match r {
            Some(s) => spec_token(crate::text::opt_str_view(config_token), crate::text::opt_string_view(env_token))
                == Some(s@),
            None => spec_token(crate::text::opt_str_view(config_token), crate::text::opt_string_view(env_token)) is None,
        },
{
    let env = match &env_token {
        Some(t) => usable(Some(t.as_str())),
        None => usable(None),
    };
    if env.is_some() {
        return env;
    }
    usable(config_token)
}

/// How a client for the configured forge is built, given the token found in
/// the environment (if any): the host defaults by forge type, the token comes
/// from the environment or the configuration, and only GitHub and GitLab are
/// supported.
pub fn client_settings(config: &ForgeConfig, env_token: Option<String>) -> (r: Result<ClientSettings, HarmoniaError>)
    ensures
        match r {
            Ok(s) => {
                &&& s.host@ == (match config.host {
                    Some(h) => h@,
                    None => spec_default_host(config.forge_type@)->0,
                })
                &&& (config.host is Some || spec_default_host(config.forge_type@) is Some)
                &&& spec_token(crate::text::opt_string_view(config.token), crate::text::opt_string_view(env_token)) == Some(s.token@)
                &&& (s.kind == ForgeKind::GitHub <==> config.forge_type@ == "github"@)
                &&& (s.kind == ForgeKind::GitLab <==> config.forge_type@ == "gitlab"@)
                &&& crate::text::opt_string_view(s.default_group) == crate::text::opt_string_view(config.default_group)
            },
            Err(HarmoniaError::Other(m)) => if config.host is None && spec_default_host(config.forge_type@) is None {
                m@ == "forge host is required for '"@ + config.forge_type@ + "'"@
            } else if spec_token(crate::text::opt_string_view(config.token), crate::text::opt_string_view(env_token)) is None {
                m@ == "forge token is required (set HARMONIA_FORGE_TOKEN or configure [forge].token)"@
            } else {
                config.forge_type@ != "github"@ && config.forge_type@ != "gitlab"@ && m@ == "forge '"@
                    + config.forge_type@ + "' is not implemented yet"@
            },
            Err(_) => false,
        },
{
    let host = match &config.host {
        Some(h) => h.clone(),
        None => match default_host_for_forge_type(config.forge_type.as_str()) {
            Some(h) => h,
            None => {
                return Err(
                    HarmoniaError::Other(
                        concat3("forge host is required for '", config.forge_type.as_str(), "'"),
                    ),
                );
            },
        },
    };
    let config_token = match &config.token {
        Some(t) => Some(t.as_str()),
        None => None,
    };
    proof {
        assert(crate::text::opt_str_view(config_token) == crate::text::opt_string_view(config.token));
    }
    let token = match forge_token_from_sources(config_token, env_token) {
        Some(t) => t,
        None => {
            return Err(
                HarmoniaError::Other(
                    string_of("forge token is required (set HARMONIA_FORGE_TOKEN or configure [forge].token)"),
                ),
            );
        },
    };
    let default_group = match &config.default_group {
        Some(g) => Some(g.clone()),
        None => None,
    };
    proof {
        reveal_strlit("github");
        reveal_strlit("gitlab");
        assert("github"@[3] != "gitlab"@[3]);
    }
    if crate::text::str_eq(config.forge_type.as_str(), "github") {
        Ok(ClientSettings { kind: ForgeKind::GitHub, host, token, default_group })
    } else if crate::text::str_eq(config.forge_type.as_str(), "gitlab") {
        Ok(ClientSettings { kind: ForgeKind::GitLab, host, token, default_group })
    } else {
        Err(
            HarmoniaError::Other(
                concat3("forge '", config.forge_type.as_str(), "' is not implemented yet"),
            ),
        )
    }
}

/// The project path for a repository on a forge: a repository name that
/// already holds a `/` is used as is; otherwise the default group, trimmed of
/// blanks and slashes, is put in front when it is not empty.
pub open spec fn spec_project_path(default_group: Option<Seq<char>>, repo: Seq<char>) -> Seq<char> {
    let raw = trim_spec(repo);
    if raw.contains('/') {
        raw
    } else {
        match default_group {
            Some(g) => if crate::text::trim_matches_spec(trim_spec(g), '/').len() > 0 {
                crate::text::trim_matches_spec(trim_spec(g), '/') + "/"@ + raw
            } else {
                raw
            },
            None => raw,
        }
    }
}

/// The project path for a repository on a forge.
pub fn project_path(default_group: Option<&str>, repo: &str) -> (r: String)
    ensures
        r@ == spec_project_path(crate::text::opt_str_view(default_group), repo@),
{
    let raw = trim_str(repo);
    let cs = crate::text::to_chars(raw.as_str());
    let mut i: usize = 0;
    while i < cs.len()
        invariant
            cs@ == raw@,
            raw@ == trim_spec(repo@),
            i <= cs@.len(),
            forall|k: int| 0 <= k < i ==> cs@[k] != '/',
        decreases cs@.len() - i,
    {
        if cs[i] == '/' {
            proof {
                assert(raw@.contains('/')) by {
                    assert(raw@[i as int] == '/');
                }
                assert(spec_project_path(crate::text::opt_str_view(default_group), repo@) == raw@);
            }
            return raw;
        }
        i += 1;
    }
    match default_group {
        Some(g) => {
            let trimmed = trim_str(g);
            let group = crate::text::trim_matches_str(trimmed.as_str(), '/');
            if group.unicode_len() > 0 {
                concat3(group.as_str(), "/", raw.as_str())
            } else {
                raw
            }
        },
        None => raw,
    }
}

} // verus!
