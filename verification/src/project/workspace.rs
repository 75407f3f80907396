//! A loaded workspace: its root, configuration, repositories and graph.
use vstd::prelude::*;
use crate::config::repo::RepoConfig;
use crate::config::workspace::WorkspaceConfig;
use crate::ecosystem::EcosystemId;
use crate::graph::DependencyGraph;
use crate::project::repo::{Repo, RepoId};
use crate::text::{concat2, concat3, opt_string_view, str_eq, string_of};

verus! {

/// A workspace: root directory, configuration, repositories (each
/// identifier once) and their dependency graph.
#[derive(Debug)]
pub struct Workspace {
    pub root: String,
    pub config: WorkspaceConfig,
    pub repos: Vec<Repo>,
    pub graph: DependencyGraph,
}

/// `b` appended to `a` as a path: an absolute `b` replaces `a`.
pub open spec fn path_join(a: Seq<char>, b: Seq<char>) -> Seq<char> {
    if b.len() > 0 && b[0] == '/' {
        b
    } else if a.len() == 0 {
        b
    } else if a.last() == '/' {
        a + b
    } else {
        a + "/"@ + b
    }
}

/// `b` appended to `a` as a path.
pub fn join_path(a: &str, b: &str) -> (r: String)
    ensures
        r@ == path_join(a@, b@),
{
    let bc = crate::text::to_chars(b);
    if bc.len() > 0 && bc[0] == '/' {
        return string_of(b);
    }
    let ac = crate::text::to_chars(a);
    if ac.len() == 0 {
        return string_of(b);
    }
    if ac[ac.len() - 1] == '/' {
        return concat2(a, b);
    }
    concat3(a, "/", b)
}

/// `e` is the ecosystem named `value`: one of the known names, else a
/// custom ecosystem with that name.
pub open spec fn ecosystem_named(e: EcosystemId, value: Seq<char>) -> bool {
    match e {
        EcosystemId::Python => value == "python"@,
        EcosystemId::Rust => value == "rust"@,
        EcosystemId::Node => value == "node"@,
        EcosystemId::Go => value == "go"@,
        EcosystemId::Java => value == "java"@,
        EcosystemId::Custom(s) => s@ == value && value != "python"@ && value != "rust"@ && value != "node"@ && value
            != "go"@ && value != "java"@,
    }
}

/// The ecosystem named in a repository's configuration.
pub fn parse_ecosystem(value: &str) -> (r: Option<EcosystemId>)
    ensures
        r matches Some(e) && ecosystem_named(e, value@),
{
    if str_eq(value, "python") {
        Some(EcosystemId::Python)
    } else if str_eq(value, "rust") {
        Some(EcosystemId::Rust)
    } else if str_eq(value, "node") {
        Some(EcosystemId::Node)
    } else if str_eq(value, "go") {
        Some(EcosystemId::Go)
    } else if str_eq(value, "java") {
        Some(EcosystemId::Java)
    } else {
        Some(EcosystemId::Custom(string_of(value)))
    }
}

/// The public host of a known forge type.
pub open spec fn spec_host_for_forge(forge_type: Seq<char>) -> Option<Seq<char>> {
    if forge_type == "github"@ {
        Some("github.com"@)
    } else if forge_type == "gitlab"@ {
        Some("gitlab.com"@)
    } else {
        None
    }
}

/// The public host of a known forge type.
pub fn default_host_for_forge(forge_type: &str) -> (r: Option<String>)
    ensures
        opt_string_view(r) == spec_host_for_forge(forge_type@),
{
    if str_eq(forge_type, "github") {
        Some(string_of("github.com"))
    } else if str_eq(forge_type, "gitlab") {
        Some(string_of("gitlab.com"))
    } else {
        None
    }
}

/// The clone URL of a repository without one configured: under the forge's
/// default group, by SSH unless the configured protocol is `https`; none
/// without a forge, a default group or a known host.
pub open spec fn spec_default_url(config: WorkspaceConfig, repo_key: Seq<char>) -> Option<Seq<char>> {
    match config.forge {
        None => None,
        Some(forge) => match forge.default_group {
            None => None,
            Some(group) => {
                let host = match forge.host {
                    Some(h) => Some(h@),
                    None => spec_host_for_forge(forge.forge_type@),
                };
                match host {
                    None => None,
                    Some(h) => {
                        let path = group@ + "/"@ + repo_key + ".git"@;
                        let https = match config.defaults {
                            Some(d) => match d.clone_protocol {
                                Some(p) => p@ == "https"@,
                                None => false,
                            },
                            None => false,
                        };
                        if https {
                            Some("https://"@ + h + "/"@ + path)
                        } else {
                            Some("git@"@ + h + ":"@ + path)
                        }
                    },
                }
            },
        },
    }
}

/// The clone URL of a repository without one configured.
pub fn build_default_url(config: &WorkspaceConfig, repo_key: &str) -> (r: Option<String>)
    ensures
        opt_string_view(r) == spec_default_url(*config, repo_key@),
{
    let forge = match &config.forge {
        Some(f) => f,
        None => return None,
    };
    let group = match &forge.default_group {
        Some(g) => g,
        None => return None,
    };
    let host = match &forge.host {
        Some(h) => h.clone(),
        None => match default_host_for_forge(forge.forge_type.as_str()) {
            Some(h) => h,
            None => return None,
        },
    };
    let https = match &config.defaults {
        Some(d) => match &d.clone_protocol {
            Some(p) => str_eq(p.as_str(), "https"),
            None => false,
        },
        None => false,
    };
    let path0 = concat3(group.as_str(), "/", repo_key);
    let path = concat2(path0.as_str(), ".git");
    if https {
        let head = concat3("https://", host.as_str(), "/");
        Some(concat2(head.as_str(), path.as_str()))
    } else {
        let head = concat3("git@", host.as_str(), ":");
        Some(concat2(head.as_str(), path.as_str()))
    }
}

/// A copy of a list of texts.
pub fn copy_strings(v: &Vec<String>) -> (r: Vec<String>)
    ensures
        crate::order::views(r@) == crate::order::views(v@),
{
    let mut out: Vec<String> = Vec::new();
    let mut i: usize = 0;
    while i < v.len()
        invariant
            i <= v@.len(),
            crate::order::views(out@) =~= crate::order::views(v@).take(i as int),
        decreases v@.len() - i,
    {
        let ghost before = crate::order::views(out@);
        out.push(v[i].clone());
        proof {
            assert(crate::order::views(out@) =~= before.push(v@[i as int]@));
        }
        i += 1;
    }
    out
}

/// A copy of an optional text.
pub fn copy_opt(o: &Option<String>) -> (r: Option<String>)
    ensures
        opt_string_view(r) == opt_string_view(*o),
{
    match o {
        Some(s) => Some(s.clone()),
        None => None,
    }
}

/// The directory under the root that holds repositories: the configured
/// one, `repos` when it is empty.
pub open spec fn repos_dir_of(config: WorkspaceConfig) -> Seq<char> {
    if config.workspace.repos_dir@.len() == 0 {
        "repos"@
    } else {
        config.workspace.repos_dir@
    }
}

/// What a repository built from entry `key` of the configuration, with its
/// own configuration `rc`, holds.
pub open spec fn built_repo(r: Repo, root: Seq<char>, config: WorkspaceConfig, key: Seq<char>, entry: crate::config::workspace::RepoEntry, rc: Option<RepoConfig>) -> bool {
    &&& r.id@ == key
    &&& r.path@ == path_join(path_join(root, repos_dir_of(config)), key)
    &&& r.default_branch@ == (match entry.default_branch {
        Some(b) => b@,
        None => match config.defaults {
            Some(d) => match d.default_branch {
                Some(b) => b@,
                None => "main"@,
            },
            None => "main"@,
        },
    })
    &&& r.remote_url@ == (match entry.url {
        Some(u) => u@,
        None => match spec_default_url(config, key) {
            Some(u) => u,
            None => Seq::empty(),
        },
    })
    &&& opt_string_view(r.package_name) == Some(match entry.package_name {
        Some(n) => n@,
        None => match rc {
            Some(c) => match c.package {
                Some(p) => match p.name {
                    Some(n) => n@,
                    None => key,
                },
                None => key,
            },
            None => key,
        },
    })
    &&& crate::order::views(r.depends_on@) == crate::order::views(entry.depends_on@)
    &&& (match rc {
        Some(c) => match c.package {
            Some(p) => match p.ecosystem {
                Some(v) => r.ecosystem matches Some(e) && ecosystem_named(e, v@),
                None => r.ecosystem is None,
            },
            None => r.ecosystem is None,
        },
        None => r.ecosystem is None,
    })
    &&& r.config == rc
    &&& r.external == entry.external
    &&& r.ignored == entry.ignored
}

/// The repositories of the configuration, in its order, each with the
/// configuration read from its directory (`repo_configs`, one per entry).
pub fn build_repos(root: &str, config: &WorkspaceConfig, repo_configs: Vec<Option<RepoConfig>>) -> (r: Vec<Repo>)
    requires
        repo_configs@.len() == config.repos@.len(),
    ensures
        r@.len() == config.repos@.len(),
        forall|k: int|
            0 <= k < r@.len() ==> built_repo(#[trigger] r@[k], root@, *config, config.repos@[k].0@, config.repos@[k].1, repo_configs@[k]),
{
    let repos_dir = if config.workspace.repos_dir.unicode_len() == 0 {
        string_of("repos")
    } else {
        config.workspace.repos_dir.clone()
    };
    let base = join_path(root, repos_dir.as_str());
    let ghost rcs = repo_configs@;
    let mut configs = repo_configs;
    let mut out: Vec<Repo> = Vec::new();
    let mut k: usize = 0;
    let n = config.repos.len();
    while k < n
        invariant
            n == config.repos@.len(),
            rcs.len() == n,
            configs@ == rcs.subrange(k as int, n as int),
            base@ == path_join(root@, repos_dir_of(*config)),
            k <= n,
            out@.len() == k,
            forall|j: int|
                0 <= j < k ==> built_repo(#[trigger] out@[j], root@, *config, config.repos@[j].0@, config.repos@[j].1, rcs[j]),
        decreases n - k,
    {
        let key = &config.repos[k].0;
        let entry = &config.repos[k].1;
        let rc = configs.remove(0);
        proof {
            assert(rc == rcs[k as int]);
            assert(configs@ =~= rcs.subrange(k + 1, n as int));
        }
        let default_branch = match &entry.default_branch {
            Some(b) => b.clone(),
            None => match &config.defaults {
                Some(d) => match &d.default_branch {
                    Some(b) => b.clone(),
                    None => string_of("main"),
                },
                None => string_of("main"),
            },
        };
        let remote_url = match &entry.url {
            Some(u) => u.clone(),
            None => match build_default_url(config, key.as_str()) {
                Some(u) => u,
                None => String::new(),
            },
        };
        let package_name = match &entry.package_name {
            Some(n) => n.clone(),
            None => match &rc {
                Some(c) => match &c.package {
                    Some(p) => match &p.name {
                        Some(n) => n.clone(),
                        None => key.clone(),
                    },
                    None => key.clone(),
                },
                None => key.clone(),
            },
        };
        let ecosystem = match &rc {
            Some(c) => match &c.package {
                Some(p) => match &p.ecosystem {
                    Some(v) => parse_ecosystem(v.as_str()),
                    None => None,
                },
                None => None,
            },
            None => None,
        };
        let repo = Repo {
            id: RepoId::new(key.as_str()),
            path: join_path(base.as_str(), key.as_str()),
            remote_url,
            default_branch,
            package_name: Some(package_name),
            depends_on: copy_strings(&entry.depends_on),
            ecosystem,
            config: rc,
            external: entry.external,
            ignored: entry.ignored,
        };
        let ghost before = out@;
        out.push(repo);
        proof {
            assert forall|j: int|
                0 <= j < k + 1 implies built_repo(#[trigger] out@[j], root@, *config, config.repos@[j].0@, config.repos@[j].1, rcs[j]) by {
                if j < k {
                    assert(out@[j] == before[j]);
                }
            }
        }
        k += 1;
    }
    out
}

} // verus!
