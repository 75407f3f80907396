//! Test and lint commands: which command runs, and how it is adjusted.
use vstd::prelude::*;
use crate::config::repo::RepoConfig;
use crate::config::workspace::HooksConfig;
use crate::ecosystem::{EcosystemId, plugin_for};
use crate::order::views;
use crate::project::repo::Repo;
use crate::project::workspace::Workspace;
use crate::text::{concat2, concat3, find_sub, opt_str_view, opt_string_view, push_char, push_str, split_whitespace, starts,
    str_contains, str_eq, str_starts, string_of, to_chars, trim_start_spec, trim_start_str, words_spec};

verus! {

/// Which quality command.
#[derive(Debug, Clone, Copy, PartialEq, Eq, Structural)]
pub enum QualityKind {
    Test,
    Lint,
}

impl QualityKind {
    pub open spec fn spec_as_str(self) -> Seq<char> {
        match self {
            QualityKind::Test => "test"@,
            QualityKind::Lint => "lint"@,
        }
    }

    /// The command's name, also its key among custom hooks.
    pub fn as_str(self) -> (r: &'static str)
        ensures
            r@ == self.spec_as_str(),
    {
        match self {
            QualityKind::Test => "test",
            QualityKind::Lint => "lint",
        }
    }
}

/// A value quoted for a POSIX shell: in single quotes, each `'` written as
/// `'"'"'`.
pub open spec fn spec_single_quote(v: Seq<char>) -> Seq<char> {
    "'"@ + quote_body(v) + "'"@
}

/// The inside of a single-quoted value.
pub open spec fn quote_body(v: Seq<char>) -> Seq<char>
    decreases v.len(),
{
    if v.len() == 0 {
        Seq::empty()
    } else {
        quote_body(v.drop_last()) + (if v.last() == '\'' {
            "'\"'\"'"@
        } else {
            seq![v.last()]
        })
    }
}

/// A value quoted for a POSIX shell.
pub fn shell_single_quote(value: &str) -> (r: String)
    ensures
        r@ == spec_single_quote(value@),
{
    let cs = to_chars(value);
    let mut out = string_of("'");
    let ghost head = out@;
    let mut i: usize = 0;
    while i < cs.len()
        invariant
            cs@ == value@,
            i <= cs@.len(),
            out@ == head + quote_body(cs@.take(i as int)),
        decreases cs@.len() - i,
    {
        proof {
            assert(cs@.take(i + 1).drop_last() =~= cs@.take(i as int));
            assert(cs@.take(i + 1).last() == cs@[i as int]);
        }
        let ghost before = out@;
        if cs[i] == '\'' {
            push_str(&mut out, "'\"'\"'");
        } else {
            push_char(&mut out, cs[i]);
        }
        proof {
            assert(out@ =~= before + (if cs@[i as int] == '\'' {
                "'\"'\"'"@
            } else {
                seq![cs@[i as int]]
            }));
        }
        i += 1;
    }
    proof {
        assert(cs@.take(cs@.len() as int) =~= cs@);
    }
    push_str(&mut out, "'");
    out
}

/// A test command narrowed to tests matching `filter`, in the ecosystem's
/// way.
pub open spec fn spec_test_filter(command: Seq<char>, eco: Option<EcosystemId>, filter: Seq<char>) -> Seq<char> {
    let q = spec_single_quote(filter);
    match eco {
        Some(EcosystemId::Python) => command + " -k "@ + q,
        Some(EcosystemId::Go) => command + " -run "@ + q,
        Some(EcosystemId::Node) => command + " -- "@ + q,
        _ => command + " "@ + q,
    }
}

/// A test command narrowed to tests matching `filter`.
pub fn apply_test_filter(command: &str, repo: &Repo, filter: &str) -> (r: String)
    ensures
        r@ == spec_test_filter(command@, repo.ecosystem, filter@),
{
    let quoted = shell_single_quote(filter);
    match &repo.ecosystem {
        Some(EcosystemId::Python) => concat3(command, " -k ", quoted.as_str()),
        Some(EcosystemId::Go) => concat3(command, " -run ", quoted.as_str()),
        Some(EcosystemId::Node) => concat3(command, " -- ", quoted.as_str()),
        _ => concat3(command, " ", quoted.as_str()),
    }
}

/// A test command with coverage turned on where the ecosystem supports it
/// and the command does not already ask for it; whether it was changed.
pub open spec fn spec_test_coverage(command: Seq<char>, eco: Option<EcosystemId>) -> (Seq<char>, bool) {
    match eco {
        Some(EcosystemId::Python) => if find_sub(command, "--cov"@) is None {
            (command + " --cov"@, true)
        } else {
            (command, false)
        },
        Some(EcosystemId::Go) => if find_sub(command, "-cover"@) is None {
            (command + " -cover"@, true)
        } else {
            (command, false)
        },
        _ => (command, false),
    }
}

/// A test command with coverage turned on.
pub fn apply_test_coverage(command: &str, repo: &Repo) -> (r: (String, bool))
    ensures
        (r.0@, r.1) == spec_test_coverage(command@, repo.ecosystem),
{
    match &repo.ecosystem {
        Some(EcosystemId::Python) => {
            if !str_contains(command, "--cov") {
                (concat2(command, " --cov"), true)
            } else {
                (string_of(command), false)
            }
        },
        Some(EcosystemId::Go) => {
            if !str_contains(command, "-cover") {
                (concat2(command, " -cover"), true)
            } else {
                (string_of(command), false)
            }
        },
        _ => (string_of(command), false),
    }
}

/// A lint command that fixes what it can, where the ecosystem's linter
/// supports it; whether the command fixes.
pub open spec fn spec_lint_fix(command: Seq<char>, eco: Option<EcosystemId>) -> (Seq<char>, bool) {
    if find_sub(command, "--fix"@) is Some {
        (command, true)
    } else {
        match eco {
            Some(EcosystemId::Rust) => if starts(trim_start_spec(command), "cargo clippy"@) {
                (command + " --fix --allow-dirty --allow-staged"@, true)
            } else {
                (command, false)
            },
            Some(EcosystemId::Python) => if starts(trim_start_spec(command), "ruff check"@) {
                (command + " --fix"@, true)
            } else {
                (command, false)
            },
            Some(EcosystemId::Go) => if find_sub(command, "golangci-lint"@) is Some {
                (command + " --fix"@, true)
            } else {
                (command, false)
            },
            Some(EcosystemId::Node) => (command + " -- --fix"@, true),
            _ => (command, false),
        }
    }
}

/// A lint command that fixes what it can.
pub fn apply_lint_fix(command: &str, repo: &Repo) -> (r: (String, bool))
    ensures
        (r.0@, r.1) == spec_lint_fix(command@, repo.ecosystem),
{
    if str_contains(command, "--fix") {
        return (string_of(command), true);
    }
    let lead = trim_start_str(command);
    match &repo.ecosystem {
        Some(EcosystemId::Rust) => {
            if str_starts(lead.as_str(), "cargo clippy") {
                (concat2(command, " --fix --allow-dirty --allow-staged"), true)
            } else {
                (string_of(command), false)
            }
        },
        Some(EcosystemId::Python) => {
            if str_starts(lead.as_str(), "ruff check") {
                (concat2(command, " --fix"), true)
            } else {
                (string_of(command), false)
            }
        },
        Some(EcosystemId::Go) => {
            if str_contains(command, "golangci-lint") {
                (concat2(command, " --fix"), true)
            } else {
                (string_of(command), false)
            }
        },
        Some(EcosystemId::Node) => (concat2(command, " -- --fix"), true),
        _ => (string_of(command), false),
    }
}

/// The words of a command line.
pub fn split_command(command: &str) -> (r: Vec<String>)
    ensures
        views(r@) == words_spec(command@),
{
    split_whitespace(command)
}

/// The command of the first custom hook named `key`.
pub open spec fn custom_hook(custom: Option<Vec<(String, String)>>, key: Seq<char>) -> Option<Seq<char>> {
    match custom {
        Some(c) => first_hook(c@, key),
        None => None,
    }
}

/// The command of the first hook named `key`.
pub open spec fn first_hook(hs: Seq<(String, String)>, key: Seq<char>) -> Option<Seq<char>>
    decreases hs.len(),
{
    if hs.len() == 0 {
        None
    } else if hs[0].0@ == key {
        Some(hs[0].1@)
    } else {
        first_hook(hs.drop_first(), key)
    }
}

fn find_hook(custom: &Option<Vec<(String, String)>>, key: &str) -> (r: Option<String>)
    ensures
        opt_string_view(r) == custom_hook(*custom, key@),
{
    match custom {
        Some(c) => {
            let mut i: usize = 0;
            proof {
                assert(c@.skip(0) =~= c@);
            }
            while i < c.len()
                invariant
                    i <= c@.len(),
                    custom_hook(*custom, key@) == first_hook(c@, key@),
                    first_hook(c@.skip(i as int), key@) == first_hook(c@, key@),
                decreases c@.len() - i,
            {
                proof {
                    assert(c@.skip(i as int)[0] == c@[i as int]);
                    assert(c@.skip(i as int).drop_first() =~= c@.skip(i + 1));
                }
                if str_eq(c[i].0.as_str(), key) {
                    let found = c[i].1.clone();
                    proof {
                        assert(found@ == c@[i as int].1@);
                    }
                    return Some(found);
                }
                i += 1;
            }
            None
        },
        None => None,
    }
}

/// The repository's own custom hooks.
pub open spec fn repo_custom(repo: Repo) -> Option<Vec<(String, String)>> {
    match repo.config {
        Some(c) => match c.hooks {
            Some(h) => h.custom,
            None => None,
        },
        None => None,
    }
}

/// The workspace's custom hooks.
pub open spec fn workspace_custom(workspace: Workspace) -> Option<Vec<(String, String)>> {
    match workspace.config.hooks {
        Some(h) => h.custom,
        None => None,
    }
}

/// The command to run: the repository's custom hook for the kind, else the
/// workspace's, else the ecosystem's usual command.
pub open spec fn spec_quality_command(workspace: Workspace, repo: Repo, kind: QualityKind) -> Option<Seq<char>> {
    match custom_hook(repo_custom(repo), kind.spec_as_str()) {
        Some(c) => Some(c),
        None => match custom_hook(workspace_custom(workspace), kind.spec_as_str()) {
            Some(c) => Some(c),
            None => match repo.ecosystem {
                None => None,
                Some(e) => match kind {
                    QualityKind::Test => crate::ecosystem::spec_plugin_for(e).spec_test_command(),
                    QualityKind::Lint => crate::ecosystem::spec_plugin_for(e).spec_lint_command(),
                },
            },
        },
    }
}

/// The command to run for a repository.
pub fn resolve_quality_command(workspace: &Workspace, repo: &Repo, kind: QualityKind) -> (r: Option<String>)
    ensures
        opt_string_view(r) == spec_quality_command(*workspace, *repo, kind),
{
    let key = kind.as_str();
    match &repo.config {
        Some(c) => match &c.hooks {
            Some(h) => {
                let found = find_hook(&h.custom, key);
                if found.is_some() {
                    return found;
                }
            },
            None => {},
        },
        None => {},
    }
    match &workspace.config.hooks {
        Some(h) => {
            let found = find_hook(&h.custom, key);
            if found.is_some() {
                return found;
            }
        },
        None => {},
    }
    let eco = match &repo.ecosystem {
        Some(e) => e,
        None => return None,
    };
    let plugin = plugin_for(eco);
    match kind {
        QualityKind::Test => match plugin.default_test_command() {
            Some(c) => Some(string_of(c)),
            None => None,
        },
        QualityKind::Lint => match plugin.default_lint_command() {
            Some(c) => Some(string_of(c)),
            None => None,
        },
    }
}

/// Whether a test or lint run is limited to repositories with local
/// changes: asked for, or nothing else was selected.
pub open spec fn spec_changed_scope(no_repos: bool, all: bool, changed: bool) -> bool {
    changed || (no_repos && !all && !changed)
}

/// Whether a test or lint run is limited to repositories with local changes.
pub fn quality_changed_scope(no_repos: bool, all: bool, changed: bool) -> (r: bool)
    ensures
        r == spec_changed_scope(no_repos, all, changed),
{
    changed || (no_repos && !all && !changed)
}

/// The test command for a repository with coverage (when asked) and the
/// filter (when given) applied, and whether coverage was asked for but could
/// not be turned on; none when no test command is known.
pub open spec fn spec_test_command(workspace: Workspace, repo: Repo, coverage: bool, filter: Option<Seq<char>>) -> Option<
    (Seq<char>, bool),
> {
    match spec_quality_command(workspace, repo, QualityKind::Test) {
        None => None,
        Some(base) => {
            let (covered, applied) = if coverage {
                spec_test_coverage(base, repo.ecosystem)
            } else {
                (base, true)
            };
            let command = match filter {
                Some(f) => spec_test_filter(covered, repo.ecosystem, f),
                None => covered,
            };
            Some((command, coverage && !applied))
        },
    }
}

/// The test command to run for a repository.
pub fn test_command_for(workspace: &Workspace, repo: &Repo, coverage: bool, filter: Option<&str>) -> (r: Option<
    (String, bool),
>)
    ensures
        match r {
            Some((c, w)) => spec_test_command(*workspace, *repo, coverage, opt_str_view(filter)) == Some((c@, w)),
            None => spec_test_command(*workspace, *repo, coverage, opt_str_view(filter)) is None,
        },
{
    let base = match resolve_quality_command(workspace, repo, QualityKind::Test) {
        Some(c) => c,
        None => return None,
    };
    let (covered, applied) = if coverage {
        apply_test_coverage(base.as_str(), repo)
    } else {
        (base, true)
    };
    let command = match filter {
        Some(f) => apply_test_filter(covered.as_str(), repo, f),
        None => covered,
    };
    Some((command, coverage && !applied))
}

/// The lint command for a repository with fixing applied when asked, and
/// whether fixing was asked for but is not supported; none when no lint
/// command is known.
pub open spec fn spec_lint_command(workspace: Workspace, repo: Repo, fix: bool) -> Option<(Seq<char>, bool)> {
    match spec_quality_command(workspace, repo, QualityKind::Lint) {
        None => None,
        Some(base) => if fix {
            let (fixed, applied) = spec_lint_fix(base, repo.ecosystem);
            Some((fixed, !applied))
        } else {
            Some((base, false))
        },
    }
}

/// The lint command to run for a repository.
pub fn lint_command_for(workspace: &Workspace, repo: &Repo, fix: bool) -> (r: Option<(String, bool)>)
    ensures
        match r {
            Some((c, w)) => spec_lint_command(*workspace, *repo, fix) == Some((c@, w)),
            None => spec_lint_command(*workspace, *repo, fix) is None,
        },
{
    let base = match resolve_quality_command(workspace, repo, QualityKind::Lint) {
        Some(c) => c,
        None => return None,
    };
    if fix {
        let (fixed, applied) = apply_lint_fix(base.as_str(), repo);
        Some((fixed, !applied))
    } else {
        Some((base, false))
    }
}

/// The number of parallel jobs: the one given, else `HARMONIA_PARALLEL`
/// when it is a count, else what the machine offers.
pub open spec fn spec_parallel(given: Option<usize>, env_value: Option<Seq<char>>, available: Option<usize>) -> Option<nat> {
    match given {
        Some(v) => Some(v as nat),
        None => match env_value {
            Some(e) => match crate::cli::status::spec_parse_usize_text(e) {
                Some(v) => Some(v),
                None => match available {
                    Some(a) => Some(a as nat),
                    None => None,
                },
            },
            None => match available {
                Some(a) => Some(a as nat),
                None => None,
            },
        },
    }
}

/// The number of parallel jobs.
pub fn resolve_parallel(given: Option<usize>, env_value: Option<&str>, available: Option<usize>) -> (r: Option<usize>)
    ensures
        match r {
            Some(v) => spec_parallel(given, opt_str_view(env_value), available) == Some(v as nat),
            None => spec_parallel(given, opt_str_view(env_value), available) is None,
        },
{
    match given {
        Some(v) => return Some(v),
        None => {},
    }
    match env_value {
        Some(e) => match crate::cli::status::parse_usize_text(e) {
            Some(v) => return Some(v),
            None => {},
        },
        None => {},
    }
    available
}

} // verus!
