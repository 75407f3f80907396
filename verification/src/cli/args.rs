//! The arguments of each command, as the command line front end hands them
//! over: plain fields, one struct per command.
use vstd::prelude::*;

verus! {

#[derive(Debug)]
pub struct InitArgs {
    pub source: Option<String>,
    pub name: Option<String>,
    pub directory: Option<String>,
    pub no_clone: bool,
    pub group: Option<String>,
}

#[derive(Debug)]
pub struct CloneArgs {
    pub repos: Vec<String>,
    pub group: Option<String>,
    pub all: bool,
    pub depth: Option<String>,
    pub full: bool,
    pub protocol: Option<String>,
    pub strict: bool,
}

#[derive(Debug)]
pub struct StatusArgs {
    pub short: bool,
    pub long: bool,
    pub json: bool,
    pub changed: bool,
    pub porcelain: bool,
}

#[derive(Debug)]
pub struct SyncArgs {
    pub repos: Vec<String>,
    pub rebase: bool,
    pub ff_only: bool,
    pub fetch_only: bool,
    pub autostash: bool,
    pub prune: bool,
    pub parallel: Option<usize>,
}

#[derive(Debug, Default)]
pub struct RefreshArgs;

#[derive(Debug, Default)]
pub struct SubmitArgs {
    pub message: Option<String>,
    pub no_auto_branch: bool,
    pub branch_name: Option<String>,
}

#[derive(Debug)]
pub struct ExecArgs {
    pub repos: Vec<String>,
    pub all: bool,
    pub changed: bool,
    pub parallel: Option<usize>,
    pub fail_fast: bool,
    pub ignore_errors: bool,
    pub command: Vec<String>,
}

#[derive(Debug)]
pub struct RunArgs {
    pub hook: String,
    pub repos: Vec<String>,
    pub all: bool,
    pub changed: bool,
    pub parallel: Option<usize>,
    pub fail_fast: bool,
}

#[derive(Debug)]
pub struct EachArgs {
    pub repos: Vec<String>,
    pub parallel: Option<usize>,
    pub shell: bool,
    pub command: Vec<String>,
}

#[derive(Debug)]
pub struct GraphArgs {
    pub command: Option<GraphCommand>,
}

#[derive(Debug)]
pub enum GraphCommand {
    Show(GraphShowArgs),
    Deps(GraphDepsArgs),
    Dependents(GraphDependentsArgs),
    Order(GraphOrderArgs),
    Check(GraphCheckArgs),
}

#[derive(Debug)]
pub struct GraphShowArgs {
    pub changed: bool,
    pub format: String,
    pub direction: String,
}

#[derive(Debug)]
pub struct GraphDepsArgs {
    pub repo: String,
    pub transitive: bool,
    pub json: bool,
}

#[derive(Debug)]
pub struct GraphDependentsArgs {
    pub repo: String,
    pub transitive: bool,
    pub json: bool,
}

#[derive(Debug)]
pub struct GraphOrderArgs {
    pub changed: bool,
    pub json: bool,
}

#[derive(Debug)]
pub struct GraphCheckArgs {
    pub fix: bool,
    pub json: bool,
}

#[derive(Debug)]
pub struct BranchArgs {
    pub name: String,
    pub create: bool,
    pub force_create: bool,
    pub yes: bool,
    pub repos: Vec<String>,
    pub changed: bool,
    pub with_deps: bool,
    pub with_all_deps: bool,
    pub track: Option<String>,
}

#[derive(Debug)]
pub struct CheckoutArgs {
    pub branch: String,
    pub repos: Vec<String>,
    pub all: bool,
    pub graceful: bool,
    pub fallback: Option<String>,
}

#[derive(Debug)]
pub struct AddArgs {
    pub repos: Vec<String>,
    pub all: bool,
    pub patch: bool,
    pub pathspec: Vec<String>,
}

#[derive(Debug)]
pub struct CommitArgs {
    pub message: Option<String>,
    pub all: bool,
    pub repos: Vec<String>,
    pub amend: bool,
    pub no_hooks: bool,
    pub yes: bool,
    pub allow_empty: bool,
    pub trailers: Vec<String>,
}

#[derive(Debug)]
pub struct PushArgs {
    pub repos: Vec<String>,
    pub force: bool,
    pub force_with_lease: bool,
    pub set_upstream: bool,
    pub no_hooks: bool,
    pub yes: bool,
    pub dry_run: bool,
}

#[derive(Debug)]
pub struct DiffArgs {
    pub repos: Vec<String>,
    pub staged: bool,
    pub stat: bool,
    pub name_only: bool,
    pub unified: Option<u32>,
    pub format: String,
}

#[derive(Debug)]
pub struct TestArgs {
    pub repos: Vec<String>,
    pub all: bool,
    pub changed: bool,
    pub graph_order: bool,
    pub parallel: Option<usize>,
    pub fail_fast: bool,
    pub coverage: bool,
    pub filter: Option<String>,
}

#[derive(Debug)]
pub struct LintArgs {
    pub repos: Vec<String>,
    pub all: bool,
    pub changed: bool,
    pub fix: bool,
    pub parallel: Option<usize>,
}

#[derive(Debug)]
pub struct VersionArgs {
    pub command: Option<VersionCommand>,
}

#[derive(Debug)]
pub enum VersionCommand {
    Show(VersionShowArgs),
    Check(VersionCheckArgs),
    Bump(VersionBumpArgs),
}

#[derive(Debug)]
pub struct VersionShowArgs {
    pub json: bool,
    pub with_deps: bool,
}

#[derive(Debug)]
pub struct VersionCheckArgs {
    pub json: bool,
}

#[derive(Debug)]
pub struct VersionBumpArgs {
    pub level: Option<String>,
    pub repos: Vec<String>,
    pub changed: bool,
    pub mode: Option<String>,
    pub dry_run: bool,
    pub cascade: bool,
    pub pre: Option<String>,
}

#[derive(Debug)]
pub struct DepsArgs {
    pub command: Option<DepsCommand>,
}

#[derive(Debug)]
pub enum DepsCommand {
    Show(DepsShowArgs),
    Check(DepsCheckArgs),
    Update(DepsUpdateArgs),
}

#[derive(Debug)]
pub struct DepsShowArgs {
    pub json: bool,
}

#[derive(Debug)]
pub struct DepsCheckArgs {
    pub json: bool,
}

#[derive(Debug)]
pub struct DepsUpdateArgs {
    pub packages: Vec<String>,
    pub dry_run: bool,
}

#[derive(Debug)]
pub struct EditArgs {
    pub repos: Vec<String>,
    pub editor: Option<String>,
    pub all: bool,
}

#[derive(Debug)]
pub struct CleanArgs {
    pub repos: Vec<String>,
    pub force: bool,
    pub directories: bool,
    pub ignored: bool,
}

#[derive(Debug)]
pub struct ConfigArgs {
    pub command: Option<ConfigCommand>,
}

#[derive(Debug)]
pub enum ConfigCommand {
    Show,
    Get(ConfigGetArgs),
    Assign(ConfigSetArgs),
    Edit(ConfigEditArgs),
}

#[derive(Debug)]
pub struct ConfigGetArgs {
    pub key: String,
}

#[derive(Debug)]
pub struct ConfigSetArgs {
    pub key: String,
    pub value: String,
}

#[derive(Debug)]
pub struct ConfigEditArgs {
    pub editor: Option<String>,
}

#[derive(Debug)]
pub struct RepoArgs {
    pub command: Option<RepoCommand>,
}

#[derive(Debug)]
pub enum RepoCommand {
    List,
    Add(RepoAddArgs),
    Remove(RepoRemoveArgs),
    Show(RepoShowArgs),
}

#[derive(Debug)]
pub struct RepoAddArgs {
    pub name: String,
    pub url: Option<String>,
    pub default_branch: Option<String>,
    pub package_name: Option<String>,
    pub external: bool,
    pub ignored: bool,
    pub group: Option<String>,
}

#[derive(Debug)]
pub struct RepoRemoveArgs {
    pub name: String,
}

#[derive(Debug)]
pub struct RepoShowArgs {
    pub name: String,
}

#[derive(Debug)]
pub struct PlanArgs {
    pub json: bool,
    pub included: Vec<String>,
    pub exclude: Vec<String>,
}

#[derive(Debug)]
pub struct MrArgs {
    pub command: Option<MrCommand>,
}

#[derive(Debug)]
pub enum MrCommand {
    Create(MrCreateArgs),
    Status(MrStatusArgs),
    Update(MrUpdateArgs),
    Merge(MrMergeArgs),
    Close(MrCloseArgs),
}

#[derive(Debug, Default)]
pub struct MrCreateArgs {
    pub title: Option<String>,
    pub description: Option<String>,
    pub draft: bool,
    pub no_link: bool,
    pub no_issue: bool,
    pub labels: Vec<String>,
    pub reviewers: Vec<String>,
    pub auto_branch: bool,
    pub branch_name: Option<String>,
    pub dry_run: bool,
}

#[derive(Debug)]
pub struct MrStatusArgs {
    pub json: bool,
    pub wait: bool,
    pub timeout: u64,
}

#[derive(Debug, Default)]
pub struct MrUpdateArgs {
    pub description: Option<String>,
    pub labels: Vec<String>,
}

#[derive(Debug, Default)]
pub struct MrMergeArgs {
    pub dry_run: bool,
    pub no_wait: bool,
    pub squash: bool,
    pub delete_branch: bool,
    pub yes: bool,
}

#[derive(Debug, Default)]
pub struct MrCloseArgs {
    pub yes: bool,
}

#[derive(Debug, Default)]
pub struct ShellArgs {
    pub repos: Vec<String>,
    pub command: Option<String>,
}

} // verus!
