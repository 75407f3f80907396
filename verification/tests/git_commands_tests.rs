use harmonia::cli::args::{CommitArgs, PushArgs};
use harmonia::cli::git_commands::{build_diff_command, check_push_args, commit_command, diff_file_list, diff_files_command,
    diff_json_requested, diff_names_requested, hook_runs, push_command, repo_disables_hook, HookKind};
use harmonia::config::repo::{RepoConfig, RepoHooksConfig};
use harmonia::config::workspace::{HooksConfig, WorkspaceConfig};
use harmonia::graph::DependencyGraph;
use harmonia::project::repo::{Repo, RepoId};
use harmonia::project::workspace::Workspace;

fn commit_args() -> CommitArgs {
    CommitArgs {
        message: Some("fix: login".to_string()),
        all: false,
        repos: Vec::new(),
        amend: false,
        no_hooks: false,
        yes: false,
        allow_empty: false,
        trailers: Vec::new(),
    }
}

fn push_args() -> PushArgs {
    PushArgs { repos: Vec::new(), force: false, force_with_lease: false, set_upstream: false, no_hooks: false, yes: false, dry_run: false }
}

fn words(v: &[&str]) -> Vec<String> {
    v.iter().map(|s| s.to_string()).collect()
}

#[test]
fn commit_command_carries_the_options() {
    assert_eq!(commit_command(&commit_args()), words(&["git", "commit", "-m", "fix: login"]));
    let mut args = commit_args();
    args.message = None;
    args.amend = true;
    args.allow_empty = true;
    args.trailers = words(&["Changeset-ID: cs-1", "Refs: 7"]);
    assert_eq!(
        commit_command(&args),
        words(&["git", "commit", "--amend", "--allow-empty", "--trailer", "Changeset-ID: cs-1", "--trailer", "Refs: 7"])
    );
}

#[test]
fn push_command_prefers_force_with_lease() {
    assert_eq!(push_command(&push_args()), words(&["git", "push"]));
    let mut args = push_args();
    args.dry_run = true;
    args.force_with_lease = true;
    args.set_upstream = true;
    assert_eq!(push_command(&args), words(&["git", "push", "--dry-run", "--force-with-lease", "-u"]));
    args.force = true;
    assert_eq!(check_push_args(&args).expect_err("both").message(), "--force and --force-with-lease cannot be used together");
    args.force_with_lease = false;
    assert!(check_push_args(&args).is_ok());
    assert_eq!(push_command(&args), words(&["git", "push", "--dry-run", "--force", "-u"]));
}

fn repo(id: &str, hooks: Option<RepoHooksConfig>) -> Repo {
    Repo {
        id: RepoId::new(id),
        path: format!("/tmp/{id}"),
        remote_url: String::new(),
        default_branch: "main".to_string(),
        package_name: None,
        depends_on: Vec::new(),
        ecosystem: None,
        config: hooks.map(|h| RepoConfig { hooks: Some(h), ..Default::default() }),
        external: false,
        ignored: false,
    }
}

#[test]
fn hooks_run_workspace_first_then_each_repo() {
    let mut config = WorkspaceConfig::default();
    config.hooks = Some(HooksConfig { pre_commit: Some("make fmt-check".to_string()), ..HooksConfig::default() });
    let ws = Workspace { root: "/tmp/ws".to_string(), config, repos: Vec::new(), graph: DependencyGraph::new() };
    let opts_out = RepoHooksConfig { disable_workspace_hooks: Some(words(&["pre_commit"])), pre_commit: Some("cargo test".to_string()), ..RepoHooksConfig::default() };
    assert!(repo_disables_hook(&repo("api", Some(opts_out.clone())), "pre_commit"));
    assert!(!repo_disables_hook(&repo("api", Some(opts_out.clone())), "pre_push"));

    let repos = vec![repo("api", Some(opts_out.clone())), repo("core", None)];
    let runs = hook_runs(&ws, &repos, HookKind::PreCommit, false);
    assert_eq!(runs.len(), 2);
    assert_eq!(runs[0].dir, "/tmp/ws");
    assert_eq!(runs[0].command, words(&["make", "fmt-check"]));
    assert_eq!(runs[1].dir, "/tmp/api");
    assert_eq!(runs[1].command, words(&["cargo", "test"]));

    let only_opted_out = vec![repo("api", Some(opts_out))];
    let runs = hook_runs(&ws, &only_opted_out, HookKind::PreCommit, false);
    assert_eq!(runs.len(), 1);
    assert_eq!(runs[0].dir, "/tmp/api");
    assert!(hook_runs(&ws, &repos, HookKind::PreCommit, true).is_empty());
    assert!(hook_runs(&ws, &repos, HookKind::PrePush, false).is_empty());
}

fn diff_args(format: &str) -> harmonia::cli::args::DiffArgs {
    harmonia::cli::args::DiffArgs { repos: Vec::new(), staged: false, stat: false, name_only: false, unified: None, format: format.to_string() }
}

#[test]
fn diff_command_follows_format_and_flags() {
    assert_eq!(build_diff_command(&diff_args("patch")), words(&["git", "diff"]));
    let mut args = diff_args("STAT");
    args.staged = true;
    args.unified = Some(5);
    assert_eq!(build_diff_command(&args), words(&["git", "diff", "--staged", "--stat", "--unified=5"]));
    assert!(diff_names_requested(&diff_args("Name-Only")));
    assert!(diff_json_requested(&diff_args("JSON")));
    assert!(!diff_json_requested(&diff_args("patch")));
    assert_eq!(diff_files_command(true), words(&["git", "diff", "--name-only", "--staged"]));
}

#[test]
fn diff_file_list_is_sorted_and_unique() {
    assert_eq!(diff_file_list("src/b.rs\n  src/a.rs \n\n", Some("src/a.rs\nnew.txt\n")), words(&["new.txt", "src/a.rs", "src/b.rs"]));
    assert_eq!(diff_file_list("", None), Vec::<String>::new());
}
