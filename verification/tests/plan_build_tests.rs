use harmonia::cli::plan::PlanChangeset;
use harmonia::cli::plan_build::{assemble_plan, check_included_cloned, normalize_changeset, plan_branch_scope, plan_candidate_repos,
    plan_changed_repos, resolve_plan_repo_ids, shortstat_summary, PlanCandidate};
use harmonia::config::workspace::WorkspaceConfig;
use harmonia::git::status::StatusSummary;
use harmonia::graph::constraint::ConstraintReport;
use harmonia::graph::DependencyGraph;
use harmonia::project::changeset::{ChangesetFile, ChangesetRepoSummary};
use harmonia::project::repo::{Dependency, Repo, RepoId};
use harmonia::project::version::VersionReq;
use harmonia::project::workspace::Workspace;

fn repo(id: &str, ignored: bool, external: bool) -> Repo {
    Repo {
        id: RepoId::new(id),
        path: format!("/tmp/{id}"),
        remote_url: String::new(),
        default_branch: "main".to_string(),
        package_name: None,
        depends_on: Vec::new(),
        ecosystem: None,
        config: None,
        external,
        ignored,
    }
}

fn workspace() -> Workspace {
    let mut graph = DependencyGraph::new();
    graph.insert(RepoId::new("core"), Vec::new());
    graph.insert(RepoId::new("api"), vec![Dependency { name: "core".to_string(), constraint: VersionReq::new("^1"), is_internal: true }]);
    Workspace {
        root: "/tmp/ws".to_string(),
        config: WorkspaceConfig::default(),
        repos: vec![repo("core", false, false), repo("api", false, false), repo("docs", true, false), repo("vendor", false, true)],
        graph,
    }
}

fn names(v: &[&str]) -> Vec<String> {
    v.iter().map(|s| s.to_string()).collect()
}

fn dirty() -> StatusSummary {
    StatusSummary { staged: Vec::new(), modified: vec!["src/lib.rs".to_string()], untracked: Vec::new(), conflicts: Vec::new() }
}

fn candidate(id: &str, branch: &str, status: StatusSummary) -> PlanCandidate {
    PlanCandidate { id: RepoId::new(id), branch: branch.to_string(), status, diff_stat: "1 file changed".to_string() }
}

#[test]
fn plan_repo_flags_must_name_workspace_repos() {
    let ws = workspace();
    let ids = resolve_plan_repo_ids(&ws, &names(&["api", "core"]), "include").expect("known");
    assert_eq!(ids.len(), 2);
    let err = resolve_plan_repo_ids(&ws, &names(&["api", "ghost", "nope"]), "exclude").expect_err("unknown");
    assert_eq!(err.message(), "unknown repo 'ghost' passed to --exclude");
    let err = check_included_cloned(&ids, &names(&["api"])).expect_err("not cloned");
    assert_eq!(err.message(), "repo core not cloned");
    assert!(check_included_cloned(&ids, &names(&["api", "core"])).is_ok());
}

#[test]
fn plan_candidates_skip_ignored_external_uncloned_and_excluded() {
    let ws = workspace();
    let cloned = names(&["core", "api", "docs", "vendor"]);
    assert_eq!(plan_candidate_repos(&ws, &Vec::new(), &cloned), names(&["api", "core"]));
    assert_eq!(plan_candidate_repos(&ws, &vec![RepoId::new("api")], &cloned), names(&["core"]));
    assert_eq!(plan_candidate_repos(&ws, &Vec::new(), &names(&["api"])), names(&["api"]));
}

#[test]
fn branch_scope_prefers_branches_with_changes() {
    let cands = vec![candidate("api", "feature/x", dirty()), candidate("core", "main", StatusSummary::default())];
    assert_eq!(plan_branch_scope(&cands), names(&["feature/x"]));
    let clean = vec![candidate("api", "feature/x", StatusSummary::default()), candidate("core", "main", StatusSummary::default())];
    assert_eq!(plan_branch_scope(&clean), names(&["feature/x", "main"]));
}

fn file(repos: &[(&str, &str)]) -> ChangesetFile {
    ChangesetFile {
        id: "cs-1".to_string(),
        title: "Login".to_string(),
        description: "adds login".to_string(),
        branch: "feature/x".to_string(),
        repos: repos.iter().map(|(r, s)| ChangesetRepoSummary { repo: r.to_string(), summary: s.to_string() }).collect(),
        path: "/tmp/ws/.harmonia/changesets/cs-1.toml".to_string(),
    }
}

#[test]
fn changesets_must_name_usable_repos() {
    let ws = workspace();
    let cloned = names(&["core", "api", "docs", "vendor"]);
    let cs = normalize_changeset(&ws, &file(&[("api", "first"), ("core", "c"), ("api", "second")]), &cloned).expect("valid");
    assert_eq!(cs.id, "cs-1");
    assert_eq!(cs.repo_summaries.len(), 2);
    let api = cs.repo_summaries.iter().find(|(id, _)| id.as_str() == "api").expect("api");
    assert_eq!(api.1, "second");
    let err = normalize_changeset(&ws, &file(&[("api", ""), ("ghost", "")]), &cloned).expect_err("unknown");
    assert_eq!(err.message(), "changeset 'cs-1' references unknown repo 'ghost'");
    let err = normalize_changeset(&ws, &file(&[("docs", "")]), &cloned).expect_err("ignored");
    assert_eq!(err.message(), "changeset 'cs-1' references ignored repo 'docs'");
    let err = normalize_changeset(&ws, &file(&[("vendor", "")]), &cloned).expect_err("external");
    assert_eq!(err.message(), "changeset 'cs-1' references external repo 'vendor'");
    let err = normalize_changeset(&ws, &file(&[("api", "")]), &names(&["core"])).expect_err("not cloned");
    assert_eq!(err.message(), "changeset 'cs-1' references repo 'api' which is not cloned");
}

#[test]
fn changed_repos_include_dirty_listed_and_changeset_repos() {
    let changeset = Some(PlanChangeset {
        id: "cs-1".to_string(),
        title: "t".to_string(),
        description: String::new(),
        branch: "feature/x".to_string(),
        repo_summaries: vec![(RepoId::new("core"), "  ".to_string()), (RepoId::new("web"), "ui".to_string())],
    });
    let cands = vec![
        candidate("api", "feature/x", dirty()),
        candidate("core", "feature/x", StatusSummary::default()),
        candidate("docs", "main", StatusSummary::default()),
        candidate("tools", "main", StatusSummary::default()),
        candidate("web", "feature/x", StatusSummary::default()),
    ];
    let changed = plan_changed_repos(cands, &vec![RepoId::new("tools")], &changeset);
    let ids: Vec<&str> = changed.iter().map(|c| c.id.as_str()).collect();
    assert_eq!(ids, vec!["api", "core", "tools", "web"]);
    assert_eq!(changed[1].changeset_summary, None);
    assert_eq!(changed[3].changeset_summary.as_deref(), Some("ui"));
}

#[test]
fn assembled_plan_orders_dependencies_first() {
    let ws = workspace();
    let cands = vec![candidate("api", "feature/x", dirty()), candidate("core", "feature/x", dirty())];
    let changed = plan_changed_repos(cands, &Vec::new(), &None);
    let report = ConstraintReport { violations: Vec::new(), missing: Vec::new(), cycles: Vec::new() };
    let plan = assemble_plan(&ws, changed, None, report).expect("acyclic");
    let order: Vec<&str> = plan.merge_order.iter().map(|id| id.as_str()).collect();
    assert_eq!(order, vec!["core", "api"]);
    assert!(plan.recommendations.iter().any(|r| r == "merge in the listed order and wait for CI between steps"));
    let empty = assemble_plan(&ws, Vec::new(), None, ConstraintReport { violations: Vec::new(), missing: Vec::new(), cycles: Vec::new() })
        .expect("empty");
    assert!(empty.merge_order.is_empty());
}

#[test]
fn shortstat_summary_notes_empty_and_failed_output() {
    assert_eq!(shortstat_summary(Some(" 2 files changed, 3 insertions(+)\n")), "2 files changed, 3 insertions(+)");
    assert_eq!(shortstat_summary(Some("  \n")), "no textual diff stats");
    assert_eq!(shortstat_summary(None), "diff stat unavailable");
}
