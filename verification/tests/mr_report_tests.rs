use harmonia::cli::mr_report::{mr_preview_text, mr_status_outcome, mr_status_row, mr_status_text, sort_status_rows, status_poll,
    tracked_in_merge_order, MrStatusRow, StatusPoll};
use harmonia::cli::plan::{PlanChangedRepo, PlanSummary};
use harmonia::config::repo::{CiConfig, RepoConfig};
use harmonia::config::workspace::WorkspaceConfig;
use harmonia::forge::{CheckRun, CiState, CiStatus, MergeRequest, MrState, User};
use harmonia::git::status::StatusSummary;
use harmonia::graph::constraint::ConstraintReport;
use harmonia::graph::DependencyGraph;
use harmonia::project::repo::{Dependency, Repo, RepoId};
use harmonia::project::version::VersionReq;
use harmonia::project::workspace::Workspace;

fn repo(id: &str, required: &[&str]) -> Repo {
    Repo {
        id: RepoId::new(id),
        path: format!("/tmp/{id}"),
        remote_url: String::new(),
        default_branch: "main".to_string(),
        package_name: None,
        depends_on: Vec::new(),
        ecosystem: None,
        config: Some(RepoConfig {
            ci: Some(CiConfig { required_checks: Some(required.iter().map(|s| s.to_string()).collect()), timeout_minutes: None }),
            ..Default::default()
        }),
        external: false,
        ignored: false,
    }
}

fn mr(iid: u64, state: MrState, approvers: &[&str]) -> MergeRequest {
    MergeRequest {
        id: iid.to_string(),
        iid,
        title: "t".to_string(),
        description: String::new(),
        source_branch: "feature/x".to_string(),
        target_branch: "main".to_string(),
        state,
        url: format!("https://forge/mr/{iid}"),
        ci_status: None,
        approvals: approvers.iter().map(|u| User { id: None, username: u.to_string() }).collect(),
        labels: Vec::new(),
    }
}

fn ci(state: CiState, checks: &[(&str, &str)]) -> CiStatus {
    CiStatus {
        state,
        pipelines: Vec::new(),
        checks: checks.iter().map(|(n, s)| CheckRun { name: n.to_string(), status: s.to_string() }).collect(),
    }
}

fn row(id: &str, ci_state: CiState, checks: &[(&str, &str)], required: &[&str]) -> MrStatusRow {
    mr_status_row(&repo(id, required), &mr(1, MrState::Open, &[]), &ci(ci_state, checks))
}

#[test]
fn status_row_reports_required_checks() {
    let r = mr_status_row(
        &repo("api", &["test", "lint"]),
        &mr(7, MrState::Open, &["ann", "bob"]),
        &ci(CiState::Running, &[("lint", "success"), ("test", "running")]),
    );
    assert_eq!(r.repo.as_str(), "api");
    assert_eq!(r.iid, 7);
    assert_eq!(r.approvals, vec!["ann".to_string(), "bob".to_string()]);
    assert_eq!(r.checks, vec![("lint".to_string(), "success".to_string()), ("test".to_string(), "running".to_string())]);
    assert_eq!(r.missing_required_checks, vec!["test".to_string()]);
    assert!(r.failed_required_checks.is_empty());
    let failed = row("api", CiState::Failed, &[("test", "failed")], &["test"]);
    assert_eq!(failed.failed_required_checks, vec!["test".to_string()]);
}

#[test]
fn status_rows_are_sorted_by_repo() {
    let rows = vec![row("web", CiState::Success, &[], &[]), row("api", CiState::Success, &[], &[]), row("core", CiState::Success, &[], &[])];
    let sorted = sort_status_rows(rows);
    let names: Vec<&str> = sorted.iter().map(|r| r.repo.as_str()).collect();
    assert_eq!(names, vec!["api", "core", "web"]);
}

#[test]
fn polling_waits_only_while_ci_runs() {
    let running = vec![row("api", CiState::Running, &[], &[])];
    assert_eq!(status_poll(&running, true, false), StatusPoll::Again);
    assert_eq!(status_poll(&running, true, true), StatusPoll::TimedOut);
    assert_eq!(status_poll(&running, false, false), StatusPoll::Report);
    let done = vec![row("api", CiState::Success, &[], &[])];
    assert_eq!(status_poll(&done, true, false), StatusPoll::Report);
    let failed = vec![row("api", CiState::Running, &[("test", "failed")], &["test"])];
    assert_eq!(status_poll(&failed, true, false), StatusPoll::Report);
}

#[test]
fn status_text_and_outcome() {
    let rows = vec![
        mr_status_row(&repo("api", &["test"]), &mr(7, MrState::Open, &["ann"]), &ci(CiState::Failed, &[("test", "failed")])),
        mr_status_row(&repo("web", &[]), &mr(9, MrState::Merged, &[]), &ci(CiState::Success, &[])),
    ];
    assert_eq!(
        mr_status_text(&rows),
        "Merge Request Status\n====================\napi: !7 https://forge/mr/7 (state: open, ci: failed, approvals: ann)\n  failed required checks: test\nweb: !9 https://forge/mr/9 (state: merged, ci: success, approvals: )\n"
    );
    assert_eq!(mr_status_outcome(&rows, true, false).expect_err("failed check").message(), "one or more required checks failed");
    assert!(mr_status_outcome(&rows, false, false).is_ok());
    let web_only = vec![mr_status_row(&repo("web", &[]), &mr(9, MrState::Merged, &[]), &ci(CiState::Success, &[]))];
    assert_eq!(mr_status_outcome(&web_only, true, true).expect_err("timeout").message(), "timeout waiting for CI to complete");
}

fn plan(changed: &[&str], order: &[&str]) -> PlanSummary {
    PlanSummary {
        changed: changed
            .iter()
            .map(|id| PlanChangedRepo {
                id: RepoId::new(id),
                branch: "feature/x".to_string(),
                status: StatusSummary::default(),
                diff_stat: String::new(),
                changeset_summary: None,
            })
            .collect(),
        merge_order: order.iter().map(|id| RepoId::new(id)).collect(),
        constraints: ConstraintReport { violations: Vec::new(), missing: Vec::new(), cycles: Vec::new() },
        recommendations: Vec::new(),
        changeset: None,
    }
}

#[test]
fn preview_lists_changed_repos_and_order() {
    assert_eq!(mr_preview_text(&plan(&[], &[])), "MR Preview\n==========\nNo changed repositories detected.\n");
    assert_eq!(
        mr_preview_text(&plan(&["api", "core"], &["core", "api"])),
        "MR Preview\n==========\nRepositories with local changes:\n  api\n  core\n\nSuggested merge order:\n  1. core\n  2. api\n"
    );
}

#[test]
fn tracked_merge_requests_follow_dependencies() {
    let mut graph = DependencyGraph::new();
    graph.insert(RepoId::new("core"), Vec::new());
    graph.insert(RepoId::new("api"), vec![Dependency { name: "core".to_string(), constraint: VersionReq::new("^1"), is_internal: true }]);
    let ws = Workspace {
        root: "/tmp/ws".to_string(),
        config: WorkspaceConfig::default(),
        repos: vec![repo("core", &[]), repo("api", &[])],
        graph,
    };
    let ordered = tracked_in_merge_order(&ws, &vec![RepoId::new("api"), RepoId::new("core")]).expect("order");
    let names: Vec<&str> = ordered.iter().map(|r| r.as_str()).collect();
    assert_eq!(names, vec!["core", "api"]);
    let single = tracked_in_merge_order(&ws, &vec![RepoId::new("zzz")]).expect("single");
    assert_eq!(single[0].as_str(), "zzz");
}
