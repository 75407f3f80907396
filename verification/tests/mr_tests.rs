use harmonia::cli::args::MrCreateArgs;
use harmonia::cli::mr::{collect_mr_branch_conflicts, effective_link_behavior, forge_repo_for_repo, generated_mr_auto_branch_name,
    merged_labels, mr_base_title, project_path_from_remote_url, resolve_mr_auto_branch_name, should_create_tracking_issue,
    with_related_mr_links, LinkBehavior};
use harmonia::cli::mr_status::{ci_wait_step, evaluate_required_checks, required_checks_for_repo, tracked_entry, upsert_mr_state_entry,
    CiWaitStep, MrStateStore, RequiredChecksState, StoredMrEntry};
use harmonia::cli::plan::{PlanChangedRepo, PlanChangeset, PlanSummary};
use harmonia::config::repo::{CiConfig, RepoConfig};
use harmonia::config::workspace::{ForgeConfig, MrConfig, WorkspaceConfig};
use harmonia::forge::{CheckRun, CiState};
use harmonia::git::status::StatusSummary;
use harmonia::graph::constraint::ConstraintReport;
use harmonia::graph::DependencyGraph;
use harmonia::project::repo::{Repo, RepoId};
use harmonia::project::workspace::Workspace;

fn repo(id: &str, url: &str) -> Repo {
    Repo {
        id: RepoId::new(id),
        path: format!("/tmp/{id}"),
        remote_url: url.to_string(),
        default_branch: "main".to_string(),
        package_name: None,
        depends_on: Vec::new(),
        ecosystem: None,
        config: None,
        external: false,
        ignored: false,
    }
}

fn workspace(config: WorkspaceConfig, repos: Vec<Repo>) -> Workspace {
    Workspace { root: "/tmp/ws".to_string(), config, repos, graph: DependencyGraph::new() }
}

fn plan(changed: Vec<(&str, &str)>, changeset: Option<PlanChangeset>) -> PlanSummary {
    PlanSummary {
        changed: changed
            .into_iter()
            .map(|(id, branch)| PlanChangedRepo {
                id: RepoId::new(id),
                branch: branch.to_string(),
                status: StatusSummary::default(),
                diff_stat: String::new(),
                changeset_summary: None,
            })
            .collect(),
        merge_order: Vec::new(),
        constraints: ConstraintReport { violations: Vec::new(), missing: Vec::new(), cycles: Vec::new() },
        recommendations: Vec::new(),
        changeset,
    }
}

fn changeset(branch: &str) -> PlanChangeset {
    PlanChangeset { id: "cs-1".to_string(), title: "feat: auth".to_string(), description: "desc".to_string(), branch: branch.to_string(), repo_summaries: Vec::new() }
}

#[test]
fn conflicts_are_repos_whose_branch_is_the_default() {
    let ws = workspace(WorkspaceConfig::default(), vec![repo("app", ""), repo("core", "")]);
    let p = plan(vec![("app", "main"), ("core", "feature/x")], None);
    let conflicts = collect_mr_branch_conflicts(&ws.repos, &p.changed, &[RepoId::new("core"), RepoId::new("app")]).expect("conflicts");
    assert_eq!(conflicts.len(), 1);
    assert_eq!(conflicts[0].repo.as_str(), "app");
    let err = collect_mr_branch_conflicts(&ws.repos, &p.changed, &[RepoId::new("other")]).expect("no plan entry");
    assert!(err.is_empty());
    let p2 = plan(vec![("ghost", "main")], None);
    let missing = collect_mr_branch_conflicts(&ws.repos, &p2.changed, &[RepoId::new("ghost")]).expect_err("unknown repo");
    assert_eq!(missing.message(), "unknown repo ghost");
}

#[test]
fn auto_branch_name_prefers_flag_then_changeset_then_timestamp() {
    let mut args = MrCreateArgs::default();
    args.branch_name = Some("  feature/given ".to_string());
    assert_eq!(resolve_mr_auto_branch_name(&args, &plan(vec![], None), 7).expect("name"), "feature/given");
    args.branch_name = Some("   ".to_string());
    assert_eq!(resolve_mr_auto_branch_name(&args, &plan(vec![], None), 7).expect_err("blank").message(), "--branch-name cannot be empty");
    args.branch_name = None;
    assert_eq!(resolve_mr_auto_branch_name(&args, &plan(vec![], Some(changeset("feature/cs"))), 7).expect("name"), "feature/cs");
    assert_eq!(resolve_mr_auto_branch_name(&args, &plan(vec![], None), 1700000000).expect("name"), "feature/harmonia-1700000000");
    assert_eq!(generated_mr_auto_branch_name(0), "feature/harmonia-0");
}

#[test]
fn labels_merge_configured_then_cli_without_repeats() {
    let mut config = WorkspaceConfig::default();
    config.mr = Some(MrConfig { labels: Some(vec!["platform".to_string(), "auto".to_string()]), ..Default::default() });
    let ws = workspace(config, Vec::new());
    let labels = merged_labels(&ws, &vec!["auto".to_string(), "urgent".to_string(), "urgent".to_string()]);
    assert_eq!(labels, vec!["platform", "auto", "urgent"]);
}

#[test]
fn link_strategy_is_read_case_insensitively_and_validated() {
    let mut config = WorkspaceConfig::default();
    config.mr = Some(MrConfig { link_strategy: Some("Related".to_string()), ..Default::default() });
    let ws = workspace(config, Vec::new());
    let b = effective_link_behavior(&ws, &MrCreateArgs::default()).expect("behavior");
    assert_eq!(b, LinkBehavior { related: true, description: false, issue: false });

    let mut bad = WorkspaceConfig::default();
    bad.mr = Some(MrConfig { link_strategy: Some("Sideways".to_string()), ..Default::default() });
    let err = effective_link_behavior(&workspace(bad, Vec::new()), &MrCreateArgs::default()).expect_err("invalid");
    assert_eq!(err.message(), "invalid mr.link_strategy 'sideways': expected related, description, issue, or all");

    let mut args = MrCreateArgs::default();
    args.no_link = true;
    let all = effective_link_behavior(&workspace(WorkspaceConfig::default(), Vec::new()), &args).expect("behavior");
    assert_eq!(all, LinkBehavior { related: false, description: false, issue: true });
}

#[test]
fn tracking_issue_defaults_to_several_merge_requests() {
    let ws = workspace(WorkspaceConfig::default(), Vec::new());
    let all = LinkBehavior { related: true, description: true, issue: true };
    assert!(should_create_tracking_issue(&ws, &MrCreateArgs::default(), 2, all));
    assert!(!should_create_tracking_issue(&ws, &MrCreateArgs::default(), 1, all));
    let mut args = MrCreateArgs::default();
    args.no_issue = true;
    assert!(!should_create_tracking_issue(&ws, &args, 3, all));
}

#[test]
fn remote_urls_give_project_paths() {
    assert_eq!(project_path_from_remote_url("git@gitlab.com:team/app.git"), Some("team/app".to_string()));
    assert_eq!(project_path_from_remote_url("ssh://git@host:22/team/app.git"), Some("team/app".to_string()));
    assert_eq!(project_path_from_remote_url("https://github.com/org/repo/"), Some("org/repo".to_string()));
    assert_eq!(project_path_from_remote_url("http://host/only"), Some("only".to_string()));
    assert_eq!(project_path_from_remote_url("host:group/app"), Some("group/app".to_string()));
    assert_eq!(project_path_from_remote_url("host:app"), None);
    assert_eq!(project_path_from_remote_url("   "), None);
}

#[test]
fn forge_repo_uses_remote_then_default_group() {
    let mut config = WorkspaceConfig::default();
    config.forge = Some(ForgeConfig { forge_type: "gitlab".to_string(), host: None, default_group: Some(" /platform/ ".to_string()), token: None });
    let ws = workspace(config, Vec::new());
    assert_eq!(forge_repo_for_repo(&ws, &repo("app", "git@gitlab.com:team/app.git")).as_str(), "team/app");
    assert_eq!(forge_repo_for_repo(&ws, &repo("app", "")).as_str(), "platform/app");
    let plain = workspace(WorkspaceConfig::default(), Vec::new());
    assert_eq!(forge_repo_for_repo(&plain, &repo("app", "")).as_str(), "app");
}

#[test]
fn base_title_prefers_given_then_changeset_then_branch() {
    assert_eq!(mr_base_title(&Some("given".to_string()), &plan(vec![], None)), "given");
    assert_eq!(mr_base_title(&None, &plan(vec![], Some(changeset("b")))), "feat: auth");
    assert_eq!(mr_base_title(&None, &plan(vec![("app", "feature/y")], None)), "changeset: feature/y");
    assert_eq!(mr_base_title(&None, &plan(vec![], None)), "changeset: changeset");
}

fn entry(repo: &str, branch: &str, iid: u64) -> StoredMrEntry {
    StoredMrEntry {
        repo: repo.to_string(),
        forge_repo: format!("team/{repo}"),
        branch: branch.to_string(),
        mr_id: iid.to_string(),
        iid,
        url: format!("https://example/{iid}"),
        source_branch: branch.to_string(),
        target_branch: "main".to_string(),
    }
}

#[test]
fn related_links_replace_the_previous_block() {
    let created = vec![entry("core", "f", 1), entry("app", "f", 2)];
    let first = with_related_mr_links("Intro  \n", &created, "app", Some("cs-1"));
    assert_eq!(
        first,
        "Intro\n\n<!-- harmonia:related:start -->\n## Related Merge Requests\nChangeset: `cs-1`\n\n- core: !1 (https://example/1)\n- app: !2 (https://example/2) (this MR)\n<!-- harmonia:related:end -->\n"
    );
    let second = with_related_mr_links(&first, &created, "core", None);
    assert_eq!(
        second,
        "Intro\n\n<!-- harmonia:related:start -->\n## Related Merge Requests\n\n- core: !1 (https://example/1) (this MR)\n- app: !2 (https://example/2)\n<!-- harmonia:related:end -->\n"
    );
}

#[test]
fn upsert_keeps_one_entry_per_repo_and_branch() {
    let mut store = MrStateStore::default();
    upsert_mr_state_entry(&mut store, entry("app", "f", 1));
    upsert_mr_state_entry(&mut store, entry("core", "f", 2));
    upsert_mr_state_entry(&mut store, entry("app", "f", 3));
    assert_eq!(store.entries.len(), 2);
    assert_eq!(store.entries[0].repo, "core");
    assert_eq!(store.entries[1].iid, 3);
    assert_eq!(tracked_entry(&store, "app", "f").expect("tracked").iid, 3);
    assert!(tracked_entry(&store, "app", "other").is_none());
}

#[test]
fn required_checks_are_sorted_and_unique() {
    let mut r = repo("app", "");
    r.config = Some(RepoConfig {
        ci: Some(CiConfig { required_checks: Some(vec!["test".to_string(), "lint".to_string(), "test".to_string()]), timeout_minutes: None }),
        ..Default::default()
    });
    assert_eq!(required_checks_for_repo(&r), vec!["lint", "test"]);
}

fn check(name: &str, status: &str) -> CheckRun {
    CheckRun { name: name.to_string(), status: status.to_string() }
}

#[test]
fn required_checks_fail_before_they_wait() {
    let required = vec!["build".to_string(), "lint".to_string(), "test".to_string()];
    let checks = vec![check("build", "success"), check("lint", "running"), check("test", "failed")];
    match evaluate_required_checks(&required, &checks) {
        RequiredChecksState::Failed(names) => assert_eq!(names, vec!["test"]),
        other => panic!("unexpected {other:?}"),
    }
    let checks = vec![check("build", "passed"), check("test", "skipped")];
    match evaluate_required_checks(&required, &checks) {
        RequiredChecksState::Pending(names) => assert_eq!(names, vec!["lint"]),
        other => panic!("unexpected {other:?}"),
    }
    assert!(matches!(evaluate_required_checks(&Vec::new(), &checks), RequiredChecksState::Satisfied));
}

#[test]
fn waiting_for_ci_stops_on_failure_or_deadline() {
    let id = RepoId::new("app");
    assert!(matches!(ci_wait_step(&id, CiState::Success, &RequiredChecksState::Satisfied, false), CiWaitStep::Done));
    assert!(matches!(ci_wait_step(&id, CiState::Running, &RequiredChecksState::Satisfied, false), CiWaitStep::Wait));
    match ci_wait_step(&id, CiState::Canceled, &RequiredChecksState::Satisfied, false) {
        CiWaitStep::Fail(m) => assert_eq!(m, "CI is not passing for app (state: canceled)"),
        _ => panic!("expected failure"),
    }
    match ci_wait_step(&id, CiState::Success, &RequiredChecksState::Pending(vec!["a".to_string(), "b".to_string()]), true) {
        CiWaitStep::Fail(m) => assert_eq!(m, "timeout waiting for required checks for app: a, b"),
        _ => panic!("expected failure"),
    }
    match ci_wait_step(&id, CiState::Pending, &RequiredChecksState::Satisfied, true) {
        CiWaitStep::Fail(m) => assert_eq!(m, "timeout waiting for CI for app"),
        _ => panic!("expected failure"),
    }
}

#[test]
fn related_links_twice_equal_once() {
    let created = vec![entry("core", "f", 1), entry("app", "f", 2)];
    for description in ["", "Intro", "Body\n<!-- harmonia:related:start -->\nold\n<!-- harmonia:related:end -->\ntrailer"] {
        let once = with_related_mr_links(description, &created, "app", Some("cs-1"));
        let twice = with_related_mr_links(&once, &created, "app", Some("cs-1"));
        assert_eq!(once, twice);
    }
}
