use harmonia::cli::descriptions::{build_mr_description, build_tracking_issue_description, changeset_template_rows,
    default_issue_body, default_mr_body, resolve_template_path, DescriptionSource};
use harmonia::cli::mr_status::StoredMrEntry;
use harmonia::cli::plan::{PlanChangedRepo, PlanSummary};
use harmonia::config::workspace::{MrConfig, WorkspaceConfig};
use harmonia::git::status::StatusSummary;
use harmonia::graph::constraint::ConstraintReport;
use harmonia::graph::DependencyGraph;
use harmonia::project::repo::{Dependency, Repo, RepoId};
use harmonia::project::version::VersionReq;
use harmonia::project::workspace::Workspace;

fn repo(id: &str) -> Repo {
    Repo {
        id: RepoId::new(id),
        path: format!("/tmp/{id}"),
        remote_url: String::new(),
        default_branch: "main".to_string(),
        package_name: None,
        depends_on: Vec::new(),
        ecosystem: None,
        config: None,
        external: false,
        ignored: false,
    }
}

fn internal(name: &str) -> Dependency {
    Dependency { name: name.to_string(), constraint: VersionReq::new("^1.0.0"), is_internal: true }
}

fn changed(id: &str, summary: Option<&str>) -> PlanChangedRepo {
    PlanChangedRepo {
        id: RepoId::new(id),
        branch: "feature/x".to_string(),
        status: StatusSummary::default(),
        diff_stat: String::new(),
        changeset_summary: summary.map(str::to_string),
    }
}

fn plan(changed: Vec<PlanChangedRepo>, order: &[&str]) -> PlanSummary {
    PlanSummary {
        changed,
        merge_order: order.iter().map(|id| RepoId::new(id)).collect(),
        constraints: ConstraintReport { violations: Vec::new(), missing: Vec::new(), cycles: Vec::new() },
        recommendations: Vec::new(),
        changeset: None,
    }
}

fn entry(repo: &str, iid: u64) -> StoredMrEntry {
    StoredMrEntry {
        repo: repo.to_string(),
        forge_repo: format!("group/{repo}"),
        branch: "feature/x".to_string(),
        mr_id: iid.to_string(),
        iid,
        url: format!("https://forge/{repo}/{iid}"),
        source_branch: "feature/x".to_string(),
        target_branch: "main".to_string(),
    }
}

fn workspace(config: WorkspaceConfig) -> Workspace {
    let mut graph = DependencyGraph::new();
    graph.insert(RepoId::new("core"), Vec::new());
    graph.insert(RepoId::new("api"), vec![internal("core")]);
    graph.insert(RepoId::new("app"), vec![internal("api"), internal("core"), internal("outside")]);
    Workspace { root: "/tmp/ws".to_string(), config, repos: vec![repo("core"), repo("api"), repo("app")], graph }
}

#[test]
fn template_paths_are_taken_from_the_workspace_root() {
    assert_eq!(resolve_template_path("/tmp/ws", "tmpl/mr.md"), "/tmp/ws/tmpl/mr.md");
    assert_eq!(resolve_template_path("/tmp/ws/", "mr.md"), "/tmp/ws/mr.md");
    assert_eq!(resolve_template_path("/tmp/ws", "/etc/mr.md"), "/etc/mr.md");
}

#[test]
fn default_mr_body_lists_the_merge_order_and_summary() {
    let p = plan(vec![changed("api", Some("adds the login route")), changed("core", None)], &["core", "api"]);
    let body = default_mr_body("  Adds login.  ", &p, &RepoId::new("api"));
    assert_eq!(
        body,
        "Adds login.\n\n---\n\n## Coordinated Changeset\n\nMerge order:\n1. core\n2. api\n\nRepo summary:\nadds the login route\n"
    );
    let bare = default_mr_body("   ", &p, &RepoId::new("core"));
    assert_eq!(bare, "---\n\n## Coordinated Changeset\n\nMerge order:\n1. core\n2. api\n");
}

#[test]
fn default_issue_body_lists_the_opened_merge_requests() {
    let body = default_issue_body(Some(" Login "), &[entry("core", 3), entry("api", 12)]);
    assert_eq!(
        body,
        "Login\n\nThis issue tracks coordinated merge requests:\n- core: !3 (https://forge/core/3)\n- api: !12 (https://forge/api/12)\n"
    );
    assert_eq!(default_issue_body(None, &[]), "This issue tracks coordinated merge requests:\n");
}

#[test]
fn configured_templates_take_precedence() {
    let p = plan(vec![changed("core", None)], &["core"]);
    let mut config = WorkspaceConfig::default();
    config.mr = Some(MrConfig { template: Some("mr.md".to_string()), issue_template: None, ..MrConfig::default() });
    let ws = workspace(config);
    match build_mr_description(&ws, &p, &ws.repos[0], "text") {
        DescriptionSource::Template(path) => assert_eq!(path, "/tmp/ws/mr.md"),
        DescriptionSource::Body(_) => panic!("expected the template"),
    }
    match build_tracking_issue_description(&ws, &[entry("core", 1)], None) {
        DescriptionSource::Body(body) => assert!(body.ends_with("- core: !1 (https://forge/core/1)\n")),
        DescriptionSource::Template(_) => panic!("expected the default body"),
    }
}

#[test]
fn template_rows_follow_the_merge_order_and_graph() {
    let ws = workspace(WorkspaceConfig::default());
    let p = plan(
        vec![changed("app", Some("ui")), changed("extra", None), changed("api", None), changed("core", None)],
        &["core", "api", "app"],
    );
    let created = [entry("api", 5), entry("core", 2), entry("api", 9)];
    let rows = changeset_template_rows(&ws, &p, Some(&created));
    let order: Vec<&str> = rows.iter().map(|r| r.repo.as_str()).collect();
    assert_eq!(order, vec!["extra", "core", "api", "app"]);
    assert_eq!(rows[0].merge_order, 0);
    assert_eq!(rows[0].link, "pending");
    assert_eq!(rows[0].status, "pending");
    assert_eq!(rows[2].merge_order, 2);
    assert_eq!(rows[2].link, "[!9](https://forge/api/9)");
    assert_eq!(rows[2].status, "open");
    assert_eq!(rows[2].dependencies, vec!["core".to_string()]);
    assert_eq!(rows[2].dependents, vec!["app".to_string()]);
    assert_eq!(rows[3].dependencies, vec!["api".to_string(), "core".to_string()]);
    assert!(rows[3].dependents.is_empty());
    assert_eq!(rows[3].summary, "ui");
    assert_eq!(rows[1].dependents, vec!["api".to_string(), "app".to_string()]);
    let pending = changeset_template_rows(&ws, &p, None);
    assert!(pending.iter().all(|r| r.status == "pending"));
}
