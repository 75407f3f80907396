use harmonia::cli::graph_view::{graph_labels, graph_show_scope, parse_graph_format, GraphDirection, GraphFormat};
use harmonia::cli::scope::{expand_branch_scope, repos_in_graph_order};
use harmonia::project::version::{Version, VersionKind};
use harmonia::config::workspace::WorkspaceConfig;
use harmonia::graph::DependencyGraph;
use harmonia::project::repo::{Dependency, Repo, RepoId};
use harmonia::project::version::VersionReq;
use harmonia::project::workspace::Workspace;

fn repo(id: &str, ignored: bool, external: bool) -> Repo {
    Repo {
        id: RepoId::new(id),
        path: format!("/tmp/{id}"),
        remote_url: String::new(),
        default_branch: "main".to_string(),
        package_name: None,
        depends_on: Vec::new(),
        ecosystem: None,
        config: None,
        external,
        ignored,
    }
}

fn internal(name: &str) -> Dependency {
    Dependency { name: name.to_string(), constraint: VersionReq::new("^1.0.0"), is_internal: true }
}

fn workspace() -> Workspace {
    let mut graph = DependencyGraph::new();
    graph.insert(RepoId::new("core"), Vec::new());
    graph.insert(RepoId::new("api"), vec![internal("core")]);
    graph.insert(RepoId::new("app"), vec![internal("api")]);
    graph.insert(RepoId::new("docs"), vec![internal("api")]);
    graph.insert(RepoId::new("vendor"), vec![internal("app")]);
    Workspace {
        root: "/tmp/ws".to_string(),
        config: WorkspaceConfig::default(),
        repos: vec![
            repo("core", false, false),
            repo("api", false, false),
            repo("app", false, false),
            repo("docs", true, false),
            repo("vendor", false, true),
        ],
        graph,
    }
}

fn names(ids: &[RepoId]) -> Vec<&str> {
    ids.iter().map(|id| id.as_str()).collect()
}

#[test]
fn branch_scope_grows_to_dependents_and_keeps_selectable_repos() {
    let ws = workspace();
    let given = vec![RepoId::new("api")];
    assert_eq!(names(&expand_branch_scope(&ws, &given, true, false)), vec!["api", "app"]);
    assert_eq!(names(&expand_branch_scope(&ws, &given, false, true)), vec!["api", "app", "core"]);
    assert_eq!(names(&expand_branch_scope(&ws, &given, false, false)), vec!["api"]);
    let unknown = vec![RepoId::new("ghost")];
    assert!(expand_branch_scope(&ws, &unknown, true, true).is_empty());
}

#[test]
fn graph_order_puts_dependencies_first_and_unknown_last() {
    let ws = workspace();
    let given = vec![RepoId::new("zeta"), RepoId::new("app"), RepoId::new("core"), RepoId::new("alpha")];
    let ordered = repos_in_graph_order(&ws, &given).expect("acyclic");
    assert_eq!(names(&ordered), vec!["core", "app", "alpha", "zeta"]);
}

#[test]
fn graph_scope_labels_and_formats() {
    let ws = workspace();
    let all = graph_show_scope(&ws, None, GraphDirection::Down);
    assert_eq!(all, vec!["api".to_string(), "app".to_string(), "core".to_string(), "vendor".to_string()]);
    let changed = vec![RepoId::new("api")];
    assert_eq!(graph_show_scope(&ws, Some(&changed), GraphDirection::Down), vec!["api".to_string(), "core".to_string()]);
    assert_eq!(
        graph_show_scope(&ws, Some(&changed), GraphDirection::Up),
        vec!["api".to_string(), "app".to_string(), "docs".to_string(), "vendor".to_string()]
    );
    let versions = vec![(RepoId::new("core"), Version::new("1.2.0", VersionKind::Semver))];
    let labels = graph_labels(&vec!["api".to_string(), "core".to_string()], &versions);
    assert_eq!(labels[0].1, "api");
    assert_eq!(labels[1].1, "core (1.2.0)");
    assert_eq!(parse_graph_format("DOT").expect("dot"), GraphFormat::Dot);
    assert_eq!(parse_graph_format("Svg").expect_err("unknown").message(), "unknown graph format 'svg'");
}
