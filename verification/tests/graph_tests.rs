use harmonia::ecosystem::EcosystemId;
use harmonia::graph::constraint::{check_constraints, ViolationType};
use harmonia::graph::ops::{merge_order, topological_order};
use harmonia::graph::DependencyGraph;
use harmonia::project::repo::{Dependency, Repo, RepoId};
use harmonia::project::version::{Version, VersionKind, VersionReq};

fn make_repo(name: &str) -> Repo {
    Repo {
        id: RepoId::new(name),
        path: format!("/tmp/{name}"),
        remote_url: String::new(),
        default_branch: "main".to_string(),
        package_name: Some(name.to_string()),
        depends_on: Vec::new(),
        ecosystem: None,
        config: None,
        external: false,
        ignored: false,
    }
}

fn make_dependency(name: &str) -> Dependency {
    Dependency { name: name.to_string(), constraint: VersionReq::new("^1.0.0"), is_internal: true }
}

fn make_repos() -> Vec<Repo> {
    ["app", "lib", "core"].iter().map(|name| make_repo(name)).collect()
}

fn names(order: Vec<RepoId>) -> Vec<String> {
    order.into_iter().map(|id| id.as_str().to_string()).collect()
}

#[test]
fn topological_order_is_dependency_first() {
    let repos = make_repos();
    let mut graph = DependencyGraph::new();
    graph.insert(RepoId::new("app"), vec![make_dependency("lib")]);
    graph.insert(RepoId::new("lib"), vec![make_dependency("core")]);
    graph.insert(RepoId::new("core"), Vec::new());

    let order = topological_order(&graph, &repos).expect("topological order should succeed");
    assert_eq!(names(order), vec!["core", "lib", "app"]);
}

#[test]
fn merge_order_includes_dependencies_before_target() {
    let repos = make_repos();
    let mut graph = DependencyGraph::new();
    graph.insert(RepoId::new("app"), vec![make_dependency("lib")]);
    graph.insert(RepoId::new("lib"), vec![make_dependency("core")]);
    graph.insert(RepoId::new("core"), Vec::new());

    let order = merge_order(&graph, &repos, &[RepoId::new("app")]).expect("merge order should succeed");
    assert_eq!(names(order), vec!["core", "lib", "app"]);
}

#[test]
fn topological_order_errors_on_cycle() {
    let repos = make_repos();
    let mut graph = DependencyGraph::new();
    graph.insert(RepoId::new("app"), vec![make_dependency("lib")]);
    graph.insert(RepoId::new("lib"), vec![make_dependency("app")]);
    graph.insert(RepoId::new("core"), Vec::new());

    let result = topological_order(&graph, &repos);
    assert!(result.is_err());
}

fn repo(id: &str, package_name: &str) -> Repo {
    let mut r = make_repo(id);
    r.package_name = Some(package_name.to_string());
    r.ecosystem = Some(EcosystemId::Rust);
    r
}

#[test]
fn check_constraints_detects_unsatisfied_exact_and_upper_bound() {
    let repos = vec![
        repo("core", "core"),
        repo("app-unsat", "app-unsat"),
        repo("app-exact", "app-exact"),
        repo("app-upper", "app-upper"),
    ];
    let mut graph = DependencyGraph::new();
    graph.insert(
        RepoId::new("app-unsat"),
        vec![Dependency { name: "core".to_string(), constraint: VersionReq::new("^2.0.0"), is_internal: true }],
    );
    graph.insert(
        RepoId::new("app-exact"),
        vec![Dependency { name: "core".to_string(), constraint: VersionReq::new("=1.2.3"), is_internal: true }],
    );
    graph.insert(
        RepoId::new("app-upper"),
        vec![Dependency { name: "core".to_string(), constraint: VersionReq::new("<2.0.0"), is_internal: true }],
    );
    graph.insert(RepoId::new("core"), Vec::new());

    let versions = vec![(RepoId::new("core"), Version::new("1.2.3", VersionKind::Semver))];

    let report = check_constraints(&graph, &repos, &versions);
    assert!(report.violations.iter().any(|v| v.violation_type == ViolationType::Unsatisfied));
    assert!(report.violations.iter().any(|v| v.violation_type == ViolationType::ExactPin));
    assert!(report.violations.iter().any(|v| v.violation_type == ViolationType::UpperBound));
}

#[test]
fn topological_order_counts_a_repeated_dependency_once() {
    let repos = make_repos();
    let mut graph = DependencyGraph::new();
    graph.insert(RepoId::new("app"), vec![make_dependency("lib"), make_dependency("lib")]);
    graph.insert(RepoId::new("lib"), vec![make_dependency("core")]);
    graph.insert(RepoId::new("core"), Vec::new());

    let order = topological_order(&graph, &repos).expect("an acyclic graph has an order");
    assert_eq!(names(order), vec!["core", "lib", "app"]);
}
