use harmonia::ecosystem::go::GoPlugin;
use harmonia::ecosystem::python::PythonPlugin;
use harmonia::ecosystem::rust::RustPlugin;
use harmonia::project::version::{Version, VersionKind};

#[test]
fn parses_and_updates_go_mod_dependencies() {
    let plugin = GoPlugin;
    let path = "go.mod";
    let content = r#"
module example.com/svc

go 1.22

require (
    example.com/core v1.2.3
)
"#;

    let deps = plugin.parse_dependencies(path, content).expect("parse deps");
    assert!(deps.iter().any(|dep| dep.name == "example.com/core"));

    let updated = plugin
        .update_dependency(path, content, "example.com/core", "v1.3.0")
        .expect("update dep");
    assert!(updated.contains("example.com/core v1.3.0"));
}

#[test]
fn parses_and_updates_pyproject_dependencies() {
    let plugin = PythonPlugin;
    let path = "pyproject.toml";
    let content = r#"
[project]
name = "svc"
version = "1.0.0"
dependencies = [
  "core>=1.2,<2",
  "httpx[socks]>=0.25; python_version >= '3.11'",
]
"#;

    let deps = plugin.parse_dependencies(path, content).expect("parse deps");
    assert!(deps.iter().any(|dep| dep.name == "core"));
    assert!(deps.iter().any(|dep| dep.name == "httpx"));

    let updated = plugin.update_dependency(path, content, "httpx", ">=0.30").expect("update dep");
    assert!(updated.contains("httpx[socks] >=0.30; python_version >= '3.11'"));
}

#[test]
fn parses_and_updates_rust_manifest() {
    let plugin = RustPlugin;
    let path = "Cargo.toml";
    let content = "[package]\nname = \"svc\"\nversion = \"0.1.0\"\n\n[dependencies]\ncore = \"^0.1\"\n";

    let version = plugin.parse_version(path, content).expect("parse version").expect("version exists");
    assert_eq!(version.raw, "0.1.0");

    let deps = plugin.parse_dependencies(path, content).expect("parse deps");
    assert!(deps.iter().any(|dep| dep.name == "core"));

    let updated = plugin.update_dependency(path, content, "core", "^0.2").expect("update dep");
    assert!(updated.contains("core = \"^0.2\""));

    let updated_version = plugin
        .update_version(path, &updated, &Version::new("0.2.0", VersionKind::Semver))
        .expect("update version");
    assert!(updated_version.contains("version = \"0.2.0\""));
}

#[test]
fn rust_manifest_table_dependencies_use_their_version() {
    let plugin = RustPlugin;
    let path = "Cargo.toml";
    let content = "[package]\nname = \"svc\"\nversion = \"0.1.0\"\n\n[dependencies]\ncore = { version = \"1.2\", path = \"../core\" }\nlocal = { path = \"../local\" }\n";

    let deps = plugin.parse_dependencies(path, content).expect("parse deps");
    let core = deps.iter().find(|d| d.name == "core").expect("core listed");
    assert_eq!(core.constraint.raw, "1.2");
    let local = deps.iter().find(|d| d.name == "local").expect("local listed");
    assert_eq!(local.constraint.raw, "");

    let updated = plugin.update_dependency(path, content, "core", "1.3").expect("update dep");
    let reparsed = plugin.parse_dependencies(path, &updated).expect("parse again");
    let core = reparsed.iter().find(|d| d.name == "core").expect("core still listed");
    assert_eq!(core.constraint.raw, "1.3");
    assert!(updated.contains("../core"));
}

#[test]
fn node_manifest_version_is_set_at_top_level() {
    let plugin = harmonia::ecosystem::node::NodePlugin;
    let content = "{\n  \"name\": \"web\",\n  \"version\": \"1.0.0\"\n}";
    let updated = plugin
        .update_version("package.json", content, &Version::new("1.1.0", VersionKind::Semver))
        .expect("update version");
    assert!(updated.contains("\"version\": \"1.1.0\""));
    assert!(updated.contains("\"name\": \"web\""));
}
