use harmonia::ecosystem::versioning::{
    key_path_segments, path_extension, read_version_with_path, read_version_with_pattern, update_version_with_path,
    update_version_with_pattern,
};
use harmonia::error::HarmoniaError;
use harmonia::project::version::{Version, VersionKind};

fn other_message(err: HarmoniaError) -> String {
    match err {
        HarmoniaError::Other(m) => m,
        _ => panic!("expected an Other error"),
    }
}

#[test]
fn key_path_keeps_non_empty_parts() {
    assert_eq!(key_path_segments("tool.poetry.version"), vec!["tool", "poetry", "version"]);
    assert_eq!(key_path_segments("..a..b."), vec!["a", "b"]);
    assert!(key_path_segments("...").is_empty());
    assert!(key_path_segments("").is_empty());
}

#[test]
fn extension_follows_the_last_dot_of_the_file_name() {
    assert_eq!(path_extension("repo/version.toml").as_deref(), Some("toml"));
    assert_eq!(path_extension("a.b.yml").as_deref(), Some("yml"));
    assert_eq!(path_extension("dir.d/.toml"), None);
    assert_eq!(path_extension("Makefile"), None);
}

#[test]
fn reads_versions_by_key_path() {
    let toml = "[tool.poetry]\nversion = \"1.4.0\"\n";
    assert_eq!(read_version_with_path("pyproject.toml", toml, "tool.poetry.version").unwrap().as_deref(), Some("1.4.0"));
    assert_eq!(read_version_with_path("pyproject.toml", toml, "tool.missing").unwrap(), None);
    assert_eq!(read_version_with_path("pyproject.toml", toml, ".").unwrap(), None);

    let json = "{\"meta\": {\"version\": \"2.0.1\", \"build\": 7}}";
    assert_eq!(read_version_with_path("package.json", json, "meta.version").unwrap().as_deref(), Some("2.0.1"));
    assert_eq!(read_version_with_path("package.json", json, "meta.build").unwrap().as_deref(), Some("7"));
    assert_eq!(read_version_with_path("package.json", json, "meta").unwrap(), None);

    let yaml = "app:\n  version: 3.2.0\n";
    assert_eq!(read_version_with_path("chart.yaml", yaml, "app.version").unwrap().as_deref(), Some("3.2.0"));

    assert_eq!(read_version_with_path("VERSION.txt", "1.0.0", "version").unwrap(), None);
    assert!(read_version_with_path("bad.json", "{", "version").is_err());
}

#[test]
fn updates_versions_by_key_path() {
    let new = Version::new("1.5.0", VersionKind::Semver);
    let toml = "[tool.poetry]\nversion = \"1.4.0\"\nname = \"svc\"\n";
    let updated = update_version_with_path("pyproject.toml", toml, "tool.poetry.version", &new).unwrap();
    assert_eq!(read_version_with_path("pyproject.toml", &updated, "tool.poetry.version").unwrap().as_deref(), Some("1.5.0"));
    assert!(updated.contains("name = \"svc\""));

    let json = "{\"name\": \"web\"}";
    let updated = update_version_with_path("package.json", json, "meta.release.version", &new).unwrap();
    assert_eq!(read_version_with_path("package.json", &updated, "meta.release.version").unwrap().as_deref(), Some("1.5.0"));

    let yaml = "version: 1.0.0\n";
    let updated = update_version_with_path("values.yml", yaml, "version", &new).unwrap();
    assert_eq!(read_version_with_path("values.yml", &updated, "version").unwrap().as_deref(), Some("1.5.0"));

    assert_eq!(update_version_with_path("pyproject.toml", toml, "", &new).unwrap(), toml);
    assert_eq!(update_version_with_path("VERSION", "1.4.0", "version", &new).unwrap(), "1.4.0");
}

#[test]
fn reads_and_updates_versions_by_pattern() {
    let content = "NAME=svc\nVERSION=1.2.3\n";
    assert_eq!(read_version_with_pattern(r"VERSION=(\S+)", content).unwrap().as_deref(), Some("1.2.3"));
    assert_eq!(read_version_with_pattern(r"RELEASE=(\S+)", content).unwrap(), None);
    assert_eq!(
        other_message(read_version_with_pattern(r"VERSION=\S+", content).unwrap_err()),
        "version regex must include a capture group"
    );
    assert!(read_version_with_pattern(r"VERSION=(", content).is_err());

    let new = Version::new("1.3.0", VersionKind::Semver);
    assert_eq!(update_version_with_pattern(r"VERSION=(\S+)", content, &new).unwrap(), "NAME=svc\nVERSION=1.3.0\n");
    assert_eq!(
        other_message(update_version_with_pattern(r"RELEASE=(\S+)", content, &new).unwrap_err()),
        "version pattern did not match"
    );
}
