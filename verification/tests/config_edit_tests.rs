use harmonia::cli::args::RepoAddArgs;
use harmonia::config::edit::{repo_list_text, repo_show_text, workspace_repo_add, workspace_repo_remove};
use harmonia::config::tree::{config_key_segments, workspace_config_get, workspace_config_set, ConfigTable, ConfigValue};

fn text(s: &str) -> ConfigValue {
    ConfigValue::Text(s.to_string())
}

fn table(entries: Vec<(&str, ConfigValue)>) -> ConfigValue {
    ConfigValue::Table(ConfigTable { entries: entries.into_iter().map(|(k, v)| (k.to_string(), v)).collect() })
}

fn get<'a>(v: &'a ConfigValue, key: &str) -> Option<&'a ConfigValue> {
    match v {
        ConfigValue::Table(t) => t.entries.iter().find(|(k, _)| k == key).map(|(_, v)| v),
        _ => None,
    }
}

fn as_text(v: Option<&ConfigValue>) -> Option<&str> {
    match v {
        Some(ConfigValue::Text(s)) => Some(s.as_str()),
        _ => None,
    }
}

fn sample() -> ConfigValue {
    table(vec![
        ("workspace", table(vec![("name", text("demo"))])),
        (
            "repos",
            table(vec![
                ("core", table(vec![("url", text("git@example.com:org/core.git"))])),
                ("api", table(vec![("external", ConfigValue::Boolean(true))])),
            ]),
        ),
        ("groups", table(vec![("backend", ConfigValue::Array(vec![text("core"), text("api")])), ("label", text("x"))])),
    ])
}

#[test]
fn keys_split_on_dots_and_skip_empty_segments() {
    assert_eq!(config_key_segments("defaults.clone_protocol"), vec!["defaults".to_string(), "clone_protocol".to_string()]);
    assert_eq!(config_key_segments(".a..b."), vec!["a".to_string(), "b".to_string()]);
    assert!(config_key_segments("...").is_empty());
}

#[test]
fn config_get_follows_tables() {
    let v = sample();
    assert_eq!(as_text(workspace_config_get(&v, "workspace.name")), Some("demo"));
    assert!(workspace_config_get(&v, "workspace.missing").is_none());
    assert!(workspace_config_get(&v, "workspace.name.deeper").is_none());
    assert!(workspace_config_get(&v, "").is_none());
}

#[test]
fn config_set_creates_tables_and_rejects_non_tables() {
    let mut v = sample();
    workspace_config_set(&mut v, "defaults.clone.depth", ConfigValue::Integer(1)).expect("set");
    match workspace_config_get(&v, "defaults.clone.depth") {
        Some(ConfigValue::Integer(1)) => {}
        other => panic!("unexpected {other:?}"),
    }
    workspace_config_set(&mut v, "workspace.name", text("renamed")).expect("replace");
    assert_eq!(as_text(workspace_config_get(&v, "workspace.name")), Some("renamed"));
    let err = workspace_config_set(&mut v, "workspace.name.inner", text("x")).expect_err("not a table");
    assert_eq!(err.message(), "cannot set 'workspace.name.inner' because 'name' is not a table");
    let err = workspace_config_set(&mut v, "..", text("x")).expect_err("empty");
    assert_eq!(err.message(), "config key cannot be empty");
    let mut scalar = text("x");
    let err = workspace_config_set(&mut scalar, "a", text("y")).expect_err("root");
    assert_eq!(err.message(), "cannot set 'a' because parent path is not a table");
}

#[test]
fn repo_list_and_show() {
    let v = sample();
    let listing = repo_list_text(&v).expect("table").expect("repos");
    assert_eq!(
        listing,
        "Repo          URL                              External  Ignored\n----------------------------------------------------------------\napi           -                                true     false\ncore          git@example.com:org/core.git     false    false\n"
    );
    assert_eq!(
        repo_show_text(&v, "core").expect("known"),
        "repo: core\n  url: git@example.com:org/core.git\n  default_branch: (workspace default)\n  package_name: (repo name)\n  external: false\n  ignored: false\n"
    );
    assert_eq!(repo_show_text(&v, "web").expect_err("unknown").message(), "repo 'web' not found in config");
    let empty = table(vec![("repos", table(vec![]))]);
    assert_eq!(repo_list_text(&empty).expect("table"), None);
    assert_eq!(repo_list_text(&table(vec![])).expect_err("no repos").message(), "[repos] must be a table");
}

fn add_args(name: &str, group: Option<&str>) -> RepoAddArgs {
    RepoAddArgs {
        name: name.to_string(),
        url: Some("https://example.com/web.git".to_string()),
        default_branch: None,
        package_name: Some("web-ui".to_string()),
        external: false,
        ignored: true,
        group: group.map(str::to_string),
    }
}

#[test]
fn repo_add_writes_entry_and_group_member() {
    let mut v = sample();
    workspace_repo_add(&mut v, &add_args("web", Some("backend"))).expect("added");
    let web = get(get(&v, "repos").expect("repos"), "web").expect("web");
    assert_eq!(as_text(get(web, "url")), Some("https://example.com/web.git"));
    assert_eq!(as_text(get(web, "package_name")), Some("web-ui"));
    assert!(get(web, "default_branch").is_none());
    assert!(matches!(get(web, "ignored"), Some(ConfigValue::Boolean(true))));
    match get(get(&v, "groups").expect("groups"), "backend") {
        Some(ConfigValue::Array(items)) => assert_eq!(items.len(), 3),
        other => panic!("unexpected {other:?}"),
    }
    let err = workspace_repo_add(&mut v, &add_args("web", None)).expect_err("duplicate");
    assert_eq!(err.message(), "repo 'web' already exists");
    let err = workspace_repo_add(&mut v, &add_args("docs", Some("label"))).expect_err("not a list");
    assert_eq!(err.message(), "[groups].label must be an array");
    workspace_repo_add(&mut v, &add_args("docs", Some("frontend"))).expect("new group");
    match get(get(&v, "groups").expect("groups"), "frontend") {
        Some(ConfigValue::Array(items)) => assert_eq!(items.len(), 1),
        other => panic!("unexpected {other:?}"),
    }
}

#[test]
fn repo_remove_drops_entry_and_memberships() {
    let mut v = sample();
    workspace_repo_remove(&mut v, "api").expect("removed");
    assert!(get(get(&v, "repos").expect("repos"), "api").is_none());
    match get(get(&v, "groups").expect("groups"), "backend") {
        Some(ConfigValue::Array(items)) => assert_eq!(items.len(), 1),
        other => panic!("unexpected {other:?}"),
    }
    let err = workspace_repo_remove(&mut v, "api").expect_err("gone");
    assert_eq!(err.message(), "repo 'api' not found in config");
    let mut scalar = text("x");
    assert_eq!(workspace_repo_remove(&mut scalar, "api").expect_err("root").message(), "workspace config root must be a table");
}
