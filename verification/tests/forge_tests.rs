use harmonia::config::workspace::ForgeConfig;
use harmonia::forge::github::{ci_state_from_checks, normalize_host, parse_pr_state};
use harmonia::forge::gitlab::{aggregate_ci_state, encode_project_path, project_path_for_repo};
use harmonia::forge::{client_settings, forge_token_from_sources, CheckRun, CiState, Issue, IssueState, MrState, Pipeline};
use harmonia::project::repo::RepoId;

#[test]
fn normalizes_github_host() {
    assert_eq!(normalize_host("github.com"), "https://api.github.com");
    assert_eq!(normalize_host("https://api.github.com"), "https://api.github.com");
    assert_eq!(
        normalize_host("github.enterprise.example.com"),
        "https://github.enterprise.example.com/api/v3"
    );
}

#[test]
fn maps_pr_states() {
    assert_eq!(parse_pr_state(Some("merged"), false), MrState::Merged);
    assert_eq!(parse_pr_state(Some("closed"), false), MrState::Closed);
    assert_eq!(parse_pr_state(Some("open"), false), MrState::Open);
    assert_eq!(parse_pr_state(None, true), MrState::Draft);
}

#[test]
fn computes_ci_state_from_checks() {
    let checks = vec![
        CheckRun { name: "build".into(), status: "in_progress".into() },
        CheckRun { name: "test".into(), status: "success".into() },
    ];
    assert_eq!(ci_state_from_checks(&checks, Some("success")), CiState::Running);
}

#[test]
fn parse_issue_requires_id_fields() {
    let issue = Issue {
        id: "1".into(),
        iid: 1,
        title: "fix".into(),
        url: "https://example/1".into(),
        state: IssueState::Open,
    };
    assert_eq!(issue.id, "1");
    assert_eq!(issue.iid, 1);
    assert_eq!(issue.title, "fix");
}

#[test]
fn project_path_uses_default_group_when_repo_is_unqualified() {
    let path = project_path_for_repo(Some("platform"), &RepoId::new("service-a"));
    assert_eq!(path, "platform/service-a");
}

#[test]
fn project_path_keeps_qualified_repo() {
    let path = project_path_for_repo(Some("platform"), &RepoId::new("team/service-a"));
    assert_eq!(path, "team/service-a");
}

#[test]
fn encodes_project_path_for_gitlab_routes() {
    assert_eq!(encode_project_path("group/sub/repo"), "group%2Fsub%2Frepo");
}

#[test]
fn aggregates_ci_state_by_priority() {
    let pipelines = vec![
        Pipeline { id: "1".to_string(), status: "success".to_string() },
        Pipeline { id: "2".to_string(), status: "running".to_string() },
    ];
    assert_eq!(aggregate_ci_state(&pipelines), CiState::Running);
}

#[test]
fn creates_github_client_from_config() {
    let config = ForgeConfig {
        forge_type: "github".to_string(),
        host: None,
        default_group: Some("example-org".to_string()),
        token: Some("token".to_string()),
    };
    let client = client_settings(&config, None);
    assert!(client.is_ok());
}

#[test]
fn creates_gitlab_client_from_config() {
    let config = ForgeConfig {
        forge_type: "gitlab".to_string(),
        host: None,
        default_group: None,
        token: Some("token".to_string()),
    };
    let client = client_settings(&config, None);
    assert!(client.is_ok());
}

#[test]
fn errors_without_token() {
    let config = ForgeConfig {
        forge_type: "gitlab".to_string(),
        host: None,
        default_group: None,
        token: None,
    };
    let client = client_settings(&config, None);
    assert!(client.is_err());
}

#[test]
fn env_token_takes_precedence_over_config_token() {
    let token = forge_token_from_sources(Some("config-token"), Some("env-token".to_string()));
    assert_eq!(token.as_deref(), Some("env-token"));
}

#[test]
fn falls_back_to_config_token_when_env_missing() {
    let token = forge_token_from_sources(Some("config-token"), None);
    assert_eq!(token.as_deref(), Some("config-token"));
}
