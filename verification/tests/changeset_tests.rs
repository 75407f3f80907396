use harmonia::config::workspace::WorkspaceConfig;
use harmonia::project::changeset::{changesets_enabled, select_active_changeset, ChangesetFile, ChangesetRepoSummary};

#[test]
fn active_changeset_selected_by_branch() {
    let changesets = vec![ChangesetFile {
        id: "cs-auth".to_string(),
        title: "auth".to_string(),
        description: String::new(),
        branch: "feature/auth".to_string(),
        repos: vec![ChangesetRepoSummary { repo: "app".to_string(), summary: String::new() }],
        path: String::new(),
    }];

    let branches = vec!["feature/auth".to_string()];
    let selected = select_active_changeset(&changesets, &branches)
        .expect("select changeset")
        .expect("changeset exists");
    assert_eq!(selected.id, "cs-auth");
}

#[test]
fn changesets_disabled_by_default() {
    let config = WorkspaceConfig::default();
    assert!(!changesets_enabled(&config));
}
