use harmonia::cli::clone::{parse_depth, resolve_clone_url, to_https_url, to_ssh_url};
use harmonia::cli::mr::{format_mr_branch_conflict_error, MrBranchConflict};
use harmonia::cli::status::parse_ahead_behind_counts;
use harmonia::project::repo::RepoId;

#[test]
fn parse_ahead_behind_output() {
    assert_eq!(parse_ahead_behind_counts("4\t9\n"), Some((9, 4)));
    assert_eq!(parse_ahead_behind_counts("0 0"), Some((0, 0)));
    assert_eq!(parse_ahead_behind_counts("x y"), None);
}

#[test]
fn clone_url_protocol_conversion() {
    assert_eq!(
        to_https_url("git@gitlab.example.com:team/repo.git"),
        Some("https://gitlab.example.com/team/repo.git".to_string())
    );
    assert_eq!(
        to_ssh_url("https://gitlab.example.com/team/repo.git"),
        Some("git@gitlab.example.com:team/repo.git".to_string())
    );
    assert_eq!(
        resolve_clone_url("file:///tmp/repo.git", Some("https")),
        "file:///tmp/repo.git".to_string()
    );
}

#[test]
fn parse_depth_from_defaults() {
    assert_eq!(parse_depth(None, false, Some("5")).expect("depth parse"), Some(5));
    assert_eq!(parse_depth(None, false, Some("full")).expect("depth parse"), None);
    assert_eq!(parse_depth(None, true, Some("5")).expect("depth parse"), None);
}

#[test]
fn mr_branch_conflict_error_is_actionable() {
    let message = format_mr_branch_conflict_error(
        &[
            MrBranchConflict {
                repo: RepoId::new("python/api"),
                source_branch: "main".to_string(),
                target_branch: "main".to_string(),
            },
            MrBranchConflict {
                repo: RepoId::new("python/utils"),
                source_branch: "main".to_string(),
                target_branch: "main".to_string(),
            },
        ],
        Some("feature/harmonia-test"),
    );

    assert!(
        message.contains("cannot create merge requests where source and target branches are the same"),
        "message:\n{message}"
    );
    assert!(message.contains("python/api"), "message:\n{message}");
    assert!(message.contains("python/utils"), "message:\n{message}");
    assert!(message.contains("harmonia mr create --auto-branch"), "message:\n{message}");
    assert!(
        message.contains("default auto-branch name for this run: feature/harmonia-test"),
        "message:\n{message}"
    );
    assert!(
        message.contains("example: harmonia branch <feature-name> --create --changed"),
        "message:\n{message}"
    );
}
