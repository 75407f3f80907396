use harmonia::cli::plan::{ordered_plan_repos, plan_recommendations, plan_status_summary, plan_summary_text, PlanChangedRepo, PlanSummary};
use harmonia::cli::status::{parse_ahead_behind_counts, status_porcelain, status_table, workspace_display_name, StatusRow};
use harmonia::git::status::{status_from_porcelain, StatusSummary};
use harmonia::graph::constraint::ConstraintReport;
use harmonia::project::repo::RepoId;

fn summary(staged: usize, modified: usize) -> StatusSummary {
    StatusSummary {
        staged: (0..staged).map(|i| format!("s{i}")).collect(),
        modified: (0..modified).map(|i| format!("m{i}")).collect(),
        untracked: Vec::new(),
        conflicts: Vec::new(),
    }
}

fn changed(id: &str) -> PlanChangedRepo {
    PlanChangedRepo { id: RepoId::new(id), branch: "feature/x".to_string(), status: summary(1, 0), diff_stat: String::new(), changeset_summary: None }
}

fn empty_report() -> ConstraintReport {
    ConstraintReport { violations: Vec::new(), missing: Vec::new(), cycles: Vec::new() }
}

#[test]
fn recommendations_fall_back_to_all_clear() {
    let recs = plan_recommendations(&[changed("app")], &empty_report());
    assert_eq!(recs, vec!["no blocking issues detected for the current local changeset".to_string()]);
}

#[test]
fn recommendations_ask_for_ordered_merges_with_several_repos() {
    let mut report = empty_report();
    report.cycles.push(vec![RepoId::new("a"), RepoId::new("b")]);
    let recs = plan_recommendations(&[changed("app"), changed("lib")], &report);
    assert_eq!(
        recs,
        vec![
            "resolve dependency cycles before creating merge requests".to_string(),
            "merge in the listed order and wait for CI between steps".to_string(),
        ]
    );
}

#[test]
fn plan_status_line_counts_each_kind() {
    assert_eq!(plan_status_summary(&summary(2, 1)), "2 staged, 1 modified, 0 untracked, 0 conflicts");
}

#[test]
fn ordered_plan_puts_unordered_changes_last_sorted() {
    let plan = PlanSummary {
        changed: vec![changed("zeta"), changed("app"), changed("core"), changed("beta")],
        merge_order: vec![RepoId::new("core"), RepoId::new("lib"), RepoId::new("app")],
        constraints: empty_report(),
        recommendations: Vec::new(),
        changeset: None,
    };
    let order: Vec<String> = ordered_plan_repos(&plan).iter().map(|id| id.as_str().to_string()).collect();
    assert_eq!(order, vec!["core", "app", "beta", "zeta"]);
}

#[test]
fn plan_text_reports_no_changes() {
    let plan = PlanSummary { changed: Vec::new(), merge_order: Vec::new(), constraints: empty_report(), recommendations: Vec::new(), changeset: None };
    assert_eq!(plan_summary_text(&plan), "Changeset Analysis\n==================\n\nNo changed repositories detected.\n");
}

#[test]
fn plan_text_lists_changes_order_and_recommendations() {
    let plan = PlanSummary {
        changed: vec![changed("app")],
        merge_order: vec![RepoId::new("app")],
        constraints: empty_report(),
        recommendations: vec!["ship it".to_string()],
        changeset: None,
    };
    let text = plan_summary_text(&plan);
    assert!(text.contains("Changed repositories:\n  app                feature/x        1 staged, 0 modified, 0 untracked, 0 conflicts\n"));
    assert!(text.contains("Merge order:\n  1. app\n"));
    assert!(text.contains("  cycles: 0\n  missing dependencies: 0\n  violations: 0\n"));
    assert!(text.ends_with("Recommendations:\n  - ship it\n"));
}

#[test]
fn ahead_behind_rejects_a_single_number() {
    assert_eq!(parse_ahead_behind_counts("7"), None);
    assert_eq!(parse_ahead_behind_counts("  3   12 "), Some((12, 3)));
}

fn row(repo: &str, branch: &str, ahead: usize, behind: usize, status: StatusSummary) -> StatusRow {
    StatusRow { repo: repo.to_string(), path: String::new(), branch: branch.to_string(), ahead, behind, status }
}

#[test]
fn status_short_form_is_tab_separated() {
    let rows = vec![row("core", "main", 1, 2, summary(0, 0))];
    assert_eq!(status_table("ws", &rows, true), "core\tmain\t+1\t-2\tclean\n");
}

#[test]
fn status_table_pads_columns() {
    let rows = vec![row("core", "main", 0, 0, summary(0, 1))];
    let text = status_table("ws", &rows, false);
    let header = format!("{:<4} {:<6} {:>4} {:>4} {:<5}", "Repo", "Branch", "\u{2191}", "\u{2193}", "Status");
    let expected = format!(
        "Workspace: ws (1 repos)\n\n{}\n{}\ncore main      0    0 0 staged, 1 modified, 0 untracked, 0 conflicts\n",
        header,
        "-".repeat(header.len())
    );
    assert_eq!(text, expected);
}

#[test]
fn status_porcelain_lists_counts() {
    let rows = vec![row("core", "main", 3, 0, summary(1, 2))];
    assert_eq!(status_porcelain(&rows), "core\tmain\t3\t0\t1\t2\t0\t0\n");
}

#[test]
fn workspace_name_falls_back_to_root_directory() {
    assert_eq!(workspace_display_name("", "/home/me/platform"), "platform");
    assert_eq!(workspace_display_name("named", "/home/me/platform"), "named");
    assert_eq!(workspace_display_name("", "/"), "workspace");
}

#[test]
fn porcelain_status_is_sorted_by_kind() {
    let s = status_from_porcelain("M  staged.rs\n M modified.rs\nMM both.rs\n?? new.txt\nUU clash.rs\n");
    assert_eq!(s.staged, vec!["staged.rs", "both.rs"]);
    assert_eq!(s.modified, vec!["modified.rs", "both.rs"]);
    assert_eq!(s.untracked, vec!["new.txt"]);
    assert_eq!(s.conflicts, vec!["clash.rs"]);
}
