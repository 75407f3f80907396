use harmonia::cli::descriptions::TemplateRow;
use harmonia::cli::plan::{PlanChangedRepo, PlanChangeset, PlanSummary};
use harmonia::cli::template::{issue_template_context, mr_template_context, render_template};
use harmonia::git::status::StatusSummary;
use harmonia::graph::constraint::ConstraintReport;
use harmonia::project::repo::RepoId;

fn changed(id: &str, summary: Option<&str>) -> PlanChangedRepo {
    PlanChangedRepo {
        id: RepoId::new(id),
        branch: "feature/x".to_string(),
        status: StatusSummary::default(),
        diff_stat: String::new(),
        changeset_summary: summary.map(str::to_string),
    }
}

fn plan_with_changeset() -> PlanSummary {
    PlanSummary {
        changed: vec![changed("core", Some("Adds \"retry\"")), changed("app", None)],
        merge_order: vec![RepoId::new("core"), RepoId::new("app")],
        constraints: ConstraintReport { violations: Vec::new(), missing: Vec::new(), cycles: Vec::new() },
        recommendations: Vec::new(),
        changeset: Some(PlanChangeset {
            id: "cs-1".to_string(),
            title: "Retry support".to_string(),
            description: String::new(),
            branch: "feature/retry".to_string(),
            repo_summaries: Vec::new(),
        }),
    }
}

fn row(repo: &str, order: usize) -> TemplateRow {
    TemplateRow {
        repo: repo.to_string(),
        link: "pending".to_string(),
        status: "pending".to_string(),
        status_emoji: "⏳".to_string(),
        merge_order: order,
        dependencies: Vec::new(),
        dependents: vec!["app".to_string()],
        summary: String::new(),
    }
}

#[test]
fn renders_inline_template() {
    let output = render_template(
        "Hello {{ user }}. Repos: {% for repo in repos %}{{ repo }} {% endfor %}",
        "{\"user\": \"harmonia\", \"repos\": [\"core\", \"app\"]}",
    )
    .expect("render template");
    assert_eq!(output, "Hello harmonia. Repos: core app ");
}

#[test]
fn merge_request_context_is_exact_json() {
    let plan = plan_with_changeset();
    let context = mr_template_context(&plan, "core", "  Line one\nLine \\two\t ", &vec![row("core", 1)]);
    assert_eq!(
        context,
        "{\"repo\":\"core\",\"description\":\"Line one\\nLine \\\\two\",\"title\":\"Retry support\",\
\"changeset\":{\"id\":\"cs-1\",\"branch\":\"feature/retry\",\"repos\":[\"core\",\"app\"],\"merge_order\":[\"core\",\"app\"],\
\"mrs\":[{\"repo\":\"core\",\"link\":\"pending\",\"status\":\"pending\",\"status_emoji\":\"⏳\",\"merge_order\":1,\
\"dependencies\":[],\"dependents\":[\"app\"],\"summary\":\"\"}],\"repo_summary\":\"Adds \\\"retry\\\"\"}}"
    );
    let rendered = render_template("{{ changeset.repo_summary }} / {{ changeset.mrs.0.merge_order }}", &context).expect("render");
    assert_eq!(rendered, "Adds &quot;retry&quot; / 1");
}

#[test]
fn issue_context_escapes_control_characters() {
    let mut plan = plan_with_changeset();
    plan.changeset = None;
    let context = issue_template_context(&plan, Some("bell\u{7}"), "now", &Vec::new());
    assert_eq!(
        context,
        "{\"title\":\"\",\"description\":\"bell\\u0007\",\"now\":\"now\",\"changeset\":{\"id\":\"\",\"branch\":\"\",\"mrs\":[]}}"
    );
    let rendered = render_template("[{{ title }}]{{ description | length }}", &context).expect("render");
    assert_eq!(rendered, "[]5");
}

#[test]
fn rendering_reports_template_errors() {
    assert!(render_template("{{ unclosed", "{}").is_err());
    assert!(render_template("x", "not json").is_err());
}
