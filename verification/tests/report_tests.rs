use harmonia::cli::report::{constraint_fix_suggestion, constraint_report_text, violation_type_label};
use harmonia::graph::constraint::{ConstraintReport, ConstraintViolation, ViolationType};
use harmonia::graph::ops::MissingDependency;
use harmonia::project::repo::{Dependency, RepoId};
use harmonia::project::version::{Version, VersionKind, VersionReq};

fn violation(kind: ViolationType) -> ConstraintViolation {
    ConstraintViolation {
        from_repo: RepoId::new("app"),
        to_repo: RepoId::new("core"),
        constraint: VersionReq::new("^1.0.0"),
        actual_version: Version::new("2.0.0", VersionKind::Semver),
        violation_type: kind,
    }
}

#[test]
fn violation_kinds_have_labels_and_suggestions() {
    assert_eq!(violation_type_label(ViolationType::ExactPin), "exact-pin");
    assert_eq!(violation_type_label(ViolationType::UpperBound), "upper-bound");
    assert_eq!(constraint_fix_suggestion(&violation(ViolationType::Unsatisfied)).as_deref(), Some("update constraint to include 2.0.0"));
    assert_eq!(constraint_fix_suggestion(&violation(ViolationType::ExactPin)).as_deref(), Some("relax exact pin to a range"));
    assert_eq!(constraint_fix_suggestion(&violation(ViolationType::Circular)), None);
}

#[test]
fn empty_report_prints_nothing() {
    let report = ConstraintReport { violations: Vec::new(), missing: Vec::new(), cycles: Vec::new() };
    assert_eq!(constraint_report_text(&report, true), None);
}

#[test]
fn report_lists_cycles_missing_and_violations() {
    let report = ConstraintReport {
        violations: vec![violation(ViolationType::Unsatisfied), violation(ViolationType::Circular)],
        missing: vec![MissingDependency {
            from: RepoId::new("app"),
            dependency: Dependency { name: "ghost".to_string(), constraint: VersionReq::new("^0.1"), is_internal: true },
        }],
        cycles: vec![vec![RepoId::new("a"), RepoId::new("b"), RepoId::new("a")]],
    };
    let text = constraint_report_text(&report, true).expect("issues");
    assert_eq!(
        text,
        "cycles:\n  a -> b -> a\nmissing internal dependencies:\n  app -> ghost (^0.1)\nconstraint violations:\n  app -> core ^1.0.0 (actual 2.0.0) [unsatisfied]\n    suggestion: update constraint to include 2.0.0\n  app -> core ^1.0.0 (actual 2.0.0) [circular]\n"
    );
    let plain = constraint_report_text(&report, false).expect("issues");
    assert!(!plain.contains("suggestion"));
}
