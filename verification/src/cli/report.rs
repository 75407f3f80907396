//! The text `harmonia graph check` prints for a constraint report.
use vstd::prelude::*;
use crate::cli::plan::id_strings;
use crate::graph::constraint::{ConstraintReport, ConstraintViolation, ViolationType, ViolationView, violation_views};
use crate::graph::ops::{MissingDependency, missing_views};
use crate::order::{join_names, join_strings, views};
use crate::project::repo::{DependencyView, RepoId, id_views};
use crate::text::{opt_string_view, push_str, string_of};

verus! {

/// The label of a kind of finding.
pub open spec fn spec_violation_label(v: ViolationType) -> Seq<char> {
    match v {
        ViolationType::Unsatisfied => "unsatisfied"@,
        ViolationType::ExactPin => "exact-pin"@,
        ViolationType::UpperBound => "upper-bound"@,
        ViolationType::Circular => "circular"@,
    }
}

/// The label of a kind of finding.
pub fn violation_type_label(violation: ViolationType) -> (r: String)
    ensures
        r@ == spec_violation_label(violation),
{
    match violation {
        ViolationType::Unsatisfied => string_of("unsatisfied"),
        ViolationType::ExactPin => string_of("exact-pin"),
        ViolationType::UpperBound => string_of("upper-bound"),
        ViolationType::Circular => string_of("circular"),
    }
}

/// What to do about a finding; nothing for a cycle.
pub open spec fn spec_fix_suggestion(v: ViolationView) -> Option<Seq<char>> {
    match v.4 {
        ViolationType::Unsatisfied => Some("update constraint to include "@ + v.3),
        ViolationType::ExactPin => Some("relax exact pin to a range"@),
        ViolationType::UpperBound => Some("consider widening upper bound"@),
        ViolationType::Circular => None,
    }
}

/// What to do about a finding.
pub fn constraint_fix_suggestion(violation: &ConstraintViolation) -> (r: Option<String>)
    ensures
        opt_string_view(r) == spec_fix_suggestion(violation.view()),
{
    match violation.violation_type {
        ViolationType::Unsatisfied => {
            let mut s = string_of("update constraint to include ");
            push_str(&mut s, violation.actual_version.raw.as_str());
            Some(s)
        },
        ViolationType::ExactPin => Some(string_of("relax exact pin to a range")),
        ViolationType::UpperBound => Some(string_of("consider widening upper bound")),
        ViolationType::Circular => None,
    }
}

/// The lines of the cycles, each as its repositories joined by arrows.
pub open spec fn cycle_lines(cs: Seq<Seq<Seq<char>>>) -> Seq<char>
    decreases cs.len(),
{
    if cs.len() == 0 {
        Seq::empty()
    } else {
        cycle_lines(cs.drop_last()) + "  "@ + join_names(cs.last(), " -> "@) + "\n"@
    }
}

/// The lines of the unresolved dependencies.
pub open spec fn missing_lines(ms: Seq<(Seq<char>, DependencyView)>) -> Seq<char>
    decreases ms.len(),
{
    if ms.len() == 0 {
        Seq::empty()
    } else {
        let m = ms.last();
        missing_lines(ms.drop_last()) + "  "@ + m.0 + " -> "@ + m.1.0 + " ("@ + m.1.1 + ")\n"@
    }
}

/// The line of one finding, and its suggestion when asked for.
pub open spec fn violation_line(v: ViolationView, show_fixes: bool) -> Seq<char> {
    "  "@ + v.0 + " -> "@ + v.1 + " "@ + v.2 + " (actual "@ + v.3 + ") ["@ + spec_violation_label(v.4) + "]\n"@ + if show_fixes
        && spec_fix_suggestion(v) is Some {
        "    suggestion: "@ + spec_fix_suggestion(v)->0 + "\n"@
    } else {
        Seq::empty()
    }
}

/// The lines of the findings, each with its suggestion when asked for.
pub open spec fn violation_lines(vs: Seq<ViolationView>, show_fixes: bool) -> Seq<char>
    decreases vs.len(),
{
    if vs.len() == 0 {
        Seq::empty()
    } else {
        violation_lines(vs.drop_last(), show_fixes) + violation_line(vs.last(), show_fixes)
    }
}

/// The cycles as lists of identifiers.
pub open spec fn cycle_views(cs: Seq<Vec<RepoId>>) -> Seq<Seq<Seq<char>>> {
    cs.map_values(|c: Vec<RepoId>| id_views(c@))
}

/// The report as printed: nothing when it found nothing, else the sections
/// that have entries.
pub open spec fn spec_report_text(report: ConstraintReport, show_fixes: bool) -> Option<Seq<char>> {
    let cs = cycle_views(report.cycles@);
    let ms = missing_views(report.missing@);
    let vs = violation_views(report.violations@);
    if cs.len() == 0 && ms.len() == 0 && vs.len() == 0 {
        None
    } else {
        Some(
            (if cs.len() > 0 {
                "cycles:\n"@ + cycle_lines(cs)
            } else {
                Seq::empty()
            }) + (if ms.len() > 0 {
                "missing internal dependencies:\n"@ + missing_lines(ms)
            } else {
                Seq::empty()
            }) + (if vs.len() > 0 {
                "constraint violations:\n"@ + violation_lines(vs, show_fixes)
            } else {
                Seq::empty()
            }),
        )
    }
}

/// Appends the lines of the cycles.
fn push_cycles(out: &mut String, cycles: &Vec<Vec<RepoId>>)
    ensures
        final(out)@ == old(out)@ + cycle_lines(cycle_views(cycles@)),
{
    let ghost start = out@;
    let ghost cs = cycle_views(cycles@);
    let mut i: usize = 0;
    while i < cycles.len()
        invariant
            i <= cycles@.len(),
            cs == cycle_views(cycles@),
            out@ == start + cycle_lines(cs.take(i as int)),
        decreases cycles@.len() - i,
    {
        proof {
            assert(cs.take(i + 1).drop_last() =~= cs.take(i as int));
            assert(cs.take(i + 1).last() == cs[i as int]);
        }
        let names = id_strings(&cycles[i]);
        let line = join_strings(&names, " -> ");
        push_str(out, "  ");
        push_str(out, line.as_str());
        push_str(out, "\n");
        i += 1;
    }
    proof {
        assert(cs.take(cycles@.len() as int) =~= cs);
    }
}

/// Appends the lines of the unresolved dependencies.
fn push_missing(out: &mut String, missing: &Vec<MissingDependency>)
    ensures
        final(out)@ == old(out)@ + missing_lines(missing_views(missing@)),
{
    let ghost start = out@;
    let ghost ms = missing_views(missing@);
    let mut i: usize = 0;
    while i < missing.len()
        invariant
            i <= missing@.len(),
            ms == missing_views(missing@),
            out@ == start + missing_lines(ms.take(i as int)),
        decreases missing@.len() - i,
    {
        proof {
            assert(ms.take(i + 1).drop_last() =~= ms.take(i as int));
            assert(ms.take(i + 1).last() == ms[i as int]);
        }
        let ghost before = out@;
        let m = &missing[i];
        push_str(out, "  ");
        push_str(out, m.from.as_str());
        push_str(out, " -> ");
        push_str(out, m.dependency.name.as_str());
        push_str(out, " (");
        push_str(out, m.dependency.constraint.raw.as_str());
        push_str(out, ")\n");
        proof {
            assert(out@ =~= before + "  "@ + ms[i as int].0 + " -> "@ + ms[i as int].1.0 + " ("@ + ms[i as int].1.1
                + ")\n"@);
        }
        i += 1;
    }
    proof {
        assert(ms.take(missing@.len() as int) =~= ms);
    }
}

/// Appends the line of one finding.
#[verifier::rlimit(40)]
fn push_violation(out: &mut String, v: &ConstraintViolation, show_fixes: bool)
    ensures
        final(out)@ == old(out)@ + violation_line(v.view(), show_fixes),
{
    let ghost before = out@;
    push_str(out, "  ");
    push_str(out, v.from_repo.as_str());
    push_str(out, " -> ");
    push_str(out, v.to_repo.as_str());
    push_str(out, " ");
    push_str(out, v.constraint.raw.as_str());
    push_str(out, " (actual ");
    push_str(out, v.actual_version.raw.as_str());
    push_str(out, ") [");
    let label = violation_type_label(v.violation_type);
    push_str(out, label.as_str());
    push_str(out, "]\n");
    if show_fixes {
        match constraint_fix_suggestion(v) {
            Some(s) => {
                push_str(out, "    suggestion: ");
                push_str(out, s.as_str());
                push_str(out, "\n");
            },
            None => {},
        }
    }
    proof {
        assert(out@ =~= before + violation_line(v.view(), show_fixes));
    }
}

/// Appends the lines of the findings.
fn push_violations(out: &mut String, violations: &Vec<ConstraintViolation>, show_fixes: bool)
    ensures
        final(out)@ == old(out)@ + violation_lines(violation_views(violations@), show_fixes),
{
    let ghost start = out@;
    let ghost vs = violation_views(violations@);
    let mut i: usize = 0;
    while i < violations.len()
        invariant
            i <= violations@.len(),
            vs == violation_views(violations@),
            out@ == start + violation_lines(vs.take(i as int), show_fixes),
        decreases violations@.len() - i,
    {
        proof {
            assert(vs.take(i + 1).drop_last() =~= vs.take(i as int));
            assert(vs.take(i + 1).last() == vs[i as int]);
        }
        push_violation(out, &violations[i], show_fixes);
        i += 1;
    }
    proof {
        assert(vs.take(violations@.len() as int) =~= vs);
    }
}

/// The report as `harmonia graph check` prints it; `None` when it found
/// nothing.
pub fn constraint_report_text(report: &ConstraintReport, show_fixes: bool) -> (r: Option<String>)
    ensures
        opt_string_view(r) == spec_report_text(*report, show_fixes),
{
    if report.cycles.len() == 0 && report.missing.len() == 0 && report.violations.len() == 0 {
        return None;
    }
    let mut out = String::new();
    if report.cycles.len() > 0 {
        push_str(&mut out, "cycles:\n");
        push_cycles(&mut out, &report.cycles);
    }
    if report.missing.len() > 0 {
        push_str(&mut out, "missing internal dependencies:\n");
        push_missing(&mut out, &report.missing);
    }
    if report.violations.len() > 0 {
        push_str(&mut out, "constraint violations:\n");
        push_violations(&mut out, &report.violations, show_fixes);
    }
    proof {
        assert(out@ =~= spec_report_text(*report, show_fixes)->0);
    }
    Some(out)
}

} // verus!
