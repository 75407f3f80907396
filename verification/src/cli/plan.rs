//! The plan of a coordinated change: which repositories changed, in what
//! order they merge, and what to look at before merging.
use vstd::prelude::*;
use crate::git::status::StatusSummary;
use crate::graph::constraint::{ConstraintReport, ConstraintViolation, ViolationType};
use crate::numbers::{decimal, format_u64};
use crate::order::{contains_str, sort_names, sort_strings, views};
use crate::project::repo::{RepoId, id_views};
use crate::text::{push_str, string_of, trim_spec, trim_str};
use crate::cli::status::{pad_right, push_padded_right};

verus! {

/// A repository with local changes (or named by the active changeset).
#[derive(Debug)]
pub struct PlanChangedRepo {
    pub id: RepoId,
    pub branch: String,
    pub status: StatusSummary,
    pub diff_stat: String,
    pub changeset_summary: Option<String>,
}

/// The active changeset as the plan uses it; each repository once among the
/// summaries.
#[derive(Debug, Clone)]
pub struct PlanChangeset {
    pub id: String,
    pub title: String,
    pub description: String,
    pub branch: String,
    pub repo_summaries: Vec<(RepoId, String)>,
}

/// The plan: changed repositories, their merge order, the constraint report
/// and the recommendations drawn from them.
#[derive(Debug)]
pub struct PlanSummary {
    pub changed: Vec<PlanChangedRepo>,
    pub merge_order: Vec<RepoId>,
    pub constraints: ConstraintReport,
    pub recommendations: Vec<String>,
    pub changeset: Option<PlanChangeset>,
}

/// The identifiers of the changed repositories.
pub open spec fn changed_ids(c: Seq<PlanChangedRepo>) -> Seq<Seq<char>> {
    c.map_values(|p: PlanChangedRepo| p.id@)
}

/// The names of `s` that occur in `set`, in order.
pub open spec fn keep_in(s: Seq<Seq<char>>, set: Seq<Seq<char>>) -> Seq<Seq<char>>
    decreases s.len(),
{
    if s.len() == 0 {
        Seq::empty()
    } else if set.contains(s.last()) {
        keep_in(s.drop_last(), set).push(s.last())
    } else {
        keep_in(s.drop_last(), set)
    }
}

/// The names of `s` that do not occur in `set`, in order.
pub open spec fn drop_in(s: Seq<Seq<char>>, set: Seq<Seq<char>>) -> Seq<Seq<char>>
    decreases s.len(),
{
    if s.len() == 0 {
        Seq::empty()
    } else if set.contains(s.last()) {
        drop_in(s.drop_last(), set)
    } else {
        drop_in(s.drop_last(), set).push(s.last())
    }
}

/// The order in which merge requests are handled: the changed repositories
/// in merge order, then any changed repository the merge order misses,
/// sorted by identifier.
pub open spec fn spec_ordered_plan(merge_order: Seq<Seq<char>>, changed: Seq<Seq<char>>) -> Seq<Seq<char>> {
    let first = keep_in(merge_order, changed);
    first + sort_names(drop_in(changed, first))
}

/// The elements of `s` kept (`keep`) or dropped according to `set`.
fn filter_names(s: &Vec<String>, set: &Vec<String>, keep: bool) -> (r: Vec<String>)
    ensures
        views(r@) == (if keep { keep_in(views(s@), views(set@)) } else { drop_in(views(s@), views(set@)) }),
{
    let ghost sv = views(s@);
    let ghost setv = views(set@);
    let mut out: Vec<String> = Vec::new();
    let mut i: usize = 0;
    while i < s.len()
        invariant
            sv == views(s@),
            setv == views(set@),
            i <= s@.len(),
            views(out@) == (if keep { keep_in(sv.take(i as int), setv) } else { drop_in(sv.take(i as int), setv) }),
        decreases s@.len() - i,
    {
        proof {
            assert(sv.take(i + 1).drop_last() =~= sv.take(i as int));
            assert(sv.take(i + 1).last() == sv[i as int]);
        }
        let inside = contains_str(set, s[i].as_str());
        if inside == keep {
            let ghost before = views(out@);
            out.push(s[i].clone());
            proof {
                assert(views(out@) =~= before.push(sv[i as int]));
            }
        }
        i += 1;
    }
    proof {
        assert(sv.take(s@.len() as int) =~= sv);
    }
    out
}

/// The identifiers as text.
pub(crate) fn id_strings(v: &Vec<RepoId>) -> (r: Vec<String>)
    ensures
        views(r@) == id_views(v@),
{
    let mut out: Vec<String> = Vec::new();
    let mut i: usize = 0;
    while i < v.len()
        invariant
            i <= v@.len(),
            views(out@) == id_views(v@.take(i as int)),
        decreases v@.len() - i,
    {
        let ghost before = views(out@);
        out.push(string_of(v[i].as_str()));
        proof {
            assert(views(out@) =~= before.push(v@[i as int]@));
            assert(id_views(v@.take(i + 1)) =~= id_views(v@.take(i as int)).push(v@[i as int]@));
        }
        i += 1;
    }
    proof {
        assert(v@.take(v@.len() as int) =~= v@);
    }
    out
}

/// The identifiers of the changed repositories, as text.
fn changed_strings(c: &Vec<PlanChangedRepo>) -> (r: Vec<String>)
    ensures
        views(r@) == changed_ids(c@),
{
    let mut out: Vec<String> = Vec::new();
    let mut i: usize = 0;
    while i < c.len()
        invariant
            i <= c@.len(),
            views(out@) == changed_ids(c@.take(i as int)),
        decreases c@.len() - i,
    {
        let ghost before = views(out@);
        out.push(string_of(c[i].id.as_str()));
        proof {
            assert(views(out@) =~= before.push(c@[i as int].id@));
            assert(changed_ids(c@.take(i + 1)) =~= changed_ids(c@.take(i as int)).push(c@[i as int].id@));
        }
        i += 1;
    }
    proof {
        assert(c@.take(c@.len() as int) =~= c@);
    }
    out
}

/// The repositories of the plan in the order their merge requests are
/// handled.
pub fn ordered_plan_repos(plan: &PlanSummary) -> (r: Vec<RepoId>)
    ensures
        id_views(r@) == spec_ordered_plan(id_views(plan.merge_order@), changed_ids(plan.changed@)),
{
    let changed = changed_strings(&plan.changed);
    order_by_sequence(&plan.merge_order, &changed)
}

/// The names that occur in `sequence`, in that order, then the other names
/// sorted.
pub fn order_by_sequence(sequence: &Vec<RepoId>, changed: &Vec<String>) -> (r: Vec<RepoId>)
    ensures
        id_views(r@) == spec_ordered_plan(id_views(sequence@), views(changed@)),
{
    let order = id_strings(sequence);
    let first = filter_names(&order, &changed, true);
    let rest = filter_names(&changed, &first, false);
    let sorted = sort_strings(&rest);
    let mut out: Vec<RepoId> = Vec::new();
    let mut i: usize = 0;
    while i < first.len()
        invariant
            i <= first@.len(),
            id_views(out@) == views(first@).take(i as int),
        decreases first@.len() - i,
    {
        let ghost before = id_views(out@);
        out.push(RepoId::new(first[i].as_str()));
        proof {
            assert(id_views(out@) =~= before.push(views(first@)[i as int]));
            assert(views(first@).take(i + 1) =~= views(first@).take(i as int).push(views(first@)[i as int]));
        }
        i += 1;
    }
    proof {
        assert(views(first@).take(first@.len() as int) =~= views(first@));
    }
    let mut j: usize = 0;
    while j < sorted.len()
        invariant
            j <= sorted@.len(),
            id_views(out@) == views(first@) + views(sorted@).take(j as int),
        decreases sorted@.len() - j,
    {
        let ghost before = id_views(out@);
        out.push(RepoId::new(sorted[j].as_str()));
        proof {
            assert(id_views(out@) =~= before.push(views(sorted@)[j as int]));
            assert(views(sorted@).take(j + 1) =~= views(sorted@).take(j as int).push(views(sorted@)[j as int]));
        }
        j += 1;
    }
    proof {
        assert(views(sorted@).take(sorted@.len() as int) =~= views(sorted@));
    }
    out
}

/// Some finding is of kind `a` or of kind `b`.
pub open spec fn has_violation(vs: Seq<ConstraintViolation>, a: ViolationType, b: ViolationType) -> bool {
    exists|i: int| 0 <= i < vs.len() && (#[trigger] vs[i].violation_type == a || vs[i].violation_type == b)
}

/// Whether some finding is of kind `a` or `b`.
fn any_violation(vs: &Vec<ConstraintViolation>, a: ViolationType, b: ViolationType) -> (r: bool)
    ensures
        r == has_violation(vs@, a, b),
{
    let mut i: usize = 0;
    while i < vs.len()
        invariant
            i <= vs@.len(),
            forall|k: int| 0 <= k < i ==> #[trigger] vs@[k].violation_type != a && vs@[k].violation_type != b,
        decreases vs@.len() - i,
    {
        if vs[i].violation_type == a || vs[i].violation_type == b {
            return true;
        }
        i += 1;
    }
    false
}

pub open spec fn rec_cycles() -> Seq<char> {
    "resolve dependency cycles before creating merge requests"@
}

pub open spec fn rec_missing() -> Seq<char> {
    "add missing internal dependency mappings in repository configs"@
}

pub open spec fn rec_unsatisfied() -> Seq<char> {
    "run `harmonia deps update --dry-run` to preview required constraint updates"@
}

pub open spec fn rec_strict() -> Seq<char> {
    "review strict dependency constraints (exact pins and upper bounds) before merges"@
}

pub open spec fn rec_order() -> Seq<char> {
    "merge in the listed order and wait for CI between steps"@
}

pub open spec fn rec_none() -> Seq<char> {
    "no blocking issues detected for the current local changeset"@
}

/// `x` alone when `b` holds, else nothing.
pub open spec fn when(b: bool, x: Seq<char>) -> Seq<Seq<char>> {
    if b {
        seq![x]
    } else {
        Seq::empty()
    }
}

/// The recommendations for a plan with `n_changed` changed repositories and
/// the given constraint report, in a fixed order; a single all-clear line
/// when none applies.
pub open spec fn spec_recommendations(n_changed: nat, report: ConstraintReport) -> Seq<Seq<char>> {
    let found = when(report.cycles@.len() > 0, rec_cycles()) + when(report.missing@.len() > 0, rec_missing())
        + when(
        has_violation(report.violations@, ViolationType::Unsatisfied, ViolationType::Unsatisfied),
        rec_unsatisfied(),
    ) + when(has_violation(report.violations@, ViolationType::ExactPin, ViolationType::UpperBound), rec_strict())
        + when(n_changed > 1, rec_order());
    if found.len() == 0 {
        seq![rec_none()]
    } else {
        found
    }
}

/// What to do before merging the plan's changes.
pub fn plan_recommendations(changed: &[PlanChangedRepo], report: &ConstraintReport) -> (r: Vec<String>)
    ensures
        views(r@) == spec_recommendations(changed@.len(), *report),
{
    let mut out: Vec<String> = Vec::new();
    let ghost mut acc: Seq<Seq<char>> = Seq::empty();
    if report.cycles.len() > 0 {
        out.push(string_of("resolve dependency cycles before creating merge requests"));
    }
    proof {
        acc = when(report.cycles@.len() > 0, rec_cycles());
        assert(views(out@) =~= acc);
    }
    if report.missing.len() > 0 {
        out.push(string_of("add missing internal dependency mappings in repository configs"));
    }
    proof {
        acc = acc + when(report.missing@.len() > 0, rec_missing());
        assert(views(out@) =~= acc);
    }
    let unsat = any_violation(&report.violations, ViolationType::Unsatisfied, ViolationType::Unsatisfied);
    if unsat {
        out.push(string_of("run `harmonia deps update --dry-run` to preview required constraint updates"));
    }
    proof {
        acc = acc + when(unsat, rec_unsatisfied());
        assert(views(out@) =~= acc);
    }
    let strict = any_violation(&report.violations, ViolationType::ExactPin, ViolationType::UpperBound);
    if strict {
        out.push(string_of("review strict dependency constraints (exact pins and upper bounds) before merges"));
    }
    proof {
        acc = acc + when(strict, rec_strict());
        assert(views(out@) =~= acc);
    }
    if changed.len() > 1 {
        out.push(string_of("merge in the listed order and wait for CI between steps"));
    }
    proof {
        acc = acc + when(changed@.len() > 1, rec_order());
        assert(views(out@) =~= acc);
    }
    if out.len() == 0 {
        out.push(string_of("no blocking issues detected for the current local changeset"));
        proof {
            assert(views(out@) =~= seq![rec_none()]);
        }
    }
    out
}

/// The one-line summary of a working tree's state.
pub open spec fn spec_status_line(s: StatusSummary) -> Seq<char> {
    decimal(s.staged@.len()) + " staged, "@ + decimal(s.modified@.len()) + " modified, "@ + decimal(
        s.untracked@.len(),
    ) + " untracked, "@ + decimal(s.conflicts@.len()) + " conflicts"@
}

/// A working tree's state in one line, as the plan shows it.
pub fn plan_status_summary(status: &StatusSummary) -> (r: String)
    ensures
        r@ == spec_status_line(*status),
{
    let mut out = format_u64(status.staged.len() as u64);
    push_str(&mut out, " staged, ");
    let m = format_u64(status.modified.len() as u64);
    push_str(&mut out, m.as_str());
    push_str(&mut out, " modified, ");
    let u = format_u64(status.untracked.len() as u64);
    push_str(&mut out, u.as_str());
    push_str(&mut out, " untracked, ");
    let c = format_u64(status.conflicts.len() as u64);
    push_str(&mut out, c.as_str());
    push_str(&mut out, " conflicts");
    out
}

/// The lines naming the active changeset, if any.
pub open spec fn changeset_lines(c: Option<PlanChangeset>) -> Seq<char> {
    match c {
        Some(cs) => "\nActive changeset: "@ + cs.id@ + " ("@ + cs.branch@ + ")\n"@ + if trim_spec(cs.title@).len() > 0 {
            "  title: "@ + cs.title@ + "\n"@
        } else {
            Seq::empty()
        },
        None => Seq::empty(),
    }
}

/// The lines of one changed repository.
pub open spec fn changed_lines(r: PlanChangedRepo) -> Seq<char> {
    "  "@ + pad_right(r.id@, 18) + " "@ + pad_right(r.branch@, 16) + " "@ + spec_status_line(r.status) + "\n"@ + "    "@
        + r.diff_stat@ + "\n"@ + match r.changeset_summary {
        Some(s) => "    changeset: "@ + s@ + "\n"@,
        None => Seq::empty(),
    }
}

/// The lines of all changed repositories.
pub open spec fn all_changed_lines(c: Seq<PlanChangedRepo>) -> Seq<char>
    decreases c.len(),
{
    if c.len() == 0 {
        Seq::empty()
    } else {
        all_changed_lines(c.drop_last()) + changed_lines(c.last())
    }
}

/// The merge order, numbered from one.
pub open spec fn numbered_lines(ids: Seq<Seq<char>>) -> Seq<char>
    decreases ids.len(),
{
    if ids.len() == 0 {
        Seq::empty()
    } else {
        numbered_lines(ids.drop_last()) + "  "@ + decimal(ids.len()) + ". "@ + ids.last() + "\n"@
    }
}

/// One violation line.
pub open spec fn violation_line(v: ConstraintViolation) -> Seq<char> {
    "    - "@ + v.from_repo@ + " -> "@ + v.to_repo@ + " ["@ + v.violation_type.spec_as_str() + "]\n"@
}

/// The violation lines.
pub open spec fn violation_lines(v: Seq<ConstraintViolation>) -> Seq<char>
    decreases v.len(),
{
    if v.len() == 0 {
        Seq::empty()
    } else {
        violation_lines(v.drop_last()) + violation_line(v.last())
    }
}

/// The recommendation lines.
pub open spec fn recommendation_lines(r: Seq<Seq<char>>) -> Seq<char>
    decreases r.len(),
{
    if r.len() == 0 {
        Seq::empty()
    } else {
        recommendation_lines(r.drop_last()) + "  - "@ + r.last() + "\n"@
    }
}

/// What `harmonia plan` prints: the title, the active changeset, then either
/// that nothing changed, or the changed repositories, the merge order, the
/// counts of the constraint analysis with at most five violations, and the
/// recommendations.
pub open spec fn spec_plan_text(p: PlanSummary) -> Seq<char> {
    let head = "Changeset Analysis\n==================\n"@ + changeset_lines(p.changeset);
    if p.changed@.len() == 0 {
        head + "\nNo changed repositories detected.\n"@
    } else {
        let vs = p.constraints.violations@;
        head + "\nChanged repositories:\n"@ + all_changed_lines(p.changed@) + "\nMerge order:\n"@ + numbered_lines(
            id_views(p.merge_order@),
        ) + "\nConstraint analysis:\n"@ + "  cycles: "@ + decimal(p.constraints.cycles@.len()) + "\n"@
            + "  missing dependencies: "@ + decimal(p.constraints.missing@.len()) + "\n"@ + "  violations: "@
            + decimal(vs.len()) + "\n"@ + (if vs.len() > 0 {
            "  top violations:\n"@ + violation_lines(vs.take(if vs.len() < 5 { vs.len() as int } else { 5 }))
        } else {
            Seq::empty()
        }) + "\nRecommendations:\n"@ + recommendation_lines(views(p.recommendations@))
    }
}

/// Appends the lines of one changed repository.
fn push_changed(out: &mut String, r: &PlanChangedRepo)
    ensures
        final(out)@ == old(out)@ + changed_lines(*r),
{
    let ghost start = out@;
    push_str(out, "  ");
    push_padded_right(out, r.id.as_str(), 18);
    push_str(out, " ");
    push_padded_right(out, r.branch.as_str(), 16);
    push_str(out, " ");
    let st = plan_status_summary(&r.status);
    push_str(out, st.as_str());
    push_str(out, "\n");
    push_str(out, "    ");
    push_str(out, r.diff_stat.as_str());
    push_str(out, "\n");
    match &r.changeset_summary {
        Some(s) => {
            push_str(out, "    changeset: ");
            push_str(out, s.as_str());
            push_str(out, "\n");
        },
        None => {},
    }
    proof {
        assert(out@ =~= start + changed_lines(*r));
    }
}

/// Appends the header and the changeset lines.
fn push_plan_head(out: &mut String, c: &Option<PlanChangeset>)
    ensures
        final(out)@ == old(out)@ + "Changeset Analysis\n==================\n"@ + changeset_lines(*c),
{
    let ghost start = out@;
    push_str(out, "Changeset Analysis\n==================\n");
    match c {
        Some(cs) => {
            push_str(out, "\nActive changeset: ");
            push_str(out, cs.id.as_str());
            push_str(out, " (");
            push_str(out, cs.branch.as_str());
            push_str(out, ")\n");
            let t = trim_str(cs.title.as_str());
            if crate::text::to_chars(t.as_str()).len() > 0 {
                push_str(out, "  title: ");
                push_str(out, cs.title.as_str());
                push_str(out, "\n");
            }
        },
        None => {},
    }
    proof {
        assert(out@ =~= start + "Changeset Analysis\n==================\n"@ + changeset_lines(*c));
    }
}

/// Appends the numbered merge order.
pub(crate) fn push_numbered(out: &mut String, ids: &Vec<RepoId>)
    ensures
        final(out)@ == old(out)@ + numbered_lines(id_views(ids@)),
{
    let ghost start = out@;
    let ghost iv = id_views(ids@);
    let mut i: usize = 0;
    while i < ids.len()
        invariant
            i <= ids@.len(),
            iv == id_views(ids@),
            out@ == start + numbered_lines(iv.take(i as int)),
        decreases ids@.len() - i,
    {
        proof {
            assert(iv.take(i + 1).drop_last() =~= iv.take(i as int));
            assert(iv.take(i + 1).last() == iv[i as int]);
        }
        let ghost before = out@;
        push_str(out, "  ");
        let n = format_u64((i + 1) as u64);
        push_str(out, n.as_str());
        push_str(out, ". ");
        push_str(out, ids[i].as_str());
        push_str(out, "\n");
        proof {
            assert(out@ =~= before + "  "@ + decimal(iv.take(i + 1).len()) + ". "@ + iv[i as int] + "\n"@);
        }
        i += 1;
    }
    proof {
        assert(iv.take(ids@.len() as int) =~= iv);
    }
}

/// Appends the analysis counts and the first violations.
fn push_analysis(out: &mut String, report: &ConstraintReport)
    ensures
        final(out)@ == old(out)@ + "\nConstraint analysis:\n"@ + "  cycles: "@ + decimal(report.cycles@.len()) + "\n"@
            + "  missing dependencies: "@ + decimal(report.missing@.len()) + "\n"@ + "  violations: "@ + decimal(
            report.violations@.len(),
        ) + "\n"@ + (if report.violations@.len() > 0 {
            "  top violations:\n"@ + violation_lines(
                report.violations@.take(
                    if report.violations@.len() < 5 {
                        report.violations@.len() as int
                    } else {
                        5
                    },
                ),
            )
        } else {
            Seq::empty()
        }),
{
    let ghost start = out@;
    push_str(out, "\nConstraint analysis:\n");
    push_str(out, "  cycles: ");
    let a = format_u64(report.cycles.len() as u64);
    push_str(out, a.as_str());
    push_str(out, "\n");
    push_str(out, "  missing dependencies: ");
    let b = format_u64(report.missing.len() as u64);
    push_str(out, b.as_str());
    push_str(out, "\n");
    push_str(out, "  violations: ");
    let c = format_u64(report.violations.len() as u64);
    push_str(out, c.as_str());
    push_str(out, "\n");
    let ghost mid = out@;
    let vs = &report.violations;
    if vs.len() > 0 {
        push_str(out, "  top violations:\n");
        let ghost top = out@;
        let limit: usize = if vs.len() < 5 { vs.len() } else { 5 };
        let mut i: usize = 0;
        while i < limit
            invariant
                i <= limit,
                limit <= vs@.len(),
                out@ == top + violation_lines(vs@.take(i as int)),
            decreases limit - i,
        {
            proof {
                assert(vs@.take(i + 1).drop_last() =~= vs@.take(i as int));
                assert(vs@.take(i + 1).last() == vs@[i as int]);
            }
            let ghost before = out@;
            push_str(out, "    - ");
            push_str(out, vs[i].from_repo.as_str());
            push_str(out, " -> ");
            push_str(out, vs[i].to_repo.as_str());
            push_str(out, " [");
            push_str(out, vs[i].violation_type.as_str());
            push_str(out, "]\n");
            proof {
                assert(out@ =~= before + violation_line(vs@[i as int]));
            }
            i += 1;
        }
    }
    proof {
        assert(out@ =~= start + "\nConstraint analysis:\n"@ + "  cycles: "@ + decimal(report.cycles@.len()) + "\n"@
            + "  missing dependencies: "@ + decimal(report.missing@.len()) + "\n"@ + "  violations: "@ + decimal(
            report.violations@.len(),
        ) + "\n"@ + (if report.violations@.len() > 0 {
            "  top violations:\n"@ + violation_lines(
                report.violations@.take(
                    if report.violations@.len() < 5 {
                        report.violations@.len() as int
                    } else {
                        5
                    },
                ),
            )
        } else {
            Seq::empty()
        }));
    }
}

/// What `harmonia plan` prints.
pub fn plan_summary_text(plan: &PlanSummary) -> (r: String)
    ensures
        r@ == spec_plan_text(*plan),
{
    let mut out = String::new();
    push_plan_head(&mut out, &plan.changeset);
    if plan.changed.len() == 0 {
        push_str(&mut out, "\nNo changed repositories detected.\n");
        proof {
            assert(out@ =~= spec_plan_text(*plan));
        }
        return out;
    }
    let ghost head = out@;
    push_str(&mut out, "\nChanged repositories:\n");
    let ghost h2 = out@;
    let mut i: usize = 0;
    while i < plan.changed.len()
        invariant
            i <= plan.changed@.len(),
            out@ == h2 + all_changed_lines(plan.changed@.take(i as int)),
        decreases plan.changed@.len() - i,
    {
        proof {
            assert(plan.changed@.take(i + 1).drop_last() =~= plan.changed@.take(i as int));
            assert(plan.changed@.take(i + 1).last() == plan.changed@[i as int]);
        }
        push_changed(&mut out, &plan.changed[i]);
        i += 1;
    }
    proof {
        assert(plan.changed@.take(plan.changed@.len() as int) =~= plan.changed@);
    }
    push_str(&mut out, "\nMerge order:\n");
    push_numbered(&mut out, &plan.merge_order);
    push_analysis(&mut out, &plan.constraints);
    push_str(&mut out, "\nRecommendations:\n");
    let ghost h3 = out@;
    let ghost rv = views(plan.recommendations@);
    let mut j: usize = 0;
    while j < plan.recommendations.len()
        invariant
            j <= plan.recommendations@.len(),
            rv == views(plan.recommendations@),
            out@ == h3 + recommendation_lines(rv.take(j as int)),
        decreases plan.recommendations@.len() - j,
    {
        proof {
            assert(rv.take(j + 1).drop_last() =~= rv.take(j as int));
            assert(rv.take(j + 1).last() == rv[j as int]);
        }
        let ghost before = out@;
        push_str(&mut out, "  - ");
        push_str(&mut out, plan.recommendations[j].as_str());
        push_str(&mut out, "\n");
        proof {
            assert(out@ =~= before + "  - "@ + rv[j as int] + "\n"@);
        }
        j += 1;
    }
    proof {
        assert(rv.take(plan.recommendations@.len() as int) =~= rv);
        assert(out@ =~= spec_plan_text(*plan));
    }
    out
}

} // verus!
