//! The decisions behind creating merge requests for a coordinated change:
//! which repositories sit on their default branch, which branch to move them
//! to, which labels, links and tracking issue to use.
use vstd::prelude::*;
use crate::cli::args::MrCreateArgs;
use crate::cli::plan::{PlanChangedRepo, PlanSummary};
use crate::cli::select::{find_repo, repo_index};
use crate::error::HarmoniaError;
use crate::numbers::{decimal, format_u64};
use crate::order::{contains_str, views};
use crate::project::repo::{Repo, RepoId};
use crate::project::version::{ascii_lower, lower_equals, to_ascii_lower};
use crate::project::workspace::Workspace;
use crate::cli::mr_status::{EntryView, StoredMrEntry, entry_views};
use crate::text::{concat2, concat3, ends, find_char, find_chars, find_sub, index_of_char, lemma_find_sub_bounds, lemma_find_sub_first, lemma_find_sub_skip, lemma_trim_end_shape, opt_str_view, opt_string_view,
    push_str, split_once_char, split_once_spec, starts, str_eq, strip_end_char, strip_end_str, strip_end_text,
    strip_end_text_str, strip_prefix_str, strip_start_char, strip_start_str, string_of, trim_end_spec, trim_end_str, trim_matches_spec,
    trim_matches_str, trim_spec, trim_str};

verus! {

/// A repository whose merge request would have the same source and target
/// branch.
#[derive(Debug, Clone)]
pub struct MrBranchConflict {
    pub repo: RepoId,
    pub source_branch: String,
    pub target_branch: String,
}

/// A conflict as plain values: repository, source branch, target branch.
pub type ConflictView = (Seq<char>, Seq<char>, Seq<char>);

pub open spec fn conflict_view(c: MrBranchConflict) -> ConflictView {
    (c.repo@, c.source_branch@, c.target_branch@)
}

pub open spec fn conflict_views(cs: Seq<MrBranchConflict>) -> Seq<ConflictView> {
    cs.map_values(|c: MrBranchConflict| conflict_view(c))
}

/// The line that names one conflict.
pub open spec fn conflict_line(c: ConflictView) -> Seq<char> {
    "\n  - "@ + c.0 + " (source: "@ + c.1 + ", target: "@ + c.2 + ")"@
}

/// The lines of all conflicts, in order.
pub open spec fn conflict_lines(cs: Seq<ConflictView>) -> Seq<char>
    decreases cs.len(),
{
    if cs.len() == 0 {
        Seq::empty()
    } else {
        conflict_lines(cs.drop_last()) + conflict_line(cs.last())
    }
}

pub open spec fn conflict_head() -> Seq<char> {
    "cannot create merge requests where source and target branches are the same"@
}

pub open spec fn conflict_advice() -> Seq<char> {
    "\ncreate or switch to a feature branch before running `harmonia mr create`"@
        + "\nhelper: re-run with `harmonia mr create --auto-branch` to create feature branches automatically for affected repos"@
}

pub open spec fn conflict_example() -> Seq<char> {
    "\nexample: harmonia branch <feature-name> --create --changed"@
}

/// The error text for repositories whose source and target branch agree:
/// the repositories, what to do, the suggested branch name if any, and an
/// example.
pub open spec fn spec_conflict_message(cs: Seq<ConflictView>, suggested: Option<Seq<char>>) -> Seq<char> {
    conflict_head() + conflict_lines(cs) + conflict_advice() + match suggested {
        Some(b) => "\ndefault auto-branch name for this run: "@ + b,
        None => Seq::empty(),
    } + conflict_example()
}

/// The error text for repositories whose source and target branch agree.
pub fn format_mr_branch_conflict_error(conflicts: &[MrBranchConflict], suggested_auto_branch: Option<&str>) -> (r:
    String)
    ensures
        r@ == spec_conflict_message(conflict_views(conflicts@), crate::text::opt_str_view(suggested_auto_branch)),
{
    let ghost cv = conflict_views(conflicts@);
    let mut message = string_of("cannot create merge requests where source and target branches are the same");
    let mut i: usize = 0;
    while i < conflicts.len()
        invariant
            cv == conflict_views(conflicts@),
            i <= conflicts@.len(),
            message@ == conflict_head() + conflict_lines(cv.take(i as int)),
        decreases conflicts@.len() - i,
    {
        proof {
            assert(cv.take(i + 1).drop_last() =~= cv.take(i as int));
            assert(cv.take(i + 1).last() == cv[i as int]);
        }
        let c = &conflicts[i];
        push_str(&mut message, "\n  - ");
        push_str(&mut message, c.repo.as_str());
        push_str(&mut message, " (source: ");
        push_str(&mut message, c.source_branch.as_str());
        push_str(&mut message, ", target: ");
        push_str(&mut message, c.target_branch.as_str());
        push_str(&mut message, ")");
        proof {
            assert(message@ =~= conflict_head() + conflict_lines(cv.take(i as int)) + conflict_line(cv[i as int]));
        }
        i += 1;
    }
    proof {
        assert(cv.take(conflicts@.len() as int) =~= cv);
    }
    push_str(&mut message, "\ncreate or switch to a feature branch before running `harmonia mr create`");
    push_str(
        &mut message,
        "\nhelper: re-run with `harmonia mr create --auto-branch` to create feature branches automatically for affected repos",
    );
    match suggested_auto_branch {
        Some(branch) => {
            push_str(&mut message, "\ndefault auto-branch name for this run: ");
            push_str(&mut message, branch);
        },
        None => {},
    }
    push_str(&mut message, "\nexample: harmonia branch <feature-name> --create --changed");
    proof {
        assert(message@ =~= spec_conflict_message(cv, crate::text::opt_str_view(suggested_auto_branch)));
    }
    message
}

/// The position of the first changed repository with identifier `id`.
pub open spec fn plan_index(c: Seq<PlanChangedRepo>, id: Seq<char>) -> Option<int>
    decreases c.len(),
{
    if c.len() == 0 {
        None
    } else if c[0].id@ == id {
        Some(0)
    } else {
        match plan_index(c.drop_first(), id) {
            Some(i) => Some(i + 1),
            None => None,
        }
    }
}

proof fn lemma_plan_index_at(c: Seq<PlanChangedRepo>, id: Seq<char>, i: int)
    requires
        0 <= i <= c.len(),
        forall|k: int| 0 <= k < i ==> #[trigger] c[k].id@ != id,
        i == c.len() || c[i].id@ == id,
    ensures
        plan_index(c, id) == (if i == c.len() { None } else { Some(i) }),
    decreases i,
{
    if i > 0 {
        let t = c.drop_first();
        assert forall|k: int| 0 <= k < i - 1 implies #[trigger] t[k].id@ != id by {
            assert(t[k] == c[k + 1]);
        }
        if i < c.len() {
            assert(t[i - 1] == c[i]);
        }
        lemma_plan_index_at(t, id, i - 1);
    }
}

/// The position of the first changed repository with identifier `id`.
pub(crate) fn find_changed(c: &Vec<PlanChangedRepo>, id: &str) -> (r: Option<usize>)
    ensures
        match r {
            Some(i) => plan_index(c@, id@) == Some(i as int) && i < c@.len(),
            None => plan_index(c@, id@) is None,
        },
{
    let mut i: usize = 0;
    while i < c.len()
        invariant
            i <= c@.len(),
            forall|k: int| 0 <= k < i ==> #[trigger] c@[k].id@ != id@,
        decreases c@.len() - i,
    {
        if str_eq(c[i].id.as_str(), id) {
            proof {
                lemma_plan_index_at(c@, id@, i as int);
            }
            return Some(i);
        }
        i += 1;
    }
    proof {
        lemma_plan_index_at(c@, id@, c@.len() as int);
    }
    None
}

/// The conflicts among the repositories handled in `ordered`: for each one
/// the plan lists, its source branch equals its default branch; an error
/// for the first such repository the workspace does not know.
pub open spec fn spec_conflicts(repos: Seq<Repo>, changed: Seq<PlanChangedRepo>, ordered: Seq<RepoId>) -> Result<
    Seq<ConflictView>,
    Seq<char>,
>
    decreases ordered.len(),
{
    if ordered.len() == 0 {
        Ok(Seq::empty())
    } else {
        match spec_conflicts(repos, changed, ordered.drop_last()) {
            Err(e) => Err(e),
            Ok(acc) => {
                let id = ordered.last()@;
                match plan_index(changed, id) {
                    None => Ok(acc),
                    Some(p) => match repo_index(repos, id) {
                        None => Err("unknown repo "@ + id),
                        Some(k) => if changed[p].branch@ == repos[k].default_branch@ {
                            Ok(acc.push((repos[k].id@, changed[p].branch@, repos[k].default_branch@)))
                        } else {
                            Ok(acc)
                        },
                    },
                }
            },
        }
    }
}

proof fn lemma_conflicts_err(repos: Seq<Repo>, changed: Seq<PlanChangedRepo>, ordered: Seq<RepoId>, i: int, e: Seq<char>)
    requires
        0 <= i <= ordered.len(),
        spec_conflicts(repos, changed, ordered.take(i)) == Err::<Seq<ConflictView>, Seq<char>>(e),
    ensures
        spec_conflicts(repos, changed, ordered) == Err::<Seq<ConflictView>, Seq<char>>(e),
    decreases ordered.len(),
{
    if i == ordered.len() {
        assert(ordered.take(i) =~= ordered);
    } else {
        assert(ordered.drop_last().take(i) =~= ordered.take(i));
        lemma_conflicts_err(repos, changed, ordered.drop_last(), i, e);
    }
}

/// The repositories of `ordered` whose merge request would go from a
/// branch into itself.
pub fn collect_mr_branch_conflicts(repos: &Vec<Repo>, changed: &Vec<PlanChangedRepo>, ordered: &[RepoId]) -> (r:
    Result<Vec<MrBranchConflict>, HarmoniaError>)
    ensures
        match (r, spec_conflicts(repos@, changed@, ordered@)) {
            (Ok(v), Ok(s)) => conflict_views(v@) == s,
            (Err(HarmoniaError::Other(m)), Err(e)) => m@ == e,
            _ => false,
        },
{
    let mut out: Vec<MrBranchConflict> = Vec::new();
    let mut i: usize = 0;
    proof {
        assert(ordered@.take(0) =~= Seq::<RepoId>::empty());
        assert(conflict_views(out@) =~= Seq::<ConflictView>::empty());
    }
    while i < ordered.len()
        invariant
            i <= ordered@.len(),
            spec_conflicts(repos@, changed@, ordered@.take(i as int)) == Ok::<Seq<ConflictView>, Seq<char>>(
                conflict_views(out@),
            ),
        decreases ordered@.len() - i,
    {
        proof {
            assert(ordered@.take(i + 1).drop_last() =~= ordered@.take(i as int));
            assert(ordered@.take(i + 1).last() == ordered@[i as int]);
        }
        let id = ordered[i].as_str();
        match find_changed(changed, id) {
            None => {},
            Some(p) => match find_repo(repos, id) {
                None => {
                    proof {
                        lemma_conflicts_err(repos@, changed@, ordered@, i + 1, "unknown repo "@ + id@);
                    }
                    return Err(HarmoniaError::Other(concat2("unknown repo ", id)));
                },
                Some(k) => {
                    if str_eq(changed[p].branch.as_str(), repos[k].default_branch.as_str()) {
                        let ghost before = conflict_views(out@);
                        out.push(
                            MrBranchConflict {
                                repo: repos[k].id.duplicate(),
                                source_branch: string_of(changed[p].branch.as_str()),
                                target_branch: string_of(repos[k].default_branch.as_str()),
                            },
                        );
                        proof {
                            assert(conflict_views(out@) =~= before.push(
                                (repos@[k as int].id@, changed@[p as int].branch@, repos@[k as int].default_branch@),
                            ));
                        }
                    }
                },
            },
        }
        i += 1;
    }
    proof {
        assert(ordered@.take(ordered@.len() as int) =~= ordered@);
    }
    Ok(out)
}

/// The branch name generated for a run started at `timestamp` (seconds
/// since the Unix epoch).
pub fn generated_mr_auto_branch_name(timestamp: u64) -> (r: String)
    ensures
        r@ == "feature/harmonia-"@ + decimal(timestamp as nat),
{
    let digits = format_u64(timestamp);
    concat2("feature/harmonia-", digits.as_str())
}

/// The branch to move conflicting repositories to: the `--branch-name`
/// given (trimmed; an error when blank), else the active changeset's branch
/// when not blank, else the generated name.
pub open spec fn spec_auto_branch_name(branch_name: Option<Seq<char>>, changeset_branch: Option<Seq<char>>, timestamp: nat) -> Result<
    Seq<char>,
    Seq<char>,
> {
    match branch_name {
        Some(b) => if trim_spec(b).len() == 0 {
            Err("--branch-name cannot be empty"@)
        } else {
            Ok(trim_spec(b))
        },
        None => match changeset_branch {
            Some(c) if trim_spec(c).len() > 0 => Ok(trim_spec(c)),
            _ => Ok("feature/harmonia-"@ + decimal(timestamp)),
        },
    }
}

/// The branch of the plan's changeset, if any.
pub open spec fn plan_changeset_branch(plan: PlanSummary) -> Option<Seq<char>> {
    match plan.changeset {
        Some(c) => Some(c.branch@),
        None => None,
    }
}

/// The branch to move conflicting repositories to.
pub fn resolve_mr_auto_branch_name(args: &MrCreateArgs, plan: &PlanSummary, timestamp: u64) -> (r: Result<
    String,
    HarmoniaError,
>)
    ensures
        match (r, spec_auto_branch_name(opt_string_view(args.branch_name), plan_changeset_branch(*plan), timestamp as nat)) {
            (Ok(v), Ok(s)) => v@ == s,
            (Err(HarmoniaError::Other(m)), Err(e)) => m@ == e,
            _ => false,
        },
{
    match &args.branch_name {
        Some(b) => {
            let t = trim_str(b.as_str());
            if crate::text::to_chars(t.as_str()).len() == 0 {
                return Err(HarmoniaError::Other(string_of("--branch-name cannot be empty")));
            }
            return Ok(t);
        },
        None => {},
    }
    match &plan.changeset {
        Some(c) => {
            let t = trim_str(c.branch.as_str());
            if crate::text::to_chars(t.as_str()).len() > 0 {
                return Ok(t);
            }
        },
        None => {},
    }
    Ok(generated_mr_auto_branch_name(timestamp))
}

/// The names in order, each kept at its first occurrence.
pub open spec fn dedup_first(s: Seq<Seq<char>>) -> Seq<Seq<char>>
    decreases s.len(),
{
    if s.len() == 0 {
        Seq::empty()
    } else if dedup_first(s.drop_last()).contains(s.last()) {
        dedup_first(s.drop_last())
    } else {
        dedup_first(s.drop_last()).push(s.last())
    }
}

/// The labels the workspace configures for merge requests.
pub open spec fn configured_labels(w: Workspace) -> Seq<Seq<char>> {
    match w.config.mr {
        Some(m) => match m.labels {
            Some(l) => views(l@),
            None => Seq::empty(),
        },
        None => Seq::empty(),
    }
}

/// Appends the names of `v` not yet in `out`.
fn push_new(out: &mut Vec<String>, v: &Vec<String>)
    ensures
        views(final(out)@) == dedup_from(views(old(out)@), views(v@)),
{
    let ghost start = views(out@);
    let mut i: usize = 0;
    while i < v.len()
        invariant
            i <= v@.len(),
            views(out@) == dedup_from(start, views(v@).take(i as int)),
        decreases v@.len() - i,
    {
        proof {
            assert(views(v@).take(i + 1).drop_last() =~= views(v@).take(i as int));
            assert(views(v@).take(i + 1).last() == v@[i as int]@);
        }
        if !contains_str(out, v[i].as_str()) {
            let ghost before = views(out@);
            out.push(v[i].clone());
            proof {
                assert(views(out@) =~= before.push(v@[i as int]@));
            }
        }
        i += 1;
    }
    proof {
        assert(views(v@).take(v@.len() as int) =~= views(v@));
    }
}

/// `start` followed by the names of `s` not already present, each once.
pub open spec fn dedup_from(start: Seq<Seq<char>>, s: Seq<Seq<char>>) -> Seq<Seq<char>>
    decreases s.len(),
{
    if s.len() == 0 {
        start
    } else if dedup_from(start, s.drop_last()).contains(s.last()) {
        dedup_from(start, s.drop_last())
    } else {
        dedup_from(start, s.drop_last()).push(s.last())
    }
}

/// The labels to apply: the configured ones, then those given on the
/// command line, each once, in order of first appearance.
pub fn merged_labels(workspace: &Workspace, cli_labels: &Vec<String>) -> (r: Vec<String>)
    ensures
        views(r@) == dedup_from(dedup_from(Seq::empty(), configured_labels(*workspace)), views(cli_labels@)),
{
    let mut labels: Vec<String> = Vec::new();
    proof {
        assert(views(labels@) =~= Seq::<Seq<char>>::empty());
    }
    match &workspace.config.mr {
        Some(m) => match &m.labels {
            Some(l) => push_new(&mut labels, l),
            None => {
                proof {
                    assert(views(labels@) =~= dedup_from(Seq::empty(), Seq::empty()));
                }
            },
        },
        None => {
            proof {
                assert(views(labels@) =~= dedup_from(Seq::empty(), Seq::empty()));
            }
        },
    }
    push_new(&mut labels, cli_labels);
    labels
}

/// How merge requests of a coordinated change refer to each other.
#[derive(Debug, Clone, Copy, PartialEq, Eq, Structural)]
pub struct LinkBehavior {
    pub related: bool,
    pub description: bool,
    pub issue: bool,
}

/// The configured link strategy, lower-cased; `all` when unset.
pub open spec fn configured_strategy(w: Workspace) -> Seq<char> {
    ascii_lower(
        match w.config.mr {
            Some(m) => match m.link_strategy {
                Some(s) => s@,
                None => "all"@,
            },
            None => "all"@,
        },
    )
}

/// The links a strategy name asks for.
pub open spec fn strategy_behavior(s: Seq<char>) -> Option<LinkBehavior> {
    if s == "related"@ {
        Some(LinkBehavior { related: true, description: false, issue: false })
    } else if s == "description"@ {
        Some(LinkBehavior { related: false, description: true, issue: false })
    } else if s == "issue"@ {
        Some(LinkBehavior { related: false, description: false, issue: true })
    } else if s == "all"@ {
        Some(LinkBehavior { related: true, description: true, issue: true })
    } else {
        None
    }
}

/// The links to make: those of the configured strategy, less the related
/// and description links under `--no-link` and the issue under
/// `--no-issue`; an error for an unknown strategy.
pub open spec fn spec_link_behavior(w: Workspace, no_link: bool, no_issue: bool) -> Result<LinkBehavior, Seq<char>> {
    match strategy_behavior(configured_strategy(w)) {
        None => Err(
            "invalid mr.link_strategy '"@ + configured_strategy(w)
                + "': expected related, description, issue, or all"@,
        ),
        Some(b) => Ok(
            LinkBehavior {
                related: b.related && !no_link,
                description: b.description && !no_link,
                issue: b.issue && !no_issue,
            },
        ),
    }
}

/// The links to make between the merge requests.
pub fn effective_link_behavior(workspace: &Workspace, args: &MrCreateArgs) -> (r: Result<LinkBehavior, HarmoniaError>)
    ensures
        match (r, spec_link_behavior(*workspace, args.no_link, args.no_issue)) {
            (Ok(v), Ok(s)) => v == s,
            (Err(HarmoniaError::Other(m)), Err(e)) => m@ == e,
            _ => false,
        },
{
    let configured: Vec<char> = match &workspace.config.mr {
        Some(m) => match &m.link_strategy {
            Some(s) => to_ascii_lower(s.as_str()),
            None => to_ascii_lower("all"),
        },
        None => to_ascii_lower("all"),
    };
    let mut behavior = if lower_equals(&configured, "related") {
        LinkBehavior { related: true, description: false, issue: false }
    } else if lower_equals(&configured, "description") {
        LinkBehavior { related: false, description: true, issue: false }
    } else if lower_equals(&configured, "issue") {
        LinkBehavior { related: false, description: false, issue: true }
    } else if lower_equals(&configured, "all") {
        LinkBehavior { related: true, description: true, issue: true }
    } else {
        let mut m = string_of("invalid mr.link_strategy '");
        let text = crate::text::from_chars(&configured);
        push_str(&mut m, text.as_str());
        push_str(&mut m, "': expected related, description, issue, or all");
        return Err(HarmoniaError::Other(m));
    };
    if args.no_link {
        behavior.related = false;
        behavior.description = false;
    }
    if args.no_issue {
        behavior.issue = false;
    }
    Ok(behavior)
}

/// Whether to open a tracking issue: only when issues are linked and not
/// turned off; then as configured, else when there is more than one merge
/// request.
pub open spec fn spec_tracking_issue(w: Workspace, no_issue: bool, mr_count: nat, b: LinkBehavior) -> bool {
    if !b.issue || no_issue {
        false
    } else {
        match w.config.mr {
            Some(m) => match m.create_tracking_issue {
                Some(v) => v,
                None => mr_count > 1,
            },
            None => mr_count > 1,
        }
    }
}

/// Whether to open a tracking issue.
pub fn should_create_tracking_issue(workspace: &Workspace, args: &MrCreateArgs, mr_count: usize, behavior: LinkBehavior) -> (r:
    bool)
    ensures
        r == spec_tracking_issue(*workspace, args.no_issue, mr_count as nat, behavior),
{
    if !behavior.issue || args.no_issue {
        return false;
    }
    match &workspace.config.mr {
        Some(m) => match m.create_tracking_issue {
            Some(v) => v,
            None => mr_count > 1,
        },
        None => mr_count > 1,
    }
}

/// A boolean setting of the `[mr]` table, false when unset.
pub open spec fn mr_flag(w: Workspace, which: int) -> bool {
    match w.config.mr {
        Some(m) => match (if which == 0 {
            m.require_tests
        } else if which == 1 {
            m.add_trailers
        } else {
            m.draft
        }) {
            Some(v) => v,
            None => false,
        },
        None => false,
    }
}

/// Whether tests must pass before merge requests are created.
pub fn mr_require_tests_enabled(workspace: &Workspace) -> (r: bool)
    ensures
        r == mr_flag(*workspace, 0),
{
    match &workspace.config.mr {
        Some(m) => match m.require_tests {
            Some(v) => v,
            None => false,
        },
        None => false,
    }
}

/// Whether commit trailers are asked for.
pub fn mr_add_trailers_enabled(workspace: &Workspace) -> (r: bool)
    ensures
        r == mr_flag(*workspace, 1),
{
    match &workspace.config.mr {
        Some(m) => match m.add_trailers {
            Some(v) => v,
            None => false,
        },
        None => false,
    }
}

/// Whether merge requests are opened as drafts: asked on the command line
/// or configured.
pub fn mr_draft_enabled(workspace: &Workspace, args: &MrCreateArgs) -> (r: bool)
    ensures
        r == (args.draft || mr_flag(*workspace, 2)),
{
    if args.draft {
        return true;
    }
    match &workspace.config.mr {
        Some(m) => match m.draft {
            Some(v) => v,
            None => false,
        },
        None => false,
    }
}

/// A path part of a remote URL: without leading `/` and surrounding white
/// space; none when nothing is left.
pub open spec fn path_part(p: Seq<char>) -> Option<Seq<char>> {
    let q = trim_spec(strip_start_char(p, '/'));
    if q.len() == 0 {
        None
    } else {
        Some(q)
    }
}

/// A remote URL without surrounding white space, trailing `/` and trailing
/// `.git`.
pub open spec fn remote_trimmed(u: Seq<char>) -> Seq<char> {
    strip_end_text(strip_end_char(trim_spec(u), '/'), ".git"@)
}

/// The path after the first `/` of `rest`, as a path part.
pub open spec fn after_host(rest: Seq<char>) -> Option<Seq<char>> {
    match split_once_spec(rest, '/') {
        Some((_, p)) => path_part(p),
        None => None,
    }
}

/// The project path (`group/name`) a remote URL points at: after the `:` of
/// `git@host:path`, after the host of `ssh://`, `https://` and `http://`
/// URLs, after the `:` of `host:path` when the path has a `/`; none
/// otherwise.
pub open spec fn spec_project_path_from_remote(u: Seq<char>) -> Option<Seq<char>> {
    let t = remote_trimmed(u);
    if t.len() == 0 {
        None
    } else if starts(t, "git@"@) {
        match split_once_spec(t.skip(4), ':') {
            Some((_, p)) => path_part(p),
            None => None,
        }
    } else if starts(t, "ssh://"@) {
        let rest = t.skip(6);
        after_host(
            match split_once_spec(rest, '@') {
                Some((_, v)) => v,
                None => rest,
            },
        )
    } else if starts(t, "https://"@) {
        after_host(t.skip(8))
    } else if starts(t, "http://"@) {
        after_host(t.skip(7))
    } else {
        match split_once_spec(t, ':') {
            Some((_, p)) => if index_of_char(p, '/') is Some {
                path_part(p)
            } else {
                None
            },
            None => None,
        }
    }
}

/// A path part of a remote URL.
fn path_part_of(p: &str) -> (r: Option<String>)
    ensures
        opt_string_view(r) == path_part(p@),
{
    let q = trim_str(strip_start_str(p, '/').as_str());
    if crate::text::to_chars(q.as_str()).len() == 0 {
        None
    } else {
        Some(q)
    }
}

/// The path after the first `/` of `rest`.
fn after_host_of(rest: &str) -> (r: Option<String>)
    ensures
        opt_string_view(r) == after_host(rest@),
{
    match split_once_char(rest, '/') {
        Some((_, p)) => path_part_of(p.as_str()),
        None => None,
    }
}

/// The project path a remote URL points at.
pub fn project_path_from_remote_url(remote_url: &str) -> (r: Option<String>)
    ensures
        opt_string_view(r) == spec_project_path_from_remote(remote_url@),
{
    proof {
        reveal_strlit("git@");
        reveal_strlit("ssh://");
        reveal_strlit("https://");
        reveal_strlit("http://");
    }
    let a = trim_str(remote_url);
    let b = strip_end_str(a.as_str(), '/');
    let t = strip_end_text_str(b.as_str(), ".git");
    if crate::text::to_chars(t.as_str()).len() == 0 {
        return None;
    }
    match strip_prefix_str(t.as_str(), "git@") {
        Some(rest) => {
            return match split_once_char(rest.as_str(), ':') {
                Some((_, p)) => path_part_of(p.as_str()),
                None => None,
            };
        },
        None => {},
    }
    match strip_prefix_str(t.as_str(), "ssh://") {
        Some(rest) => {
            let host_part = match split_once_char(rest.as_str(), '@') {
                Some((_, v)) => v,
                None => rest,
            };
            return after_host_of(host_part.as_str());
        },
        None => {},
    }
    match strip_prefix_str(t.as_str(), "https://") {
        Some(rest) => {
            return after_host_of(rest.as_str());
        },
        None => {},
    }
    match strip_prefix_str(t.as_str(), "http://") {
        Some(rest) => {
            return after_host_of(rest.as_str());
        },
        None => {},
    }
    match split_once_char(t.as_str(), ':') {
        Some((_, p)) => {
            let pc = crate::text::to_chars(p.as_str());
            if find_char(&pc, '/').is_some() {
                path_part_of(p.as_str())
            } else {
                None
            }
        },
        None => None,
    }
}

/// The repository as the forge names it: the project path of its remote
/// URL; else the workspace's default group (trimmed, without surrounding
/// `/`) and the identifier, when that group is not blank; else the
/// identifier.
pub open spec fn spec_forge_repo(w: Workspace, repo: Repo) -> Seq<char> {
    match spec_project_path_from_remote(repo.remote_url@) {
        Some(p) => p,
        None => {
            let group = match w.config.forge {
                Some(f) => match f.default_group {
                    Some(g) => Some(trim_matches_spec(trim_spec(g@), '/')),
                    None => None,
                },
                None => None,
            };
            match group {
                Some(g) => if g.len() > 0 {
                    g + "/"@ + repo.id@
                } else {
                    repo.id@
                },
                None => repo.id@,
            }
        },
    }
}

/// The repository as the forge names it.
pub fn forge_repo_for_repo(workspace: &Workspace, repo: &Repo) -> (r: RepoId)
    ensures
        r@ == spec_forge_repo(*workspace, *repo),
{
    match project_path_from_remote_url(repo.remote_url.as_str()) {
        Some(p) => {
            return RepoId::new(p.as_str());
        },
        None => {},
    }
    match &workspace.config.forge {
        Some(f) => match &f.default_group {
            Some(g) => {
                let t = trim_str(g.as_str());
                let group = trim_matches_str(t.as_str(), '/');
                if crate::text::to_chars(group.as_str()).len() > 0 {
                    let path = concat3(group.as_str(), "/", repo.id.as_str());
                    return RepoId::new(path.as_str());
                }
            },
            None => {},
        },
        None => {},
    }
    repo.id.duplicate()
}

/// The title of the merge requests: the one given, else the changeset's,
/// else `changeset: ` and the branch of the first changed repository (or
/// `changeset`).
pub open spec fn spec_base_title(title: Option<Seq<char>>, plan: PlanSummary) -> Seq<char> {
    match title {
        Some(t) => t,
        None => match plan.changeset {
            Some(c) => c.title@,
            None => "changeset: "@ + if plan.changed@.len() > 0 {
                plan.changed@[0].branch@
            } else {
                "changeset"@
            },
        },
    }
}

/// The title of the merge requests.
pub fn mr_base_title(title: &Option<String>, plan: &PlanSummary) -> (r: String)
    ensures
        r@ == spec_base_title(opt_string_view(*title), *plan),
{
    match title {
        Some(t) => string_of(t.as_str()),
        None => match &plan.changeset {
            Some(c) => string_of(c.title.as_str()),
            None => {
                if plan.changed.len() > 0 {
                    concat2("changeset: ", plan.changed[0].branch.as_str())
                } else {
                    proof {
                        reveal_strlit("changeset: changeset");
                        reveal_strlit("changeset: ");
                        reveal_strlit("changeset");
                    }
                    string_of("changeset: changeset")
                }
            },
        },
    }
}

/// The description shared by the merge requests: the one given, else the
/// changeset's.
pub open spec fn spec_shared_description(description: Option<Seq<char>>, plan: PlanSummary) -> Option<Seq<char>> {
    match description {
        Some(d) => Some(d),
        None => match plan.changeset {
            Some(c) => Some(c.description@),
            None => None,
        },
    }
}

/// The description shared by the merge requests.
pub fn mr_shared_description(description: &Option<String>, plan: &PlanSummary) -> (r: Option<String>)
    ensures
        opt_string_view(r) == spec_shared_description(opt_string_view(*description), *plan),
{
    match description {
        Some(d) => Some(string_of(d.as_str())),
        None => match &plan.changeset {
            Some(c) => Some(string_of(c.description.as_str())),
            None => None,
        },
    }
}

/// The warning given when commit trailers are asked for: they are to be
/// added by hand, with the changeset's identifier (or `local-changeset`).
pub open spec fn spec_trailer_warning(plan: PlanSummary) -> Seq<char> {
    "mr.add_trailers is enabled; add commit trailers manually (e.g. Changeset-ID: "@ + match plan.changeset {
        Some(c) => c.id@,
        None => "local-changeset"@,
    } + ") before merge"@
}

/// The warning given when commit trailers are asked for.
pub fn mr_trailer_warning(plan: &PlanSummary) -> (r: String)
    ensures
        r@ == spec_trailer_warning(*plan),
{
    let mut m = string_of("mr.add_trailers is enabled; add commit trailers manually (e.g. Changeset-ID: ");
    match &plan.changeset {
        Some(c) => push_str(&mut m, c.id.as_str()),
        None => push_str(&mut m, "local-changeset"),
    }
    push_str(&mut m, ") before merge");
    m
}

pub open spec fn related_start() -> Seq<char> {
    "<!-- harmonia:related:start -->"@
}

pub open spec fn related_end() -> Seq<char> {
    "<!-- harmonia:related:end -->"@
}

/// The line that lists one merge request among the related ones.
pub open spec fn related_line(e: EntryView, current: Seq<char>) -> Seq<char> {
    "- "@ + e.0 + ": !"@ + decimal(e.4 as nat) + " ("@ + e.5 + ")"@ + (if e.0 == current {
        " (this MR)"@
    } else {
        Seq::empty()
    }) + "\n"@
}

/// The lines of all related merge requests, in order.
pub open spec fn related_lines(es: Seq<EntryView>, current: Seq<char>) -> Seq<char>
    decreases es.len(),
{
    if es.len() == 0 {
        Seq::empty()
    } else {
        related_lines(es.drop_last(), current) + related_line(es.last(), current)
    }
}

/// The description without a former list of related merge requests (from
/// its start marker on, when the end marker follows) and without trailing
/// white space.
pub open spec fn related_base(d: Seq<char>) -> Seq<char> {
    match find_sub(d, related_start()) {
        Some(start) => if find_sub(d.skip(start), related_end()) is Some {
            trim_end_spec(d.take(start))
        } else {
            trim_end_spec(d)
        },
        None => trim_end_spec(d),
    }
}

/// The description of a merge request with the list of its related merge
/// requests (re)placed at its end, between the two markers; the current one
/// is marked.
pub open spec fn spec_related_links(d: Seq<char>, created: Seq<EntryView>, current: Seq<char>, changeset_id: Option<
    Seq<char>,
>) -> Seq<char> {
    let base = related_base(d);
    base + (if base.len() > 0 {
        "\n\n"@
    } else {
        Seq::empty()
    }) + related_start() + "\n"@ + "## Related Merge Requests\n"@ + match changeset_id {
        Some(id) => "Changeset: `"@ + id + "`\n"@,
        None => Seq::empty(),
    } + "\n"@ + related_lines(created, current) + related_end() + "\n"@
}

/// The description with the related merge requests listed.
pub fn with_related_mr_links(description: &str, created: &[StoredMrEntry], current_repo: &str, changeset_id: Option<
    &str,
>) -> (r: String)
    ensures
        r@ == spec_related_links(description@, entry_views(created@), current_repo@, opt_str_view(changeset_id)),
{
    let d = crate::text::to_chars(description);
    let start_marker = crate::text::to_chars("<!-- harmonia:related:start -->");
    let end_marker = crate::text::to_chars("<!-- harmonia:related:end -->");
    proof {
        lemma_find_sub_bounds(d@, start_marker@);
        assert(start_marker@ == related_start());
        assert(end_marker@ == related_end());
    }
    let base: String = match find_chars(&d, &start_marker) {
        Some(start) => {
            proof {
                let fs = find_sub(d@, start_marker@);
                assert(fs is Some);
                let i = fs->0;
                assert(0 <= i && i + start_marker@.len() <= d@.len());
                assert(d@.len() == d.len());
                assert(i <= usize::MAX);
                assert(start == i as usize);
                assert(start as int == i);
            }
            assert(find_sub(description@, related_start()) == Some(start as int));
            let suffix = crate::numbers::slice_from(&d, start);
            proof {
                assert(suffix@ =~= description@.skip(start as int));
            }
            let found = find_chars(&suffix, &end_marker);
            assert(found.is_some() == find_sub(description@.skip(start as int), related_end()) is Some);
            if found.is_some() {
                let head = crate::numbers::slice_range(&d, 0, start);
                proof {
                    assert(head@ =~= description@.take(start as int));
                }
                let hs = crate::text::from_chars(&head);
                trim_end_str(hs.as_str())
            } else {
                trim_end_str(description)
            }
        },
        None => trim_end_str(description),
    };
    assert(base@ == related_base(description@));
    let ghost base_v = base@;
    let mut out = base;
    if crate::text::to_chars(out.as_str()).len() > 0 {
        push_str(&mut out, "\n\n");
    }
    push_str(&mut out, "<!-- harmonia:related:start -->");
    push_str(&mut out, "\n");
    push_str(&mut out, "## Related Merge Requests\n");
    match changeset_id {
        Some(id) => {
            push_str(&mut out, "Changeset: `");
            push_str(&mut out, id);
            push_str(&mut out, "`\n");
        },
        None => {},
    }
    push_str(&mut out, "\n");
    let ghost head = out@;
    let ghost ev = entry_views(created@);
    let mut i: usize = 0;
    while i < created.len()
        invariant
            ev == entry_views(created@),
            i <= created@.len(),
            out@ == head + related_lines(ev.take(i as int), current_repo@),
        decreases created@.len() - i,
    {
        proof {
            assert(ev.take(i + 1).drop_last() =~= ev.take(i as int));
            assert(ev.take(i + 1).last() == ev[i as int]);
        }
        let e = &created[i];
        push_str(&mut out, "- ");
        push_str(&mut out, e.repo.as_str());
        push_str(&mut out, ": !");
        let n = format_u64(e.iid);
        push_str(&mut out, n.as_str());
        push_str(&mut out, " (");
        push_str(&mut out, e.url.as_str());
        push_str(&mut out, ")");
        if str_eq(e.repo.as_str(), current_repo) {
            push_str(&mut out, " (this MR)");
        }
        push_str(&mut out, "\n");
        proof {
            assert(out@ =~= head + related_lines(ev.take(i as int), current_repo@) + related_line(ev[i as int], current_repo@));
        }
        i += 1;
    }
    proof {
        assert(ev.take(created@.len() as int) =~= ev);
    }
    push_str(&mut out, "<!-- harmonia:related:end -->");
    push_str(&mut out, "\n");
    proof {
        assert(head =~= base_v + (if base_v.len() > 0 {
            "\n\n"@
        } else {
            Seq::empty()
        }) + related_start() + "\n"@ + "## Related Merge Requests\n"@ + match opt_str_view(changeset_id) {
            Some(id) => "Changeset: `"@ + id + "`\n"@,
            None => Seq::empty(),
        } + "\n"@);
        assert(out@ =~= spec_related_links(description@, ev, current_repo@, opt_str_view(changeset_id)));
    }
    out
}

/// The start marker holds no line break.
proof fn lemma_start_marker_one_line()
    ensures
        related_start().len() > 0,
        forall|k: int| 0 <= k < related_start().len() ==> #[trigger] related_start()[k] != '\n',
{
    reveal_strlit("<!-- harmonia:related:start -->");
}

/// In the kept text, its separator and a tail that opens with the start
/// marker, the first start marker is the tail's.
proof fn lemma_marker_first_after(base: Seq<char>, sep: Seq<char>, tail: Seq<char>)
    requires
        forall|j: int|
            0 <= j && j + related_start().len() <= base.len() ==> #[trigger] base.subrange(j, j + related_start().len())
                != related_start(),
        sep == (if base.len() > 0 {
            "\n\n"@
        } else {
            Seq::<char>::empty()
        }),
        tail.len() >= related_start().len(),
        tail.subrange(0, related_start().len() as int) == related_start(),
    ensures
        find_sub(base + sep + tail, related_start()) == Some((base.len() + sep.len()) as int),
{
    let st = related_start();
    let n = st.len();
    let d2 = base + sep + tail;
    let p: int = (base.len() + sep.len()) as int;
    reveal_strlit("\n\n");
    lemma_start_marker_one_line();
    assert forall|j: int| 0 <= j < p implies !(j + n <= d2.len() && #[trigger] d2.subrange(j, j + n) == st) by {
        if j + n <= d2.len() && d2.subrange(j, j + n) == st {
            if j + n <= base.len() {
                assert(d2.subrange(j, j + n) =~= base.subrange(j, j + n));
            } else {
                let q = if j > base.len() { j } else { base.len() as int };
                assert(j <= q < j + n);
                assert(d2[q] == '\n');
                let w = d2.subrange(j, j + n);
                assert(w[q - j] == d2[q]);
                assert(st[q - j] != '\n');
            }
        }
    }
    lemma_find_sub_skip(d2, st, p);
    assert(d2.subrange(p, d2.len() as int) =~= tail);
    assert(find_sub(tail, st) == Some(0int));
}

/// What a description keeps before its list holds no start marker, when a
/// start marker is followed by an end marker; it ends in no white space.
proof fn lemma_kept_has_no_marker(d: Seq<char>)
    requires
        find_sub(d, related_start()) matches Some(s) ==> find_sub(d.skip(s), related_end()) is Some,
    ensures
        forall|j: int|
            0 <= j && j + related_start().len() <= related_base(d).len() ==> #[trigger] related_base(d).subrange(
                j,
                j + related_start().len(),
            ) != related_start(),
        trim_end_spec(related_base(d)) == related_base(d),
{
    let st = related_start();
    let n = st.len();
    lemma_start_marker_one_line();
    let x = match find_sub(d, st) {
        Some(s) => d.take(s),
        None => d,
    };
    lemma_find_sub_first(d, st);
    lemma_find_sub_bounds(d, st);
    let base = related_base(d);
    assert(base == trim_end_spec(x));
    lemma_trim_end_shape(x);
    assert forall|j: int| 0 <= j && j + n <= base.len() implies #[trigger] base.subrange(j, j + n) != st by {
        assert(base.subrange(j, j + n) =~= x.subrange(j, j + n));
        assert(x.subrange(j, j + n) =~= d.subrange(j, j + n));
    }
}

/// Listing the related merge requests a second time changes nothing, for a
/// description whose start marker, where it has one, is followed by an end
/// marker.
pub proof fn lemma_related_links_idempotent(
    d: Seq<char>,
    created: Seq<EntryView>,
    current: Seq<char>,
    changeset_id: Option<Seq<char>>,
)
    requires
        find_sub(d, related_start()) matches Some(s) ==> find_sub(d.skip(s), related_end()) is Some,
    ensures
        spec_related_links(spec_related_links(d, created, current, changeset_id), created, current, changeset_id)
            == spec_related_links(d, created, current, changeset_id),
{
    let st = related_start();
    let en = related_end();
    let n = st.len();
    let base = related_base(d);
    lemma_kept_has_no_marker(d);
    reveal_strlit("\n\n");
    let sep: Seq<char> = if base.len() > 0 {
        "\n\n"@
    } else {
        Seq::empty()
    };
    let head = st + "\n"@ + "## Related Merge Requests\n"@ + match changeset_id {
        Some(id) => "Changeset: `"@ + id + "`\n"@,
        None => Seq::empty(),
    } + "\n"@ + related_lines(created, current);
    let tail = head + en + "\n"@;
    let d2 = spec_related_links(d, created, current, changeset_id);
    assert(d2 =~= base + sep + tail);
    assert(tail.subrange(0, n as int) =~= st);
    lemma_marker_first_after(base, sep, tail);
    let p: int = (base.len() + sep.len()) as int;
    // An end marker follows it.
    assert(tail.subrange(head.len() as int, (head.len() + en.len()) as int) =~= en);
    assert(d2.skip(p) =~= tail);
    lemma_find_sub_first(tail, en);
    assert(find_sub(d2.skip(p), en) is Some);
    // So the second pass keeps the same text.
    assert(d2.take(p) =~= base + sep);
    if base.len() > 0 {
        assert forall|k: int| base.len() <= k < (base + sep).len() implies crate::text::is_ws(#[trigger] (base + sep)[k]) by {
            assert((base + sep)[k] == '\n');
        }
        crate::text::lemma_trim_end_to(base + sep, base.len() as int);
        assert((base + sep).subrange(0, base.len() as int) =~= base);
    } else {
        assert(base + sep =~= base);
    }
    assert(trim_end_spec(base + sep) == base);
    assert(related_base(d2) == base);
}

} // verus!
