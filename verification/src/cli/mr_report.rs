//! What `harmonia mr status` reports: one row per tracked merge request,
//! when to look again while waiting for CI, and the texts it prints.
use vstd::prelude::*;
use crate::cli::mr_status::{RequiredChecksState, configured_checks, dedup_adjacent, evaluate_required_checks,
    mr_state_label, ci_state_label, required_checks_for_repo, spec_ci_state_label, spec_mr_state_label,
    spec_required_state, state_view};
use crate::cli::plan::{PlanChangedRepo, PlanSummary, changed_ids, numbered_lines, order_by_sequence, push_numbered,
    spec_ordered_plan, id_strings};
use crate::error::HarmoniaError;
use crate::forge::{CheckRun, CiState, CiStatus, MergeRequest, MrState, User};
use crate::graph::ops::{OrderError, graph_deps, merge_order, merge_set};
use crate::graph::topo::{greedy_prefix, stuck};
use crate::numbers::{decimal, format_u64};
use crate::order::{compare_str, first_greater, join_names, join_strings, lemma_first_greater_at, lemma_lt_asym, seq_lt,
    sort_names, views};
use crate::project::repo::{Repo, RepoId, id_views};
use crate::project::workspace::Workspace;
use crate::text::{push_str, string_of};

verus! {

/// The status of one tracked merge request.
#[derive(Debug)]
pub struct MrStatusRow {
    pub repo: RepoId,
    pub iid: u64,
    pub url: String,
    pub state: MrState,
    pub ci_state: Option<CiState>,
    /// The names of the users who approved.
    pub approvals: Vec<String>,
    /// Each check as its name and status.
    pub checks: Vec<(String, String)>,
    pub missing_required_checks: Vec<String>,
    pub failed_required_checks: Vec<String>,
}

/// The names of users.
pub open spec fn user_names(u: Seq<User>) -> Seq<Seq<char>> {
    u.map_values(|x: User| x.username@)
}

/// Checks as pairs of name and status.
pub open spec fn check_pairs(c: Seq<CheckRun>) -> Seq<(Seq<char>, Seq<char>)> {
    c.map_values(|x: CheckRun| (x.name@, x.status@))
}

/// Pairs of strings as pairs of texts.
pub open spec fn pair_views(p: Seq<(String, String)>) -> Seq<(Seq<char>, Seq<char>)> {
    p.map_values(|x: (String, String)| (x.0@, x.1@))
}

/// The row of repository `repo` from its merge request and the CI status of
/// its source branch: the required checks still to come, or the failed ones.
pub open spec fn row_of(r: MrStatusRow, repo: Repo, mr: MergeRequest, ci: CiStatus) -> bool {
    let st = spec_required_state(dedup_adjacent(sort_names(configured_checks(repo))), ci.checks@);
    &&& r.repo@ == repo.id@
    &&& r.iid == mr.iid
    &&& r.url@ == mr.url@
    &&& r.state == mr.state
    &&& r.ci_state == Some(ci.state)
    &&& views(r.approvals@) == user_names(mr.approvals@)
    &&& pair_views(r.checks@) == check_pairs(ci.checks@)
    &&& views(r.missing_required_checks@) == (if st.0 == 1 {
        st.1
    } else {
        Seq::empty()
    })
    &&& views(r.failed_required_checks@) == (if st.0 == 2 {
        st.1
    } else {
        Seq::empty()
    })
}

/// The row of a tracked merge request.
pub fn mr_status_row(repo: &Repo, mr: &MergeRequest, ci: &CiStatus) -> (r: MrStatusRow)
    ensures
        row_of(r, *repo, *mr, *ci),
{
    let mut approvals: Vec<String> = Vec::new();
    let mut i: usize = 0;
    while i < mr.approvals.len()
        invariant
            i <= mr.approvals@.len(),
            views(approvals@) == user_names(mr.approvals@).take(i as int),
        decreases mr.approvals@.len() - i,
    {
        let ghost before = views(approvals@);
        approvals.push(string_of(mr.approvals[i].username.as_str()));
        proof {
            assert(views(approvals@) =~= before.push(mr.approvals@[i as int].username@));
            assert(user_names(mr.approvals@).take(i + 1) =~= user_names(mr.approvals@).take(i as int).push(
                mr.approvals@[i as int].username@,
            ));
        }
        i += 1;
    }
    proof {
        assert(user_names(mr.approvals@).take(mr.approvals@.len() as int) =~= user_names(mr.approvals@));
    }
    let mut checks: Vec<(String, String)> = Vec::new();
    let mut k: usize = 0;
    while k < ci.checks.len()
        invariant
            k <= ci.checks@.len(),
            pair_views(checks@) == check_pairs(ci.checks@).take(k as int),
        decreases ci.checks@.len() - k,
    {
        let ghost before = pair_views(checks@);
        let c = &ci.checks[k];
        checks.push((string_of(c.name.as_str()), string_of(c.status.as_str())));
        proof {
            assert(pair_views(checks@) =~= before.push((c.name@, c.status@)));
            assert(check_pairs(ci.checks@).take(k + 1) =~= check_pairs(ci.checks@).take(k as int).push(
                (c.name@, c.status@),
            ));
        }
        k += 1;
    }
    proof {
        assert(check_pairs(ci.checks@).take(ci.checks@.len() as int) =~= check_pairs(ci.checks@));
    }
    let required = required_checks_for_repo(repo);
    let state = evaluate_required_checks(&required, ci.checks.as_slice());
    let ghost sv = state_view(state);
    let (missing, failed) = match state {
        RequiredChecksState::Pending(names) => (names, Vec::new()),
        RequiredChecksState::Failed(names) => (Vec::new(), names),
        RequiredChecksState::Satisfied => (Vec::new(), Vec::new()),
    };
    proof {
        assert(views(missing@) =~= (if sv.0 == 1 { sv.1 } else { Seq::<Seq<char>>::empty() }));
        assert(views(failed@) =~= (if sv.0 == 2 { sv.1 } else { Seq::<Seq<char>>::empty() }));
    }
    MrStatusRow {
        repo: repo.id.duplicate(),
        iid: mr.iid,
        url: string_of(mr.url.as_str()),
        state: mr.state,
        ci_state: Some(ci.state),
        approvals,
        checks,
        missing_required_checks: missing,
        failed_required_checks: failed,
    }
}

/// The repositories of the rows.
pub open spec fn row_repos(rows: Seq<MrStatusRow>) -> Seq<Seq<char>> {
    rows.map_values(|r: MrStatusRow| r.repo@)
}

/// `x` placed after every row whose repository does not sort after its own.
pub open spec fn insert_row(s: Seq<MrStatusRow>, x: MrStatusRow) -> Seq<MrStatusRow> {
    let p = first_greater(row_repos(s), x.repo@);
    s.take(p).push(x) + s.skip(p)
}

/// The rows sorted stably by repository.
pub open spec fn sort_rows(s: Seq<MrStatusRow>) -> Seq<MrStatusRow>
    decreases s.len(),
{
    if s.len() == 0 {
        s
    } else {
        insert_row(sort_rows(s.drop_last()), s.last())
    }
}

/// Inserts a row at the place `insert_row` gives.
fn insert_row_into(v: &mut Vec<MrStatusRow>, x: MrStatusRow)
    ensures
        final(v)@ == insert_row(old(v)@, x),
{
    let ghost s = row_repos(v@);
    let mut i: usize = 0;
    while i < v.len() && compare_str(v[i].repo.as_str(), x.repo.as_str()) <= 0
        invariant
            s == row_repos(v@),
            i <= v@.len(),
            forall|k: int| 0 <= k < i ==> !seq_lt(x.repo@, #[trigger] s[k]),
        decreases v@.len() - i,
    {
        proof {
            if seq_lt(x.repo@, s[i as int]) {
                lemma_lt_asym(x.repo@, s[i as int]);
            }
        }
        i += 1;
    }
    proof {
        if i < v@.len() {
            assert(seq_lt(x.repo@, s[i as int]));
        }
        lemma_first_greater_at(s, x.repo@, i as int);
    }
    let ghost before = v@;
    let ghost xv = x;
    v.insert(i, x);
    proof {
        assert(v@ =~= before.take(i as int).push(xv) + before.skip(i as int));
    }
}

/// The rows sorted by repository; rows of one repository keep their order.
pub fn sort_status_rows(rows: Vec<MrStatusRow>) -> (r: Vec<MrStatusRow>)
    ensures
        r@ == sort_rows(rows@),
{
    let ghost orig = rows@;
    let mut rest = rows;
    let total = rest.len();
    let mut out: Vec<MrStatusRow> = Vec::new();
    let mut k: usize = 0;
    while rest.len() > 0
        invariant
            orig.len() == total,
            k <= orig.len(),
            rest@ == orig.skip(k as int),
            rest@.len() == orig.len() - k,
            out@ == sort_rows(orig.take(k as int)),
        decreases rest@.len(),
    {
        proof {
            assert(orig.take(k + 1).drop_last() =~= orig.take(k as int));
            assert(orig.take(k + 1).last() == orig[k as int]);
        }
        let x = rest.remove(0);
        insert_row_into(&mut out, x);
        proof {
            assert(rest@ =~= orig.skip(k + 1));
        }
        k += 1;
    }
    proof {
        assert(orig.take(k as int) =~= orig);
    }
    out
}

/// A row still waits on CI: it is pending or running, or required checks
/// are still to come.
pub open spec fn row_waiting(r: MrStatusRow) -> bool {
    r.ci_state == Some(CiState::Pending) || r.ci_state == Some(CiState::Running) || r.missing_required_checks@.len() > 0
}

/// A row has failed required checks.
pub open spec fn row_failed(r: MrStatusRow) -> bool {
    r.failed_required_checks@.len() > 0
}

/// Some row has failed required checks.
pub open spec fn any_failed(rows: Seq<MrStatusRow>) -> bool {
    exists|i: int| 0 <= i < rows.len() && #[trigger] row_failed(rows[i])
}

/// Some row still waits on CI.
pub open spec fn any_waiting(rows: Seq<MrStatusRow>) -> bool {
    exists|i: int| 0 <= i < rows.len() && #[trigger] row_waiting(rows[i])
}

/// What to do after one look at the tracked merge requests.
#[derive(Debug, Clone, Copy, PartialEq, Eq, Structural)]
pub enum StatusPoll {
    /// Report the rows as they are.
    Report,
    /// Report them, the deadline having passed while CI still ran.
    TimedOut,
    /// Pause and look again.
    Again,
}

/// Report at once on a failed required check, when not waiting, or when
/// nothing waits on CI; else time out past the deadline, or look again.
pub open spec fn spec_status_poll(rows: Seq<MrStatusRow>, wait: bool, past_deadline: bool) -> StatusPoll {
    if any_failed(rows) || !wait || !any_waiting(rows) {
        StatusPoll::Report
    } else if past_deadline {
        StatusPoll::TimedOut
    } else {
        StatusPoll::Again
    }
}

/// What to do after one look at the tracked merge requests.
pub fn status_poll(rows: &Vec<MrStatusRow>, wait: bool, past_deadline: bool) -> (r: StatusPoll)
    ensures
        r == spec_status_poll(rows@, wait, past_deadline),
{
    let mut failed = false;
    let mut waiting = false;
    let mut i: usize = 0;
    while i < rows.len()
        invariant
            i <= rows@.len(),
            failed == exists|k: int| 0 <= k < i && #[trigger] row_failed(rows@[k]),
            waiting == exists|k: int| 0 <= k < i && #[trigger] row_waiting(rows@[k]),
        decreases rows@.len() - i,
    {
        let r = &rows[i];
        if r.failed_required_checks.len() > 0 {
            failed = true;
        }
        let running = match r.ci_state {
            Some(CiState::Pending) => true,
            Some(CiState::Running) => true,
            _ => false,
        };
        if running || r.missing_required_checks.len() > 0 {
            waiting = true;
        }
        proof {
            assert(row_failed(rows@[i as int]) == (r.failed_required_checks@.len() > 0));
            assert(row_waiting(rows@[i as int]) == (running || r.missing_required_checks@.len() > 0));
        }
        i += 1;
    }
    if failed || !wait || !waiting {
        StatusPoll::Report
    } else if past_deadline {
        StatusPoll::TimedOut
    } else {
        StatusPoll::Again
    }
}

/// The first line of a row: repository, merge request, states and
/// approvals.
pub open spec fn status_row_head(r: MrStatusRow) -> Seq<char> {
    r.repo@ + ": !"@ + decimal(r.iid as nat) + " "@ + r.url@ + " (state: "@ + spec_mr_state_label(r.state) + ", ci: "@
        + match r.ci_state {
        Some(c) => spec_ci_state_label(c),
        None => "unknown"@,
    } + ", approvals: "@ + join_names(views(r.approvals@), ", "@) + ")\n"@
}

/// A line listing `names` after `label`, when there are any.
pub open spec fn names_line(label: Seq<char>, names: Seq<Seq<char>>) -> Seq<char> {
    if names.len() > 0 {
        label + join_names(names, ", "@) + "\n"@
    } else {
        Seq::empty()
    }
}

/// The lines of one row.
pub open spec fn status_row_lines(r: MrStatusRow) -> Seq<char> {
    status_row_head(r) + names_line("  waiting required checks: "@, views(r.missing_required_checks@)) + names_line(
        "  failed required checks: "@,
        views(r.failed_required_checks@),
    )
}

/// The lines of all rows.
pub open spec fn status_lines(rows: Seq<MrStatusRow>) -> Seq<char>
    decreases rows.len(),
{
    if rows.len() == 0 {
        Seq::empty()
    } else {
        status_lines(rows.drop_last()) + status_row_lines(rows.last())
    }
}

/// Appends the first line of a row.
fn push_status_head(out: &mut String, r: &MrStatusRow)
    ensures
        final(out)@ == old(out)@ + status_row_head(*r),
{
    let ghost before = out@;
    push_str(out, r.repo.as_str());
    push_str(out, ": !");
    let n = format_u64(r.iid);
    push_str(out, n.as_str());
    push_str(out, " ");
    push_str(out, r.url.as_str());
    push_str(out, " (state: ");
    push_str(out, mr_state_label(&r.state));
    push_str(out, ", ci: ");
    let ghost mid = out@;
    match &r.ci_state {
        Some(c) => push_str(out, ci_state_label(c)),
        None => push_str(out, "unknown"),
    }
    push_str(out, ", approvals: ");
    let a = join_strings(&r.approvals, ", ");
    push_str(out, a.as_str());
    push_str(out, ")\n");
    proof {
        assert(out@ =~= before + status_row_head(*r));
    }
}

/// Appends a line listing `names` after `label`, when there are any.
fn push_names_line(out: &mut String, label: &str, names: &Vec<String>)
    ensures
        final(out)@ == old(out)@ + names_line(label@, views(names@)),
{
    if names.len() > 0 {
        push_str(out, label);
        let j = join_strings(names, ", ");
        push_str(out, j.as_str());
        push_str(out, "\n");
    }
}

/// Appends the lines of one row.
fn push_status_row(out: &mut String, r: &MrStatusRow)
    ensures
        final(out)@ == old(out)@ + status_row_lines(*r),
{
    let ghost before = out@;
    push_status_head(out, r);
    push_names_line(out, "  waiting required checks: ", &r.missing_required_checks);
    push_names_line(out, "  failed required checks: ", &r.failed_required_checks);
    proof {
        assert(out@ =~= before + status_row_lines(*r));
    }
}

/// What `harmonia mr status` prints for the rows.
pub fn mr_status_text(rows: &Vec<MrStatusRow>) -> (r: String)
    ensures
        r@ == "Merge Request Status\n====================\n"@ + status_lines(rows@),
{
    let mut out = string_of("Merge Request Status\n====================\n");
    let ghost head = out@;
    let mut i: usize = 0;
    while i < rows.len()
        invariant
            i <= rows@.len(),
            out@ == head + status_lines(rows@.take(i as int)),
        decreases rows@.len() - i,
    {
        proof {
            assert(rows@.take(i + 1).drop_last() =~= rows@.take(i as int));
            assert(rows@.take(i + 1).last() == rows@[i as int]);
        }
        push_status_row(&mut out, &rows[i]);
        i += 1;
    }
    proof {
        assert(rows@.take(rows@.len() as int) =~= rows@);
    }
    out
}

/// How `harmonia mr status` ends: an error when waiting saw a failed
/// required check, or when the wait timed out.
pub fn mr_status_outcome(rows: &Vec<MrStatusRow>, wait: bool, timed_out: bool) -> (r: Result<(), HarmoniaError>)
    ensures
        wait && any_failed(rows@) ==> (r matches Err(HarmoniaError::Other(m)) && m@ == "one or more required checks failed"@),
        !(wait && any_failed(rows@)) && timed_out ==> (r matches Err(HarmoniaError::Other(m)) && m@
            == "timeout waiting for CI to complete"@),
        !(wait && any_failed(rows@)) && !timed_out ==> r is Ok,
{
    if wait {
        let mut i: usize = 0;
        while i < rows.len()
            invariant
                wait,
                i <= rows@.len(),
                forall|k: int| 0 <= k < i ==> !#[trigger] row_failed(rows@[k]),
            decreases rows@.len() - i,
        {
            if rows[i].failed_required_checks.len() > 0 {
                proof {
                    assert(row_failed(rows@[i as int]));
                    assert(any_failed(rows@));
                }
                return Err(HarmoniaError::Other(string_of("one or more required checks failed")));
            }
            i += 1;
        }
    }
    if timed_out {
        return Err(HarmoniaError::Other(string_of("timeout waiting for CI to complete")));
    }
    Ok(())
}

/// The lines naming the changed repositories.
pub open spec fn changed_id_lines(ids: Seq<Seq<char>>) -> Seq<char>
    decreases ids.len(),
{
    if ids.len() == 0 {
        Seq::empty()
    } else {
        changed_id_lines(ids.drop_last()) + "  "@ + ids.last() + "\n"@
    }
}

/// What `harmonia mr status` prints when no merge request is tracked: the
/// changed repositories and their suggested merge order.
pub open spec fn spec_preview_text(plan: PlanSummary) -> Seq<char> {
    "MR Preview\n==========\n"@ + if plan.changed@.len() == 0 {
        "No changed repositories detected.\n"@
    } else {
        "Repositories with local changes:\n"@ + changed_id_lines(changed_ids(plan.changed@)) + "\n"@
            + "Suggested merge order:\n"@ + numbered_lines(id_views(plan.merge_order@))
    }
}

/// What `harmonia mr status` prints when no merge request is tracked.
pub fn mr_preview_text(plan: &PlanSummary) -> (r: String)
    ensures
        r@ == spec_preview_text(*plan),
{
    let mut out = string_of("MR Preview\n==========\n");
    if plan.changed.len() == 0 {
        push_str(&mut out, "No changed repositories detected.\n");
        return out;
    }
    push_str(&mut out, "Repositories with local changes:\n");
    let ghost head = out@;
    let ghost ids = changed_ids(plan.changed@);
    let mut i: usize = 0;
    while i < plan.changed.len()
        invariant
            i <= plan.changed@.len(),
            ids == changed_ids(plan.changed@),
            out@ == head + changed_id_lines(ids.take(i as int)),
        decreases plan.changed@.len() - i,
    {
        proof {
            assert(ids.take(i + 1).drop_last() =~= ids.take(i as int));
            assert(ids.take(i + 1).last() == ids[i as int]);
        }
        push_str(&mut out, "  ");
        push_str(&mut out, plan.changed[i].id.as_str());
        push_str(&mut out, "\n");
        i += 1;
    }
    proof {
        assert(ids.take(plan.changed@.len() as int) =~= ids);
    }
    push_str(&mut out, "\n");
    push_str(&mut out, "Suggested merge order:\n");
    push_numbered(&mut out, &plan.merge_order);
    out
}

/// The tracked repositories in merge order (that of the tracked
/// repositories and what they depend on); those without a place in it last,
/// sorted. One or no repository is returned as given.
pub fn tracked_in_merge_order(workspace: &Workspace, ids: &Vec<RepoId>) -> (r: Result<Vec<RepoId>, OrderError>)
    ensures
        ids@.len() <= 1 ==> (r matches Ok(v) && id_views(v@) == id_views(ids@)),
        ids@.len() > 1 ==> match r {
            Ok(v) => exists|o: Seq<Seq<char>>|
                greedy_prefix(
                    graph_deps(workspace.graph.entries(), workspace.repos@),
                    merge_set(workspace.graph.entries(), workspace.repos@, id_views(ids@)),
                    o,
                ) && o.len() == merge_set(workspace.graph.entries(), workspace.repos@, id_views(ids@)).len()
                    && id_views(v@) == spec_ordered_plan(o, id_views(ids@)),
            Err(_) => exists|p: Seq<Seq<char>>|
                greedy_prefix(
                    graph_deps(workspace.graph.entries(), workspace.repos@),
                    merge_set(workspace.graph.entries(), workspace.repos@, id_views(ids@)),
                    p,
                ) && stuck(
                    graph_deps(workspace.graph.entries(), workspace.repos@),
                    merge_set(workspace.graph.entries(), workspace.repos@, id_views(ids@)),
                    p,
                ) && p.len() < merge_set(workspace.graph.entries(), workspace.repos@, id_views(ids@)).len(),
        },
{
    if ids.len() <= 1 {
        let mut same: Vec<RepoId> = Vec::new();
        if ids.len() == 1 {
            same.push(ids[0].duplicate());
        }
        proof {
            assert(id_views(same@) =~= id_views(ids@));
        }
        return Ok(same);
    }
    match merge_order(&workspace.graph, &workspace.repos, ids.as_slice()) {
        Ok(order) => {
            let names = id_strings(ids);
            Ok(order_by_sequence(&order, &names))
        },
        Err(e) => Err(e),
    }
}

} // verus!
