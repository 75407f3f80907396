//! Tracked merge requests and their status: the local record of opened
//! merge requests, the required checks of a repository, and the decisions
//! taken while waiting for CI.
use vstd::prelude::*;
use crate::error::HarmoniaError;
use crate::forge::{CheckRun, CiState, MrState};
use crate::order::{sort_names, sort_strings, views};
use crate::project::repo::{Repo, RepoId};
use crate::text::{concat2, push_str, str_eq, string_of};

verus! {

pub open spec fn spec_mr_state_label(s: MrState) -> Seq<char> {
    match s {
        MrState::Open => "open"@,
        MrState::Merged => "merged"@,
        MrState::Closed => "closed"@,
        MrState::Draft => "draft"@,
    }
}

/// The name of a merge request state as reported.
pub fn mr_state_label(state: &MrState) -> (r: &'static str)
    ensures
        r@ == spec_mr_state_label(*state),
{
    match state {
        MrState::Open => "open",
        MrState::Merged => "merged",
        MrState::Closed => "closed",
        MrState::Draft => "draft",
    }
}

pub open spec fn spec_ci_state_label(s: CiState) -> Seq<char> {
    match s {
        CiState::Pending => "pending"@,
        CiState::Running => "running"@,
        CiState::Success => "success"@,
        CiState::Failed => "failed"@,
        CiState::Canceled => "canceled"@,
        CiState::Skipped => "skipped"@,
    }
}

/// The name of a CI state as reported.
pub fn ci_state_label(state: &CiState) -> (r: &'static str)
    ensures
        r@ == spec_ci_state_label(*state),
{
    match state {
        CiState::Pending => "pending",
        CiState::Running => "running",
        CiState::Success => "success",
        CiState::Failed => "failed",
        CiState::Canceled => "canceled",
        CiState::Skipped => "skipped",
    }
}

/// The list without adjacent repeats.
pub open spec fn dedup_adjacent(s: Seq<Seq<char>>) -> Seq<Seq<char>>
    decreases s.len(),
{
    if s.len() == 0 {
        Seq::empty()
    } else if dedup_adjacent(s.drop_last()).len() > 0 && dedup_adjacent(s.drop_last()).last() == s.last() {
        dedup_adjacent(s.drop_last())
    } else {
        dedup_adjacent(s.drop_last()).push(s.last())
    }
}

/// The check names a repository's configuration requires.
pub open spec fn configured_checks(repo: Repo) -> Seq<Seq<char>> {
    match repo.config {
        Some(c) => match c.ci {
            Some(ci) => match ci.required_checks {
                Some(v) => views(v@),
                None => Seq::empty(),
            },
            None => Seq::empty(),
        },
        None => Seq::empty(),
    }
}

/// The checks a repository requires: sorted, each once.
pub fn required_checks_for_repo(repo: &Repo) -> (r: Vec<String>)
    ensures
        views(r@) == dedup_adjacent(sort_names(configured_checks(*repo))),
{
    let sorted: Vec<String> = match &repo.config {
        Some(c) => match &c.ci {
            Some(ci) => match &ci.required_checks {
                Some(v) => sort_strings(v),
                None => Vec::new(),
            },
            None => Vec::new(),
        },
        None => Vec::new(),
    };
    proof {
        assert(sort_names(Seq::<Seq<char>>::empty()) =~= Seq::<Seq<char>>::empty());
        assert(views(sorted@) == sort_names(configured_checks(*repo)));
    }
    let ghost s = views(sorted@);
    let mut out: Vec<String> = Vec::new();
    let mut i: usize = 0;
    while i < sorted.len()
        invariant
            s == views(sorted@),
            i <= sorted@.len(),
            views(out@) == dedup_adjacent(s.take(i as int)),
        decreases sorted@.len() - i,
    {
        proof {
            assert(s.take(i + 1).drop_last() =~= s.take(i as int));
            assert(s.take(i + 1).last() == s[i as int]);
        }
        let repeat = out.len() > 0 && str_eq(out[out.len() - 1].as_str(), sorted[i].as_str());
        if !repeat {
            let ghost before = views(out@);
            out.push(sorted[i].clone());
            proof {
                assert(views(out@) =~= before.push(s[i as int]));
            }
        }
        i += 1;
    }
    proof {
        assert(s.take(sorted@.len() as int) =~= s);
    }
    out
}

/// How the required checks of a commit stand.
#[derive(Debug)]
pub enum RequiredChecksState {
    Satisfied,
    Pending(Vec<String>),
    Failed(Vec<String>),
}

/// The status of the first check named `name`.
pub open spec fn check_status(checks: Seq<CheckRun>, name: Seq<char>) -> Option<Seq<char>>
    decreases checks.len(),
{
    if checks.len() == 0 {
        None
    } else if checks[0].name@ == name {
        Some(checks[0].status@)
    } else {
        check_status(checks.drop_first(), name)
    }
}

/// A status that counts as passed.
pub open spec fn passed_status(s: Seq<char>) -> bool {
    s == "success"@ || s == "passed"@ || s == "skipped"@
}

/// A status that counts as still to come.
pub open spec fn waiting_status(s: Seq<char>) -> bool {
    s == "pending"@ || s == "running"@ || s == "created"@ || s == "preparing"@ || s == "manual"@ || s
        == "scheduled"@ || s == "waiting_for_resource"@
}

/// How one required check stands: 0 passed, 1 still to come (also when
/// absent), 2 failed.
pub open spec fn check_class(status: Option<Seq<char>>) -> int {
    match status {
        None => 1,
        Some(s) => if passed_status(s) {
            0
        } else if waiting_status(s) {
            1
        } else {
            2
        },
    }
}

/// The required checks in class `k`, in order.
pub open spec fn checks_in_class(required: Seq<Seq<char>>, checks: Seq<CheckRun>, k: int) -> Seq<Seq<char>>
    decreases required.len(),
{
    if required.len() == 0 {
        Seq::empty()
    } else if check_class(check_status(checks, required.last())) == k {
        checks_in_class(required.drop_last(), checks, k).push(required.last())
    } else {
        checks_in_class(required.drop_last(), checks, k)
    }
}

/// How the required checks stand: failed when any failed, else pending when
/// any is still to come, else satisfied.
pub open spec fn spec_required_state(required: Seq<Seq<char>>, checks: Seq<CheckRun>) -> (int, Seq<Seq<char>>) {
    if checks_in_class(required, checks, 2).len() > 0 {
        (2, checks_in_class(required, checks, 2))
    } else if checks_in_class(required, checks, 1).len() > 0 {
        (1, checks_in_class(required, checks, 1))
    } else {
        (0, Seq::empty())
    }
}

/// The state as a class and the names it lists.
pub open spec fn state_view(s: RequiredChecksState) -> (int, Seq<Seq<char>>) {
    match s {
        RequiredChecksState::Satisfied => (0, Seq::empty()),
        RequiredChecksState::Pending(v) => (1, views(v@)),
        RequiredChecksState::Failed(v) => (2, views(v@)),
    }
}

/// The status of the first check named `name`.
fn find_check(checks: &[CheckRun], name: &str) -> (r: Option<usize>)
    ensures
        match r {
            Some(i) => i < checks@.len() && check_status(checks@, name@) == Some(checks@[i as int].status@),
            None => check_status(checks@, name@) is None,
        },
{
    let mut i: usize = 0;
    proof {
        assert(checks@.skip(0) =~= checks@);
    }
    while i < checks.len()
        invariant
            i <= checks@.len(),
            check_status(checks@.skip(i as int), name@) == check_status(checks@, name@),
        decreases checks@.len() - i,
    {
        proof {
            assert(checks@.skip(i as int).drop_first() =~= checks@.skip(i + 1));
            assert(checks@.skip(i as int)[0] == checks@[i as int]);
        }
        if str_eq(checks[i].name.as_str(), name) {
            return Some(i);
        }
        i += 1;
    }
    proof {
        assert(checks@.skip(checks@.len() as int) =~= Seq::<CheckRun>::empty());
    }
    None
}

/// The class of a check status text.
fn classify(status: &str) -> (r: u8)
    ensures
        r as int == check_class(Some(status@)),
{
    if str_eq(status, "success") || str_eq(status, "passed") || str_eq(status, "skipped") {
        0
    } else if str_eq(status, "pending") || str_eq(status, "running") || str_eq(status, "created") || str_eq(
        status,
        "preparing",
    ) || str_eq(status, "manual") || str_eq(status, "scheduled") || str_eq(status, "waiting_for_resource") {
        1
    } else {
        2
    }
}

/// How the required checks stand against the checks a commit has.
pub fn evaluate_required_checks(required: &Vec<String>, checks: &[CheckRun]) -> (r: RequiredChecksState)
    ensures
        state_view(r) == spec_required_state(views(required@), checks@),
{
    let ghost req = views(required@);
    let mut pending: Vec<String> = Vec::new();
    let mut failed: Vec<String> = Vec::new();
    let mut i: usize = 0;
    while i < required.len()
        invariant
            req == views(required@),
            i <= required@.len(),
            views(pending@) == checks_in_class(req.take(i as int), checks@, 1),
            views(failed@) == checks_in_class(req.take(i as int), checks@, 2),
        decreases required@.len() - i,
    {
        proof {
            assert(req.take(i + 1).drop_last() =~= req.take(i as int));
            assert(req.take(i + 1).last() == req[i as int]);
        }
        let class: u8 = match find_check(checks, required[i].as_str()) {
            Some(k) => classify(checks[k].status.as_str()),
            None => 1,
        };
        if class == 1 {
            let ghost before = views(pending@);
            pending.push(required[i].clone());
            proof {
                assert(views(pending@) =~= before.push(req[i as int]));
            }
        } else if class == 2 {
            let ghost before = views(failed@);
            failed.push(required[i].clone());
            proof {
                assert(views(failed@) =~= before.push(req[i as int]));
            }
        }
        i += 1;
    }
    proof {
        assert(req.take(required@.len() as int) =~= req);
    }
    if failed.len() > 0 {
        return RequiredChecksState::Failed(failed);
    }
    if pending.len() > 0 {
        return RequiredChecksState::Pending(pending);
    }
    RequiredChecksState::Satisfied
}

/// What to do next while waiting for a merge request's CI.
#[derive(Debug)]
pub enum CiWaitStep {
    /// CI passed and every required check is satisfied.
    Done,
    /// Look again after a pause.
    Wait,
    /// Give up with this message.
    Fail(String),
}

/// The names joined with `, `.
pub open spec fn comma_joined(v: Seq<Seq<char>>) -> Seq<char> {
    crate::order::join_names(v, ", "@)
}

/// One step of waiting for CI on `repo`: done when CI passed and the
/// required checks are satisfied; a failure when CI failed or was canceled,
/// when a required check failed, or when the deadline passed with something
/// still to come; else wait.
pub open spec fn spec_ci_wait_step(repo: Seq<char>, state: CiState, required: (int, Seq<Seq<char>>), past_deadline: bool) -> Option<
    Option<Seq<char>>,
> {
    match state {
        CiState::Success | CiState::Skipped => if required.0 == 0 {
            Some(None)
        } else if required.0 == 1 {
            if past_deadline {
                Some(Some("timeout waiting for required checks for "@ + repo + ": "@ + comma_joined(required.1)))
            } else {
                None
            }
        } else {
            Some(Some("required checks failed for "@ + repo + ": "@ + comma_joined(required.1)))
        },
        CiState::Failed | CiState::Canceled => Some(
            Some("CI is not passing for "@ + repo + " (state: "@ + spec_ci_state_label(state) + ")"@),
        ),
        CiState::Pending | CiState::Running => if required.0 == 2 {
            Some(Some("required checks failed for "@ + repo + ": "@ + comma_joined(required.1)))
        } else if past_deadline {
            Some(Some("timeout waiting for CI for "@ + repo))
        } else {
            None
        },
    }
}

/// The step as `None` (wait), `Some(None)` (done) or `Some(Some(message))`.
pub open spec fn wait_step_view(s: CiWaitStep) -> Option<Option<Seq<char>>> {
    match s {
        CiWaitStep::Done => Some(None),
        CiWaitStep::Wait => None,
        CiWaitStep::Fail(m) => Some(Some(m@)),
    }
}

/// `prefix`, the repository, `: ` and the names joined with `, `.
fn names_message(prefix: &str, repo: &RepoId, names: &Vec<String>) -> (r: String)
    ensures
        r@ == prefix@ + repo@ + ": "@ + comma_joined(views(names@)),
{
    let mut m = string_of(prefix);
    push_str(&mut m, repo.as_str());
    push_str(&mut m, ": ");
    let joined = crate::order::join_strings(names, ", ");
    push_str(&mut m, joined.as_str());
    m
}

/// The next step of waiting for CI on `repo`, from the commit's CI state,
/// how its required checks stand and whether the deadline has passed.
pub fn ci_wait_step(repo: &RepoId, state: CiState, required: &RequiredChecksState, past_deadline: bool) -> (r: CiWaitStep)
    ensures
        wait_step_view(r) == spec_ci_wait_step(repo@, state, state_view(*required), past_deadline),
{
    match state {
        CiState::Success | CiState::Skipped => match required {
            RequiredChecksState::Satisfied => CiWaitStep::Done,
            RequiredChecksState::Pending(names) => {
                if past_deadline {
                    CiWaitStep::Fail(names_message("timeout waiting for required checks for ", repo, names))
                } else {
                    CiWaitStep::Wait
                }
            },
            RequiredChecksState::Failed(names) => CiWaitStep::Fail(
                names_message("required checks failed for ", repo, names),
            ),
        },
        CiState::Failed | CiState::Canceled => {
            let mut m = string_of("CI is not passing for ");
            push_str(&mut m, repo.as_str());
            push_str(&mut m, " (state: ");
            push_str(&mut m, ci_state_label(&state));
            push_str(&mut m, ")");
            CiWaitStep::Fail(m)
        },
        CiState::Pending | CiState::Running => match required {
            RequiredChecksState::Failed(names) => CiWaitStep::Fail(
                names_message("required checks failed for ", repo, names),
            ),
            _ => {
                if past_deadline {
                    CiWaitStep::Fail(concat2("timeout waiting for CI for ", repo.as_str()))
                } else {
                    CiWaitStep::Wait
                }
            },
        },
    }
}

/// A merge request as recorded locally when it was opened.
#[derive(Debug, Clone)]
pub struct StoredMrEntry {
    pub repo: String,
    pub forge_repo: String,
    pub branch: String,
    pub mr_id: String,
    pub iid: u64,
    pub url: String,
    pub source_branch: String,
    pub target_branch: String,
}

/// The local record of opened merge requests.
#[derive(Debug, Default)]
pub struct MrStateStore {
    pub entries: Vec<StoredMrEntry>,
}

/// An entry as plain values.
pub type EntryView = (Seq<char>, Seq<char>, Seq<char>, Seq<char>, u64, Seq<char>, Seq<char>, Seq<char>);

pub open spec fn entry_view(e: StoredMrEntry) -> EntryView {
    (e.repo@, e.forge_repo@, e.branch@, e.mr_id@, e.iid, e.url@, e.source_branch@, e.target_branch@)
}

pub open spec fn entry_views(v: Seq<StoredMrEntry>) -> Seq<EntryView> {
    v.map_values(|e: StoredMrEntry| entry_view(e))
}

/// The entries not for repository `repo` on branch `branch`, in order.
pub open spec fn without_key(v: Seq<EntryView>, repo: Seq<char>, branch: Seq<char>) -> Seq<EntryView>
    decreases v.len(),
{
    if v.len() == 0 {
        Seq::empty()
    } else if v.last().0 == repo && v.last().2 == branch {
        without_key(v.drop_last(), repo, branch)
    } else {
        without_key(v.drop_last(), repo, branch).push(v.last())
    }
}

/// A copy of an entry.
pub fn copy_entry(e: &StoredMrEntry) -> (r: StoredMrEntry)
    ensures
        entry_view(r) == entry_view(*e),
{
    StoredMrEntry {
        repo: string_of(e.repo.as_str()),
        forge_repo: string_of(e.forge_repo.as_str()),
        branch: string_of(e.branch.as_str()),
        mr_id: string_of(e.mr_id.as_str()),
        iid: e.iid,
        url: string_of(e.url.as_str()),
        source_branch: string_of(e.source_branch.as_str()),
        target_branch: string_of(e.target_branch.as_str()),
    }
}

/// Removes the entries for repository `repo` on branch `branch`.
pub fn remove_entries(state: &mut MrStateStore, repo: &str, branch: &str)
    ensures
        entry_views(final(state).entries@) == without_key(entry_views(old(state).entries@), repo@, branch@),
{
    let ghost start = entry_views(state.entries@);
    let mut kept: Vec<StoredMrEntry> = Vec::new();
    let mut i: usize = 0;
    while i < state.entries.len()
        invariant
            start == entry_views(state.entries@),
            i <= state.entries@.len(),
            entry_views(kept@) == without_key(start.take(i as int), repo@, branch@),
        decreases state.entries@.len() - i,
    {
        proof {
            assert(start.take(i + 1).drop_last() =~= start.take(i as int));
            assert(start.take(i + 1).last() == start[i as int]);
        }
        let e = &state.entries[i];
        if !(str_eq(e.repo.as_str(), repo) && str_eq(e.branch.as_str(), branch)) {
            let ghost before = entry_views(kept@);
            kept.push(copy_entry(e));
            proof {
                assert(entry_views(kept@) =~= before.push(start[i as int]));
            }
        }
        i += 1;
    }
    proof {
        assert(start.take(state.entries@.len() as int) =~= start);
    }
    state.entries = kept;
}

/// Records `entry`, replacing any entry for the same repository and branch;
/// the new entry comes last.
pub fn upsert_mr_state_entry(state: &mut MrStateStore, entry: StoredMrEntry)
    ensures
        entry_views(final(state).entries@) == without_key(entry_views(old(state).entries@), entry.repo@, entry.branch@).push(
            entry_view(entry),
        ),
{
    remove_entries(state, entry.repo.as_str(), entry.branch.as_str());
    let ghost before = entry_views(state.entries@);
    let ghost ev = entry_view(entry);
    state.entries.push(entry);
    proof {
        assert(entry_views(state.entries@) =~= before.push(ev));
    }
}

/// No entry of `v` is for repository `repo` on branch `branch`.
pub open spec fn lacks_key(v: Seq<EntryView>, repo: Seq<char>, branch: Seq<char>) -> bool {
    forall|i: int| 0 <= i < v.len() ==> !(#[trigger] v[i].0 == repo && v[i].2 == branch)
}

proof fn lemma_without_key(v: Seq<EntryView>, repo: Seq<char>, branch: Seq<char>)
    ensures
        lacks_key(without_key(v, repo, branch), repo, branch),
        forall|i: int| 0 <= i < without_key(v, repo, branch).len() ==> v.contains(#[trigger] without_key(v, repo, branch)[i]),
    decreases v.len(),
{
    if v.len() > 0 {
        lemma_without_key(v.drop_last(), repo, branch);
        let w = without_key(v.drop_last(), repo, branch);
        assert forall|i: int| 0 <= i < without_key(v, repo, branch).len() implies v.contains(
            #[trigger] without_key(v, repo, branch)[i],
        ) by {
            if i < w.len() {
                let k = choose|k: int| 0 <= k < v.drop_last().len() && v.drop_last()[k] == w[i];
                assert(v[k] == w[i]);
            } else {
                assert(v[v.len() - 1] == v.last());
            }
        }
    }
}

/// After recording an entry, the record holds exactly one entry for its
/// repository and branch, the entry given, last; every other entry was
/// there before.
pub proof fn lemma_upsert_unique(before: Seq<EntryView>, e: EntryView)
    ensures
        ({
            let after = without_key(before, e.0, e.2).push(e);
            &&& after.last() == e
            &&& lacks_key(after.drop_last(), e.0, e.2)
            &&& forall|i: int| 0 <= i < after.len() - 1 ==> before.contains(#[trigger] after[i])
        }),
{
    lemma_without_key(before, e.0, e.2);
    let after = without_key(before, e.0, e.2).push(e);
    assert(after.drop_last() =~= without_key(before, e.0, e.2));
}

/// The entry recorded last for repository `repo` on branch `branch`.
pub open spec fn last_entry_for(v: Seq<EntryView>, repo: Seq<char>, branch: Seq<char>) -> Option<EntryView>
    decreases v.len(),
{
    if v.len() == 0 {
        None
    } else if v.last().0 == repo && v.last().2 == branch {
        Some(v.last())
    } else {
        last_entry_for(v.drop_last(), repo, branch)
    }
}

/// The entry recorded last for repository `repo` on branch `branch`: the
/// one a merge request of that branch is tracked by.
pub fn tracked_entry(state: &MrStateStore, repo: &str, branch: &str) -> (r: Option<StoredMrEntry>)
    ensures
        match r {
            Some(e) => last_entry_for(entry_views(state.entries@), repo@, branch@) == Some(entry_view(e)),
            None => last_entry_for(entry_views(state.entries@), repo@, branch@) is None,
        },
{
    let ghost all = entry_views(state.entries@);
    let mut found: Option<StoredMrEntry> = None;
    let mut i: usize = 0;
    while i < state.entries.len()
        invariant
            all == entry_views(state.entries@),
            i <= state.entries@.len(),
            match found {
                Some(e) => last_entry_for(all.take(i as int), repo@, branch@) == Some(entry_view(e)),
                None => last_entry_for(all.take(i as int), repo@, branch@) is None,
            },
        decreases state.entries@.len() - i,
    {
        proof {
            assert(all.take(i + 1).drop_last() =~= all.take(i as int));
            assert(all.take(i + 1).last() == all[i as int]);
        }
        let e = &state.entries[i];
        if str_eq(e.repo.as_str(), repo) && str_eq(e.branch.as_str(), branch) {
            found = Some(copy_entry(e));
        }
        i += 1;
    }
    proof {
        assert(all.take(state.entries@.len() as int) =~= all);
    }
    found
}

} // verus!
