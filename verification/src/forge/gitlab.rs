//! GitLab: host normalisation, merge request and issue decoding, CI state.
use vstd::prelude::*;
use crate::error::HarmoniaError;
use crate::forge::{CheckRun, CiState, CiStatus, Issue, IssueState, MergeRequest, MrState, Pipeline, project_path, spec_project_path};
use crate::forge::encode::{percent_encode as encode_bytes, spec_percent_encode};
use crate::forge::github::{check_views, first_text, pipeline_views, somes, collect_somes, text_or_empty, users_of, user_views, collect_users, UserFields, spec_parse_u64_text, parse_u64_text};
use crate::numbers::{decimal, format_i64, format_u64, int_decimal};
use crate::order::{seq_lt, views, compare_str, lemma_lt_asym};
use crate::project::repo::RepoId;
use crate::text::{concat2, concat3, starts, starts_with_chars, str_eq, string_of, strip_end_char, strip_end_str, to_chars, trim_spec, trim_str, opt_str_view, opt_string_view};

verus! {

/// The base URL for a configured GitLab host: trimmed, without trailing
/// slashes, with `https://` in front unless a scheme is given.
pub open spec fn spec_normalize_host(host: Seq<char>) -> Seq<char> {
    let t = strip_end_char(trim_spec(host), '/');
    if starts(t, "http://"@) || starts(t, "https://"@) {
        t
    } else {
        "https://"@ + t
    }
}

/// The base URL for a configured GitLab host.
pub fn normalize_host(host: &str) -> (r: String)
    ensures
        r@ == spec_normalize_host(host@),
{
    let trimmed = trim_str(host);
    let t = strip_end_str(trimmed.as_str(), '/');
    let tc = to_chars(t.as_str());
    let a = to_chars("http://");
    let b = to_chars("https://");
    if starts_with_chars(&tc, &a) || starts_with_chars(&tc, &b) {
        t
    } else {
        concat2("https://", t.as_str())
    }
}

/// The URL of an API path under the host.
pub fn api_url(host: &str, path: &str) -> (r: String)
    ensures
        r@ == host@ + "/api/v4"@ + path@,
{
    concat3(host, "/api/v4", path)
}

/// The state of a merge request: draft first, then `merged` and `closed`,
/// anything else open.
pub open spec fn spec_mr_state(state: Option<Seq<char>>, draft: bool) -> MrState {
    if draft {
        MrState::Draft
    } else if state == Some("merged"@) {
        MrState::Merged
    } else if state == Some("closed"@) {
        MrState::Closed
    } else {
        MrState::Open
    }
}

/// The state of a merge request.
pub fn parse_mr_state(state: Option<&str>, draft: bool) -> (r: MrState)
    ensures
        r == spec_mr_state(opt_str_view(state), draft),
{
    if draft {
        return MrState::Draft;
    }
    match state {
        Some(s) => if str_eq(s, "merged") {
            MrState::Merged
        } else if str_eq(s, "closed") {
            MrState::Closed
        } else {
            MrState::Open
        },
        None => MrState::Open,
    }
}

/// A project path, percent-encoded for a route.
pub fn encode_project_path(path: &str) -> (r: String)
    ensures
        r@ == spec_percent_encode(path@),
{
    percent_encode(path)
}

/// The UTF-8 bytes of a value, percent-encoded.
pub fn percent_encode(value: &str) -> (r: String)
    ensures
        r@ == spec_percent_encode(value@),
{
    encode_bytes(value)
}

/// The project path on GitLab for a repository of the workspace.
pub fn project_path_for_repo(default_group: Option<&str>, repo: &RepoId) -> (r: String)
    ensures
        r@ == spec_project_path(opt_str_view(default_group), repo@),
{
    project_path(default_group, repo.as_str())
}

/// The internal number of a merge request from its identifier text.
pub fn parse_mr_iid(mr_id: &str) -> (r: Result<u64, HarmoniaError>)
    ensures
        match r {
            Ok(v) => spec_parse_u64_text(mr_id@) == Some(v as nat),
            Err(HarmoniaError::Other(m)) => spec_parse_u64_text(mr_id@) is None && m@ == "mr id '"@ + mr_id@
                + "' is not a valid GitLab IID"@,
            Err(_) => false,
        },
{
    match parse_u64_text(mr_id) {
        Some(v) => Ok(v),
        None => Err(HarmoniaError::Other(concat3("mr id '", mr_id, "' is not a valid GitLab IID"))),
    }
}

/// Some pipeline has a status among `options`.
pub open spec fn any_pipeline(ps: Seq<Pipeline>, options: Seq<Seq<char>>) -> bool {
    exists|k: int| 0 <= k < ps.len() && options.contains(#[trigger] ps[k].status@)
}

pub open spec fn waiting_statuses() -> Seq<Seq<char>> {
    seq!["pending"@, "created"@, "preparing"@, "waiting_for_resource"@, "scheduled"@, "manual"@]
}

/// The overall CI state of a commit's pipelines: none is pending; any
/// running wins, then waiting ones (pending), failed, canceled; all skipped
/// is skipped; otherwise success.
pub open spec fn spec_aggregate_ci_state(ps: Seq<Pipeline>) -> CiState {
    if ps.len() == 0 {
        CiState::Pending
    } else if any_pipeline(ps, seq!["running"@]) {
        CiState::Running
    } else if any_pipeline(ps, waiting_statuses()) {
        CiState::Pending
    } else if any_pipeline(ps, seq!["failed"@]) {
        CiState::Failed
    } else if any_pipeline(ps, seq!["canceled"@]) {
        CiState::Canceled
    } else if forall|k: int| 0 <= k < ps.len() ==> #[trigger] ps[k].status@ == "skipped"@ {
        CiState::Skipped
    } else {
        CiState::Success
    }
}

fn is_waiting(s: &str) -> (r: bool)
    ensures
        r == waiting_statuses().contains(s@),
{
    let r = str_eq(s, "pending") || str_eq(s, "created") || str_eq(s, "preparing") || str_eq(s, "waiting_for_resource")
        || str_eq(s, "scheduled") || str_eq(s, "manual");
    proof {
        let o = waiting_statuses();
        assert(o[0] == "pending"@ && o[1] == "created"@ && o[2] == "preparing"@ && o[3] == "waiting_for_resource"@
            && o[4] == "scheduled"@ && o[5] == "manual"@);
    }
    r
}

fn any_with(ps: &[Pipeline], class: u8) -> (r: bool)
    requires
        class < 4,
    ensures
        class == 0 ==> r == any_pipeline(ps@, seq!["running"@]),
        class == 1 ==> r == any_pipeline(ps@, waiting_statuses()),
        class == 2 ==> r == any_pipeline(ps@, seq!["failed"@]),
        class == 3 ==> r == any_pipeline(ps@, seq!["canceled"@]),
{
    let ghost opts = if class == 0 {
        seq!["running"@]
    } else if class == 1 {
        waiting_statuses()
    } else if class == 2 {
        seq!["failed"@]
    } else {
        seq!["canceled"@]
    };
    let mut k: usize = 0;
    while k < ps.len()
        invariant
            class < 4,
            opts == (if class == 0 {
                seq!["running"@]
            } else if class == 1 {
                waiting_statuses()
            } else if class == 2 {
                seq!["failed"@]
            } else {
                seq!["canceled"@]
            }),
            k <= ps@.len(),
            forall|j: int| 0 <= j < k ==> !opts.contains(#[trigger] ps@[j].status@),
        decreases ps@.len() - k,
    {
        let s = ps[k].status.as_str();
        let hit = if class == 0 {
            str_eq(s, "running")
        } else if class == 1 {
            is_waiting(s)
        } else if class == 2 {
            str_eq(s, "failed")
        } else {
            str_eq(s, "canceled")
        };
        proof {
            if class != 1 {
                assert(opts.len() == 1);
                assert(opts.contains(s@) == (s@ == opts[0]));
            }
        }
        if hit {
            return true;
        }
        k += 1;
    }
    false
}

/// The overall CI state of a commit's pipelines.
pub fn aggregate_ci_state(pipelines: &[Pipeline]) -> (r: CiState)
    ensures
        r == spec_aggregate_ci_state(pipelines@),
{
    if pipelines.len() == 0 {
        return CiState::Pending;
    }
    if any_with(pipelines, 0) {
        return CiState::Running;
    }
    if any_with(pipelines, 1) {
        return CiState::Pending;
    }
    if any_with(pipelines, 2) {
        return CiState::Failed;
    }
    if any_with(pipelines, 3) {
        return CiState::Canceled;
    }
    let mut all_skipped = true;
    let mut k: usize = 0;
    while k < pipelines.len()
        invariant
            k <= pipelines@.len(),
            all_skipped == forall|j: int| 0 <= j < k ==> #[trigger] pipelines@[j].status@ == "skipped"@,
        decreases pipelines@.len() - k,
    {
        if !str_eq(pipelines[k].status.as_str(), "skipped") {
            all_skipped = false;
        }
        k += 1;
    }
    if all_skipped {
        CiState::Skipped
    } else {
        CiState::Success
    }
}

/// A merge request as GitLab reports it; `id_signed` is the `id` when it is
/// only readable as a signed number.
#[derive(Debug, Clone)]
pub struct MergeRequestFields {
    pub iid: Option<u64>,
    pub id_signed: Option<i64>,
    pub title: Option<String>,
    pub description: Option<String>,
    pub source_branch: Option<String>,
    pub target_branch: Option<String>,
    pub web_url: Option<String>,
    pub url: Option<String>,
    pub draft: Option<bool>,
    pub state: Option<String>,
    pub labels: Option<Vec<Option<String>>>,
    pub reviewers: Option<Vec<UserFields>>,
}

/// Why a reported merge request cannot be read, checked in this order.
pub open spec fn mr_error(f: MergeRequestFields) -> Option<Seq<char>> {
    if f.iid is None && f.id_signed is None {
        Some("gitlab MR response missing id"@)
    } else if f.iid is None {
        Some("gitlab MR response missing iid"@)
    } else if f.title is None {
        Some("gitlab response missing 'title'"@)
    } else if f.source_branch is None {
        Some("gitlab response missing 'source_branch'"@)
    } else if f.target_branch is None {
        Some("gitlab response missing 'target_branch'"@)
    } else {
        None
    }
}

/// Reads a merge request: its identifier is its internal number (else its
/// id); title and both branches are required; the rest defaults to empty.
pub fn parse_merge_request(f: &MergeRequestFields) -> (r: Result<MergeRequest, HarmoniaError>)
    ensures
        match r {
            Ok(mr) => {
                &&& mr_error(*f) is None
                &&& mr.id@ == decimal(f.iid->0 as nat)
                &&& mr.iid == f.iid->0
                &&& mr.title@ == f.title->0@
                &&& mr.description@ == text_or_empty(f.description)
                &&& mr.source_branch@ == f.source_branch->0@
                &&& mr.target_branch@ == f.target_branch->0@
                &&& mr.url@ == first_text(f.web_url, f.url)
                &&& mr.state == spec_mr_state(opt_string_view(f.state), f.draft == Some(true))
                &&& mr.ci_status is None
                &&& views(mr.labels@) == (match f.labels {
                    Some(ls) => somes(ls@),
                    None => Seq::empty(),
                })
                &&& user_views(mr.approvals@) == (match f.reviewers {
                    Some(us) => users_of(us@),
                    None => Seq::empty(),
                })
            },
            Err(HarmoniaError::Other(m)) => mr_error(*f) == Some(m@),
            Err(_) => false,
        },
{
    if f.iid.is_none() && f.id_signed.is_none() {
        return Err(HarmoniaError::Other(string_of("gitlab MR response missing id")));
    }
    let iid = match f.iid {
        Some(v) => v,
        None => {
            return Err(HarmoniaError::Other(string_of("gitlab MR response missing iid")));
        },
    };
    let title = match &f.title {
        Some(t) => t.clone(),
        None => {
            return Err(HarmoniaError::Other(string_of("gitlab response missing 'title'")));
        },
    };
    let source_branch = match &f.source_branch {
        Some(t) => t.clone(),
        None => {
            return Err(HarmoniaError::Other(string_of("gitlab response missing 'source_branch'")));
        },
    };
    let target_branch = match &f.target_branch {
        Some(t) => t.clone(),
        None => {
            return Err(HarmoniaError::Other(string_of("gitlab response missing 'target_branch'")));
        },
    };
    let description = match &f.description {
        Some(s) => s.clone(),
        None => String::new(),
    };
    let url = match &f.web_url {
        Some(s) => s.clone(),
        None => match &f.url {
            Some(s) => s.clone(),
            None => String::new(),
        },
    };
    let draft = match f.draft {
        Some(d) => d,
        None => false,
    };
    let state = match &f.state {
        Some(s) => parse_mr_state(Some(s.as_str()), draft),
        None => parse_mr_state(None, draft),
    };
    let labels = match &f.labels {
        Some(ls) => collect_somes(ls),
        None => Vec::new(),
    };
    let approvals = match &f.reviewers {
        Some(us) => collect_users(us),
        None => Vec::new(),
    };
    proof {
        if f.labels is None {
            assert(views(labels@) =~= Seq::<Seq<char>>::empty());
        }
        if f.reviewers is None {
            assert(user_views(approvals@) =~= Seq::<(Option<u64>, Seq<char>)>::empty());
        }
    }
    Ok(
        MergeRequest {
            id: format_u64(iid),
            iid,
            title,
            description,
            source_branch,
            target_branch,
            state,
            url,
            ci_status: None,
            approvals,
            labels,
        },
    )
}

/// An issue as GitLab reports it.
#[derive(Debug, Clone)]
pub struct IssueFields {
    pub iid: Option<u64>,
    pub id_signed: Option<i64>,
    pub title: Option<String>,
    pub web_url: Option<String>,
    pub state: Option<String>,
}

/// Why a reported issue cannot be read, checked in this order.
pub open spec fn issue_error(f: IssueFields) -> Option<Seq<char>> {
    if f.iid is None && f.id_signed is None {
        Some("gitlab issue response missing id"@)
    } else if f.iid is None {
        Some("gitlab issue response missing iid"@)
    } else if f.title is None {
        Some("gitlab response missing 'title'"@)
    } else {
        None
    }
}

/// Reads an issue: identifier from its internal number, title required,
/// closed only when reported `closed`.
pub fn parse_issue(f: &IssueFields) -> (r: Result<Issue, HarmoniaError>)
    ensures
        match r {
            Ok(is) => {
                &&& issue_error(*f) is None
                &&& is.id@ == decimal(f.iid->0 as nat)
                &&& is.iid == f.iid->0
                &&& is.title@ == f.title->0@
                &&& is.url@ == text_or_empty(f.web_url)
                &&& (is.state == IssueState::Closed <==> opt_string_view(f.state) == Some("closed"@))
            },
            Err(HarmoniaError::Other(m)) => issue_error(*f) == Some(m@),
            Err(_) => false,
        },
{
    if f.iid.is_none() && f.id_signed.is_none() {
        return Err(HarmoniaError::Other(string_of("gitlab issue response missing id")));
    }
    let iid = match f.iid {
        Some(v) => v,
        None => {
            return Err(HarmoniaError::Other(string_of("gitlab issue response missing iid")));
        },
    };
    let title = match &f.title {
        Some(t) => t.clone(),
        None => {
            return Err(HarmoniaError::Other(string_of("gitlab response missing 'title'")));
        },
    };
    let url = match &f.web_url {
        Some(s) => s.clone(),
        None => String::new(),
    };
    let state = match &f.state {
        Some(s) => if str_eq(s.as_str(), "closed") {
            IssueState::Closed
        } else {
            IssueState::Open
        },
        None => IssueState::Open,
    };
    Ok(Issue { id: format_u64(iid), iid, title, url, state })
}

/// A pipeline as GitLab reports it.
#[derive(Debug, Clone)]
pub struct PipelineFields {
    pub id: Option<u64>,
    pub id_signed: Option<i64>,
    pub status: Option<String>,
}

/// A pipeline's identifier text (empty when absent) and status (`unknown`
/// when absent).
pub open spec fn spec_pipeline(f: PipelineFields) -> (Seq<char>, Seq<char>) {
    (
        match f.id {
            Some(v) => decimal(v as nat),
            None => match f.id_signed {
                Some(v) => int_decimal(v as int),
                None => Seq::empty(),
            },
        },
        match f.status {
            Some(s) => s@,
            None => "unknown"@,
        },
    )
}

/// The pipelines of a commit, in the order reported.
pub fn pipelines_from_fields(fs: &Vec<PipelineFields>) -> (r: Vec<Pipeline>)
    ensures
        pipeline_views(r@) == fs@.map_values(|f: PipelineFields| spec_pipeline(f)),
{
    let mut out: Vec<Pipeline> = Vec::new();
    let mut i: usize = 0;
    while i < fs.len()
        invariant
            i <= fs@.len(),
            pipeline_views(out@) =~= fs@.take(i as int).map_values(|f: PipelineFields| spec_pipeline(f)),
        decreases fs@.len() - i,
    {
        let f = &fs[i];
        let id = match f.id {
            Some(v) => format_u64(v),
            None => match f.id_signed {
                Some(v) => format_i64(v),
                None => String::new(),
            },
        };
        let status = match &f.status {
            Some(s) => s.clone(),
            None => string_of("unknown"),
        };
        let ghost before = pipeline_views(out@);
        let p = Pipeline { id, status };
        let ghost pv = (p.id@, p.status@);
        out.push(p);
        proof {
            assert(pv == spec_pipeline(fs@[i as int]));
            assert(pipeline_views(out@) =~= before.push(pv));
            assert(fs@.take(i + 1).map_values(|f: PipelineFields| spec_pipeline(f)) =~= fs@.take(
                i as int,
            ).map_values(|f: PipelineFields| spec_pipeline(f)).push(pv));
        }
        i += 1;
    }
    proof {
        assert(fs@.take(fs@.len() as int) =~= fs@);
    }
    out
}

/// A pipeline's number: its unsigned id, else its signed id reinterpreted.
pub fn pipeline_id_from_value(f: &PipelineFields) -> (r: Option<u64>)
    ensures
        r == (match f.id {
            Some(v) => Some(v),
            None => match f.id_signed {
                Some(v) => Some(v as u64),
                None => None,
            },
        }),
{
    match f.id {
        Some(v) => Some(v),
        None => match f.id_signed {
            Some(v) => Some(v as u64),
            None => None,
        },
    }
}

/// A job as GitLab reports it.
#[derive(Debug, Clone)]
pub struct JobFields {
    pub name: Option<String>,
    pub status: Option<String>,
}

/// The named jobs as checks, status `unknown` when absent.
pub open spec fn named_jobs(js: Seq<JobFields>) -> Seq<(Seq<char>, Seq<char>)>
    decreases js.len(),
{
    if js.len() == 0 {
        Seq::empty()
    } else {
        let rest = named_jobs(js.drop_last());
        let j = js.last();
        match j.name {
            Some(n) => rest.push(
                (
                    n@,
                    match j.status {
                        Some(s) => s@,
                        None => "unknown"@,
                    },
                ),
            ),
            None => rest,
        }
    }
}

/// The position at which a check goes in a list sorted by name: after every
/// check whose name does not sort after its own.
pub open spec fn check_slot(s: Seq<(Seq<char>, Seq<char>)>, x: (Seq<char>, Seq<char>)) -> int
    decreases s.len(),
{
    if s.len() == 0 {
        0
    } else if seq_lt(x.0, s[0].0) {
        0
    } else {
        1 + check_slot(s.drop_first(), x)
    }
}

/// Checks sorted stably by name.
pub open spec fn sort_checks(s: Seq<(Seq<char>, Seq<char>)>) -> Seq<(Seq<char>, Seq<char>)>
    decreases s.len(),
{
    if s.len() == 0 {
        Seq::empty()
    } else {
        let sorted = sort_checks(s.drop_last());
        let p = check_slot(sorted, s.last());
        sorted.take(p).push(s.last()) + sorted.skip(p)
    }
}

/// Without each check equal to the one before it.
pub open spec fn dedup_checks(s: Seq<(Seq<char>, Seq<char>)>) -> Seq<(Seq<char>, Seq<char>)>
    decreases s.len(),
{
    if s.len() <= 1 {
        s
    } else if s.last() == s[s.len() - 2] {
        dedup_checks(s.drop_last())
    } else {
        dedup_checks(s.drop_last()).push(s.last())
    }
}

proof fn lemma_check_slot_at(s: Seq<(Seq<char>, Seq<char>)>, x: (Seq<char>, Seq<char>), i: int)
    requires
        0 <= i <= s.len(),
        forall|k: int| 0 <= k < i ==> !seq_lt(x.0, #[trigger] s[k].0),
        i == s.len() || seq_lt(x.0, s[i].0),
    ensures
        check_slot(s, x) == i,
    decreases i,
{
    if i > 0 {
        assert(!seq_lt(x.0, s[0].0));
        let t = s.drop_first();
        assert forall|k: int| 0 <= k < i - 1 implies !seq_lt(x.0, #[trigger] t[k].0) by {
            assert(t[k] == s[k + 1]);
        }
        if i < s.len() {
            assert(t[i - 1] == s[i]);
        }
        lemma_check_slot_at(t, x, i - 1);
    }
}

/// The checks of a pipeline's jobs: named jobs only, sorted by name, without
/// repeats of the same name and status next to each other.
pub fn job_checks(jobs: &Vec<JobFields>) -> (r: Vec<CheckRun>)
    ensures
        check_views(r@) == dedup_checks(sort_checks(named_jobs(jobs@))),
{
    let mut sorted: Vec<CheckRun> = Vec::new();
    let mut i: usize = 0;
    while i < jobs.len()
        invariant
            i <= jobs@.len(),
            check_views(sorted@) == sort_checks(named_jobs(jobs@.take(i as int))),
        decreases jobs@.len() - i,
    {
        let j = &jobs[i];
        proof {
            assert(jobs@.take(i + 1).drop_last() =~= jobs@.take(i as int));
            assert(jobs@.take(i + 1).last() == jobs@[i as int]);
        }
        match &j.name {
            Some(n) => {
                let status = match &j.status {
                    Some(s) => s.clone(),
                    None => string_of("unknown"),
                };
                let run = CheckRun { name: n.clone(), status };
                let ghost x = (run.name@, run.status@);
                let ghost sv = check_views(sorted@);
                let mut p: usize = 0;
                while p < sorted.len() && compare_str(sorted[p].name.as_str(), run.name.as_str()) <= 0
                    invariant
                        sv == check_views(sorted@),
                        x == (run.name@, run.status@),
                        p <= sorted@.len(),
                        forall|k: int| 0 <= k < p ==> !seq_lt(x.0, #[trigger] sv[k].0),
                    decreases sorted@.len() - p,
                {
                    proof {
                        assert(sv[p as int].0 == sorted@[p as int].name@);
                        if seq_lt(x.0, sv[p as int].0) {
                            lemma_lt_asym(x.0, sv[p as int].0);
                        }
                    }
                    p += 1;
                }
                proof {
                    if p < sorted@.len() {
                        assert(sv[p as int].0 == sorted@[p as int].name@);
                    }
                    lemma_check_slot_at(sv, x, p as int);
                }
                sorted.insert(p, run);
                proof {
                    assert(check_views(sorted@) =~= sv.take(p as int).push(x) + sv.skip(p as int));
                    let prev = named_jobs(jobs@.take(i as int));
                    assert(named_jobs(jobs@.take(i + 1)) == prev.push(x));
                    assert(prev.push(x).drop_last() =~= prev);
                    assert(prev.push(x).last() == x);
                }
            },
            None => {
                proof {
                    assert(named_jobs(jobs@.take(i + 1)) == named_jobs(jobs@.take(i as int)));
                }
            },
        }
        i += 1;
    }
    proof {
        assert(jobs@.take(jobs@.len() as int) =~= jobs@);
    }
    let ghost s = check_views(sorted@);
    let mut out: Vec<CheckRun> = Vec::new();
    let mut k: usize = 0;
    while k < sorted.len()
        invariant
            s == check_views(sorted@),
            k <= s.len(),
            check_views(out@) == dedup_checks(s.take(k as int)),
        decreases s.len() - k,
    {
        proof {
            assert(s.take(k + 1).drop_last() =~= s.take(k as int));
            assert(s.take(k + 1).last() == s[k as int]);
        }
        let same = k > 0 && str_eq(sorted[k].name.as_str(), sorted[k - 1].name.as_str()) && str_eq(
            sorted[k].status.as_str(),
            sorted[k - 1].status.as_str(),
        );
        proof {
            if k > 0 {
                assert(s.take(k + 1)[k - 1] == s[k - 1]);
            }
        }
        if !same {
            let ghost before = check_views(out@);
            let c = CheckRun { name: sorted[k].name.clone(), status: sorted[k].status.clone() };
            let ghost cv = (c.name@, c.status@);
            out.push(c);
            proof {
                assert(check_views(out@) =~= before.push(cv));
            }
        }
        k += 1;
    }
    proof {
        assert(s.take(s.len() as int) =~= s);
    }
    out
}

/// The CI status of a commit from its pipelines (newest first) and the jobs
/// of the newest one.
pub fn ci_status_from_pipelines(pipelines: &Vec<PipelineFields>, newest_jobs: &Vec<JobFields>) -> (r: CiStatus)
    ensures
        pipeline_views(r.pipelines@) == pipelines@.map_values(|f: PipelineFields| spec_pipeline(f)),
        check_views(r.checks@) == dedup_checks(sort_checks(named_jobs(newest_jobs@))),
        r.state == spec_aggregate_ci_state(r.pipelines@),
{
    let ps = pipelines_from_fields(pipelines);
    let checks = job_checks(newest_jobs);
    let state = aggregate_ci_state(ps.as_slice());
    CiStatus { state, pipelines: ps, checks }
}

/// The title a merge request is opened with: `Draft: ` put in front of a
/// draft's title unless it already starts with `draft:` (in any ASCII case).
pub open spec fn spec_mr_title(title: Seq<char>, draft: bool) -> Seq<char> {
    if draft && !crate::text::starts(crate::project::version::ascii_lower(title), "draft:"@) {
        "Draft: "@ + title
    } else {
        title
    }
}

/// The title a merge request is opened with.
pub fn mr_title(title: &str, draft: bool) -> (r: String)
    ensures
        r@ == spec_mr_title(title@, draft),
{
    if draft {
        let lowered = crate::project::version::to_ascii_lower(title);
        let prefix = crate::text::to_chars("draft:");
        if !crate::text::starts_with_chars(&lowered, &prefix) {
            return crate::text::concat2("Draft: ", title);
        }
    }
    string_of(title)
}

} // verus!
