//! GitHub: host normalisation, pull request and issue decoding, CI state.
use vstd::prelude::*;
use crate::error::HarmoniaError;
use crate::forge::{CheckRun, CiState, CiStatus, Issue, IssueState, MergeRequest, MrState, Pipeline, User, project_path, spec_project_path};
use crate::forge::encode::{percent_encode, spec_percent_encode};
use crate::numbers::{decimal, format_u64, spec_parse_unsigned, parse_u64};
use crate::order::views;
use crate::project::repo::RepoId;
use crate::text::{concat2, concat3, ends, ends_with_chars, find_chars, find_sub, from_chars, push_char, push_str,
    starts, starts_with_chars, str_eq, string_of, strip_end_char, strip_end_str, strip_start_char, strip_start_str,
    to_chars, trim_spec, trim_str, opt_str_view, opt_string_view};

verus! {

/// The API base URL for a configured GitHub host.
pub open spec fn spec_normalize_host(host: Seq<char>) -> Seq<char> {
    let t = strip_end_char(trim_spec(host), '/');
    if t.len() == 0 || t == "github.com"@ || t == "api.github.com"@ {
        "https://api.github.com"@
    } else if starts(t, "http://"@) || starts(t, "https://"@) {
        if ends(t, "/api/v3"@) || ends(t, "/api"@) || starts(t, "https://api."@) || starts(t, "http://api."@) {
            t
        } else {
            t + "/api/v3"@
        }
    } else if starts(t, "api."@) {
        "https://"@ + t
    } else {
        "https://"@ + t + "/api/v3"@
    }
}

/// Whether `t` begins with the literal `lit`.
fn lit_starts(t: &Vec<char>, lit: &str) -> (r: bool)
    ensures
        r == starts(t@, lit@),
{
    let p = to_chars(lit);
    starts_with_chars(t, &p)
}

/// Whether `t` ends with the literal `lit`.
fn lit_ends(t: &Vec<char>, lit: &str) -> (r: bool)
    ensures
        r == ends(t@, lit@),
{
    let p = to_chars(lit);
    ends_with_chars(t, &p)
}

/// The API base URL for a configured GitHub host.
pub fn normalize_host(host: &str) -> (r: String)
    ensures
        r@ == spec_normalize_host(host@),
{
    let trimmed = trim_str(host);
    let t = strip_end_str(trimmed.as_str(), '/');
    if t.unicode_len() == 0 || str_eq(t.as_str(), "github.com") || str_eq(t.as_str(), "api.github.com") {
        return string_of("https://api.github.com");
    }
    let tc = to_chars(t.as_str());
    if lit_starts(&tc, "http://") || lit_starts(&tc, "https://") {
        if lit_ends(&tc, "/api/v3") || lit_ends(&tc, "/api") || lit_starts(&tc, "https://api.") || lit_starts(
            &tc,
            "http://api.",
        ) {
            return t;
        }
        return concat2(t.as_str(), "/api/v3");
    }
    if lit_starts(&tc, "api.") {
        return concat2("https://", t.as_str());
    }
    concat3("https://", t.as_str(), "/api/v3")
}

/// The URL of an API path under the host.
pub fn api_url(host: &str, path: &str) -> (r: String)
    ensures
        r@ == host@ + "/"@ + strip_start_char(path@, '/'),
{
    let p = strip_start_str(path, '/');
    concat3(host, "/", p.as_str())
}

/// The state of a pull request: draft first, then `closed` and `merged`,
/// anything else open.
pub open spec fn spec_pr_state(state: Option<Seq<char>>, draft: bool) -> MrState {
    if draft {
        MrState::Draft
    } else if state == Some("closed"@) {
        MrState::Closed
    } else if state == Some("merged"@) {
        MrState::Merged
    } else {
        MrState::Open
    }
}

/// The state of a pull request.
pub fn parse_pr_state(state: Option<&str>, draft: bool) -> (r: MrState)
    ensures
        r == spec_pr_state(opt_str_view(state), draft),
{
    if draft {
        return MrState::Draft;
    }
    match state {
        Some(s) => if str_eq(s, "closed") {
            MrState::Closed
        } else if str_eq(s, "merged") {
            MrState::Merged
        } else {
            MrState::Open
        },
        None => MrState::Open,
    }
}

/// A repository path, percent-encoded for a route.
pub fn encode_repo_path(path: &str) -> (r: String)
    ensures
        r@ == spec_percent_encode(path@),
{
    encode_path(path)
}

/// A git reference, percent-encoded for a route.
pub fn encode_ref(reference: &str) -> (r: String)
    ensures
        r@ == spec_percent_encode(reference@),
{
    encode_path(reference)
}

/// A value, percent-encoded for a route.
pub fn encode_path(value: &str) -> (r: String)
    ensures
        r@ == spec_percent_encode(value@),
{
    percent_encode(value)
}

/// The repository path on GitHub for a repository of the workspace.
pub fn repo_path_for_repo(default_group: Option<&str>, repo: &RepoId) -> (r: String)
    ensures
        r@ == spec_project_path(opt_str_view(default_group), repo@),
{
    project_path(default_group, repo.as_str())
}

/// The repository path on GitHub; an error when it is empty.
pub fn parse_project_group(default_group: Option<&str>, repo: &RepoId) -> (r: Result<String, HarmoniaError>)
    ensures
        match r {
            Ok(p) => p@ == spec_project_path(opt_str_view(default_group), repo@) && p@.len() > 0,
            Err(HarmoniaError::Other(m)) => spec_project_path(opt_str_view(default_group), repo@).len() == 0
                && m@ == "github repository path is required"@,
            Err(_) => false,
        },
{
    let project = repo_path_for_repo(default_group, repo);
    if project.unicode_len() == 0 {
        return Err(HarmoniaError::Other(string_of("github repository path is required")));
    }
    Ok(project)
}

/// What `u64::from_str` accepts: an optional `+`, then decimal digits whose
/// value fits.
pub open spec fn spec_parse_u64_text(s: Seq<char>) -> Option<nat> {
    match spec_parse_unsigned(s) {
        Some(v) => if v <= u64::MAX {
            Some(v)
        } else {
            None
        },
        None => None,
    }
}

/// Parses an unsigned 64-bit number as `u64::from_str` does.
pub fn parse_u64_text(s: &str) -> (r: Option<u64>)
    ensures
        match r {
            Some(v) => spec_parse_u64_text(s@) == Some(v as nat),
            None => spec_parse_u64_text(s@) is None,
        },
{
    let cs = to_chars(s);
    parse_u64(&cs)
}

/// The number of a pull request from its identifier text.
pub fn parse_pull_request_iid(mr_id: &str) -> (r: Result<u64, HarmoniaError>)
    ensures
        match r {
            Ok(v) => spec_parse_u64_text(mr_id@) == Some(v as nat),
            Err(HarmoniaError::Other(m)) => spec_parse_u64_text(mr_id@) is None && m@
                == "github pull request id must be a numeric IID"@,
            Err(_) => false,
        },
{
    match parse_u64_text(mr_id) {
        Some(v) => Ok(v),
        None => Err(HarmoniaError::Other(string_of("github pull request id must be a numeric IID"))),
    }
}

/// The marker that heads the list of related pull requests in a description.
pub open spec fn related_marker() -> Seq<char> {
    "<!-- harmonia-related-prs -->"@
}

/// A description with a link to a related pull request appended under the
/// marker; `None` when the description already holds the link.
pub open spec fn spec_with_related_link(description: Seq<char>, url: Seq<char>) -> Option<Seq<char>> {
    if find_sub(description, url) is Some {
        None
    } else if description.len() == 0 {
        Some(related_marker() + "\n- "@ + url)
    } else {
        let d = (if description.last() == '\n' {
            description
        } else {
            description.push('\n')
        }).push('\n');
        if find_sub(d, related_marker()) is Some {
            Some(d + "- "@ + url)
        } else {
            Some(d + related_marker() + "\n"@ + "- "@ + url)
        }
    }
}

/// A description with a link to a related pull request appended.
pub fn with_related_link(description: &str, related_url: &str) -> (r: Option<String>)
    ensures
        opt_string_view(r) == spec_with_related_link(description@, related_url@),
{
    let marker = "<!-- harmonia-related-prs -->";
    let dc = to_chars(description);
    let uc = to_chars(related_url);
    if find_chars(&dc, &uc).is_some() {
        return None;
    }
    if dc.len() == 0 {
        let head = concat2(marker, "\n- ");
        return Some(concat2(head.as_str(), related_url));
    }
    let mut d = string_of(description);
    if dc[dc.len() - 1] != '\n' {
        push_char(&mut d, '\n');
    }
    push_char(&mut d, '\n');
    let d2 = to_chars(d.as_str());
    let mc = to_chars(marker);
    if find_chars(&d2, &mc).is_some() {
        push_str(&mut d, "- ");
        push_str(&mut d, related_url);
    } else {
        push_str(&mut d, marker);
        push_char(&mut d, '\n');
        push_str(&mut d, "- ");
        push_str(&mut d, related_url);
        proof {
            assert(d@ =~= d2@ + related_marker() + "\n"@ + "- "@ + related_url@) by {
                reveal_strlit("\n");
            }
        }
    }
    Some(d)
}

/// Whether `s` is one of the given literals.
pub open spec fn one_of(s: Seq<char>, options: Seq<Seq<char>>) -> bool {
    options.contains(s)
}

/// Some check has a status among `options`.
pub open spec fn any_status(checks: Seq<CheckRun>, options: Seq<Seq<char>>) -> bool {
    exists|k: int| 0 <= k < checks.len() && one_of(#[trigger] checks[k].status@, options)
}

pub open spec fn failed_statuses() -> Seq<Seq<char>> {
    seq!["failure"@, "error"@, "timed_out"@, "startup_failure"@]
}

pub open spec fn canceled_statuses() -> Seq<Seq<char>> {
    seq!["canceled"@, "cancelled"@]
}

pub open spec fn running_statuses() -> Seq<Seq<char>> {
    seq!["in_progress"@, "running"@]
}

pub open spec fn pending_statuses() -> Seq<Seq<char>> {
    seq!["pending"@, "queued"@, "waiting"@]
}

/// The overall CI state from the checks of a commit and the state GitHub
/// reports for it: any failed check wins, then canceled, running, pending;
/// all checks skipped (also when there are none) is skipped; otherwise the
/// reported state decides, pending when it is unknown.
pub open spec fn spec_ci_state_from_checks(checks: Seq<CheckRun>, overall: Option<Seq<char>>) -> CiState {
    if any_status(checks, failed_statuses()) {
        CiState::Failed
    } else if any_status(checks, canceled_statuses()) {
        CiState::Canceled
    } else if any_status(checks, running_statuses()) {
        CiState::Running
    } else if any_status(checks, pending_statuses()) {
        CiState::Pending
    } else if forall|k: int| 0 <= k < checks.len() ==> #[trigger] checks[k].status@ == "skipped"@ {
        CiState::Skipped
    } else {
        match overall {
            Some(o) => if o == "success"@ {
                CiState::Success
            } else if one_of(o, pending_statuses()) || o == "in_progress"@ {
                CiState::Pending
            } else if one_of(o, failed_statuses()) {
                CiState::Failed
            } else if o == "cancelled"@ {
                CiState::Canceled
            } else {
                CiState::Pending
            },
            None => CiState::Pending,
        }
    }
}

fn in_failed(s: &str) -> (r: bool)
    ensures
        r == one_of(s@, failed_statuses()),
{
    let r = str_eq(s, "failure") || str_eq(s, "error") || str_eq(s, "timed_out") || str_eq(s, "startup_failure");
    proof {
        let o = failed_statuses();
        assert(o[0] == "failure"@ && o[1] == "error"@ && o[2] == "timed_out"@ && o[3] == "startup_failure"@);
    }
    r
}

fn in_canceled(s: &str) -> (r: bool)
    ensures
        r == one_of(s@, canceled_statuses()),
{
    let r = str_eq(s, "canceled") || str_eq(s, "cancelled");
    proof {
        let o = canceled_statuses();
        assert(o[0] == "canceled"@ && o[1] == "cancelled"@);
    }
    r
}

fn in_running(s: &str) -> (r: bool)
    ensures
        r == one_of(s@, running_statuses()),
{
    let r = str_eq(s, "in_progress") || str_eq(s, "running");
    proof {
        let o = running_statuses();
        assert(o[0] == "in_progress"@ && o[1] == "running"@);
    }
    r
}

fn in_pending(s: &str) -> (r: bool)
    ensures
        r == one_of(s@, pending_statuses()),
{
    let r = str_eq(s, "pending") || str_eq(s, "queued") || str_eq(s, "waiting");
    proof {
        let o = pending_statuses();
        assert(o[0] == "pending"@ && o[1] == "queued"@ && o[2] == "waiting"@);
    }
    r
}

/// Whether some check's status satisfies the given class.
fn any_check(checks: &[CheckRun], class: u8) -> (r: bool)
    requires
        class < 4,
    ensures
        class == 0 ==> r == any_status(checks@, failed_statuses()),
        class == 1 ==> r == any_status(checks@, canceled_statuses()),
        class == 2 ==> r == any_status(checks@, running_statuses()),
        class == 3 ==> r == any_status(checks@, pending_statuses()),
{
    let ghost opts = if class == 0 {
        failed_statuses()
    } else if class == 1 {
        canceled_statuses()
    } else if class == 2 {
        running_statuses()
    } else {
        pending_statuses()
    };
    let mut k: usize = 0;
    while k < checks.len()
        invariant
            class < 4,
            opts == (if class == 0 {
                failed_statuses()
            } else if class == 1 {
                canceled_statuses()
            } else if class == 2 {
                running_statuses()
            } else {
                pending_statuses()
            }),
            k <= checks@.len(),
            forall|j: int| 0 <= j < k ==> !one_of(#[trigger] checks@[j].status@, opts),
        decreases checks@.len() - k,
    {
        let s = checks[k].status.as_str();
        let hit = if class == 0 {
            in_failed(s)
        } else if class == 1 {
            in_canceled(s)
        } else if class == 2 {
            in_running(s)
        } else {
            in_pending(s)
        };
        if hit {
            return true;
        }
        k += 1;
    }
    false
}

/// The overall CI state from a commit's checks and reported state.
pub fn ci_state_from_checks(checks: &[CheckRun], overall: Option<&str>) -> (r: CiState)
    ensures
        r == spec_ci_state_from_checks(checks@, opt_str_view(overall)),
{
    if any_check(checks, 0) {
        return CiState::Failed;
    }
    if any_check(checks, 1) {
        return CiState::Canceled;
    }
    if any_check(checks, 2) {
        return CiState::Running;
    }
    if any_check(checks, 3) {
        return CiState::Pending;
    }
    let mut all_skipped = true;
    let mut k: usize = 0;
    while k < checks.len()
        invariant
            k <= checks@.len(),
            all_skipped == forall|j: int| 0 <= j < k ==> #[trigger] checks@[j].status@ == "skipped"@,
        decreases checks@.len() - k,
    {
        if !str_eq(checks[k].status.as_str(), "skipped") {
            all_skipped = false;
        }
        k += 1;
    }
    if all_skipped {
        return CiState::Skipped;
    }
    match overall {
        Some(o) => {
            if str_eq(o, "success") {
                CiState::Success
            } else if in_pending(o) || str_eq(o, "in_progress") {
                CiState::Pending
            } else if in_failed(o) {
                CiState::Failed
            } else if str_eq(o, "cancelled") {
                CiState::Canceled
            } else {
                CiState::Pending
            }
        },
        None => CiState::Pending,
    }
}

/// A user as GitHub reports it: `login` and `id` when present.
#[derive(Debug, Clone)]
pub struct UserFields {
    pub login: Option<String>,
    pub id: Option<u64>,
}

/// The users among the reported ones that have a login, in order.
pub open spec fn users_of(us: Seq<UserFields>) -> Seq<(Option<u64>, Seq<char>)>
    decreases us.len(),
{
    if us.len() == 0 {
        Seq::empty()
    } else {
        let rest = users_of(us.drop_last());
        match us.last().login {
            Some(l) => rest.push((us.last().id, l@)),
            None => rest,
        }
    }
}

/// The views of a list of users.
pub open spec fn user_views(us: Seq<User>) -> Seq<(Option<u64>, Seq<char>)> {
    us.map_values(|u: User| (u.id, u.username@))
}

/// The users among the reported ones that have a login.
pub fn collect_users(us: &Vec<UserFields>) -> (r: Vec<User>)
    ensures
        user_views(r@) == users_of(us@),
{
    let mut out: Vec<User> = Vec::new();
    let mut i: usize = 0;
    while i < us.len()
        invariant
            i <= us@.len(),
            user_views(out@) == users_of(us@.take(i as int)),
        decreases us@.len() - i,
    {
        proof {
            assert(us@.take(i + 1).drop_last() =~= us@.take(i as int));
            assert(us@.take(i + 1).last() == us@[i as int]);
        }
        match &us[i].login {
            Some(l) => {
                let ghost before = user_views(out@);
                let u = User { id: us[i].id, username: l.clone() };
                let ghost uv = (u.id, u.username@);
                out.push(u);
                proof {
                    assert(user_views(out@) =~= before.push(uv));
                }
            },
            None => {},
        }
        i += 1;
    }
    proof {
        assert(us@.take(us@.len() as int) =~= us@);
    }
    out
}

/// The present texts among optional ones, in order.
pub open spec fn somes(v: Seq<Option<String>>) -> Seq<Seq<char>>
    decreases v.len(),
{
    if v.len() == 0 {
        Seq::empty()
    } else {
        match v.last() {
            Some(s) => somes(v.drop_last()).push(s@),
            None => somes(v.drop_last()),
        }
    }
}

/// The present texts among optional ones.
pub fn collect_somes(v: &Vec<Option<String>>) -> (r: Vec<String>)
    ensures
        views(r@) == somes(v@),
{
    let mut out: Vec<String> = Vec::new();
    let mut i: usize = 0;
    while i < v.len()
        invariant
            i <= v@.len(),
            views(out@) == somes(v@.take(i as int)),
        decreases v@.len() - i,
    {
        proof {
            assert(v@.take(i + 1).drop_last() =~= v@.take(i as int));
            assert(v@.take(i + 1).last() == v@[i as int]);
        }
        match &v[i] {
            Some(s) => {
                let ghost before = views(out@);
                out.push(s.clone());
                proof {
                    assert(views(out@) =~= before.push(s@));
                }
            },
            None => {},
        }
        i += 1;
    }
    proof {
        assert(v@.take(v@.len() as int) =~= v@);
    }
    out
}

/// A pull request as GitHub reports it: each field when present with the
/// expected JSON type; `labels` holds each label's name when it is a text.
#[derive(Debug, Clone)]
pub struct PullRequestFields {
    pub id: Option<u64>,
    pub number: Option<u64>,
    pub title: Option<String>,
    pub body: Option<String>,
    pub head_ref: Option<String>,
    pub base_ref: Option<String>,
    pub html_url: Option<String>,
    pub url: Option<String>,
    pub draft: Option<bool>,
    pub state: Option<String>,
    pub labels: Option<Vec<Option<String>>>,
    pub requested_reviewers: Option<Vec<UserFields>>,
}

/// Why a reported pull request cannot be read, checked in this order.
pub open spec fn pr_error(f: PullRequestFields) -> Option<Seq<char>> {
    if f.id is None && f.number is None {
        Some("github PR response missing id and number"@)
    } else if f.number is None {
        Some("github PR response missing number"@)
    } else if f.title is None {
        Some("github response missing 'title'"@)
    } else if f.head_ref is None {
        Some("github PR response missing head.ref"@)
    } else if f.base_ref is None {
        Some("github PR response missing base.ref"@)
    } else {
        None
    }
}

/// The text of an optional string, empty when absent.
pub open spec fn text_or_empty(o: Option<String>) -> Seq<char> {
    match o {
        Some(s) => s@,
        None => Seq::empty(),
    }
}

/// The first present text, empty when both are absent.
pub open spec fn first_text(a: Option<String>, b: Option<String>) -> Seq<char> {
    match a {
        Some(s) => s@,
        None => text_or_empty(b),
    }
}

fn text_or_default(o: &Option<String>) -> (r: String)
    ensures
        r@ == text_or_empty(*o),
{
    match o {
        Some(s) => s.clone(),
        None => String::new(),
    }
}

fn first_or_default(a: &Option<String>, b: &Option<String>) -> (r: String)
    ensures
        r@ == first_text(*a, *b),
{
    match a {
        Some(s) => s.clone(),
        None => text_or_default(b),
    }
}

/// Reads a pull request: its identifier is the numeric id (else its number);
/// title, head and base branches are required; description, URL, labels
/// and requested approvers are empty when absent; the state is `spec_pr_state`.
pub fn parse_pull_request(f: &PullRequestFields) -> (r: Result<MergeRequest, HarmoniaError>)
    ensures
        match r {
            Ok(mr) => {
                &&& pr_error(*f) is None
                &&& mr.id@ == decimal((if f.id is Some { f.id->0 } else { f.number->0 }) as nat)
                &&& mr.iid == f.number->0
                &&& mr.title@ == f.title->0@
                &&& mr.description@ == text_or_empty(f.body)
                &&& mr.source_branch@ == f.head_ref->0@
                &&& mr.target_branch@ == f.base_ref->0@
                &&& mr.url@ == first_text(f.html_url, f.url)
                &&& mr.state == spec_pr_state(opt_string_view(f.state), f.draft == Some(true))
                &&& mr.ci_status is None
                &&& views(mr.labels@) == (match f.labels {
                    Some(ls) => somes(ls@),
                    None => Seq::empty(),
                })
                &&& user_views(mr.approvals@) == (match f.requested_reviewers {
                    Some(us) => users_of(us@),
                    None => Seq::empty(),
                })
            },
            Err(HarmoniaError::Other(m)) => pr_error(*f) == Some(m@),
            Err(_) => false,
        },
{
    let id_num: u64 = match f.id {
        Some(v) => v,
        None => match f.number {
            Some(v) => v,
            None => {
                return Err(HarmoniaError::Other(string_of("github PR response missing id and number")));
            },
        },
    };
    let iid = match f.number {
        Some(v) => v,
        None => {
            return Err(HarmoniaError::Other(string_of("github PR response missing number")));
        },
    };
    let title = match &f.title {
        Some(t) => t.clone(),
        None => {
            return Err(HarmoniaError::Other(string_of("github response missing 'title'")));
        },
    };
    let source_branch = match &f.head_ref {
        Some(t) => t.clone(),
        None => {
            return Err(HarmoniaError::Other(string_of("github PR response missing head.ref")));
        },
    };
    let target_branch = match &f.base_ref {
        Some(t) => t.clone(),
        None => {
            return Err(HarmoniaError::Other(string_of("github PR response missing base.ref")));
        },
    };
    let description = text_or_default(&f.body);
    let url = first_or_default(&f.html_url, &f.url);
    let draft = match f.draft {
        Some(d) => d,
        None => false,
    };
    let state = match &f.state {
        Some(s) => parse_pr_state(Some(s.as_str()), draft),
        None => parse_pr_state(None, draft),
    };
    let labels = match &f.labels {
        Some(ls) => collect_somes(ls),
        None => Vec::new(),
    };
    let approvals = match &f.requested_reviewers {
        Some(us) => collect_users(us),
        None => Vec::new(),
    };
    proof {
        assert(views(labels@) == (match f.labels {
            Some(ls) => somes(ls@),
            None => Seq::<Seq<char>>::empty(),
        })) by {
            if f.labels is None {
                assert(views(labels@) =~= Seq::<Seq<char>>::empty());
            }
        }
        assert(user_views(approvals@) == (match f.requested_reviewers {
            Some(us) => users_of(us@),
            None => Seq::<(Option<u64>, Seq<char>)>::empty(),
        })) by {
            if f.requested_reviewers is None {
                assert(user_views(approvals@) =~= Seq::<(Option<u64>, Seq<char>)>::empty());
            }
        }
    }
    Ok(
        MergeRequest {
            id: format_u64(id_num),
            iid,
            title,
            description,
            source_branch,
            target_branch,
            state,
            url,
            ci_status: None,
            approvals,
            labels,
        },
    )
}

/// An issue as GitHub reports it.
#[derive(Debug, Clone)]
pub struct IssueFields {
    pub id: Option<u64>,
    pub number: Option<u64>,
    pub title: Option<String>,
    pub html_url: Option<String>,
    pub url: Option<String>,
    pub state: Option<String>,
}

/// Why a reported issue cannot be read, checked in this order.
pub open spec fn issue_error(f: IssueFields) -> Option<Seq<char>> {
    if f.id is None && f.number is None {
        Some("github issue response missing id and number"@)
    } else if f.number is None {
        Some("github issue response missing number"@)
    } else if f.title is None {
        Some("github response missing 'title'"@)
    } else {
        None
    }
}

/// Reads an issue: identifier as for pull requests, title required, closed
/// only when reported `closed`.
pub fn parse_issue(f: &IssueFields) -> (r: Result<Issue, HarmoniaError>)
    ensures
        match r {
            Ok(is) => {
                &&& issue_error(*f) is None
                &&& is.id@ == decimal((if f.id is Some { f.id->0 } else { f.number->0 }) as nat)
                &&& is.iid == f.number->0
                &&& is.title@ == f.title->0@
                &&& is.url@ == first_text(f.html_url, f.url)
                &&& (is.state == IssueState::Closed <==> opt_string_view(f.state) == Some("closed"@))
            },
            Err(HarmoniaError::Other(m)) => issue_error(*f) == Some(m@),
            Err(_) => false,
        },
{
    let id_num: u64 = match f.id {
        Some(v) => v,
        None => match f.number {
            Some(v) => v,
            None => {
                return Err(HarmoniaError::Other(string_of("github issue response missing id and number")));
            },
        },
    };
    let iid = match f.number {
        Some(v) => v,
        None => {
            return Err(HarmoniaError::Other(string_of("github issue response missing number")));
        },
    };
    let title = match &f.title {
        Some(t) => t.clone(),
        None => {
            return Err(HarmoniaError::Other(string_of("github response missing 'title'")));
        },
    };
    let url = first_or_default(&f.html_url, &f.url);
    let state = match &f.state {
        Some(s) => if str_eq(s.as_str(), "closed") {
            IssueState::Closed
        } else {
            IssueState::Open
        },
        None => IssueState::Open,
    };
    Ok(Issue { id: format_u64(id_num), iid, title, url, state })
}

/// One commit status as GitHub reports it.
#[derive(Debug, Clone)]
pub struct StatusFields {
    pub context: Option<String>,
    pub state: Option<String>,
    pub id: Option<u64>,
}

/// The checks among the statuses: those with both a context and a state.
pub open spec fn checks_of(ss: Seq<StatusFields>) -> Seq<(Seq<char>, Seq<char>)>
    decreases ss.len(),
{
    if ss.len() == 0 {
        Seq::empty()
    } else {
        let rest = checks_of(ss.drop_last());
        let s = ss.last();
        if s.context is Some && s.state is Some {
            rest.push((s.context->0@, s.state->0@))
        } else {
            rest
        }
    }
}

/// One pipeline per status: identified by its id, else its context, else the
/// reference; status `unknown` when absent.
pub open spec fn pipeline_of(s: StatusFields, ref_name: Seq<char>) -> (Seq<char>, Seq<char>) {
    (
        if s.id is Some {
            decimal(s.id->0 as nat)
        } else if s.context is Some {
            s.context->0@
        } else {
            ref_name
        },
        match s.state {
            Some(st) => st@,
            None => "unknown"@,
        },
    )
}

/// The views of a list of checks.
pub open spec fn check_views(v: Seq<CheckRun>) -> Seq<(Seq<char>, Seq<char>)> {
    v.map_values(|c: CheckRun| (c.name@, c.status@))
}

/// The views of a list of pipelines.
pub open spec fn pipeline_views(v: Seq<Pipeline>) -> Seq<(Seq<char>, Seq<char>)> {
    v.map_values(|p: Pipeline| (p.id@, p.status@))
}

/// The CI status of a commit from the statuses GitHub reports for it and
/// its overall state.
pub fn ci_status_from_statuses(statuses: &Option<Vec<StatusFields>>, overall: Option<&str>, ref_name: &str) -> (r:
    CiStatus)
    ensures
        check_views(r.checks@) == (match statuses {
            Some(ss) => checks_of(ss@),
            None => Seq::empty(),
        }),
        pipeline_views(r.pipelines@) == (match statuses {
            Some(ss) => ss@.map_values(|s: StatusFields| pipeline_of(s, ref_name@)),
            None => Seq::empty(),
        }),
        r.state == spec_ci_state_from_checks(r.checks@, opt_str_view(overall)),
{
    let mut checks: Vec<CheckRun> = Vec::new();
    let mut pipelines: Vec<Pipeline> = Vec::new();
    match statuses {
        Some(ss) => {
            let mut i: usize = 0;
            while i < ss.len()
                invariant
                    i <= ss@.len(),
                    check_views(checks@) == checks_of(ss@.take(i as int)),
                    pipeline_views(pipelines@) =~= ss@.take(i as int).map_values(
                        |s: StatusFields| pipeline_of(s, ref_name@),
                    ),
                decreases ss@.len() - i,
            {
                let s = &ss[i];
                proof {
                    assert(ss@.take(i + 1).drop_last() =~= ss@.take(i as int));
                    assert(ss@.take(i + 1).last() == ss@[i as int]);
                }
                match (&s.context, &s.state) {
                    (Some(c), Some(st)) => {
                        let ghost before = check_views(checks@);
                        let run = CheckRun { name: c.clone(), status: st.clone() };
                        let ghost rv = (run.name@, run.status@);
                        checks.push(run);
                        proof {
                            assert(check_views(checks@) =~= before.push(rv));
                        }
                    },
                    _ => {},
                }
                let id = match s.id {
                    Some(v) => format_u64(v),
                    None => match &s.context {
                        Some(c) => c.clone(),
                        None => string_of(ref_name),
                    },
                };
                let status = match &s.state {
                    Some(st) => st.clone(),
                    None => string_of("unknown"),
                };
                let ghost pbefore = pipeline_views(pipelines@);
                let p = Pipeline { id, status };
                let ghost pv = (p.id@, p.status@);
                pipelines.push(p);
                proof {
                    assert(pv == pipeline_of(ss@[i as int], ref_name@));
                    assert(pipeline_views(pipelines@) =~= pbefore.push(pv));
                    assert(ss@.take(i + 1).map_values(|s: StatusFields| pipeline_of(s, ref_name@))
                        =~= ss@.take(i as int).map_values(|s: StatusFields| pipeline_of(s, ref_name@)).push(pv));
                }
                i += 1;
            }
            proof {
                assert(ss@.take(ss@.len() as int) =~= ss@);
            }
        },
        None => {
            proof {
                assert(check_views(checks@) =~= Seq::<(Seq<char>, Seq<char>)>::empty());
                assert(pipeline_views(pipelines@) =~= Seq::<(Seq<char>, Seq<char>)>::empty());
            }
        },
    }
    let state = ci_state_from_checks(checks.as_slice(), overall);
    CiStatus { state, pipelines, checks }
}

} // verus!
