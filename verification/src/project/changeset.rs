//! Changesets: coordinated changes across repositories, declared in files
//! and selected by the branches that are checked out.
use vstd::prelude::*;
use crate::config::workspace::WorkspaceConfig;
use crate::error::HarmoniaError;
use crate::forge::{Issue, MergeRequest};
use crate::order::{insert_sorted_unique, join_names, join_strings, sort_names, sort_strings, strictly_sorted, views};
use crate::project::repo::{RepoId, id_views};
use crate::text::{concat2, str_eq, string_of, trim_spec, trim_str};

verus! {

/// The identifier of a changeset.
#[derive(Debug, Clone, PartialEq, Eq, Hash)]
pub struct ChangesetId {
    id: String,
}

impl View for ChangesetId {
    type V = Seq<char>;

    closed spec fn view(&self) -> Seq<char> {
        self.id@
    }
}

impl ChangesetId {
    /// The identifier with the given text.
    pub fn new(id: &str) -> (r: Self)
        ensures
            r@ == id@,
    {
        ChangesetId { id: string_of(id) }
    }

    /// The identifier's text.
    pub fn as_str(&self) -> (r: &str)
        ensures
            r@ == self@,
    {
        self.id.as_str()
    }
}

/// A changeset in progress: its branch, repositories, merge order and the
/// merge requests opened for it (at most one per repository).
#[derive(Debug, Clone)]
pub struct Changeset {
    pub id: ChangesetId,
    pub branch: String,
    pub repos: Vec<RepoId>,
    pub merge_order: Vec<RepoId>,
    pub mrs: Vec<(RepoId, MergeRequest)>,
    pub tracking_issue: Option<Issue>,
}

/// One repository a changeset touches, with what changes there.
#[derive(Debug, Clone)]
pub struct ChangesetRepoSummary {
    pub repo: String,
    pub summary: String,
}

/// A changeset as declared in its file; `path` is the file it was read from.
#[derive(Debug, Clone)]
pub struct ChangesetFile {
    pub id: String,
    pub title: String,
    pub description: String,
    pub branch: String,
    pub repos: Vec<ChangesetRepoSummary>,
    pub path: String,
}

/// A changeset file as plain values.
pub type ChangesetFileView = (Seq<char>, Seq<char>, Seq<char>, Seq<char>, Seq<(Seq<char>, Seq<char>)>, Seq<char>);

impl ChangesetFile {
    pub open spec fn view(&self) -> ChangesetFileView {
        (
            self.id@,
            self.title@,
            self.description@,
            self.branch@,
            self.repos@.map_values(|e: ChangesetRepoSummary| (e.repo@, e.summary@)),
            self.path@,
        )
    }

    /// A copy.
    pub fn duplicate(&self) -> (r: Self)
        ensures
            r.view() == self.view(),
    {
        let mut repos: Vec<ChangesetRepoSummary> = Vec::new();
        let mut i: usize = 0;
        while i < self.repos.len()
            invariant
                i <= self.repos@.len(),
                repos@.map_values(|e: ChangesetRepoSummary| (e.repo@, e.summary@)) =~= self.repos@.subrange(
                    0,
                    i as int,
                ).map_values(|e: ChangesetRepoSummary| (e.repo@, e.summary@)),
            decreases self.repos@.len() - i,
        {
            let e = &self.repos[i];
            let copy = ChangesetRepoSummary { repo: e.repo.clone(), summary: e.summary.clone() };
            let ghost before = repos@;
            let ghost cv = (copy.repo@, copy.summary@);
            repos.push(copy);
            proof {
                assert(self.repos@.subrange(0, i + 1) =~= self.repos@.subrange(0, i as int).push(
                    self.repos@[i as int],
                ));
                assert(repos@.map_values(|e: ChangesetRepoSummary| (e.repo@, e.summary@)) =~= before.map_values(
                    |e: ChangesetRepoSummary| (e.repo@, e.summary@),
                ).push(cv));
            }
            i += 1;
        }
        proof {
            assert(self.repos@.subrange(0, self.repos@.len() as int) =~= self.repos@);
        }
        ChangesetFile {
            id: self.id.clone(),
            title: self.title.clone(),
            description: self.description.clone(),
            branch: self.branch.clone(),
            repos,
            path: self.path.clone(),
        }
    }

    /// The repositories the changeset touches, each once, sorted by name.
    pub fn repo_set(&self) -> (r: Vec<RepoId>)
        ensures
            strictly_sorted(id_views(r@)),
            forall|x: Seq<char>| id_views(r@).contains(x) <==> exists|k: int|
                0 <= k < self.repos@.len() && #[trigger] self.repos@[k].repo@ == x,
    {
        let mut names: Vec<String> = Vec::new();
        let mut i: usize = 0;
        while i < self.repos.len()
            invariant
                i <= self.repos@.len(),
                strictly_sorted(views(names@)),
                forall|x: Seq<char>| views(names@).contains(x) <==> exists|k: int|
                    0 <= k < i && #[trigger] self.repos@[k].repo@ == x,
            decreases self.repos@.len() - i,
        {
            let ghost before = views(names@);
            let name = self.repos[i].repo.clone();
            let ghost nv = name@;
            let _ = insert_sorted_unique(&mut names, name);
            proof {
                assert forall|x: Seq<char>| views(names@).contains(x) <==> exists|k: int|
                    0 <= k < i + 1 && #[trigger] self.repos@[k].repo@ == x by {
                    assert(views(names@).to_set().contains(x) == views(names@).contains(x));
                    assert(before.to_set().contains(x) == before.contains(x));
                    assert(before.to_set().insert(nv).contains(x) == (before.contains(x) || x == nv));
                    if exists|k: int| 0 <= k < i + 1 && #[trigger] self.repos@[k].repo@ == x {
                        let k = choose|k: int| 0 <= k < i + 1 && #[trigger] self.repos@[k].repo@ == x;
                        if k < i {
                            assert(before.contains(x));
                        }
                    }
                }
            }
            i += 1;
        }
        let ghost nv = views(names@);
        let mut out: Vec<RepoId> = Vec::new();
        let mut j: usize = 0;
        while j < names.len()
            invariant
                j <= names@.len(),
                nv == views(names@),
                id_views(out@) =~= nv.subrange(0, j as int),
            decreases names@.len() - j,
        {
            out.push(RepoId::new(names[j].as_str()));
            proof {
                assert(nv.subrange(0, j + 1) =~= nv.subrange(0, j as int).push(nv[j as int]));
            }
            j += 1;
        }
        proof {
            assert(nv.subrange(0, nv.len() as int) =~= nv);
        }
        out
    }

    /// Each repository the changeset touches with its summary; when a
    /// repository is listed more than once, the last summary is kept.
    pub fn repo_summary_map(&self) -> (r: Vec<(RepoId, String)>)
        ensures
            forall|a: int, b: int| 0 <= a < b < r@.len() ==> #[trigger] r@[a].0@ != #[trigger] r@[b].0@,
            forall|x: Seq<char>|
                #![trigger has_id_key(r@, x)]
                #![trigger lists_repo(self.repos@, x)]
                has_id_key(r@, x) <==> lists_repo(self.repos@, x),
            forall|a: int|
                0 <= a < r@.len() ==> last_summary(self.repos@, #[trigger] r@[a].0@) == Some(r@[a].1@),
    {
        let mut out: Vec<(RepoId, String)> = Vec::new();
        let mut i: usize = 0;
        while i < self.repos.len()
            invariant
                i <= self.repos@.len(),
                forall|a: int, b: int| 0 <= a < b < out@.len() ==> #[trigger] out@[a].0@ != #[trigger] out@[b].0@,
                forall|x: Seq<char>|
                    #![trigger has_id_key(out@, x)]
                    #![trigger lists_repo(self.repos@.take(i as int), x)]
                    has_id_key(out@, x) <==> lists_repo(self.repos@.take(i as int), x),
                forall|a: int|
                    0 <= a < out@.len() ==> last_summary(self.repos@.take(i as int), #[trigger] out@[a].0@) == Some(
                        out@[a].1@,
                    ),
            decreases self.repos@.len() - i,
        {
            let e = &self.repos[i];
            let ghost pre = self.repos@.take(i as int);
            let ghost post = self.repos@.take(i + 1);
            let ghost old_out = out@;
            proof {
                assert(post.drop_last() =~= pre);
                assert(post.last() == self.repos@[i as int]);
            }
            let mut k: usize = 0;
            let mut found: Option<usize> = None;
            while k < out.len()
                invariant_except_break
                    found is None,
                invariant
                    k <= out@.len(),
                    forall|a: int| 0 <= a < k ==> #[trigger] out@[a].0@ != e.repo@,
                ensures
                    found matches Some(j) ==> j < out@.len() && out@[j as int].0@ == e.repo@,
                    found is None ==> forall|a: int| 0 <= a < out@.len() ==> #[trigger] out@[a].0@ != e.repo@,
                decreases out@.len() - k,
            {
                if str_eq(out[k].0.as_str(), e.repo.as_str()) {
                    found = Some(k);
                    break;
                }
                k += 1;
            }
            let id = RepoId::new(e.repo.as_str());
            let summary = e.summary.clone();
            match found {
                Some(j) => {
                    out.set(j, (id, summary));
                    proof {
                        assert forall|a: int, b: int| 0 <= a < b < out@.len() implies #[trigger] out@[a].0@
                            != #[trigger] out@[b].0@ by {
                            assert(out@[a].0@ == old_out[a].0@ && out@[b].0@ == old_out[b].0@);
                        }
                        assert forall|x: Seq<char>| has_id_key(out@, x) <==> lists_repo(post, x) by {
                            if has_id_key(out@, x) {
                                let a = choose|a: int| 0 <= a < out@.len() && #[trigger] out@[a].0@ == x;
                                assert(old_out[a].0@ == x);
                                assert(has_id_key(old_out, x));
                                let k2 = choose|k2: int| 0 <= k2 < pre.len() && #[trigger] pre[k2].repo@ == x;
                                assert(post[k2] == pre[k2]);
                            }
                            if lists_repo(post, x) {
                                let k2 = choose|k2: int| 0 <= k2 < post.len() && #[trigger] post[k2].repo@ == x;
                                if k2 < i {
                                    assert(pre[k2] == post[k2]);
                                    assert(lists_repo(pre, x));
                                    let a = choose|a: int| 0 <= a < old_out.len() && #[trigger] old_out[a].0@ == x;
                                    assert(out@[a].0@ == x);
                                } else {
                                    assert(out@[j as int].0@ == x);
                                }
                            }
                        }
                        assert forall|a: int| 0 <= a < out@.len() implies last_summary(post, #[trigger] out@[a].0@)
                            == Some(out@[a].1@) by {
                            if a != j {
                                assert(out@[a] == old_out[a]);
                            }
                        }
                    }
                },
                None => {
                    out.push((id, summary));
                    proof {
                        assert forall|a: int, b: int| 0 <= a < b < out@.len() implies #[trigger] out@[a].0@
                            != #[trigger] out@[b].0@ by {
                            if b < old_out.len() {
                                assert(out@[a] == old_out[a] && out@[b] == old_out[b]);
                            } else {
                                assert(out@[a] == old_out[a]);
                            }
                        }
                        assert forall|x: Seq<char>| has_id_key(out@, x) <==> lists_repo(post, x) by {
                            if has_id_key(out@, x) {
                                let a = choose|a: int| 0 <= a < out@.len() && #[trigger] out@[a].0@ == x;
                                if a < old_out.len() {
                                    assert(old_out[a].0@ == x);
                                    assert(has_id_key(old_out, x));
                                    let k2 = choose|k2: int| 0 <= k2 < pre.len() && #[trigger] pre[k2].repo@ == x;
                                    assert(post[k2] == pre[k2]);
                                } else {
                                    assert(post[i as int].repo@ == x);
                                }
                            }
                            if lists_repo(post, x) {
                                let k2 = choose|k2: int| 0 <= k2 < post.len() && #[trigger] post[k2].repo@ == x;
                                if k2 < i {
                                    assert(pre[k2] == post[k2]);
                                    assert(lists_repo(pre, x));
                                    let a = choose|a: int| 0 <= a < old_out.len() && #[trigger] old_out[a].0@ == x;
                                    assert(out@[a].0@ == x);
                                } else {
                                    assert(out@[old_out.len() as int].0@ == x);
                                }
                            }
                        }
                        assert forall|a: int| 0 <= a < out@.len() implies last_summary(post, #[trigger] out@[a].0@)
                            == Some(out@[a].1@) by {
                            if a < old_out.len() {
                                assert(out@[a] == old_out[a]);
                            }
                        }
                    }
                },
            }
            i += 1;
        }
        proof {
            assert(self.repos@.take(self.repos@.len() as int) =~= self.repos@);
        }
        out
    }
}

/// Some entry has key `x`.
pub open spec fn has_id_key<V>(e: Seq<(RepoId, V)>, x: Seq<char>) -> bool {
    exists|a: int| 0 <= a < e.len() && #[trigger] e[a].0@ == x
}

/// Some entry names repository `x`.
pub open spec fn lists_repo(entries: Seq<ChangesetRepoSummary>, x: Seq<char>) -> bool {
    exists|k: int| 0 <= k < entries.len() && #[trigger] entries[k].repo@ == x
}

/// The summary of the last entry for repository `x`.
pub open spec fn last_summary(entries: Seq<ChangesetRepoSummary>, x: Seq<char>) -> Option<Seq<char>>
    decreases entries.len(),
{
    if entries.len() == 0 {
        None
    } else if entries.last().repo@ == x {
        Some(entries.last().summary@)
    } else {
        last_summary(entries.drop_last(), x)
    }
}

/// The changesets whose branch is among `branches`, in order.
pub open spec fn matching(cs: Seq<ChangesetFile>, branches: Seq<Seq<char>>) -> Seq<ChangesetFile>
    decreases cs.len(),
{
    if cs.len() == 0 {
        Seq::empty()
    } else if branches.contains(cs.last().branch@) {
        matching(cs.drop_last(), branches).push(cs.last())
    } else {
        matching(cs.drop_last(), branches)
    }
}

/// The identifiers of a list of changesets.
pub open spec fn changeset_ids(cs: Seq<ChangesetFile>) -> Seq<Seq<char>> {
    cs.map_values(|c: ChangesetFile| c.id@)
}

/// The error text when several changesets match.
pub open spec fn multiple_match_message(ms: Seq<ChangesetFile>) -> Seq<char> {
    "multiple changesets match current branches: "@ + join_names(sort_names(changeset_ids(ms)), ", "@)
}

/// The changeset whose branch is checked out: none when no branch matches,
/// an error naming all matches (sorted) when several do.
pub fn select_active_changeset(changesets: &[ChangesetFile], branches: &[String]) -> (r: Result<
    Option<ChangesetFile>,
    HarmoniaError,
>)
    ensures
        match r {
            Ok(None) => matching(changesets@, views(branches@)).len() == 0,
            Ok(Some(c)) => matching(changesets@, views(branches@)).len() == 1 && c.view() == matching(
                changesets@,
                views(branches@),
            )[0].view(),
            Err(HarmoniaError::Other(m)) => matching(changesets@, views(branches@)).len() > 1 && m@
                == multiple_match_message(matching(changesets@, views(branches@))),
            Err(_) => false,
        },
{
    let ghost bs = views(branches@);
    let mut matches: Vec<ChangesetFile> = Vec::new();
    let mut i: usize = 0;
    while i < changesets.len()
        invariant
            bs == views(branches@),
            i <= changesets@.len(),
            matches@.len() == matching(changesets@.take(i as int), bs).len(),
            forall|k: int| 0 <= k < matches@.len() ==> #[trigger] matches@[k].view() == matching(
                changesets@.take(i as int),
                bs,
            )[k].view(),
        decreases changesets@.len() - i,
    {
        let c = &changesets[i];
        proof {
            assert(changesets@.take(i + 1).drop_last() =~= changesets@.take(i as int));
            assert(changesets@.take(i + 1).last() == changesets@[i as int]);
        }
        let mut hit = false;
        let mut j: usize = 0;
        while j < branches.len()
            invariant
                bs == views(branches@),
                j <= branches@.len(),
                hit == exists|m: int| 0 <= m < j && #[trigger] bs[m] == c.branch@,
            decreases branches@.len() - j,
        {
            proof {
                assert(bs[j as int] == branches@[j as int]@);
            }
            if str_eq(branches[j].as_str(), c.branch.as_str()) {
                hit = true;
            }
            j += 1;
        }
        proof {
            assert(hit == bs.contains(c.branch@));
        }
        if hit {
            let ghost before = matches@;
            matches.push(c.duplicate());
            proof {
                assert forall|k: int| 0 <= k < matches@.len() implies #[trigger] matches@[k].view() == matching(
                    changesets@.take(i + 1),
                    bs,
                )[k].view() by {
                    if k < before.len() {
                        assert(matches@[k] == before[k]);
                    }
                }
            }
        }
        i += 1;
    }
    proof {
        assert(changesets@.take(changesets@.len() as int) =~= changesets@);
    }
    let ghost ms = matching(changesets@, bs);
    if matches.len() == 0 {
        return Ok(None);
    }
    if matches.len() > 1 {
        let mut ids: Vec<String> = Vec::new();
        let mut k: usize = 0;
        while k < matches.len()
            invariant
                k <= matches@.len(),
                matches@.len() == ms.len(),
                forall|q: int| 0 <= q < matches@.len() ==> #[trigger] matches@[q].view() == ms[q].view(),
                views(ids@) =~= changeset_ids(ms).take(k as int),
            decreases matches@.len() - k,
        {
            let ghost before = views(ids@);
            ids.push(matches[k].id.clone());
            proof {
                assert(matches@[k as int].view() == ms[k as int].view());
                assert(changeset_ids(ms).take(k + 1) =~= changeset_ids(ms).take(k as int).push(ms[k as int].id@));
                assert(views(ids@) =~= before.push(matches@[k as int].id@));
            }
            k += 1;
        }
        proof {
            assert(changeset_ids(ms).take(ms.len() as int) =~= changeset_ids(ms));
        }
        let sorted = sort_strings(&ids);
        let names = join_strings(&sorted, ", ");
        let message = concat2("multiple changesets match current branches: ", names.as_str());
        return Err(HarmoniaError::Other(message));
    }
    Ok(Some(matches[0].duplicate()))
}

/// Whether changesets are enabled (off unless configured on).
pub fn changesets_enabled(config: &WorkspaceConfig) -> (r: bool)
    ensures
        r == (config.changesets matches Some(c) && c.enabled == Some(true)),
{
    match &config.changesets {
        Some(c) => match c.enabled {
            Some(v) => v,
            None => false,
        },
        None => false,
    }
}

/// The directory that holds changeset files, relative to the workspace root
/// unless configured as an absolute path.
pub open spec fn spec_changesets_dir(config: WorkspaceConfig) -> Seq<char> {
    let configured = match config.changesets {
        Some(c) => match c.dir {
            Some(d) => if trim_spec(d@).len() > 0 {
                trim_spec(d@)
            } else {
                "changesets"@
            },
            None => "changesets"@,
        },
        None => "changesets"@,
    };
    if configured.len() > 0 && configured[0] == '/' {
        configured
    } else {
        ".harmonia/"@ + configured
    }
}

/// The directory that holds changeset files.
pub fn changesets_dir(config: &WorkspaceConfig) -> (r: Result<String, HarmoniaError>)
    ensures
        r matches Ok(p) && p@ == spec_changesets_dir(*config),
{
    let mut configured = string_of("changesets");
    match &config.changesets {
        Some(c) => match &c.dir {
            Some(d) => {
                let t = trim_str(d.as_str());
                if t.unicode_len() > 0 {
                    configured = t;
                }
            },
            None => {},
        },
        None => {},
    }
    proof {
        reveal_strlit("changesets");
    }
    if configured.unicode_len() > 0 && configured.get_char(0) == '/' {
        return Ok(configured);
    }
    Ok(concat2(".harmonia/", configured.as_str()))
}

/// A changeset is among the matches exactly when it is one of the
/// changesets and its branch is one of the given branches, wherever that
/// branch stands among them.
pub proof fn lemma_matching_members(cs: Seq<ChangesetFile>, branches: Seq<Seq<char>>, c: ChangesetFile)
    ensures
        matching(cs, branches).contains(c) <==> (cs.contains(c) && branches.contains(c.branch@)),
    decreases cs.len(),
{
    if cs.len() > 0 {
        let front = cs.drop_last();
        lemma_matching_members(front, branches, c);
        let m = matching(front, branches);
        assert(cs.contains(c) <==> (front.contains(c) || cs.last() == c)) by {
            if cs.contains(c) {
                let j = choose|j: int| 0 <= j < cs.len() && cs[j] == c;
                if j < cs.len() - 1 {
                    assert(front[j] == c);
                }
            }
            if front.contains(c) {
                let j = choose|j: int| 0 <= j < front.len() && front[j] == c;
                assert(cs[j] == c);
            }
            if cs.last() == c {
                assert(cs[cs.len() - 1] == c);
            }
        }
        if branches.contains(cs.last().branch@) {
            assert(m.push(cs.last()).contains(c) <==> (m.contains(c) || cs.last() == c)) by {
                if m.push(cs.last()).contains(c) {
                    let j = choose|j: int| 0 <= j < m.len() + 1 && m.push(cs.last())[j] == c;
                    if j < m.len() {
                        assert(m[j] == c);
                    }
                }
                if m.contains(c) {
                    let j = choose|j: int| 0 <= j < m.len() && m[j] == c;
                    assert(m.push(cs.last())[j] == c);
                }
                if cs.last() == c {
                    assert(m.push(cs.last())[m.len() as int] == c);
                }
            }
        }
    }
}

} // verus!
