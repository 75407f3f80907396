//! How the plan of a coordinated change is put together from what git
//! reports of each repository: which repositories to look at, which branches
//! select the active changeset, which repositories count as changed.
use vstd::prelude::*;
use crate::cli::plan::{PlanChangedRepo, PlanChangeset, PlanSummary, changed_ids, spec_recommendations, plan_recommendations};
use crate::cli::select::{find_repo, lemma_repo_index_found, repo_index};
use crate::error::HarmoniaError;
use crate::git::status::StatusSummary;
use crate::graph::constraint::ConstraintReport;
use crate::graph::ops::{OrderError, graph_deps, merge_order, merge_set};
use crate::graph::topo::{greedy_prefix, stuck};
use crate::graph::{find_key, key_index, unique_keys};
use crate::order::{contains_str, insert_sorted_unique, strictly_sorted, views};
use crate::project::changeset::{ChangesetFile, ChangesetRepoSummary};
use crate::project::repo::{Repo, RepoId, id_views};
use crate::project::workspace::Workspace;
use crate::text::{opt_string_view, push_str, str_eq, string_of, to_chars, trim_spec, trim_str};

verus! {

/// The message for a name that is not a repository of the workspace.
pub open spec fn unknown_flag_message(name: Seq<char>, flag: Seq<char>) -> Seq<char> {
    "unknown repo '"@ + name + "' passed to --"@ + flag
}

/// The repositories a plan is told to add or leave out: an error for the
/// first name that is not a repository of the workspace.
pub fn resolve_plan_repo_ids(workspace: &Workspace, names: &Vec<String>, flag: &str) -> (r: Result<Vec<RepoId>, HarmoniaError>)
    ensures
        match r {
            Ok(ids) => id_views(ids@) == views(names@) && forall|k: int|
                0 <= k < names@.len() ==> #[trigger] repo_index(workspace.repos@, names@[k]@) is Some,
            Err(HarmoniaError::Other(m)) => exists|k: int|
                0 <= k < names@.len() && #[trigger] repo_index(workspace.repos@, names@[k]@) is None && (forall|j: int|
                    0 <= j < k ==> #[trigger] repo_index(workspace.repos@, names@[j]@) is Some) && m@
                    == unknown_flag_message(names@[k]@, flag@),
            Err(_) => false,
        },
{
    let mut ids: Vec<RepoId> = Vec::new();
    let mut i: usize = 0;
    while i < names.len()
        invariant
            i <= names@.len(),
            id_views(ids@) == views(names@).take(i as int),
            forall|j: int| 0 <= j < i ==> #[trigger] repo_index(workspace.repos@, names@[j]@) is Some,
        decreases names@.len() - i,
    {
        match find_repo(&workspace.repos, names[i].as_str()) {
            Some(_) => {
                let ghost before = id_views(ids@);
                ids.push(RepoId::new(names[i].as_str()));
                proof {
                    assert(id_views(ids@) =~= before.push(names@[i as int]@));
                    assert(views(names@).take(i + 1) =~= views(names@).take(i as int).push(names@[i as int]@));
                }
            },
            None => {
                let mut m = string_of("unknown repo '");
                push_str(&mut m, names[i].as_str());
                push_str(&mut m, "' passed to --");
                push_str(&mut m, flag);
                return Err(HarmoniaError::Other(m));
            },
        }
        i += 1;
    }
    proof {
        assert(views(names@).take(names@.len() as int) =~= views(names@));
    }
    Ok(ids)
}

/// The first of the included repositories that is not cloned is an error.
pub fn check_included_cloned(ids: &Vec<RepoId>, cloned: &Vec<String>) -> (r: Result<(), HarmoniaError>)
    ensures
        match r {
            Ok(()) => forall|k: int| 0 <= k < ids@.len() ==> views(cloned@).contains(#[trigger] ids@[k]@),
            Err(HarmoniaError::Other(m)) => exists|k: int|
                0 <= k < ids@.len() && !views(cloned@).contains(#[trigger] ids@[k]@) && (forall|j: int|
                    0 <= j < k ==> views(cloned@).contains(#[trigger] ids@[j]@)) && m@ == "repo "@ + ids@[k]@
                    + " not cloned"@,
            Err(_) => false,
        },
{
    let mut i: usize = 0;
    while i < ids.len()
        invariant
            i <= ids@.len(),
            forall|j: int| 0 <= j < i ==> views(cloned@).contains(#[trigger] ids@[j]@),
        decreases ids@.len() - i,
    {
        if !contains_str(cloned, ids[i].as_str()) {
            let mut m = string_of("repo ");
            push_str(&mut m, ids[i].as_str());
            push_str(&mut m, " not cloned");
            return Err(HarmoniaError::Other(m));
        }
        i += 1;
    }
    Ok(())
}

/// A repository the plan looks at: listed, neither ignored nor external,
/// cloned and not excluded.
pub open spec fn plan_candidate(rs: Seq<Repo>, exclude: Seq<Seq<char>>, cloned: Seq<Seq<char>>, x: Seq<char>) -> bool {
    exists|i: int|
        0 <= i < rs.len() && #[trigger] rs[i].id@ == x && !rs[i].ignored && !rs[i].external && cloned.contains(x)
            && !exclude.contains(x)
}

/// The repositories the plan looks at, sorted.
pub fn plan_candidate_repos(workspace: &Workspace, exclude: &Vec<RepoId>, cloned: &Vec<String>) -> (r: Vec<String>)
    ensures
        strictly_sorted(views(r@)),
        forall|x: Seq<char>| #[trigger] views(r@).contains(x) <==> plan_candidate(
            workspace.repos@,
            id_views(exclude@),
            views(cloned@),
            x,
        ),
{
    let rs = &workspace.repos;
    let mut out: Vec<String> = Vec::new();
    let mut i: usize = 0;
    while i < rs.len()
        invariant
            rs == &workspace.repos,
            i <= rs@.len(),
            strictly_sorted(views(out@)),
            forall|x: Seq<char>| #[trigger] views(out@).contains(x) <==> plan_candidate(
                rs@.take(i as int),
                id_views(exclude@),
                views(cloned@),
                x,
            ),
        decreases rs@.len() - i,
    {
        let ghost before = views(out@);
        let r = &rs[i];
        let mut excluded = false;
        let mut k: usize = 0;
        while k < exclude.len()
            invariant
                k <= exclude@.len(),
                excluded == id_views(exclude@).take(k as int).contains(r.id@),
            decreases exclude@.len() - k,
        {
            proof {
                vstd::seq_lib::lemma_seq_contains_after_push(id_views(exclude@).take(k as int), exclude@[k as int]@, r.id@);
                assert(id_views(exclude@).take(k + 1) =~= id_views(exclude@).take(k as int).push(exclude@[k as int]@));
            }
            if str_eq(exclude[k].as_str(), r.id.as_str()) {
                excluded = true;
            }
            k += 1;
        }
        proof {
            assert(id_views(exclude@).take(exclude@.len() as int) =~= id_views(exclude@));
        }
        if !r.ignored && !r.external && !excluded && contains_str(cloned, r.id.as_str()) {
            insert_sorted_unique(&mut out, string_of(r.id.as_str()));
        }
        proof {
            assert forall|x: Seq<char>| #[trigger] views(out@).contains(x) <==> plan_candidate(
                rs@.take(i + 1),
                id_views(exclude@),
                views(cloned@),
                x,
            ) by {
                assert(views(out@).to_set().contains(x) == views(out@).contains(x));
                assert(before.to_set().contains(x) == before.contains(x));
                if plan_candidate(rs@.take(i + 1), id_views(exclude@), views(cloned@), x) {
                    let a = choose|a: int|
                        0 <= a < rs@.take(i + 1).len() && #[trigger] rs@.take(i + 1)[a].id@ == x
                            && !rs@.take(i + 1)[a].ignored && !rs@.take(i + 1)[a].external && views(cloned@).contains(x)
                            && !id_views(exclude@).contains(x);
                    if a < i {
                        assert(rs@.take(i as int)[a] == rs@.take(i + 1)[a]);
                    }
                }
                if plan_candidate(rs@.take(i as int), id_views(exclude@), views(cloned@), x) {
                    let a = choose|a: int|
                        0 <= a < rs@.take(i as int).len() && #[trigger] rs@.take(i as int)[a].id@ == x
                            && !rs@.take(i as int)[a].ignored && !rs@.take(i as int)[a].external && views(
                            cloned@,
                        ).contains(x) && !id_views(exclude@).contains(x);
                    assert(rs@.take(i + 1)[a] == rs@.take(i as int)[a]);
                }
                if x == r.id@ && !r.ignored && !r.external && views(cloned@).contains(x) && !id_views(
                    exclude@,
                ).contains(x) {
                    assert(rs@.take(i + 1)[i as int] == rs@[i as int]);
                }
            }
        }
        i += 1;
    }
    proof {
        assert(rs@.take(rs@.len() as int) =~= rs@);
    }
    out
}

/// What git reports of a repository the plan looks at.
#[derive(Debug)]
pub struct PlanCandidate {
    pub id: RepoId,
    pub branch: String,
    pub status: StatusSummary,
    pub diff_stat: String,
}

/// Nothing staged, modified, untracked or conflicted.
pub open spec fn spec_clean(s: StatusSummary) -> bool {
    s.staged@.len() == 0 && s.modified@.len() == 0 && s.untracked@.len() == 0 && s.conflicts@.len() == 0
}

/// Some candidate has changes.
pub open spec fn any_unclean(cs: Seq<PlanCandidate>) -> bool {
    exists|i: int| 0 <= i < cs.len() && !spec_clean(#[trigger] cs[i].status)
}

/// The branches that select the active changeset: those of the repositories
/// with changes, or of all candidates when none has changes.
pub open spec fn scope_branch(cs: Seq<PlanCandidate>, x: Seq<char>) -> bool {
    exists|i: int|
        0 <= i < cs.len() && #[trigger] cs[i].branch@ == x && (!any_unclean(cs) || !spec_clean(cs[i].status))
}

/// The branches that select the active changeset, sorted.
pub fn plan_branch_scope(cands: &Vec<PlanCandidate>) -> (r: Vec<String>)
    ensures
        strictly_sorted(views(r@)),
        forall|x: Seq<char>| #[trigger] views(r@).contains(x) <==> scope_branch(cands@, x),
{
    let mut all: Vec<String> = Vec::new();
    let mut changed: Vec<String> = Vec::new();
    let mut i: usize = 0;
    while i < cands.len()
        invariant
            i <= cands@.len(),
            strictly_sorted(views(all@)),
            strictly_sorted(views(changed@)),
            forall|x: Seq<char>| #[trigger] views(all@).contains(x) <==> exists|a: int|
                0 <= a < i && #[trigger] cands@[a].branch@ == x,
            forall|x: Seq<char>| #[trigger] views(changed@).contains(x) <==> exists|a: int|
                0 <= a < i && #[trigger] cands@[a].branch@ == x && !spec_clean(cands@[a].status),
            (changed@.len() == 0) == !(exists|a: int| 0 <= a < i && !spec_clean(#[trigger] cands@[a].status)),
        decreases cands@.len() - i,
    {
        let c = &cands[i];
        let ghost b_all = views(all@);
        let ghost b_ch = views(changed@);
        insert_sorted_unique(&mut all, string_of(c.branch.as_str()));
        let clean = c.status.is_clean();
        if !clean {
            insert_sorted_unique(&mut changed, string_of(c.branch.as_str()));
        }
        proof {
            assert forall|x: Seq<char>| #[trigger] views(all@).contains(x) <==> exists|a: int|
                0 <= a < i + 1 && #[trigger] cands@[a].branch@ == x by {
                assert(views(all@).to_set().contains(x) == views(all@).contains(x));
                assert(b_all.to_set().contains(x) == b_all.contains(x));
            }
            assert forall|x: Seq<char>| #[trigger] views(changed@).contains(x) <==> exists|a: int|
                0 <= a < i + 1 && #[trigger] cands@[a].branch@ == x && !spec_clean(cands@[a].status) by {
                assert(views(changed@).to_set().contains(x) == views(changed@).contains(x));
                assert(b_ch.to_set().contains(x) == b_ch.contains(x));
            }
            if !clean {
                assert(views(changed@).contains(c.branch@));
            }
        }
        i += 1;
    }
    if changed.len() > 0 {
        proof {
            assert(any_unclean(cands@));
            assert forall|x: Seq<char>| #[trigger] views(changed@).contains(x) <==> scope_branch(cands@, x) by {}
        }
        changed
    } else {
        proof {
            assert(!any_unclean(cands@));
            assert forall|x: Seq<char>| #[trigger] views(all@).contains(x) <==> scope_branch(cands@, x) by {}
        }
        all
    }
}

/// What is wrong with a repository a changeset names: unknown, ignored,
/// external or not cloned; nothing when it can take part.
pub open spec fn changeset_problem(rs: Seq<Repo>, cloned: Seq<Seq<char>>, id: Seq<char>, repo: Seq<char>) -> Option<
    Seq<char>,
> {
    match repo_index(rs, repo) {
        None => Some("changeset '"@ + id + "' references unknown repo '"@ + repo + "'"@),
        Some(i) => if rs[i].ignored {
            Some("changeset '"@ + id + "' references ignored repo '"@ + repo + "'"@)
        } else if rs[i].external {
            Some("changeset '"@ + id + "' references external repo '"@ + repo + "'"@)
        } else if !cloned.contains(repo) {
            Some("changeset '"@ + id + "' references repo '"@ + repo + "' which is not cloned"@)
        } else {
            None
        },
    }
}

/// The entries of a changeset as pairs of repository and summary.
pub open spec fn summary_pairs(es: Seq<ChangesetRepoSummary>) -> Seq<(Seq<char>, Seq<char>)> {
    es.map_values(|e: ChangesetRepoSummary| (e.repo@, e.summary@))
}

/// The summary the last entry for `repo` gives.
pub open spec fn last_summary(es: Seq<(Seq<char>, Seq<char>)>, repo: Seq<char>) -> Option<Seq<char>>
    decreases es.len(),
{
    if es.len() == 0 {
        None
    } else if es.last().0 == repo {
        Some(es.last().1)
    } else {
        last_summary(es.drop_last(), repo)
    }
}

/// The table has an entry for `x`.
pub open spec fn table_has(t: Seq<(RepoId, String)>, x: Seq<char>) -> bool {
    exists|i: int| 0 <= i < t.len() && #[trigger] t[i].0@ == x
}

/// Some entry names `x`.
pub open spec fn names_repo(es: Seq<(Seq<char>, Seq<char>)>, x: Seq<char>) -> bool {
    exists|k: int| 0 <= k < es.len() && #[trigger] es[k].0 == x
}

/// Each repository the entries name once, with the summary of its last
/// entry.
pub open spec fn summaries_fit(t: Seq<(RepoId, String)>, es: Seq<(Seq<char>, Seq<char>)>) -> bool {
    &&& unique_keys(t)
    &&& forall|x: Seq<char>| #![trigger table_has(t, x)] #![trigger names_repo(es, x)] table_has(t, x) <==> names_repo(es, x)
    &&& forall|i: int| 0 <= i < t.len() ==> last_summary(es, #[trigger] t[i].0@) == Some(t[i].1@)
}

/// The changeset as the plan uses it: an error for the first repository it
/// names that cannot take part.
pub fn normalize_changeset(workspace: &Workspace, file: &ChangesetFile, cloned: &Vec<String>) -> (r: Result<
    PlanChangeset,
    HarmoniaError,
>)
    ensures
        match r {
            Ok(c) => (forall|k: int|
                0 <= k < file.repos@.len() ==> #[trigger] changeset_problem(
                    workspace.repos@,
                    views(cloned@),
                    file.id@,
                    file.repos@[k].repo@,
                ) is None) && c.id@ == file.id@ && c.title@ == file.title@ && c.description@ == file.description@
                && c.branch@ == file.branch@ && summaries_fit(c.repo_summaries@, summary_pairs(file.repos@)),
            Err(HarmoniaError::Other(m)) => exists|k: int|
                0 <= k < file.repos@.len() && (forall|j: int|
                    0 <= j < k ==> #[trigger] changeset_problem(
                        workspace.repos@,
                        views(cloned@),
                        file.id@,
                        file.repos@[j].repo@,
                    ) is None) && #[trigger] changeset_problem(
                    workspace.repos@,
                    views(cloned@),
                    file.id@,
                    file.repos@[k].repo@,
                ) == Some(m@),
            Err(_) => false,
        },
{
    let rs = &workspace.repos;
    let ghost es = summary_pairs(file.repos@);
    let mut table: Vec<(RepoId, String)> = Vec::new();
    let mut k: usize = 0;
    while k < file.repos.len()
        invariant
            rs == &workspace.repos,
            es == summary_pairs(file.repos@),
            k <= file.repos@.len(),
            forall|j: int|
                0 <= j < k ==> #[trigger] changeset_problem(rs@, views(cloned@), file.id@, file.repos@[j].repo@)
                    is None,
            summaries_fit(table@, es.take(k as int)),
        decreases file.repos@.len() - k,
    {
        let e = &file.repos[k];
        let ghost pv = changeset_problem(rs@, views(cloned@), file.id@, e.repo@);
        let mut problem: Option<String> = None;
        match find_repo(rs, e.repo.as_str()) {
            None => {
                let mut m = string_of("changeset '");
                push_str(&mut m, file.id.as_str());
                push_str(&mut m, "' references unknown repo '");
                push_str(&mut m, e.repo.as_str());
                push_str(&mut m, "'");
                problem = Some(m);
            },
            Some(i) => {
                proof {
                    lemma_repo_index_found(rs@, e.repo@);
                }
                if rs[i].ignored {
                    let mut m = string_of("changeset '");
                    push_str(&mut m, file.id.as_str());
                    push_str(&mut m, "' references ignored repo '");
                    push_str(&mut m, e.repo.as_str());
                    push_str(&mut m, "'");
                    problem = Some(m);
                } else if rs[i].external {
                    let mut m = string_of("changeset '");
                    push_str(&mut m, file.id.as_str());
                    push_str(&mut m, "' references external repo '");
                    push_str(&mut m, e.repo.as_str());
                    push_str(&mut m, "'");
                    problem = Some(m);
                } else if !contains_str(cloned, e.repo.as_str()) {
                    let mut m = string_of("changeset '");
                    push_str(&mut m, file.id.as_str());
                    push_str(&mut m, "' references repo '");
                    push_str(&mut m, e.repo.as_str());
                    push_str(&mut m, "' which is not cloned");
                    problem = Some(m);
                }
            },
        }
        assert(opt_string_view(problem) == pv);
        match problem {
            Some(m) => {
                return Err(HarmoniaError::Other(m));
            },
            None => {},
        }
        let ghost before = table@;
        proof {
            assert(es.take(k + 1).drop_last() =~= es.take(k as int));
            assert(es.take(k + 1).last() == es[k as int]);
            assert(es[k as int] == (e.repo@, e.summary@));
        }
        match find_key(&table, e.repo.as_str()) {
            Some(p) => {
                let key = table[p].0.duplicate();
                table.set(p, (key, string_of(e.summary.as_str())));
                proof {
                    assert(unique_keys(table@)) by {
                        assert forall|a: int, b: int| 0 <= a < b < table@.len() implies #[trigger] table@[a].0@
                            != #[trigger] table@[b].0@ by {
                            assert(a == p ==> table@[a].0@ == before[a].0@);
                            assert(b == p ==> table@[b].0@ == before[b].0@);
                            assert(a != p ==> table@[a] == before[a]);
                            assert(b != p ==> table@[b] == before[b]);
                        }
                    }
                    assert forall|x: Seq<char>| table_has(table@, x) <==> names_repo(es.take(k + 1), x) by {
                        if table_has(table@, x) {
                            let i = choose|i: int| 0 <= i < table@.len() && #[trigger] table@[i].0@ == x;
                            assert(before[i].0@ == x);
                            assert(table_has(before, x));
                            assert(names_repo(es.take(k as int), x));
                            let j = choose|j: int| 0 <= j < es.take(k as int).len() && #[trigger] es.take(k as int)[j].0 == x;
                            assert(es.take(k + 1)[j] == es.take(k as int)[j]);
                        }
                        if names_repo(es.take(k + 1), x) {
                            let j = choose|j: int| 0 <= j < es.take(k + 1).len() && #[trigger] es.take(k + 1)[j].0 == x;
                            if j < k {
                                assert(es.take(k as int)[j] == es.take(k + 1)[j]);
                                assert(names_repo(es.take(k as int), x));
                                assert(table_has(before, x));
                                let i = choose|i: int| 0 <= i < before.len() && #[trigger] before[i].0@ == x;
                                assert(table@[i].0@ == before[i].0@);
                            } else {
                                assert(table@[p as int].0@ == x);
                            }
                        }
                    }
                    assert forall|i: int| 0 <= i < table@.len() implies last_summary(es.take(k + 1), #[trigger] table@[i].0@)
                        == Some(table@[i].1@) by {
                        if i != p {
                            assert(table@[i] == before[i]);
                            assert(before[i].0@ != before[p as int].0@);
                        }
                    }
                }
            },
            None => {
                let key = RepoId::new(e.repo.as_str());
                table.push((key, string_of(e.summary.as_str())));
                proof {
                    assert(key_index(before, e.repo@) is None);
                    assert forall|a: int| 0 <= a < before.len() implies #[trigger] before[a].0@ != e.repo@ by {
                        if before[a].0@ == e.repo@ {
                            assert(exists|i: int| 0 <= i < before.len() && #[trigger] before[i].0@ == e.repo@);
                        }
                    }
                    assert(unique_keys(table@)) by {
                        assert forall|a: int, b: int| 0 <= a < b < table@.len() implies #[trigger] table@[a].0@
                            != #[trigger] table@[b].0@ by {
                            if b < before.len() {
                                assert(table@[a] == before[a] && table@[b] == before[b]);
                            } else {
                                assert(table@[a] == before[a]);
                            }
                        }
                    }
                    assert forall|x: Seq<char>| table_has(table@, x) <==> names_repo(es.take(k + 1), x) by {
                        if table_has(table@, x) {
                            let i = choose|i: int| 0 <= i < table@.len() && #[trigger] table@[i].0@ == x;
                            if i < before.len() {
                                assert(before[i].0@ == x);
                                assert(table_has(before, x));
                                assert(names_repo(es.take(k as int), x));
                                let j = choose|j: int| 0 <= j < es.take(k as int).len() && #[trigger] es.take(k as int)[j].0 == x;
                                assert(es.take(k + 1)[j] == es.take(k as int)[j]);
                            } else {
                                assert(es.take(k + 1)[k as int].0 == x);
                            }
                        }
                        if names_repo(es.take(k + 1), x) {
                            let j = choose|j: int| 0 <= j < es.take(k + 1).len() && #[trigger] es.take(k + 1)[j].0 == x;
                            if j < k {
                                assert(es.take(k as int)[j] == es.take(k + 1)[j]);
                                assert(names_repo(es.take(k as int), x));
                                assert(table_has(before, x));
                                let i = choose|i: int| 0 <= i < before.len() && #[trigger] before[i].0@ == x;
                                assert(table@[i] == before[i]);
                            } else {
                                assert(table@[before.len() as int].0@ == x);
                            }
                        }
                    }
                    assert forall|i: int| 0 <= i < table@.len() implies last_summary(es.take(k + 1), #[trigger] table@[i].0@)
                        == Some(table@[i].1@) by {
                        if i < before.len() {
                            assert(table@[i] == before[i]);
                        }
                    }
                }
            },
        }
        k += 1;
    }
    proof {
        assert(es.take(file.repos@.len() as int) =~= es);
    }
    Ok(
        PlanChangeset {
            id: string_of(file.id.as_str()),
            title: string_of(file.title.as_str()),
            description: string_of(file.description.as_str()),
            branch: string_of(file.branch.as_str()),
            repo_summaries: table,
        },
    )
}

/// The position of the first summary for repository `id`.
pub open spec fn summary_index(t: Seq<(RepoId, String)>, id: Seq<char>) -> Option<int>
    decreases t.len(),
{
    if t.len() == 0 {
        None
    } else if t[0].0@ == id {
        Some(0)
    } else {
        match summary_index(t.drop_first(), id) {
            Some(i) => Some(i + 1),
            None => None,
        }
    }
}

/// The active changeset's summary for repository `id`.
pub open spec fn changeset_summary_of(cs: Option<PlanChangeset>, id: Seq<char>) -> Option<Seq<char>> {
    match cs {
        Some(c) => match summary_index(c.repo_summaries@, id) {
            Some(i) => Some(c.repo_summaries@[i].1@),
            None => None,
        },
        None => None,
    }
}

/// The summary a changed repository shows: the changeset's, unless blank.
pub open spec fn shown_summary(cs: Option<PlanChangeset>, id: Seq<char>) -> Option<Seq<char>> {
    match changeset_summary_of(cs, id) {
        Some(s) => if trim_spec(s).len() > 0 {
            Some(s)
        } else {
            None
        },
        None => None,
    }
}

/// A candidate counts as changed when it has changes, is included, or the
/// active changeset names it.
pub open spec fn counts_as_changed(c: PlanCandidate, included: Seq<Seq<char>>, cs: Option<PlanChangeset>) -> bool {
    !spec_clean(c.status) || included.contains(c.id@) || changeset_summary_of(cs, c.id@) is Some
}

/// The positions of the candidates that count as changed.
pub open spec fn changed_positions(cands: Seq<PlanCandidate>, included: Seq<Seq<char>>, cs: Option<PlanChangeset>) -> Seq<
    int,
>
    decreases cands.len(),
{
    if cands.len() == 0 {
        Seq::empty()
    } else if counts_as_changed(cands.last(), included, cs) {
        changed_positions(cands.drop_last(), included, cs).push(cands.len() - 1)
    } else {
        changed_positions(cands.drop_last(), included, cs)
    }
}

/// The changed repository made from a candidate.
pub open spec fn changed_from(r: PlanChangedRepo, c: PlanCandidate, cs: Option<PlanChangeset>) -> bool {
    &&& r.id@ == c.id@
    &&& r.branch == c.branch
    &&& r.status == c.status
    &&& r.diff_stat == c.diff_stat
    &&& opt_string_view(r.changeset_summary) == shown_summary(cs, c.id@)
}

proof fn lemma_summary_index_at(t: Seq<(RepoId, String)>, id: Seq<char>, i: int)
    requires
        0 <= i <= t.len(),
        forall|k: int| 0 <= k < i ==> #[trigger] t[k].0@ != id,
        i == t.len() || t[i].0@ == id,
    ensures
        summary_index(t, id) == (if i == t.len() { None } else { Some(i) }),
    decreases i,
{
    if i > 0 {
        let u = t.drop_first();
        assert forall|k: int| 0 <= k < i - 1 implies #[trigger] u[k].0@ != id by {
            assert(u[k] == t[k + 1]);
        }
        if i < t.len() {
            assert(u[i - 1] == t[i]);
        }
        lemma_summary_index_at(u, id, i - 1);
    }
}

/// The active changeset's summary for repository `id`.
fn find_summary(cs: &Option<PlanChangeset>, id: &str) -> (r: Option<String>)
    ensures
        opt_string_view(r) == changeset_summary_of(*cs, id@),
{
    match cs {
        None => None,
        Some(c) => {
            let t = &c.repo_summaries;
            let mut i: usize = 0;
            while i < t.len()
                invariant
                    *cs == Some(*c),
                    t == &c.repo_summaries,
                    i <= t@.len(),
                    forall|k: int| 0 <= k < i ==> #[trigger] t@[k].0@ != id@,
                decreases t@.len() - i,
            {
                if str_eq(t[i].0.as_str(), id) {
                    proof {
                        lemma_summary_index_at(t@, id@, i as int);
                    }
                    return Some(string_of(t[i].1.as_str()));
                }
                i += 1;
            }
            proof {
                lemma_summary_index_at(t@, id@, t@.len() as int);
            }
            None
        },
    }
}

/// The changed repositories, in candidate order.
pub fn plan_changed_repos(cands: Vec<PlanCandidate>, included: &Vec<RepoId>, changeset: &Option<PlanChangeset>) -> (r: Vec<
    PlanChangedRepo,
>)
    ensures
        r@.len() == changed_positions(cands@, id_views(included@), *changeset).len(),
        forall|j: int|
            0 <= j < r@.len() ==> 0 <= #[trigger] changed_positions(cands@, id_views(included@), *changeset)[j]
                < cands@.len() && changed_from(
                r@[j],
                cands@[changed_positions(cands@, id_views(included@), *changeset)[j]],
                *changeset,
            ),
{
    let ghost orig = cands@;
    let ghost inc = id_views(included@);
    let mut rest = cands;
    let total = rest.len();
    let mut out: Vec<PlanChangedRepo> = Vec::new();
    let mut k: usize = 0;
    while rest.len() > 0
        invariant
            orig.len() == total,
            k <= orig.len(),
            rest@ == orig.skip(k as int),
            rest@.len() == orig.len() - k,
            inc == id_views(included@),
            out@.len() == changed_positions(orig.take(k as int), inc, *changeset).len(),
            forall|j: int|
                0 <= j < out@.len() ==> 0 <= #[trigger] changed_positions(orig.take(k as int), inc, *changeset)[j] < k
                    && changed_from(out@[j], orig[changed_positions(orig.take(k as int), inc, *changeset)[j]], *changeset),
        decreases rest@.len(),
    {
        proof {
            assert(orig.take(k + 1).drop_last() =~= orig.take(k as int));
            assert(orig.take(k + 1).last() == orig[k as int]);
            assert(rest@[0] == orig[k as int]);
        }
        let c = rest.remove(0);
        proof {
            assert(rest@ =~= orig.skip(k + 1));
        }
        let summary = find_summary(changeset, c.id.as_str());
        let listed = {
            let mut found = false;
            let mut a: usize = 0;
            while a < included.len()
                invariant
                    a <= included@.len(),
                    inc == id_views(included@),
                    found == inc.take(a as int).contains(c.id@),
                decreases included@.len() - a,
            {
                proof {
                    vstd::seq_lib::lemma_seq_contains_after_push(inc.take(a as int), inc[a as int], c.id@);
                    assert(inc.take(a + 1) =~= inc.take(a as int).push(inc[a as int]));
                }
                if str_eq(included[a].as_str(), c.id.as_str()) {
                    found = true;
                }
                a += 1;
            }
            proof {
                assert(inc.take(included@.len() as int) =~= inc);
            }
            found
        };
        let clean = c.status.is_clean();
        if !clean || listed || summary.is_some() {
            let shown = match summary {
                Some(s) => {
                    let t = trim_str(s.as_str());
                    if to_chars(t.as_str()).len() > 0 {
                        Some(s)
                    } else {
                        None
                    }
                },
                None => None,
            };
            let ghost before = out@;
            let ghost cv = c;
            out.push(PlanChangedRepo { id: c.id, branch: c.branch, status: c.status, diff_stat: c.diff_stat, changeset_summary: shown });
            proof {
                assert(counts_as_changed(cv, inc, *changeset));
                assert(changed_positions(orig.take(k + 1), inc, *changeset) =~= changed_positions(orig.take(k as int), inc, *changeset).push(k as int));
                assert(changed_from(out@[out@.len() - 1], orig[k as int], *changeset));
                assert forall|j: int| 0 <= j < out@.len() implies 0 <= #[trigger] changed_positions(orig.take(k + 1), inc, *changeset)[j] < k + 1
                    && changed_from(out@[j], orig[changed_positions(orig.take(k + 1), inc, *changeset)[j]], *changeset) by {
                    if j < before.len() {
                        assert(out@[j] == before[j]);
                        assert(changed_positions(orig.take(k + 1), inc, *changeset)[j] == changed_positions(orig.take(k as int), inc, *changeset)[j]);
                    }
                }
            }
        } else {
            proof {
                assert(!counts_as_changed(c, inc, *changeset));
                assert(changed_positions(orig.take(k + 1), inc, *changeset) == changed_positions(orig.take(k as int), inc, *changeset));
            }
        }
        k += 1;
    }
    proof {
        assert(orig.take(k as int) =~= orig);
    }
    out
}

/// The plan from its changed repositories: their merge order, and the
/// recommendations drawn from the constraint report.
pub fn assemble_plan(
    workspace: &Workspace,
    changed: Vec<PlanChangedRepo>,
    changeset: Option<PlanChangeset>,
    constraints: ConstraintReport,
) -> (r: Result<PlanSummary, HarmoniaError>)
    ensures
        match r {
            Ok(p) => {
                &&& p.changed == changed
                &&& p.changeset == changeset
                &&& p.constraints == constraints
                &&& views(p.recommendations@) == spec_recommendations(changed@.len(), constraints)
                &&& changed@.len() == 0 ==> p.merge_order@.len() == 0
                &&& changed@.len() > 0 ==> greedy_prefix(
                    graph_deps(workspace.graph.entries(), workspace.repos@),
                    merge_set(workspace.graph.entries(), workspace.repos@, changed_ids(changed@)),
                    id_views(p.merge_order@),
                ) && p.merge_order@.len() == merge_set(workspace.graph.entries(), workspace.repos@, changed_ids(changed@)).len()
            },
            Err(HarmoniaError::Other(m)) => changed@.len() > 0 && m@ == "cycle detected in dependency graph"@ && exists|
                q: Seq<Seq<char>>,
            |
                greedy_prefix(
                    graph_deps(workspace.graph.entries(), workspace.repos@),
                    merge_set(workspace.graph.entries(), workspace.repos@, changed_ids(changed@)),
                    q,
                ) && stuck(
                    graph_deps(workspace.graph.entries(), workspace.repos@),
                    merge_set(workspace.graph.entries(), workspace.repos@, changed_ids(changed@)),
                    q,
                ) && q.len() < merge_set(workspace.graph.entries(), workspace.repos@, changed_ids(changed@)).len(),
            Err(_) => false,
        },
{
    let mut order: Vec<RepoId> = Vec::new();
    if changed.len() > 0 {
        let mut targets: Vec<RepoId> = Vec::new();
        let mut i: usize = 0;
        while i < changed.len()
            invariant
                i <= changed@.len(),
                id_views(targets@) == changed_ids(changed@).take(i as int),
            decreases changed@.len() - i,
        {
            let ghost before = id_views(targets@);
            targets.push(changed[i].id.duplicate());
            proof {
                assert(id_views(targets@) =~= before.push(changed@[i as int].id@));
                assert(changed_ids(changed@).take(i + 1) =~= changed_ids(changed@).take(i as int).push(changed@[i as int].id@));
            }
            i += 1;
        }
        proof {
            assert(changed_ids(changed@).take(changed@.len() as int) =~= changed_ids(changed@));
        }
        match merge_order(&workspace.graph, &workspace.repos, targets.as_slice()) {
            Ok(o) => {
                order = o;
            },
            Err(e) => {
                return Err(HarmoniaError::Other(e.message()));
            },
        }
    }
    let recommendations = plan_recommendations(changed.as_slice(), &constraints);
    Ok(PlanSummary { changed, merge_order: order, constraints, recommendations, changeset })
}

/// The diff statistics a changed repository shows: the trimmed output of
/// `git diff --shortstat`, a note when it is empty, another when git failed.
pub open spec fn spec_shortstat_summary(output: Option<Seq<char>>) -> Seq<char> {
    match output {
        None => "diff stat unavailable"@,
        Some(o) => if trim_spec(o).len() == 0 {
            "no textual diff stats"@
        } else {
            trim_spec(o)
        },
    }
}

/// The diff statistics a changed repository shows.
pub fn shortstat_summary(output: Option<&str>) -> (r: String)
    ensures
        r@ == spec_shortstat_summary(crate::text::opt_str_view(output)),
{
    match output {
        None => string_of("diff stat unavailable"),
        Some(o) => {
            let t = trim_str(o);
            if to_chars(t.as_str()).len() == 0 {
                string_of("no textual diff stats")
            } else {
                t
            }
        },
    }
}

} // verus!
