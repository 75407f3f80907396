//! How a selection of repositories grows along the dependency graph, and
//! the order in which the selected repositories are visited.
use vstd::prelude::*;
use crate::cli::plan::{id_strings, order_by_sequence, spec_ordered_plan};
use crate::cli::select::{find_repo, lemma_repo_index_found, repo_index, should_include_repo, spec_include};
use crate::graph::model::{dep_rel, dependent_rel, reaches};
use crate::graph::ops::{graph_deps, graph_keys, topological_order, transitive_dependencies, transitive_dependents, OrderError};
use crate::graph::topo::{greedy_prefix, stuck};
use crate::order::{insert_sorted_unique, strictly_sorted, views};
use crate::project::repo::{Repo, RepoId, id_views};
use crate::project::workspace::Workspace;
use crate::text::string_of;

verus! {

/// Some name of `ids` reaches `x` under `rel`.
pub open spec fn reached_from_some(rel: spec_fn(Seq<char>, Seq<char>) -> bool, ids: Seq<Seq<char>>, x: Seq<char>) -> bool {
    exists|k: int| 0 <= k < ids.len() && #[trigger] reaches(rel, ids[k], x)
}

/// The repositories a branch operation reaches from `ids`: the given ones,
/// with what depends on them (directly or not) when asked, and also what
/// they depend on when all dependencies are asked for.
pub open spec fn in_branch_scope(ws: Workspace, ids: Seq<Seq<char>>, with_dependents: bool, with_all: bool, x: Seq<char>) -> bool {
    ||| ids.contains(x)
    ||| (with_dependents || with_all) && reached_from_some(dependent_rel(ws.graph.entries(), ws.repos@), ids, x)
    ||| with_all && reached_from_some(dep_rel(ws.graph.entries(), ws.repos@), ids, x)
}

/// A repository of the workspace that takes part: listed, neither ignored
/// nor external.
pub open spec fn selectable(rs: Seq<Repo>, x: Seq<char>) -> bool {
    match repo_index(rs, x) {
        Some(i) => spec_include(rs[i], false),
        None => false,
    }
}

/// Adds the names of `more` to the sorted set `acc`.
pub(crate) fn add_all(acc: &mut Vec<String>, more: &Vec<RepoId>)
    requires
        strictly_sorted(views(old(acc)@)),
    ensures
        strictly_sorted(views(final(acc)@)),
        forall|x: Seq<char>| #[trigger] views(final(acc)@).contains(x) <==> views(old(acc)@).contains(x) || id_views(
            more@,
        ).contains(x),
{
    let ghost start = views(acc@);
    let mut m: usize = 0;
    while m < more.len()
        invariant
            m <= more@.len(),
            strictly_sorted(views(acc@)),
            forall|x: Seq<char>| #[trigger] views(acc@).contains(x) <==> start.contains(x) || id_views(more@).take(
                m as int,
            ).contains(x),
        decreases more@.len() - m,
    {
        let ghost before = views(acc@);
        insert_sorted_unique(acc, string_of(more[m].as_str()));
        proof {
            assert(id_views(more@).take(m + 1) =~= id_views(more@).take(m as int).push(more@[m as int]@));
            assert forall|x: Seq<char>| #[trigger] views(acc@).contains(x) <==> start.contains(x) || id_views(
                more@,
            ).take(m + 1).contains(x) by {
                assert(views(acc@).to_set().contains(x) == views(acc@).contains(x));
                assert(before.to_set().contains(x) == before.contains(x));
                vstd::seq_lib::lemma_seq_contains_after_push(id_views(more@).take(m as int), more@[m as int]@, x);
            }
        }
        m += 1;
    }
    proof {
        assert(id_views(more@).take(more@.len() as int) =~= id_views(more@));
    }
}

/// Reaching from the first `k + 1` names is reaching from the first `k` or
/// from name `k`.
pub proof fn lemma_reached_step(rel: spec_fn(Seq<char>, Seq<char>) -> bool, ids: Seq<Seq<char>>, k: int, x: Seq<char>)
    requires
        0 <= k < ids.len(),
    ensures
        reached_from_some(rel, ids.take(k + 1), x) == (reached_from_some(rel, ids.take(k), x) || reaches(rel, ids[k], x)),
{
    if reached_from_some(rel, ids.take(k + 1), x) {
        let j = choose|j: int| 0 <= j < ids.take(k + 1).len() && #[trigger] reaches(rel, ids.take(k + 1)[j], x);
        if j < k {
            assert(ids.take(k)[j] == ids[j]);
            assert(reaches(rel, ids.take(k)[j], x));
        }
    }
    if reached_from_some(rel, ids.take(k), x) {
        let j = choose|j: int| 0 <= j < ids.take(k).len() && #[trigger] reaches(rel, ids.take(k)[j], x);
        assert(ids.take(k + 1)[j] == ids[j]);
        assert(reaches(rel, ids.take(k + 1)[j], x));
    }
    if reaches(rel, ids[k], x) {
        assert(ids.take(k + 1)[k] == ids[k]);
        assert(reaches(rel, ids.take(k + 1)[k], x));
    }
}

/// The repositories a branch operation acts on, sorted: the given ones,
/// grown along the dependency graph as asked, keeping those that take part.
pub fn expand_branch_scope(workspace: &Workspace, ids: &Vec<RepoId>, include_dependents: bool, include_all_deps: bool) -> (r:
    Vec<RepoId>)
    ensures
        strictly_sorted(id_views(r@)),
        forall|x: Seq<char>| #[trigger] id_views(r@).contains(x) <==> in_branch_scope(
            *workspace,
            id_views(ids@),
            include_dependents,
            include_all_deps,
            x,
        ) && selectable(workspace.repos@, x),
{
    let ghost iv = id_views(ids@);
    let ghost down = dependent_rel(workspace.graph.entries(), workspace.repos@);
    let ghost up = dep_rel(workspace.graph.entries(), workspace.repos@);
    let mut acc: Vec<String> = Vec::new();
    let mut k: usize = 0;
    while k < ids.len()
        invariant
            k <= ids@.len(),
            iv == id_views(ids@),
            down == dependent_rel(workspace.graph.entries(), workspace.repos@),
            up == dep_rel(workspace.graph.entries(), workspace.repos@),
            strictly_sorted(views(acc@)),
            forall|x: Seq<char>| #[trigger] views(acc@).contains(x) <==> iv.take(k as int).contains(x) || (
            include_dependents || include_all_deps) && reached_from_some(down, iv.take(k as int), x) || include_all_deps
                && reached_from_some(up, iv.take(k as int), x),
        decreases ids@.len() - k,
    {
        let ghost before = views(acc@);
        let one = vec![ids[k].duplicate()];
        add_all(&mut acc, &one);
        proof {
            assert(id_views(one@) =~= seq![iv[k as int]]);
        }
        let ghost mid = views(acc@);
        if include_dependents || include_all_deps {
            let found = transitive_dependents(&workspace.graph, &workspace.repos, &ids[k]);
            add_all(&mut acc, &found);
        }
        let ghost mid2 = views(acc@);
        if include_all_deps {
            let found = transitive_dependencies(&workspace.graph, &workspace.repos, &ids[k]);
            add_all(&mut acc, &found);
        }
        proof {
            assert(iv.take(k + 1) =~= iv.take(k as int).push(iv[k as int]));
            assert forall|x: Seq<char>| #[trigger] views(acc@).contains(x) <==> iv.take(k + 1).contains(x) || (
            include_dependents || include_all_deps) && reached_from_some(down, iv.take(k + 1), x) || include_all_deps
                && reached_from_some(up, iv.take(k + 1), x) by {
                lemma_reached_step(down, iv, k as int, x);
                lemma_reached_step(up, iv, k as int, x);
                vstd::seq_lib::lemma_seq_contains_after_push(iv.take(k as int), iv[k as int], x);
                assert(seq![iv[k as int]].contains(x) == (x == iv[k as int])) by {
                    if x == iv[k as int] {
                        assert(seq![iv[k as int]][0] == x);
                    }
                }
            }
        }
        k += 1;
    }
    proof {
        assert(iv.take(ids@.len() as int) =~= iv);
    }
    let rs = &workspace.repos;
    let mut kept: Vec<String> = Vec::new();
    let mut j: usize = 0;
    while j < acc.len()
        invariant
            j <= acc@.len(),
            rs == &workspace.repos,
            strictly_sorted(views(kept@)),
            forall|x: Seq<char>| #[trigger] views(kept@).contains(x) <==> views(acc@).take(j as int).contains(x)
                && selectable(rs@, x),
        decreases acc@.len() - j,
    {
        let ghost before = views(kept@);
        let ghost a = views(acc@)[j as int];
        proof {
            assert(views(acc@).take(j + 1) =~= views(acc@).take(j as int).push(a));
        }
        let mut keep = false;
        match find_repo(rs, acc[j].as_str()) {
            Some(i) => {
                proof {
                    lemma_repo_index_found(rs@, a);
                }
                keep = should_include_repo(&rs[i], false);
            },
            None => {},
        }
        assert(keep == selectable(rs@, a));
        if keep {
            insert_sorted_unique(&mut kept, string_of(acc[j].as_str()));
        }
        proof {
            assert forall|x: Seq<char>| #[trigger] views(kept@).contains(x) <==> views(acc@).take(j + 1).contains(x)
                && selectable(rs@, x) by {
                assert(views(kept@).to_set().contains(x) == views(kept@).contains(x));
                assert(before.to_set().contains(x) == before.contains(x));
                vstd::seq_lib::lemma_seq_contains_after_push(views(acc@).take(j as int), a, x);
            }
        }
        j += 1;
    }
    proof {
        assert(views(acc@).take(acc@.len() as int) =~= views(acc@));
    }
    let mut out: Vec<RepoId> = Vec::new();
    let mut m: usize = 0;
    while m < kept.len()
        invariant
            m <= kept@.len(),
            id_views(out@) == views(kept@).take(m as int),
        decreases kept@.len() - m,
    {
        let ghost before = id_views(out@);
        out.push(RepoId::new(kept[m].as_str()));
        proof {
            assert(id_views(out@) =~= before.push(views(kept@)[m as int]));
            assert(views(kept@).take(m + 1) =~= views(kept@).take(m as int).push(views(kept@)[m as int]));
        }
        m += 1;
    }
    proof {
        assert(views(kept@).take(kept@.len() as int) =~= views(kept@));
    }
    out
}

/// The given repositories in dependency-first order, those without a place
/// in it last, sorted by name.
pub fn repos_in_graph_order(workspace: &Workspace, ids: &Vec<RepoId>) -> (r: Result<Vec<RepoId>, OrderError>)
    ensures
        match r {
            Ok(v) => exists|o: Seq<Seq<char>>|
                greedy_prefix(
                    graph_deps(workspace.graph.entries(), workspace.repos@),
                    graph_keys(workspace.graph.entries()),
                    o,
                ) && o.len() == workspace.graph.entries().len() && id_views(v@) == spec_ordered_plan(o, id_views(ids@)),
            Err(_) => exists|p: Seq<Seq<char>>|
                greedy_prefix(
                    graph_deps(workspace.graph.entries(), workspace.repos@),
                    graph_keys(workspace.graph.entries()),
                    p,
                ) && stuck(graph_deps(workspace.graph.entries(), workspace.repos@), graph_keys(workspace.graph.entries()), p)
                    && p.len() < workspace.graph.entries().len(),
        },
{
    match topological_order(&workspace.graph, &workspace.repos) {
        Ok(order) => {
            let names = id_strings(ids);
            let v = order_by_sequence(&order, &names);
            proof {
                assert(id_views(order@).len() == order@.len());
            }
            Ok(v)
        },
        Err(e) => Err(e),
    }
}

} // verus!
