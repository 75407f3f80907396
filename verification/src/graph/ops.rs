//! Queries over the dependency graph: resolution of dependencies to
//! repositories, reachability, dependency-first orders and cycles.
use vstd::prelude::*;
use crate::graph::{DependencyGraph, find_key, key_index, unique_keys};
use crate::graph::closure::{reachable_from, table_edge, table_rel};
use crate::graph::model::{all_missing, dep_edge, dep_rel, dependent_rel, internal_targets, is_walk, lookup_package, missing_of, package_of, reaches};
use crate::graph::topo::{greedy_prefix, order_nodes, ready, stuck, table_deps, lemma_greedy_dependency_first, lemma_greedy_distinct};
use crate::order::{insert_sorted_unique, strictly_sorted, views, lemma_sorted_distinct, lemma_distinct_len_le};
use crate::project::repo::{Dependency, DependencyView, Repo, RepoId, id_views, dep_views, deps_parsed, duplicate_deps};
use crate::graph::constraint::graph_parsed;
use crate::text::{str_eq, string_of};

verus! {

/// An internal dependency that no repository of the workspace provides.
#[derive(Debug)]
pub struct MissingDependency {
    pub from: RepoId,
    pub dependency: Dependency,
}

impl MissingDependency {
    pub open spec fn view(&self) -> (Seq<char>, DependencyView) {
        (self.from@, self.dependency.view())
    }
}

/// Each missing dependency's requirement holds what `semver` parses from
/// its text.
pub open spec fn missing_parsed(ms: Seq<MissingDependency>) -> bool {
    forall|k: int| 0 <= k < ms.len() ==> #[trigger] ms[k].dependency.constraint.parsed()
}

/// The views of a list of missing dependencies.
pub open spec fn missing_views(v: Seq<MissingDependency>) -> Seq<(Seq<char>, DependencyView)> {
    v.map_values(|m: MissingDependency| m.view())
}

/// Each repository's internal dependencies resolved to repositories, and the
/// internal dependencies that could not be resolved.
#[derive(Debug)]
pub struct ResolvedGraph {
    pub edges: Vec<(RepoId, Vec<RepoId>)>,
    pub missing: Vec<MissingDependency>,
}

/// The resolved table of `g`: same keys in the same order, each listing the
/// repositories its internal dependencies resolve to.
pub open spec fn resolves(t: Seq<(RepoId, Vec<RepoId>)>, g: Seq<(RepoId, Vec<Dependency>)>, rs: Seq<Repo>) -> bool {
    &&& t.len() == g.len()
    &&& forall|i: int|
        0 <= i < t.len() ==> #[trigger] t[i].0@ == g[i].0@ && id_views(t[i].1@) == internal_targets(
            rs,
            g[i].1@,
        )
}

/// The repositories each repository depends on directly (none for a
/// repository without an entry).
pub open spec fn graph_deps(g: Seq<(RepoId, Vec<Dependency>)>, rs: Seq<Repo>) -> spec_fn(Seq<char>) -> Seq<Seq<char>> {
    |x: Seq<char>|
        match key_index(g, x) {
            Some(i) => internal_targets(rs, g[i].1@),
            None => Seq::empty(),
        }
}

/// The repositories that have an entry in the graph.
pub open spec fn graph_keys(g: Seq<(RepoId, Vec<Dependency>)>) -> Set<Seq<char>> {
    Set::new(|k: Seq<char>| exists|i: int| 0 <= i < g.len() && #[trigger] g[i].0@ == k)
}

/// The repositories to order for a merge of `targets`: the targets and every
/// repository they depend on, directly or not.
pub open spec fn merge_set(g: Seq<(RepoId, Vec<Dependency>)>, rs: Seq<Repo>, targets: Seq<Seq<char>>) -> Set<Seq<char>> {
    Set::new(
        |x: Seq<char>|
            exists|k: int|
                0 <= k < targets.len() && (x == #[trigger] targets[k] || reaches(dep_rel(g, rs), targets[k], x)),
    )
}

/// `deps` lists an internal dependency named `name`.
pub open spec fn declares_internal(deps: Seq<Dependency>, name: Seq<char>) -> bool {
    exists|k: int| 0 <= k < deps.len() && #[trigger] deps[k].is_internal && deps[k].name@ == name
}

/// The repositories, in entry order, that declare an internal dependency on
/// package `name`.
pub open spec fn dependents_spec(g: Seq<(RepoId, Vec<Dependency>)>, name: Seq<char>) -> Seq<Seq<char>>
    decreases g.len(),
{
    if g.len() == 0 {
        Seq::empty()
    } else if declares_internal(g.last().1@, name) {
        dependents_spec(g.drop_last(), name).push(g.last().0@)
    } else {
        dependents_spec(g.drop_last(), name)
    }
}

/// The internal dependencies among `deps`, in order.
pub open spec fn internal_only(deps: Seq<DependencyView>) -> Seq<DependencyView>
    decreases deps.len(),
{
    if deps.len() == 0 {
        Seq::empty()
    } else if deps.last().2 {
        internal_only(deps.drop_last()).push(deps.last())
    } else {
        internal_only(deps.drop_last())
    }
}

/// Why no dependency-first order exists.
#[derive(Debug, Clone, Copy, PartialEq, Eq, Structural)]
pub enum OrderError {
    Cycle,
}

impl OrderError {
    pub open spec fn spec_message(&self) -> Seq<char> {
        "cycle detected in dependency graph"@
    }

    /// The error's text.
    pub fn message(&self) -> (r: String)
        ensures
            r@ == self.spec_message(),
    {
        string_of("cycle detected in dependency graph")
    }
}

/// The package a repository provides.
pub fn package_name_of(r: &Repo) -> (s: String)
    ensures
        s@ == package_of(*r),
{
    match &r.package_name {
        Some(n) => n.clone(),
        None => string_of(r.id.as_str()),
    }
}

/// The repository that provides each package; when several provide the same
/// package, the last one listed.
pub fn package_map(repos: &Vec<Repo>) -> (m: Vec<(String, RepoId)>)
    ensures
        forall|i: int, j: int| 0 <= i < j < m@.len() ==> #[trigger] m@[i].0@ != #[trigger] m@[j].0@,
        forall|i: int| 0 <= i < m@.len() ==> lookup_package(repos@, #[trigger] m@[i].0@) == Some(m@[i].1@),
        forall|name: Seq<char>| #[trigger] lookup_package(repos@, name) is Some ==> exists|i: int|
            0 <= i < m@.len() && #[trigger] m@[i].0@ == name,
{
    let mut m: Vec<(String, RepoId)> = Vec::new();
    let mut i: usize = 0;
    while i < repos.len()
        invariant
            i <= repos@.len(),
            forall|a: int, b: int| 0 <= a < b < m@.len() ==> #[trigger] m@[a].0@ != #[trigger] m@[b].0@,
            forall|a: int|
                0 <= a < m@.len() ==> lookup_package(repos@.take(i as int), #[trigger] m@[a].0@) == Some(
                    m@[a].1@,
                ),
            forall|name: Seq<char>| #[trigger]
                lookup_package(repos@.take(i as int), name) is Some ==> exists|a: int|
                    0 <= a < m@.len() && #[trigger] m@[a].0@ == name,
        decreases repos@.len() - i,
    {
        let r = &repos[i];
        let name = package_name_of(r);
        let id = r.id.duplicate();
        let ghost pre = repos@.take(i as int);
        let ghost post = repos@.take(i + 1);
        let ghost old_m = m@;
        proof {
            assert(post.drop_last() =~= pre);
            assert(post.last() == repos@[i as int]);
        }
        let mut k: usize = 0;
        let mut found: Option<usize> = None;
        while k < m.len()
            invariant_except_break
                found is None,
            invariant
                k <= m@.len(),
                forall|a: int| 0 <= a < k ==> #[trigger] m@[a].0@ != name@,
            ensures
                found matches Some(j) ==> j < m@.len() && m@[j as int].0@ == name@,
                found is None ==> forall|a: int| 0 <= a < m@.len() ==> #[trigger] m@[a].0@ != name@,
            decreases m@.len() - k,
        {
            if str_eq(m[k].0.as_str(), name.as_str()) {
                found = Some(k);
                break;
            }
            k += 1;
        }
        let ghost nv = name@;
        let ghost idv = id@;
        match found {
            Some(j) => {
                let key = string_of(name.as_str());
                m.set(j, (key, id));
                proof {
                    assert forall|a: int, b: int| 0 <= a < b < m@.len() implies #[trigger] m@[a].0@
                        != #[trigger] m@[b].0@ by {
                        assert(m@[a].0@ == old_m[a].0@ && m@[b].0@ == old_m[b].0@);
                    }
                    assert forall|a: int| 0 <= a < m@.len() implies lookup_package(post, #[trigger] m@[a].0@)
                        == Some(m@[a].1@) by {
                        if a != j {
                            assert(m@[a] == old_m[a]);
                            assert(old_m[a].0@ != nv);
                        }
                    }
                    assert forall|nm: Seq<char>| #[trigger] lookup_package(post, nm) is Some implies exists|a: int|
                        0 <= a < m@.len() && #[trigger] m@[a].0@ == nm by {
                        if nm == nv {
                            assert(m@[j as int].0@ == nm);
                        } else {
                            assert(lookup_package(pre, nm) is Some);
                            let a = choose|a: int| 0 <= a < old_m.len() && #[trigger] old_m[a].0@ == nm;
                            assert(m@[a].0@ == nm);
                        }
                    }
                }
            },
            None => {
                m.push((name, id));
                proof {
                    assert forall|a: int, b: int| 0 <= a < b < m@.len() implies #[trigger] m@[a].0@
                        != #[trigger] m@[b].0@ by {
                        if b < old_m.len() {
                            assert(m@[a] == old_m[a] && m@[b] == old_m[b]);
                        } else {
                            assert(m@[a] == old_m[a]);
                        }
                    }
                    assert forall|a: int| 0 <= a < m@.len() implies lookup_package(post, #[trigger] m@[a].0@)
                        == Some(m@[a].1@) by {
                        if a < old_m.len() {
                            assert(m@[a] == old_m[a]);
                        }
                    }
                    assert forall|nm: Seq<char>| #[trigger] lookup_package(post, nm) is Some implies exists|a: int|
                        0 <= a < m@.len() && #[trigger] m@[a].0@ == nm by {
                        if nm == nv {
                            assert(m@[old_m.len() as int].0@ == nm);
                        } else {
                            assert(lookup_package(pre, nm) is Some);
                            let a = choose|a: int| 0 <= a < old_m.len() && #[trigger] old_m[a].0@ == nm;
                            assert(m@[a].0@ == nm);
                        }
                    }
                }
            },
        }
        i += 1;
    }
    proof {
        assert(repos@.take(repos@.len() as int) =~= repos@);
    }
    m
}

/// The repository the package map gives for `name`.
pub(crate) fn map_get(m: &Vec<(String, RepoId)>, repos: Ghost<Seq<Repo>>, name: &str) -> (r: Option<RepoId>)
    requires
        forall|i: int| 0 <= i < m@.len() ==> lookup_package(repos@, #[trigger] m@[i].0@) == Some(m@[i].1@),
        forall|nm: Seq<char>| #[trigger] lookup_package(repos@, nm) is Some ==> exists|i: int|
            0 <= i < m@.len() && #[trigger] m@[i].0@ == nm,
    ensures
        match r {
            Some(id) => lookup_package(repos@, name@) == Some(id@),
            None => lookup_package(repos@, name@) is None,
        },
{
    let mut i: usize = 0;
    while i < m.len()
        invariant
            i <= m@.len(),
            forall|a: int| 0 <= a < i ==> #[trigger] m@[a].0@ != name@,
            forall|a: int| 0 <= a < m@.len() ==> lookup_package(repos@, #[trigger] m@[a].0@) == Some(m@[a].1@),
        decreases m@.len() - i,
    {
        if str_eq(m[i].0.as_str(), name) {
            proof {
                assert(lookup_package(repos@, m@[i as int].0@) == Some(m@[i as int].1@));
            }
            return Some(m[i].1.duplicate());
        }
        i += 1;
    }
    proof {
        if lookup_package(repos@, name@) is Some {
            let a = choose|a: int| 0 <= a < m@.len() && #[trigger] m@[a].0@ == name@;
            assert(m@[a].0@ != name@);
        }
    }
    None
}

/// Resolves every internal dependency of every entry to the repository that
/// provides it; the ones no repository provides are collected as missing.
pub fn resolve_internal_edges(graph: &DependencyGraph, repos: &Vec<Repo>) -> (r: ResolvedGraph)
    ensures
        resolves(r.edges@, graph.entries(), repos@),
        missing_views(r.missing@) == all_missing(repos@, graph.entries()),
        graph_parsed(graph.entries()) ==> missing_parsed(r.missing@),
{
    let map = package_map(repos);
    let entries = graph.edges();
    let ghost g = graph.entries();
    let ghost rs = repos@;
    let mut edges: Vec<(RepoId, Vec<RepoId>)> = Vec::new();
    let mut missing: Vec<MissingDependency> = Vec::new();
    let mut i: usize = 0;
    while i < entries.len()
        invariant
            g == entries@,
            rs == repos@,
            i <= g.len(),
            forall|a: int| 0 <= a < map@.len() ==> lookup_package(rs, #[trigger] map@[a].0@) == Some(map@[a].1@),
            forall|nm: Seq<char>| #[trigger] lookup_package(rs, nm) is Some ==> exists|a: int|
                0 <= a < map@.len() && #[trigger] map@[a].0@ == nm,
            edges@.len() == i,
            forall|a: int|
                0 <= a < i ==> #[trigger] edges@[a].0@ == g[a].0@ && id_views(edges@[a].1@)
                    == internal_targets(rs, g[a].1@),
            missing_views(missing@) == all_missing(rs, g.take(i as int)),
            graph_parsed(g) ==> missing_parsed(missing@),
        decreases g.len() - i,
    {
        let from = &entries[i].0;
        let deps = &entries[i].1;
        let mut targets: Vec<RepoId> = Vec::new();
        let ghost miss0 = missing_views(missing@);
        let mut k: usize = 0;
        while k < deps.len()
            invariant
                g == entries@,
                rs == repos@,
                i < g.len(),
                deps == &g[i as int].1,
                from == &g[i as int].0,
                forall|a: int| 0 <= a < map@.len() ==> lookup_package(rs, #[trigger] map@[a].0@) == Some(map@[a].1@),
                forall|nm: Seq<char>| #[trigger] lookup_package(rs, nm) is Some ==> exists|a: int|
                    0 <= a < map@.len() && #[trigger] map@[a].0@ == nm,
                k <= deps@.len(),
                id_views(targets@) == internal_targets(rs, deps@.take(k as int)),
                missing_views(missing@) == miss0 + missing_of(rs, from@, deps@.take(k as int)),
                graph_parsed(g) ==> missing_parsed(missing@),
            decreases deps@.len() - k,
        {
            let dep = &deps[k];
            let ghost pre = deps@.take(k as int);
            let ghost post = deps@.take(k + 1);
            proof {
                assert(post.drop_last() =~= pre);
                assert(post.last() == deps@[k as int]);
            }
            if dep.is_internal {
                match map_get(&map, Ghost(rs), dep.name.as_str()) {
                    Some(target) => {
                        let ghost before = id_views(targets@);
                        let ghost tv = target@;
                        targets.push(target);
                        proof {
                            assert(id_views(targets@) =~= before.push(tv));
                        }
                    },
                    None => {
                        let ghost before = missing_views(missing@);
                        let md = MissingDependency { from: from.duplicate(), dependency: dep.duplicate() };
                        let ghost mv = md.view();
                        let ghost mg = md;
                        let ghost missing_before = missing@;
                        missing.push(md);
                        proof {
                            if graph_parsed(g) {
                                assert(deps_parsed(g[i as int].1@));
                                assert(dep.constraint.parsed());
                                assert(mg.dependency.constraint.parsed());
                                assert forall|m: int| 0 <= m < missing@.len() implies #[trigger] missing@[m].dependency.constraint.parsed() by {
                                    if m < missing_before.len() {
                                        assert(missing@[m] == missing_before[m]);
                                    }
                                }
                            }
                            assert(missing_views(missing@) =~= before.push(mv));
                            assert(missing_of(rs, from@, post) == missing_of(rs, from@, pre).push(mv));
                            assert(miss0 + missing_of(rs, from@, post) =~= (miss0 + missing_of(
                                rs,
                                from@,
                                pre,
                            )).push(mv));
                        }
                    },
                }
            }
            k += 1;
        }
        proof {
            assert(deps@.take(deps@.len() as int) =~= deps@);
            assert(g.take(i + 1).drop_last() =~= g.take(i as int));
            assert(g.take(i + 1).last() == g[i as int]);
        }
        let ghost before = edges@;
        let ghost tv = id_views(targets@);
        let new_from = from.duplicate();
        edges.push((new_from, targets));
        proof {
            assert(deps@ == g[i as int].1@);
            assert(tv == internal_targets(rs, g[i as int].1@));
            assert(edges@[i as int].0@ == g[i as int].0@);
            assert(id_views(edges@[i as int].1@) == tv);
            assert forall|a: int|
                0 <= a < i + 1 implies #[trigger] edges@[a].0@ == g[a].0@ && id_views(edges@[a].1@)
                == internal_targets(rs, g[a].1@) by {
                if a < i {
                    assert(edges@[a] == before[a]);
                }
            }
            assert(all_missing(rs, g.take(i + 1)) == all_missing(rs, g.take(i as int)) + missing_of(
                rs,
                g[i as int].0@,
                g[i as int].1@,
            ));
        }
        i += 1;
    }
    proof {
        assert(g.take(g.len() as int) =~= g);
    }
    ResolvedGraph { edges, missing }
}

/// A table that resolves `g` describes the dependency relation of `g`.
pub proof fn lemma_resolved_relation(t: Seq<(RepoId, Vec<RepoId>)>, g: Seq<(RepoId, Vec<Dependency>)>, rs: Seq<Repo>)
    requires
        resolves(t, g, rs),
    ensures
        table_rel(t) == dep_rel(g, rs),
{
    assert forall|a: Seq<char>, b: Seq<char>| table_edge(t, a, b) == dep_edge(g, rs, a, b) by {
        if table_edge(t, a, b) {
            let (i, j) = choose|i: int, j: int|
                0 <= i < t.len() && 0 <= j < t[i].1@.len() && #[trigger] t[i].0@ == a && #[trigger] t[i].1@[j]@
                    == b;
            assert(t[i].0@ == g[i].0@);
            assert(id_views(t[i].1@)[j] == b);
            assert(internal_targets(rs, g[i].1@).contains(b));
        }
        if dep_edge(g, rs, a, b) {
            let i = choose|i: int|
                0 <= i < g.len() && #[trigger] g[i].0@ == a && internal_targets(rs, g[i].1@).contains(b);
            assert(t[i].0@ == g[i].0@);
            let j = choose|j: int| 0 <= j < internal_targets(rs, g[i].1@).len() && internal_targets(rs, g[i].1@)[j] == b;
            assert(id_views(t[i].1@)[j] == b);
            assert(t[i].1@[j]@ == b);
        }
    }
    assert(table_rel(t) =~= dep_rel(g, rs));
}

/// A copy of the dependencies of `repo` (none when it has no entry).
pub fn dependencies_for(graph: &DependencyGraph, repo: &RepoId) -> (r: Vec<Dependency>)
    ensures
        match key_index(graph.entries(), repo@) {
            Some(i) => dep_views(r@) == dep_views(graph.entries()[i].1@),
            None => r@.len() == 0,
        },
{
    match graph.get(repo) {
        Some(deps) => duplicate_deps(deps),
        None => Vec::new(),
    }
}

/// A copy of the internal dependencies of `repo`, in order.
pub fn internal_dependencies_for(graph: &DependencyGraph, repo: &RepoId) -> (r: Vec<Dependency>)
    ensures
        match key_index(graph.entries(), repo@) {
            Some(i) => dep_views(r@) == internal_only(dep_views(graph.entries()[i].1@)),
            None => r@.len() == 0,
        },
{
    let all = dependencies_for(graph, repo);
    let ghost av = dep_views(all@);
    let mut out: Vec<Dependency> = Vec::new();
    let mut i: usize = 0;
    while i < all.len()
        invariant
            av == dep_views(all@),
            i <= all@.len(),
            dep_views(out@) == internal_only(av.take(i as int)),
        decreases all@.len() - i,
    {
        proof {
            assert(av.take(i + 1).drop_last() =~= av.take(i as int));
            assert(av.take(i + 1).last() == all@[i as int].view());
        }
        if all[i].is_internal {
            let d = all[i].duplicate();
            let ghost before = dep_views(out@);
            let ghost dv = d.view();
            out.push(d);
            proof {
                assert(dep_views(out@) =~= before.push(dv));
            }
        }
        i += 1;
    }
    proof {
        assert(av.take(av.len() as int) =~= av);
    }
    out
}

/// The repositories, in entry order, that declare an internal dependency on
/// `package`.
pub fn dependents_of(graph: &DependencyGraph, package: &str) -> (r: Vec<RepoId>)
    ensures
        id_views(r@) == dependents_spec(graph.entries(), package@),
{
    let entries = graph.edges();
    let ghost g = graph.entries();
    let mut out: Vec<RepoId> = Vec::new();
    let mut i: usize = 0;
    while i < entries.len()
        invariant
            g == entries@,
            i <= g.len(),
            id_views(out@) == dependents_spec(g.take(i as int), package@),
        decreases g.len() - i,
    {
        let deps = &entries[i].1;
        let mut k: usize = 0;
        let mut hit = false;
        while k < deps.len()
            invariant
                i < g.len(),
                deps == &g[i as int].1,
                k <= deps@.len(),
                hit == exists|a: int| 0 <= a < k && #[trigger] deps@[a].is_internal && deps@[a].name@ == package@,
            decreases deps@.len() - k,
        {
            if deps[k].is_internal && str_eq(deps[k].name.as_str(), package) {
                hit = true;
            }
            k += 1;
        }
        proof {
            assert(g.take(i + 1).drop_last() =~= g.take(i as int));
            assert(g.take(i + 1).last() == g[i as int]);
            assert(hit == declares_internal(g[i as int].1@, package@));
        }
        if hit {
            let ghost before = id_views(out@);
            let id = entries[i].0.duplicate();
            let ghost idv = id@;
            out.push(id);
            proof {
                assert(id_views(out@) =~= before.push(idv));
            }
        }
        i += 1;
    }
    proof {
        assert(g.take(g.len() as int) =~= g);
    }
    out
}

/// Every repository that `repo` depends on, directly or not, sorted by name.
pub fn transitive_dependencies(graph: &DependencyGraph, repos: &Vec<Repo>, repo: &RepoId) -> (r: Vec<RepoId>)
    ensures
        strictly_sorted(id_views(r@)),
        forall|b: Seq<char>| id_views(r@).contains(b) <==> reaches(dep_rel(graph.entries(), repos@), repo@, b),
{
    let resolved = resolve_internal_edges(graph, repos);
    proof {
        lemma_resolved_relation(resolved.edges@, graph.entries(), repos@);
    }
    reachable_from(&resolved.edges, repo.as_str())
}

/// Reversing each step of a walk along `rel` gives a walk along the reverse.
pub proof fn lemma_reverse_reaches(g: Seq<(RepoId, Vec<Dependency>)>, rs: Seq<Repo>, a: Seq<char>, b: Seq<char>)
    ensures
        reaches(dependent_rel(g, rs), a, b) <==> reaches(dep_rel(g, rs), b, a),
{
    let fwd = dep_rel(g, rs);
    let bwd = dependent_rel(g, rs);
    if reaches(bwd, a, b) {
        let p = choose|p: Seq<Seq<char>>| #[trigger] is_walk(bwd, p) && p[0] == a && p.last() == b;
        let q = p.reverse();
        assert forall|k: int| 0 <= k < q.len() - 1 implies #[trigger] fwd(q[k], q[k + 1]) by {
            let m = p.len() - 2 - k;
            assert(bwd(p[m], p[m + 1]));
            assert(q[k] == p[m + 1]);
            assert(q[k + 1] == p[m]);
        }
        assert(is_walk(fwd, q));
        assert(q[0] == b);
        assert(q.last() == a);
    }
    if reaches(fwd, b, a) {
        let p = choose|p: Seq<Seq<char>>| #[trigger] is_walk(fwd, p) && p[0] == b && p.last() == a;
        let q = p.reverse();
        assert forall|k: int| 0 <= k < q.len() - 1 implies #[trigger] bwd(q[k], q[k + 1]) by {
            let m = p.len() - 2 - k;
            assert(fwd(p[m], p[m + 1]));
            assert(q[k] == p[m + 1]);
            assert(q[k + 1] == p[m]);
        }
        assert(is_walk(bwd, q));
        assert(q[0] == a);
        assert(q.last() == b);
    }
}

/// Every repository that depends on `repo`, directly or not, sorted by name.
pub fn transitive_dependents(graph: &DependencyGraph, repos: &Vec<Repo>, repo: &RepoId) -> (r: Vec<RepoId>)
    ensures
        strictly_sorted(id_views(r@)),
        forall|b: Seq<char>| id_views(r@).contains(b) <==> reaches(dependent_rel(graph.entries(), repos@), repo@, b),
{
    let resolved = resolve_internal_edges(graph, repos);
    let t = &resolved.edges;
    proof {
        lemma_resolved_relation(t@, graph.entries(), repos@);
    }
    let mut reverse: Vec<(RepoId, Vec<RepoId>)> = Vec::new();
    let mut i: usize = 0;
    while i < t.len()
        invariant
            i <= t@.len(),
            forall|a: Seq<char>, b: Seq<char>|
                table_edge(reverse@, a, b) <==> exists|x: int, y: int|
                    0 <= x < i && 0 <= y < t@[x].1@.len() && #[trigger] t@[x].0@ == b && #[trigger] t@[x].1@[y]@
                        == a,
        decreases t@.len() - i,
    {
        let targets = &t[i].1;
        let mut j: usize = 0;
        while j < targets.len()
            invariant
                i < t@.len(),
                targets == &t@[i as int].1,
                j <= targets@.len(),
                forall|a: Seq<char>, b: Seq<char>|
                    table_edge(reverse@, a, b) <==> (exists|x: int, y: int|
                        0 <= x < i && 0 <= y < t@[x].1@.len() && #[trigger] t@[x].0@ == b
                            && #[trigger] t@[x].1@[y]@ == a) || (exists|y: int|
                        0 <= y < j && t@[i as int].0@ == b && #[trigger] t@[i as int].1@[y]@ == a),
            decreases targets@.len() - j,
        {
            let ghost before = reverse@;
            let mut from: Vec<RepoId> = Vec::new();
            from.push(t[i].0.duplicate());
            let key = targets[j].duplicate();
            let ghost kv = key@;
            let ghost fv = from@;
            reverse.push((key, from));
            proof {
                assert(reverse@ == before.push((key, from)));
                assert forall|a: Seq<char>, b: Seq<char>|
                    table_edge(reverse@, a, b) <==> (exists|x: int, y: int|
                        0 <= x < i && 0 <= y < t@[x].1@.len() && #[trigger] t@[x].0@ == b
                            && #[trigger] t@[x].1@[y]@ == a) || (exists|y: int|
                        0 <= y < j + 1 && t@[i as int].0@ == b && #[trigger] t@[i as int].1@[y]@ == a) by {
                    if table_edge(reverse@, a, b) {
                        let (x, y) = choose|x: int, y: int|
                            0 <= x < reverse@.len() && 0 <= y < reverse@[x].1@.len() && #[trigger] reverse@[x].0@ == a
                                && #[trigger] reverse@[x].1@[y]@ == b;
                        if x < before.len() {
                            assert(before[x] == reverse@[x]);
                            assert(table_edge(before, a, b));
                        } else {
                            assert(reverse@[x].1@ == fv);
                            assert(y == 0);
                            assert(t@[i as int].1@[j as int]@ == a);
                        }
                    }
                    if exists|y: int| 0 <= y < j + 1 && t@[i as int].0@ == b && #[trigger] t@[i as int].1@[y]@ == a {
                        let y = choose|y: int| 0 <= y < j + 1 && t@[i as int].0@ == b && #[trigger] t@[i as int].1@[y]@ == a;
                        if y == j {
                            let x = before.len() as int;
                            assert(reverse@[x].0@ == a);
                            assert(reverse@[x].1@[0]@ == b);
                        } else {
                            assert(table_edge(before, a, b));
                            let (x2, y2) = choose|x2: int, y2: int|
                                0 <= x2 < before.len() && 0 <= y2 < before[x2].1@.len() && #[trigger] before[x2].0@ == a
                                    && #[trigger] before[x2].1@[y2]@ == b;
                            assert(reverse@[x2] == before[x2]);
                        }
                    }
                    if exists|x: int, y: int|
                        0 <= x < i && 0 <= y < t@[x].1@.len() && #[trigger] t@[x].0@ == b && #[trigger] t@[x].1@[y]@
                            == a {
                        assert(table_edge(before, a, b));
                        let (x2, y2) = choose|x2: int, y2: int|
                            0 <= x2 < before.len() && 0 <= y2 < before[x2].1@.len() && #[trigger] before[x2].0@ == a
                                && #[trigger] before[x2].1@[y2]@ == b;
                        assert(reverse@[x2] == before[x2]);
                    }
                }
            }
            j += 1;
        }
        i += 1;
    }
    proof {
        let rel = dependent_rel(graph.entries(), repos@);
        assert forall|a: Seq<char>, b: Seq<char>| table_edge(reverse@, a, b) == rel(a, b) by {
            assert(rel(a, b) == dep_edge(graph.entries(), repos@, b, a));
            assert(dep_rel(graph.entries(), repos@)(b, a) == dep_edge(graph.entries(), repos@, b, a));
            assert(table_rel(t@)(b, a) == table_edge(t@, b, a));
        }
        assert(table_rel(reverse@) =~= rel);
    }
    reachable_from(&reverse, repo.as_str())
}

/// The keys of the entries, in order.
pub open spec fn key_views<V>(e: Seq<(RepoId, V)>) -> Seq<Seq<char>> {
    e.map_values(|x: (RepoId, V)| x.0@)
}

/// A resolving table with distinct keys lists, for each key, what the graph's
/// dependencies resolve to.
proof fn lemma_table_deps_match(t: Seq<(RepoId, Vec<RepoId>)>, g: Seq<(RepoId, Vec<Dependency>)>, rs: Seq<Repo>)
    requires
        resolves(t, g, rs),
        unique_keys(g),
    ensures
        unique_keys(t),
        table_deps(t) == graph_deps(g, rs),
{
    assert forall|i: int, j: int| 0 <= i < j < t.len() implies #[trigger] t[i].0@ != #[trigger] t[j].0@ by {
        assert(t[i].0@ == g[i].0@ && t[j].0@ == g[j].0@);
    }
    assert forall|x: Seq<char>| #[trigger] table_deps(t)(x) == graph_deps(g, rs)(x) by {
        if exists|i: int| 0 <= i < t.len() && #[trigger] t[i].0@ == x {
            let it = choose|i: int| 0 <= i < t.len() && #[trigger] t[i].0@ == x;
            assert(g[it].0@ == x);
            let ig = choose|i: int| 0 <= i < g.len() && #[trigger] g[i].0@ == x;
            if ig != it {
                if ig < it {
                    assert(g[ig].0@ != g[it].0@);
                } else {
                    assert(g[it].0@ != g[ig].0@);
                }
            }
            assert(key_index(t, x) == Some(it));
            assert(key_index(g, x) == Some(it));
        } else {
            assert forall|i: int| 0 <= i < g.len() implies #[trigger] g[i].0@ != x by {
                assert(t[i].0@ == g[i].0@);
            }
            assert(key_index(t, x) is None);
            assert(key_index(g, x) is None);
        }
    }
    assert(table_deps(t) =~= graph_deps(g, rs));
}

/// Sorted, duplicate-free names of the keys of a table.
fn sorted_keys(t: &Vec<(RepoId, Vec<RepoId>)>) -> (r: Vec<String>)
    ensures
        strictly_sorted(views(r@)),
        forall|x: Seq<char>| views(r@).contains(x) <==> key_views(t@).contains(x),
{
    let mut nodes: Vec<String> = Vec::new();
    let mut i: usize = 0;
    while i < t.len()
        invariant
            i <= t@.len(),
            strictly_sorted(views(nodes@)),
            forall|x: Seq<char>| views(nodes@).contains(x) <==> key_views(t@).take(i as int).contains(x),
        decreases t@.len() - i,
    {
        let ghost before = views(nodes@);
        let key = string_of(t[i].0.as_str());
        let ghost kn = key@;
        let _ = insert_sorted_unique(&mut nodes, key);
        proof {
            assert(views(nodes@).to_set() == before.to_set().insert(kn));
            let kv = key_views(t@);
            let pre = kv.take(i as int);
            let post = kv.take(i + 1);
            assert(post =~= pre.push(t@[i as int].0@));
            assert forall|x: Seq<char>| views(nodes@).contains(x) <==> post.contains(x) by {
                assert(views(nodes@).to_set().contains(x) == views(nodes@).contains(x));
                assert(before.to_set().contains(x) == before.contains(x));
                assert(before.to_set().insert(kn).contains(x) == (before.contains(x) || x == kn));
                if x == kn {
                    assert(post[i as int] == x);
                }
                if pre.contains(x) {
                    let m = choose|m: int| 0 <= m < pre.len() && pre[m] == x;
                    assert(post[m] == x);
                }
                if post.contains(x) {
                    let m = choose|m: int| 0 <= m < post.len() && post[m] == x;
                    if m < i {
                        assert(pre[m] == x);
                    }
                }
            }
        }
        i += 1;
    }
    proof {
        assert(key_views(t@).take(t@.len() as int) =~= key_views(t@));
    }
    nodes
}

/// Two duplicate-free lists with the same members have the same length.
proof fn lemma_same_members_same_len(a: Seq<Seq<char>>, b: Seq<Seq<char>>)
    requires
        a.no_duplicates(),
        b.no_duplicates(),
        forall|x: Seq<char>| a.contains(x) <==> b.contains(x),
    ensures
        a.len() == b.len(),
{
    assert forall|k: int| 0 <= k < a.len() implies b.contains(#[trigger] a[k]) by {
        assert(a.contains(a[k]));
    }
    assert forall|k: int| 0 <= k < b.len() implies a.contains(#[trigger] b[k]) by {
        assert(b.contains(b[k]));
    }
    lemma_distinct_len_le(a, b);
    lemma_distinct_len_le(b, a);
}

/// The dependency-first order of every repository that has an entry: at each
/// step the least (by name) ready repository comes next. It fails exactly
/// when some repository depends on itself, directly or not.
pub fn topological_order(graph: &DependencyGraph, repos: &Vec<Repo>) -> (r: Result<Vec<RepoId>, OrderError>)
    ensures
        r is Ok <==> !exists|a: Seq<char>| reaches(dep_rel(graph.entries(), repos@), a, a),
        match r {
            Ok(o) => greedy_prefix(graph_deps(graph.entries(), repos@), graph_keys(graph.entries()), id_views(o@))
                && o@.len() == graph.entries().len(),
            Err(_) => exists|p: Seq<Seq<char>>|
                greedy_prefix(graph_deps(graph.entries(), repos@), graph_keys(graph.entries()), p) && stuck(
                    graph_deps(graph.entries(), repos@),
                    graph_keys(graph.entries()),
                    p,
                ) && p.len() < graph.entries().len(),
        },
{
    graph.assert_unique();
    let ghost g = graph.entries();
    let resolved = resolve_internal_edges(graph, repos);
    let t = &resolved.edges;
    proof {
        lemma_table_deps_match(t@, g, repos@);
    }
    let nodes = sorted_keys(t);
    proof {
        let kv = key_views(t@);
        assert(kv =~= key_views(g));
        assert(views(nodes@).to_set() =~= graph_keys(g)) by {
            assert forall|x: Seq<char>| views(nodes@).to_set().contains(x) <==> graph_keys(g).contains(x) by {
                if kv.contains(x) {
                    let m = choose|m: int| 0 <= m < kv.len() && kv[m] == x;
                    assert(g[m].0@ == x);
                }
                if graph_keys(g).contains(x) {
                    let m = choose|m: int| 0 <= m < g.len() && #[trigger] g[m].0@ == x;
                    assert(kv[m] == x);
                }
            }
        }
        lemma_sorted_distinct(views(nodes@));
        assert(kv.no_duplicates()) by {
            assert forall|a: int, b: int| 0 <= a < kv.len() && 0 <= b < kv.len() && a != b implies kv[a] != kv[b] by {
                if a < b {
                    assert(g[a].0@ != g[b].0@);
                } else {
                    assert(g[b].0@ != g[a].0@);
                }
            }
        }
        lemma_same_members_same_len(views(nodes@), kv);
    }
    let r = match order_nodes(t, &nodes) {
        Ok(o) => Ok(o),
        Err(_) => Err(OrderError::Cycle),
    };
    proof {
        let deps = graph_deps(g, repos@);
        let n = graph_keys(g);
        if r is Ok {
            let o = r->Ok_0;
            if exists|a: Seq<char>| reaches(dep_rel(g, repos@), a, a) {
                let a = choose|a: Seq<char>| reaches(dep_rel(g, repos@), a, a);
                lemma_cycle_prevents_order(*graph, repos@, id_views(o@), a);
            }
        } else {
            let p = choose|p: Seq<Seq<char>>| greedy_prefix(deps, n, p) && stuck(deps, n, p) && p.len() < g.len();
            lemma_stuck_order_has_cycle(*graph, repos@, p);
        }
    }
    r
}

/// The dependency-first order of the targets and everything they depend on,
/// directly or not.
pub fn merge_order(graph: &DependencyGraph, repos: &Vec<Repo>, targets: &[RepoId]) -> (r: Result<Vec<RepoId>, OrderError>)
    ensures
        match r {
            Ok(o) => greedy_prefix(
                graph_deps(graph.entries(), repos@),
                merge_set(graph.entries(), repos@, id_views(targets@)),
                id_views(o@),
            ) && o@.len() == merge_set(graph.entries(), repos@, id_views(targets@)).len(),
            Err(_) => exists|p: Seq<Seq<char>>|
                greedy_prefix(
                    graph_deps(graph.entries(), repos@),
                    merge_set(graph.entries(), repos@, id_views(targets@)),
                    p,
                ) && stuck(
                    graph_deps(graph.entries(), repos@),
                    merge_set(graph.entries(), repos@, id_views(targets@)),
                    p,
                ) && p.len() < merge_set(graph.entries(), repos@, id_views(targets@)).len(),
        },
{
    graph.assert_unique();
    let ghost g = graph.entries();
    let ghost rel = dep_rel(g, repos@);
    let ghost tv = id_views(targets@);
    let resolved = resolve_internal_edges(graph, repos);
    let t = &resolved.edges;
    proof {
        lemma_table_deps_match(t@, g, repos@);
    }
    let mut nodes: Vec<String> = Vec::new();
    let mut k: usize = 0;
    while k < targets.len()
        invariant
            g == graph.entries(),
            rel == dep_rel(g, repos@),
            tv == id_views(targets@),
            k <= targets@.len(),
            strictly_sorted(views(nodes@)),
            forall|x: Seq<char>|
                views(nodes@).contains(x) <==> exists|m: int|
                    0 <= m < k && (x == #[trigger] tv[m] || reaches(rel, tv[m], x)),
        decreases targets@.len() - k,
    {
        let ghost before = views(nodes@);
        let target = &targets[k];
        let _ = insert_sorted_unique(&mut nodes, string_of(target.as_str()));
        let deps = transitive_dependencies(graph, repos, target);
        let ghost mid = views(nodes@);
        let mut j: usize = 0;
        while j < deps.len()
            invariant
                k < targets@.len(),
                tv == id_views(targets@),
                target == &targets@[k as int],
                strictly_sorted(views(nodes@)),
                j <= deps@.len(),
                forall|x: Seq<char>| id_views(deps@).contains(x) <==> reaches(rel, tv[k as int], x),
                forall|x: Seq<char>|
                    views(nodes@).contains(x) <==> mid.contains(x) || id_views(deps@).take(j as int).contains(x),
            decreases deps@.len() - j,
        {
            let ghost b2 = views(nodes@);
            assert(forall|x: Seq<char>| b2.contains(x) <==> mid.contains(x) || id_views(deps@).take(j as int).contains(x));
            let key = string_of(deps[j].as_str());
            let ghost kn = key@;
            let _ = insert_sorted_unique(&mut nodes, key);
            proof {
                assert(views(nodes@).to_set() == b2.to_set().insert(kn));
                let dv = id_views(deps@);
                assert(kn == dv[j as int]);
                let pre = dv.take(j as int);
                let post = dv.take(j + 1);
                assert(post =~= pre.push(dv[j as int]));
                assert forall|x: Seq<char>| views(nodes@).contains(x) <==> mid.contains(x) || post.contains(x) by {
                    assert(views(nodes@).to_set().contains(x) == views(nodes@).contains(x));
                    assert(b2.to_set().contains(x) == b2.contains(x));
                    assert(b2.to_set().insert(kn).contains(x) == (b2.contains(x) || x == kn));
                    assert(b2.contains(x) == (mid.contains(x) || pre.contains(x)));
                    if x == kn {
                        assert(post[j as int] == x);
                    }
                    if pre.contains(x) {
                        let m = choose|m: int| 0 <= m < pre.len() && pre[m] == x;
                        assert(post[m] == x);
                    }
                    if post.contains(x) {
                        let m = choose|m: int| 0 <= m < post.len() && post[m] == x;
                        if m < j {
                            assert(pre[m] == x);
                        }
                    }
                }
            }
            j += 1;
        }
        proof {
            let dv = id_views(deps@);
            assert(dv.take(dv.len() as int) =~= dv);
            assert forall|x: Seq<char>|
                views(nodes@).contains(x) <==> exists|m: int|
                    0 <= m < k + 1 && (x == #[trigger] tv[m] || reaches(rel, tv[m], x)) by {
                assert(mid.to_set().contains(x) == mid.contains(x));
                assert(before.to_set().contains(x) == before.contains(x));
                if exists|m: int| 0 <= m < k + 1 && (x == #[trigger] tv[m] || reaches(rel, tv[m], x)) {
                    let m = choose|m: int| 0 <= m < k + 1 && (x == #[trigger] tv[m] || reaches(rel, tv[m], x));
                    if m < k {
                        assert(before.contains(x));
                    } else if x != tv[m] {
                        assert(dv.contains(x));
                    }
                }
                if views(nodes@).contains(x) {
                    if before.contains(x) {
                    } else if x == tv[k as int] {
                    } else {
                        assert(dv.contains(x));
                        assert(reaches(rel, tv[k as int], x));
                    }
                }
            }
        }
        k += 1;
    }
    let ghost n = merge_set(g, repos@, tv);
    proof {
        assert(views(nodes@).to_set() =~= n) by {
            assert forall|x: Seq<char>| views(nodes@).to_set().contains(x) <==> n.contains(x) by {
                assert(views(nodes@).to_set().contains(x) == views(nodes@).contains(x));
            }
        }
        lemma_sorted_distinct(views(nodes@));
        views(nodes@).unique_seq_to_set();
    }
    match order_nodes(t, &nodes) {
        Ok(o) => Ok(o),
        Err(_) => Err(OrderError::Cycle),
    }
}

/// A direct dependency of a repository is among the repositories it depends on.
pub proof fn lemma_edge_in_deps(g: Seq<(RepoId, Vec<Dependency>)>, rs: Seq<Repo>, a: Seq<char>, b: Seq<char>)
    requires
        unique_keys(g),
        dep_edge(g, rs, a, b),
    ensures
        graph_deps(g, rs)(a).contains(b),
        graph_keys(g).contains(a),
{
    let i = choose|i: int| 0 <= i < g.len() && #[trigger] g[i].0@ == a && internal_targets(rs, g[i].1@).contains(b);
    let c = choose|c: int| 0 <= c < g.len() && #[trigger] g[c].0@ == a;
    if c != i {
        if c < i {
            assert(g[c].0@ != g[i].0@);
        } else {
            assert(g[i].0@ != g[c].0@);
        }
    }
    assert(key_index(g, a) == Some(i));
}

/// In a greedy order, each direct dependency inside the ordered set comes
/// before the repository that depends on it.
pub proof fn lemma_order_dependency_first(
    g: Seq<(RepoId, Vec<Dependency>)>,
    rs: Seq<Repo>,
    n: Set<Seq<char>>,
    p: Seq<Seq<char>>,
    i: int,
    d: Seq<char>,
)
    requires
        unique_keys(g),
        greedy_prefix(graph_deps(g, rs), n, p),
        0 <= i < p.len(),
        dep_edge(g, rs, p[i], d),
        n.contains(d),
    ensures
        exists|j: int| 0 <= j < i && p[j] == d,
{
    lemma_edge_in_deps(g, rs, p[i], d);
    let ds = graph_deps(g, rs)(p[i]);
    let k = choose|k: int| 0 <= k < ds.len() && ds[k] == d;
    lemma_greedy_dependency_first(graph_deps(g, rs), n, p, i, k);
}

/// Positions along a walk inside a complete greedy order strictly decrease:
/// the walk's last repository comes before its first.
proof fn lemma_walk_positions(
    g: Seq<(RepoId, Vec<Dependency>)>,
    rs: Seq<Repo>,
    n: Set<Seq<char>>,
    p: Seq<Seq<char>>,
    c: Seq<Seq<char>>,
    k: int,
)
    requires
        unique_keys(g),
        greedy_prefix(graph_deps(g, rs), n, p),
        forall|x: Seq<char>| n.contains(x) ==> p.contains(x),
        is_walk(dep_rel(g, rs), c),
        forall|m: int| 0 <= m < c.len() ==> n.contains(#[trigger] c[m]),
        1 <= k < c.len(),
    ensures
        exists|a: int, b: int| 0 <= b < a < p.len() && p[a] == c[0] && p[b] == c[k],
    decreases k,
{
    lemma_greedy_distinct(graph_deps(g, rs), n, p);
    let j = k - 1;
    assert(dep_rel(g, rs)(c[j], c[j + 1]));
    assert(n.contains(c[j]) && n.contains(c[j + 1]));
    assert(p.contains(c[j]));
    let a = choose|a: int| 0 <= a < p.len() && p[a] == c[j];
    lemma_order_dependency_first(g, rs, n, p, a, c[k]);
    let b = choose|b: int| 0 <= b < a && p[b] == c[k];
    if k > 1 {
        lemma_walk_positions(g, rs, n, p, c, k - 1);
        let (a2, b2) = choose|a2: int, b2: int| 0 <= b2 < a2 < p.len() && p[a2] == c[0] && p[b2] == c[k - 1];
        assert(b2 == a);
    }
}

/// A duplicate-free list inside a finite set that is as long as the set
/// holds all of it.
proof fn lemma_full_prefix(p: Seq<Seq<char>>, n: Set<Seq<char>>)
    requires
        p.no_duplicates(),
        n.finite(),
        forall|k: int| 0 <= k < p.len() ==> n.contains(#[trigger] p[k]),
        p.len() >= n.len(),
    ensures
        forall|x: Seq<char>| n.contains(x) ==> p.contains(x),
{
    p.unique_seq_to_set();
    assert(p.to_set().subset_of(n)) by {
        assert forall|x: Seq<char>| p.to_set().contains(x) implies n.contains(x) by {
            let k = choose|k: int| 0 <= k < p.len() && p[k] == x;
        }
    }
    vstd::set_lib::lemma_len_subset(p.to_set(), n);
    vstd::seq_lib::seq_to_set_is_finite(p);
    vstd::set_lib::lemma_subset_equality(p.to_set(), n);
    assert forall|x: Seq<char>| n.contains(x) implies p.contains(x) by {
        assert(p.to_set().contains(x));
    }
}

/// A repository that depends on itself, directly or not, keeps
/// `topological_order` from placing every repository.
pub proof fn lemma_cycle_prevents_order(
    graph: DependencyGraph,
    rs: Seq<Repo>,
    p: Seq<Seq<char>>,
    a: Seq<char>,
)
    requires
        unique_keys(graph.entries()),
        greedy_prefix(graph_deps(graph.entries(), rs), graph_keys(graph.entries()), p),
        reaches(dep_rel(graph.entries(), rs), a, a),
    ensures
        p.len() < graph.entries().len(),
{
    let g = graph.entries();
    let n = graph_keys(g);
    let rel = dep_rel(g, rs);
    lemma_greedy_distinct(graph_deps(g, rs), n, p);
    let kv = key_views(g);
    assert(n =~= kv.to_set()) by {
        assert forall|x: Seq<char>| n.contains(x) <==> kv.to_set().contains(x) by {
            if n.contains(x) {
                let m = choose|m: int| 0 <= m < g.len() && #[trigger] g[m].0@ == x;
                assert(kv[m] == x);
            }
            if kv.contains(x) {
                let m = choose|m: int| 0 <= m < kv.len() && kv[m] == x;
                assert(g[m].0@ == x);
            }
        }
    }
    assert(kv.no_duplicates()) by {
        assert forall|x: int, y: int| 0 <= x < kv.len() && 0 <= y < kv.len() && x != y implies kv[x] != kv[y] by {
            if x < y {
                assert(g[x].0@ != g[y].0@);
            } else {
                assert(g[y].0@ != g[x].0@);
            }
        }
    }
    kv.unique_seq_to_set();
    if p.len() >= g.len() {
        vstd::seq_lib::seq_to_set_is_finite(kv);
        lemma_full_prefix(p, n);
        let c = choose|c: Seq<Seq<char>>| #[trigger] is_walk(rel, c) && c[0] == a && c.last() == a;
        assert forall|m: int| 0 <= m < c.len() implies n.contains(#[trigger] c[m]) by {
            if m < c.len() - 1 {
                assert(rel(c[m], c[m + 1]));
                lemma_edge_in_deps(g, rs, c[m], c[m + 1]);
            } else {
                let z: int = 0;
                assert(rel(c[z], c[z + 1]));
                lemma_edge_in_deps(g, rs, c[z], c[z + 1]);
            }
        }
        lemma_walk_positions(g, rs, n, p, c, c.len() - 1);
        let (x, y) = choose|x: int, y: int| 0 <= y < x < p.len() && p[x] == c[0] && p[y] == c[c.len() - 1];
        assert(p[x] == p[y]);
    }
}

/// A repository with an entry that is not placed in a stuck order depends on
/// another such repository.
proof fn lemma_unplaced_step(g: Seq<(RepoId, Vec<Dependency>)>, rs: Seq<Repo>, p: Seq<Seq<char>>, y: Seq<char>) -> (z:
    Seq<char>)
    requires
        stuck(graph_deps(g, rs), graph_keys(g), p),
        graph_keys(g).contains(y),
        !p.contains(y),
    ensures
        graph_keys(g).contains(z),
        !p.contains(z),
        dep_rel(g, rs)(y, z),
{
    let n = graph_keys(g);
    let deps = graph_deps(g, rs);
    assert(!ready(deps, n, p, y));
    let k = choose|k: int| 0 <= k < deps(y).len() && n.contains(#[trigger] deps(y)[k]) && !p.contains(deps(y)[k]);
    let i = key_index(g, y)->Some_0;
    assert(g[i].0@ == y);
    assert(internal_targets(rs, g[i].1@)[k] == deps(y)[k]);
    assert(internal_targets(rs, g[i].1@).contains(deps(y)[k]));
    assert(dep_edge(g, rs, y, deps(y)[k]));
    deps(y)[k]
}

/// A walk of `len` steps among the repositories not placed in a stuck order.
proof fn lemma_unplaced_walk(
    g: Seq<(RepoId, Vec<Dependency>)>,
    rs: Seq<Repo>,
    p: Seq<Seq<char>>,
    x: Seq<char>,
    len: nat,
) -> (w: Seq<Seq<char>>)
    requires
        stuck(graph_deps(g, rs), graph_keys(g), p),
        graph_keys(g).contains(x),
        !p.contains(x),
    ensures
        w.len() == len + 1,
        w[0] == x,
        forall|k: int| 0 <= k < w.len() ==> graph_keys(g).contains(#[trigger] w[k]),
        forall|k: int| 0 <= k < w.len() - 1 ==> #[trigger] dep_rel(g, rs)(w[k], w[k + 1]),
    decreases len,
{
    if len == 0 {
        seq![x]
    } else {
        let z = lemma_unplaced_step(g, rs, p, x);
        let rest = lemma_unplaced_walk(g, rs, p, z, (len - 1) as nat);
        let w = seq![x] + rest;
        assert forall|k: int| 0 <= k < w.len() implies graph_keys(g).contains(#[trigger] w[k]) by {
            if k > 0 {
                assert(w[k] == rest[k - 1]);
            }
        }
        assert forall|k: int| 0 <= k < w.len() - 1 implies #[trigger] dep_rel(g, rs)(w[k], w[k + 1]) by {
            if k > 0 {
                assert(w[k] == rest[k - 1]);
                assert(w[k + 1] == rest[(k - 1) + 1]);
            } else {
                assert(w[1] == rest[0]);
            }
        }
        w
    }
}

/// When `topological_order` stops before every repository is placed, some
/// repository depends on itself, directly or not.
pub proof fn lemma_stuck_order_has_cycle(graph: DependencyGraph, rs: Seq<Repo>, p: Seq<Seq<char>>)
    requires
        unique_keys(graph.entries()),
        greedy_prefix(graph_deps(graph.entries(), rs), graph_keys(graph.entries()), p),
        stuck(graph_deps(graph.entries(), rs), graph_keys(graph.entries()), p),
        p.len() < graph.entries().len(),
    ensures
        exists|a: Seq<char>| reaches(dep_rel(graph.entries(), rs), a, a),
{
    let g = graph.entries();
    let n = graph_keys(g);
    let rel = dep_rel(g, rs);
    lemma_greedy_distinct(graph_deps(g, rs), n, p);
    let kv = key_views(g);
    assert forall|x: Seq<char>| n.contains(x) <==> kv.contains(x) by {
        if n.contains(x) {
            let m = choose|m: int| 0 <= m < g.len() && #[trigger] g[m].0@ == x;
            assert(kv[m] == x);
        }
        if kv.contains(x) {
            let m = choose|m: int| 0 <= m < kv.len() && kv[m] == x;
            assert(g[m].0@ == x);
        }
    }
    assert(kv.no_duplicates()) by {
        assert forall|x: int, y: int| 0 <= x < kv.len() && 0 <= y < kv.len() && x != y implies kv[x] != kv[y] by {
            if x < y {
                assert(g[x].0@ != g[y].0@);
            } else {
                assert(g[y].0@ != g[x].0@);
            }
        }
    }
    // Some repository with an entry is not placed.
    let x0 = if exists|x: Seq<char>| n.contains(x) && !p.contains(x) {
        choose|x: Seq<char>| n.contains(x) && !p.contains(x)
    } else {
        assert forall|k: int| 0 <= k < kv.len() implies p.contains(#[trigger] kv[k]) by {
            assert(kv.contains(kv[k]));
        }
        lemma_distinct_len_le(kv, p);
        kv[0]
    };
    let w = lemma_unplaced_walk(g, rs, p, x0, g.len() as nat);
    assert forall|k: int| 0 <= k < w.len() implies kv.contains(#[trigger] w[k]) by {
        assert(n.contains(w[k]));
    }
    if w.no_duplicates() {
        lemma_distinct_len_le(w, kv);
    }
    let (i, j) = choose|i: int, j: int| 0 <= i < w.len() && 0 <= j < w.len() && i != j && w[i] == w[j];
    let (lo, hi) = if i < j { (i, j) } else { (j, i) };
    let c = w.subrange(lo, hi + 1);
    assert forall|k: int| 0 <= k < c.len() - 1 implies #[trigger] rel(c[k], c[k + 1]) by {
        assert(c[k] == w[lo + k]);
        assert(c[k + 1] == w[lo + k + 1]);
        assert(rel(w[lo + k], w[(lo + k) + 1]));
    }
    assert(is_walk(rel, c));
    assert(c[0] == w[lo] && c.last() == w[hi]);
    assert(c.last() == c[0]);
    assert(reaches(rel, c[0], c[0]));
}

/// In a complete merge order every repository a target depends on, directly
/// or not, comes before that target.
pub proof fn lemma_merge_order_dependencies_first(
    graph: DependencyGraph,
    rs: Seq<Repo>,
    targets: Seq<Seq<char>>,
    p: Seq<Seq<char>>,
    k: int,
    d: Seq<char>,
)
    requires
        unique_keys(graph.entries()),
        greedy_prefix(graph_deps(graph.entries(), rs), merge_set(graph.entries(), rs, targets), p),
        p.len() == merge_set(graph.entries(), rs, targets).len(),
        merge_set(graph.entries(), rs, targets).finite(),
        0 <= k < targets.len(),
        reaches(dep_rel(graph.entries(), rs), targets[k], d),
    ensures
        exists|a: int, b: int| 0 <= b < a < p.len() && p[a] == targets[k] && p[b] == d,
{
    let g = graph.entries();
    let n = merge_set(g, rs, targets);
    let rel = dep_rel(g, rs);
    lemma_greedy_distinct(graph_deps(g, rs), n, p);
    lemma_full_prefix(p, n);
    let c = choose|c: Seq<Seq<char>>| #[trigger] is_walk(rel, c) && c[0] == targets[k] && c.last() == d;
    assert forall|m: int| 0 <= m < c.len() implies n.contains(#[trigger] c[m]) by {
        if m == 0 {
            assert(c[0] == targets[k]);
        } else {
            let w = c.subrange(0, m + 1);
            assert forall|q: int| 0 <= q < w.len() - 1 implies #[trigger] rel(w[q], w[q + 1]) by {
                assert(rel(c[q], c[q + 1]));
            }
            assert(is_walk(rel, w));
            assert(reaches(rel, targets[k], c[m]));
        }
    }
    lemma_walk_positions(g, rs, n, p, c, c.len() - 1);
}

} // verus!
