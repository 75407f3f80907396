//! The mathematical model of the dependency graph: which package a repository
//! provides, which repository a dependency resolves to, and reachability.
use vstd::prelude::*;
use crate::project::repo::{Dependency, Repo, RepoId};

verus! {

/// The package a repository provides: its package name, else its identifier.
pub open spec fn package_of(r: Repo) -> Seq<char> {
    match r.package_name {
        Some(n) => n@,
        None => r.id@,
    }
}

/// The repository that provides package `name`; when several do, the last one
/// listed.
pub open spec fn lookup_package(rs: Seq<Repo>, name: Seq<char>) -> Option<Seq<char>>
    decreases rs.len(),
{
    if rs.len() == 0 {
        None
    } else if package_of(rs.last()) == name {
        Some(rs.last().id@)
    } else {
        lookup_package(rs.drop_last(), name)
    }
}

/// The repositories that the internal dependencies in `deps` resolve to, in
/// order; internal dependencies that no repository provides are skipped.
pub open spec fn internal_targets(rs: Seq<Repo>, deps: Seq<Dependency>) -> Seq<Seq<char>>
    decreases deps.len(),
{
    if deps.len() == 0 {
        Seq::empty()
    } else {
        let rest = internal_targets(rs, deps.drop_last());
        let d = deps.last();
        if d.is_internal && lookup_package(rs, d.name@) is Some {
            rest.push(lookup_package(rs, d.name@)->0)
        } else {
            rest
        }
    }
}

/// The internal dependencies in `deps` that no repository provides, with the
/// repository `from` that declares them.
pub open spec fn missing_of(rs: Seq<Repo>, from: Seq<char>, deps: Seq<Dependency>) -> Seq<
    (Seq<char>, (Seq<char>, Seq<char>, bool)),
>
    decreases deps.len(),
{
    if deps.len() == 0 {
        Seq::empty()
    } else {
        let rest = missing_of(rs, from, deps.drop_last());
        let d = deps.last();
        if d.is_internal && lookup_package(rs, d.name@) is None {
            rest.push((from, d.view()))
        } else {
            rest
        }
    }
}

/// The unresolved internal dependencies of every entry of the graph, entry by
/// entry.
pub open spec fn all_missing(rs: Seq<Repo>, g: Seq<(RepoId, Vec<Dependency>)>) -> Seq<
    (Seq<char>, (Seq<char>, Seq<char>, bool)),
>
    decreases g.len(),
{
    if g.len() == 0 {
        Seq::empty()
    } else {
        all_missing(rs, g.drop_last()) + missing_of(rs, g.last().0@, g.last().1@)
    }
}

/// Repository `a` depends directly on repository `b`: an internal dependency
/// of `a` resolves to `b`.
pub open spec fn dep_edge(g: Seq<(RepoId, Vec<Dependency>)>, rs: Seq<Repo>, a: Seq<char>, b: Seq<
    char,
>) -> bool {
    exists|i: int|
        0 <= i < g.len() && #[trigger] g[i].0@ == a && internal_targets(rs, g[i].1@).contains(b)
}

/// The dependency relation of a graph.
pub open spec fn dep_rel(g: Seq<(RepoId, Vec<Dependency>)>, rs: Seq<Repo>) -> spec_fn(
    Seq<char>,
    Seq<char>,
) -> bool {
    |a: Seq<char>, b: Seq<char>| dep_edge(g, rs, a, b)
}

/// The reverse of the dependency relation: `a` is depended on by `b`.
pub open spec fn dependent_rel(g: Seq<(RepoId, Vec<Dependency>)>, rs: Seq<Repo>) -> spec_fn(
    Seq<char>,
    Seq<char>,
) -> bool {
    |a: Seq<char>, b: Seq<char>| dep_edge(g, rs, b, a)
}

/// `p` is a walk of at least one step along `rel`.
pub open spec fn is_walk(rel: spec_fn(Seq<char>, Seq<char>) -> bool, p: Seq<Seq<char>>) -> bool {
    &&& p.len() >= 2
    &&& forall|k: int| 0 <= k < p.len() - 1 ==> #[trigger] rel(p[k], p[k + 1])
}

/// `b` can be reached from `a` in one or more steps along `rel`.
pub open spec fn reaches(rel: spec_fn(Seq<char>, Seq<char>) -> bool, a: Seq<char>, b: Seq<char>) -> bool {
    exists|p: Seq<Seq<char>>| #[trigger] is_walk(rel, p) && p[0] == a && p.last() == b
}

/// One step is a walk.
pub proof fn lemma_reach_step(rel: spec_fn(Seq<char>, Seq<char>) -> bool, a: Seq<char>, b: Seq<char>)
    requires
        rel(a, b),
    ensures
        reaches(rel, a, b),
{
    let p = seq![a, b];
    assert(is_walk(rel, p));
}

/// A walk extended by one step is a walk.
pub proof fn lemma_reach_extend(
    rel: spec_fn(Seq<char>, Seq<char>) -> bool,
    a: Seq<char>,
    x: Seq<char>,
    b: Seq<char>,
)
    requires
        reaches(rel, a, x),
        rel(x, b),
    ensures
        reaches(rel, a, b),
{
    let p = choose|p: Seq<Seq<char>>| #[trigger] is_walk(rel, p) && p[0] == a && p.last() == x;
    let q = p.push(b);
    assert forall|k: int| 0 <= k < q.len() - 1 implies #[trigger] rel(q[k], q[k + 1]) by {
        if k < p.len() - 1 {
            assert(rel(p[k], p[k + 1]));
        }
    }
    assert(is_walk(rel, q));
}

/// A set that holds every successor of `a` and of each of its members holds
/// every node reachable from `a`.
pub proof fn lemma_closed_set_contains_reachable(
    rel: spec_fn(Seq<char>, Seq<char>) -> bool,
    s: Set<Seq<char>>,
    a: Seq<char>,
    b: Seq<char>,
)
    requires
        forall|y: Seq<char>| #[trigger] rel(a, y) ==> s.contains(y),
        forall|x: Seq<char>, y: Seq<char>| s.contains(x) && #[trigger] rel(x, y) ==> s.contains(y),
        reaches(rel, a, b),
    ensures
        s.contains(b),
{
    let p = choose|p: Seq<Seq<char>>| #[trigger] is_walk(rel, p) && p[0] == a && p.last() == b;
    assert forall|k: int| 1 <= k < p.len() implies s.contains(#[trigger] p[k]) by {
        lemma_walk_members(rel, s, a, p, k);
    }
    assert(s.contains(p[p.len() - 1]));
}

proof fn lemma_walk_members(
    rel: spec_fn(Seq<char>, Seq<char>) -> bool,
    s: Set<Seq<char>>,
    a: Seq<char>,
    p: Seq<Seq<char>>,
    k: int,
)
    requires
        forall|y: Seq<char>| #[trigger] rel(a, y) ==> s.contains(y),
        forall|x: Seq<char>, y: Seq<char>| s.contains(x) && #[trigger] rel(x, y) ==> s.contains(y),
        is_walk(rel, p),
        p[0] == a,
        1 <= k < p.len(),
    ensures
        s.contains(p[k]),
    decreases k,
{
    let j = k - 1;
    assert(rel(p[j], p[j + 1]));
    if k > 1 {
        lemma_walk_members(rel, s, a, p, k - 1);
    }
}

} // verus!
