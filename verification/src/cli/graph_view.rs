//! The part of the dependency graph a `graph show` draws: direction, edges
//! within a scope, and the nodes drawing starts from.
use vstd::prelude::*;
use crate::error::HarmoniaError;
use crate::graph::DependencyGraph;
use crate::graph::model::dep_rel;
use crate::graph::ops::{lemma_resolved_relation, resolve_internal_edges};
use crate::graph::closure::{table_edge, table_rel};
use crate::order::{contains_str, insert_sorted_unique, strictly_sorted, views};
use crate::cli::scope::{add_all, lemma_reached_step, reached_from_some};
use crate::graph::model::dependent_rel;
use crate::project::version::Version;
use crate::project::workspace::Workspace;
use crate::project::repo::{Repo, RepoId, id_views};
use crate::project::version::{ascii_lower, lower_equals, to_ascii_lower};
use crate::text::{concat3, str_eq, string_of};

verus! {

/// Which way edges are followed: to dependencies, to dependents, or both.
#[derive(Debug, Clone, Copy, PartialEq, Eq, Structural)]
pub enum GraphDirection {
    Down,
    Up,
    Both,
}

/// The direction a name selects, ignoring ASCII case.
pub open spec fn spec_direction(input: Seq<char>) -> Option<GraphDirection> {
    let l = ascii_lower(input);
    if l == "down"@ {
        Some(GraphDirection::Down)
    } else if l == "up"@ {
        Some(GraphDirection::Up)
    } else if l == "both"@ {
        Some(GraphDirection::Both)
    } else {
        None
    }
}

/// The direction named `input`; an error for any other name.
pub fn parse_graph_direction(input: &str) -> (r: Result<GraphDirection, HarmoniaError>)
    ensures
        match spec_direction(input@) {
            Some(d) => r == Ok::<GraphDirection, HarmoniaError>(d),
            None => r matches Err(HarmoniaError::Other(m)) && m@ == "unknown graph direction '"@ + input@ + "'"@,
        },
{
    let l = to_ascii_lower(input);
    if lower_equals(&l, "down") {
        Ok(GraphDirection::Down)
    } else if lower_equals(&l, "up") {
        Ok(GraphDirection::Up)
    } else if lower_equals(&l, "both") {
        Ok(GraphDirection::Both)
    } else {
        Err(HarmoniaError::Other(concat3("unknown graph direction '", input, "'")))
    }
}

pub open spec fn goes_down(d: GraphDirection) -> bool {
    d == GraphDirection::Down || d == GraphDirection::Both
}

pub open spec fn goes_up(d: GraphDirection) -> bool {
    d == GraphDirection::Up || d == GraphDirection::Both
}

/// `b` is drawn below `n`: both in scope, and `n` depends on `b` when
/// following dependencies, or `b` on `n` when following dependents.
pub open spec fn drawn_edge(rel: spec_fn(Seq<char>, Seq<char>) -> bool, scope: Seq<Seq<char>>, d: GraphDirection, n: Seq<char>, b: Seq<char>) -> bool {
    &&& scope.contains(n)
    &&& scope.contains(b)
    &&& ((goes_down(d) && rel(n, b)) || (goes_up(d) && rel(b, n)))
}

/// The pairs of an adjacency table, as (from, to).
pub open spec fn has_pair(p: Seq<(String, String)>, a: Seq<char>, b: Seq<char>) -> bool {
    exists|k: int| 0 <= k < p.len() && #[trigger] p[k].0@ == a && p[k].1@ == b
}

/// Every (from, to) pair of the table.
fn table_pairs(t: &Vec<(RepoId, Vec<RepoId>)>) -> (r: Vec<(String, String)>)
    ensures
        forall|a: Seq<char>, b: Seq<char>| has_pair(r@, a, b) <==> table_edge(t@, a, b),
{
    let mut out: Vec<(String, String)> = Vec::new();
    let mut i: usize = 0;
    while i < t.len()
        invariant
            i <= t@.len(),
            forall|k: int| 0 <= k < out@.len() ==> table_edge(t@, #[trigger] out@[k].0@, out@[k].1@),
            forall|ii: int, jj: int|
                0 <= ii < i && 0 <= jj < t@[ii].1@.len() ==> has_pair(out@, #[trigger] t@[ii].0@, #[trigger] t@[ii].1@[jj]@),
        decreases t@.len() - i,
    {
        let mut j: usize = 0;
        while j < t[i].1.len()
            invariant
                i < t@.len(),
                j <= t@[i as int].1@.len(),
                forall|k: int| 0 <= k < out@.len() ==> table_edge(t@, #[trigger] out@[k].0@, out@[k].1@),
                forall|ii: int, jj: int|
                    0 <= ii < i && 0 <= jj < t@[ii].1@.len() ==> has_pair(out@, #[trigger] t@[ii].0@, #[trigger] t@[ii].1@[jj]@),
                forall|jj: int| 0 <= jj < j ==> has_pair(out@, t@[i as int].0@, #[trigger] t@[i as int].1@[jj]@),
            decreases t@[i as int].1@.len() - j,
        {
            let ghost before = out@;
            out.push((string_of(t[i].0.as_str()), string_of(t[i].1[j].as_str())));
            proof {
                let k = out@.len() - 1;
                assert(out@[k].0@ == t@[i as int].0@ && out@[k].1@ == t@[i as int].1@[j as int]@);
                assert(table_edge(t@, out@[k].0@, out@[k].1@));
                assert forall|m: int| 0 <= m < out@.len() implies table_edge(t@, #[trigger] out@[m].0@, out@[m].1@) by {
                    if m < before.len() {
                        assert(out@[m] == before[m]);
                    }
                }
                assert forall|ii: int, jj: int|
                    0 <= ii < i && 0 <= jj < t@[ii].1@.len() implies has_pair(out@, #[trigger] t@[ii].0@, #[trigger] t@[ii].1@[jj]@) by {
                    assert(has_pair(before, t@[ii].0@, t@[ii].1@[jj]@));
                    let w = choose|w: int| 0 <= w < before.len() && #[trigger] before[w].0@ == t@[ii].0@ && before[w].1@ == t@[ii].1@[jj]@;
                    assert(out@[w] == before[w]);
                }
                assert forall|jj: int| 0 <= jj < j + 1 implies has_pair(out@, t@[i as int].0@, #[trigger] t@[i as int].1@[jj]@) by {
                    if jj < j {
                        assert(has_pair(before, t@[i as int].0@, t@[i as int].1@[jj]@));
                        let w = choose|w: int| 0 <= w < before.len() && #[trigger] before[w].0@ == t@[i as int].0@ && before[w].1@ == t@[i as int].1@[jj]@;
                        assert(out@[w] == before[w]);
                    } else {
                        assert(out@[k].0@ == t@[i as int].0@);
                    }
                }
            }
            j += 1;
        }
        i += 1;
    }
    proof {
        assert forall|a: Seq<char>, b: Seq<char>| table_edge(t@, a, b) implies has_pair(out@, a, b) by {
            let (ii, jj) = choose|ii: int, jj: int|
                0 <= ii < t@.len() && 0 <= jj < t@[ii].1@.len() && #[trigger] t@[ii].0@ == a && #[trigger] t@[ii].1@[jj]@ == b;
            assert(has_pair(out@, t@[ii].0@, t@[ii].1@[jj]@));
        }
        assert forall|a: Seq<char>, b: Seq<char>| has_pair(out@, a, b) implies table_edge(t@, a, b) by {
            let k = choose|k: int| 0 <= k < out@.len() && #[trigger] out@[k].0@ == a && out@[k].1@ == b;
            assert(table_edge(t@, out@[k].0@, out@[k].1@));
        }
    }
    out
}

/// The distinct names of `v`, sorted.
pub(crate) fn sorted_unique(v: &Vec<String>) -> (r: Vec<String>)
    ensures
        strictly_sorted(views(r@)),
        forall|x: Seq<char>| views(r@).contains(x) <==> views(v@).contains(x),
{
    let mut out: Vec<String> = Vec::new();
    let mut i: usize = 0;
    while i < v.len()
        invariant
            i <= v@.len(),
            strictly_sorted(views(out@)),
            forall|x: Seq<char>| views(out@).contains(x) <==> views(v@).take(i as int).contains(x),
        decreases v@.len() - i,
    {
        let ghost before = views(out@);
        insert_sorted_unique(&mut out, v[i].clone());
        proof {
            let p = views(v@).take(i as int);
            let q = views(v@).take(i + 1);
            let y = v@[i as int]@;
            assert(q =~= p.push(y));
            assert(views(out@).to_set() == before.to_set().insert(y));
            assert forall|x: Seq<char>| views(out@).contains(x) <==> q.contains(x) by {
                assert(views(out@).to_set().contains(x) == views(out@).contains(x));
                assert(before.to_set().insert(y).contains(x) == (before.contains(x) || x == y));
                if x == y {
                    assert(q[i as int] == x);
                }
                if q.contains(x) {
                    let k = choose|k: int| 0 <= k < q.len() && #[trigger] q[k] == x;
                    if k < i {
                        assert(p[k] == x);
                    }
                }
                if p.contains(x) {
                    let k = choose|k: int| 0 <= k < p.len() && #[trigger] p[k] == x;
                    assert(q[k] == x);
                }
            }
        }
        i += 1;
    }
    proof {
        assert(views(v@).take(v@.len() as int) =~= views(v@));
    }
    out
}

/// The edges drawn for each node of the scope: the nodes in sorted order,
/// each once, with the nodes drawn below it, sorted and each once.
pub open spec fn drawn_edges(
    r: Seq<(RepoId, Vec<RepoId>)>,
    rel: spec_fn(Seq<char>, Seq<char>) -> bool,
    scope: Seq<Seq<char>>,
    d: GraphDirection,
) -> bool {
    &&& strictly_sorted(r.map_values(|e: (RepoId, Vec<RepoId>)| e.0@))
    &&& forall|x: Seq<char>| r.map_values(|e: (RepoId, Vec<RepoId>)| e.0@).contains(x) <==> scope.contains(x)
    &&& forall|i: int|
        0 <= i < r.len() ==> strictly_sorted(id_views(#[trigger] r[i].1@)) && forall|b: Seq<char>|
            id_views(r[i].1@).contains(b) <==> drawn_edge(rel, scope, d, r[i].0@, b)
}

/// The nodes drawn below `n`, sorted and each once.
fn neighbours(pairs: &Vec<(String, String)>, nodes: &Vec<String>, n: &str, d: GraphDirection) -> (r: Vec<RepoId>)
    requires
        views(nodes@).contains(n@),
    ensures
        strictly_sorted(id_views(r@)),
        forall|b: Seq<char>|
            id_views(r@).contains(b) <==> (views(nodes@).contains(b) && ((goes_down(d) && has_pair(pairs@, n@, b)) || (
            goes_up(d) && has_pair(pairs@, b, n@)))),
{
    let mut list: Vec<String> = Vec::new();
    let mut k: usize = 0;
    while k < pairs.len()
        invariant
            k <= pairs@.len(),
            views(nodes@).contains(n@),
            strictly_sorted(views(list@)),
            forall|b: Seq<char>|
                views(list@).contains(b) <==> (views(nodes@).contains(b) && ((goes_down(d) && has_pair(
                    pairs@.take(k as int),
                    n@,
                    b,
                )) || (goes_up(d) && has_pair(pairs@.take(k as int), b, n@)))),
        decreases pairs@.len() - k,
    {
        let a = pairs[k].0.as_str();
        let b = pairs[k].1.as_str();
        let ghost before = views(list@);
        let in_a = contains_str(nodes, a);
        let in_b = contains_str(nodes, b);
        let down = d == GraphDirection::Down || d == GraphDirection::Both;
        let up = d == GraphDirection::Up || d == GraphDirection::Both;
        let add_b = in_a && in_b && down && str_eq(a, n);
        let add_a = in_a && in_b && up && str_eq(b, n);
        if add_b {
            insert_sorted_unique(&mut list, string_of(b));
        }
        let ghost mid = views(list@);
        if add_a {
            insert_sorted_unique(&mut list, string_of(a));
        }
        proof {
            let p = pairs@.take(k as int);
            let q = pairs@.take(k + 1);
            assert(q =~= p.push(pairs@[k as int]));
            assert forall|x: Seq<char>, y: Seq<char>| has_pair(q, x, y) <==> (has_pair(p, x, y) || (pairs@[k as int].0@ == x
                && pairs@[k as int].1@ == y)) by {
                if has_pair(q, x, y) {
                    let w = choose|w: int| 0 <= w < q.len() && #[trigger] q[w].0@ == x && q[w].1@ == y;
                    if w < p.len() {
                        assert(p[w] == q[w]);
                    }
                }
                if has_pair(p, x, y) {
                    let w = choose|w: int| 0 <= w < p.len() && #[trigger] p[w].0@ == x && p[w].1@ == y;
                    assert(q[w] == p[w]);
                }
                if pairs@[k as int].0@ == x && pairs@[k as int].1@ == y {
                    assert(q[k as int] == pairs@[k as int]);
                }
            }
            let av = pairs@[k as int].0@;
            let bv = pairs@[k as int].1@;
            assert(a@ == av && b@ == bv);
            assert(mid.to_set() == (if add_b { before.to_set().insert(bv) } else { before.to_set() }));
            assert(views(list@).to_set() == (if add_a { mid.to_set().insert(av) } else { mid.to_set() }));
            assert forall|x: Seq<char>| views(list@).contains(x) <==> (views(nodes@).contains(x) && ((goes_down(d)
                && has_pair(q, n@, x)) || (goes_up(d) && has_pair(q, x, n@)))) by {
                assert(views(list@).to_set().contains(x) == views(list@).contains(x));
                assert(mid.to_set().contains(x) == mid.contains(x));
                assert(before.to_set().contains(x) == before.contains(x));
                assert(has_pair(q, n@, x) == (has_pair(p, n@, x) || (av == n@ && bv == x)));
                assert(has_pair(q, x, n@) == (has_pair(p, x, n@) || (av == x && bv == n@)));
                assert(before.contains(x) == (views(nodes@).contains(x) && ((goes_down(d) && has_pair(p, n@, x)) || (
                    goes_up(d) && has_pair(p, x, n@)))));
                assert(in_a == views(nodes@).contains(av));
                assert(in_b == views(nodes@).contains(bv));
                assert(down == goes_down(d));
                assert(up == goes_up(d));
                assert(add_b == (in_a && in_b && down && av == n@));
                assert(add_a == (in_a && in_b && up && bv == n@));
            }
        }
        k += 1;
    }
    proof {
        assert(pairs@.take(pairs@.len() as int) =~= pairs@);
    }
    let mut out: Vec<RepoId> = Vec::new();
    let mut i: usize = 0;
    while i < list.len()
        invariant
            i <= list@.len(),
            id_views(out@) == views(list@).take(i as int),
        decreases list@.len() - i,
    {
        let ghost before = id_views(out@);
        out.push(RepoId::new(list[i].as_str()));
        proof {
            assert(id_views(out@) =~= before.push(views(list@)[i as int]));
            assert(views(list@).take(i + 1) =~= views(list@).take(i as int).push(views(list@)[i as int]));
        }
        i += 1;
    }
    proof {
        assert(views(list@).take(list@.len() as int) =~= views(list@));
    }
    out
}

/// The edges drawn among the nodes of `scope` in direction `direction`.
pub fn build_directional_edges(graph: &DependencyGraph, repos: &Vec<Repo>, direction: GraphDirection, scope: &Vec<String>) -> (r:
    Vec<(RepoId, Vec<RepoId>)>)
    ensures
        drawn_edges(r@, dep_rel(graph.entries(), repos@), views(scope@), direction),
{
    let resolved = resolve_internal_edges(graph, repos);
    proof {
        lemma_resolved_relation(resolved.edges@, graph.entries(), repos@);
    }
    let ghost rel = dep_rel(graph.entries(), repos@);
    let pairs = table_pairs(&resolved.edges);
    let nodes = sorted_unique(scope);
    let ghost keys = views(nodes@);
    let mut out: Vec<(RepoId, Vec<RepoId>)> = Vec::new();
    let mut i: usize = 0;
    while i < nodes.len()
        invariant
            keys == views(nodes@),
            i <= nodes@.len(),
            strictly_sorted(keys),
            forall|x: Seq<char>| keys.contains(x) <==> views(scope@).contains(x),
            forall|a: Seq<char>, b: Seq<char>| has_pair(pairs@, a, b) <==> rel(a, b),
            out@.map_values(|e: (RepoId, Vec<RepoId>)| e.0@) == keys.take(i as int),
            forall|j: int|
                0 <= j < out@.len() ==> strictly_sorted(id_views(#[trigger] out@[j].1@)) && forall|b: Seq<char>|
                    id_views(out@[j].1@).contains(b) <==> drawn_edge(rel, views(scope@), direction, out@[j].0@, b),
        decreases nodes@.len() - i,
    {
        proof {
            assert(keys[i as int] == nodes@[i as int]@);
            assert(keys.contains(keys[i as int]));
        }
        let below = neighbours(&pairs, &nodes, nodes[i].as_str(), direction);
        let ghost before = out@;
        out.push((RepoId::new(nodes[i].as_str()), below));
        proof {
            assert(out@.map_values(|e: (RepoId, Vec<RepoId>)| e.0@) =~= before.map_values(|e: (RepoId, Vec<RepoId>)| e.0@).push(keys[i as int]));
            assert(keys.take(i + 1) =~= keys.take(i as int).push(keys[i as int]));
            assert forall|j: int|
                0 <= j < out@.len() implies strictly_sorted(id_views(#[trigger] out@[j].1@)) && forall|b: Seq<char>|
                    id_views(out@[j].1@).contains(b) <==> drawn_edge(rel, views(scope@), direction, out@[j].0@, b) by {
                if j < before.len() {
                    assert(out@[j] == before[j]);
                } else {
                    assert(out@[j].0@ == keys[i as int]);
                    assert forall|b: Seq<char>| id_views(out@[j].1@).contains(b) <==> drawn_edge(rel, views(scope@), direction, out@[j].0@, b) by {
                        assert(views(scope@).contains(keys[i as int]));
                    }
                }
            }
        }
        i += 1;
    }
    proof {
        assert(keys.take(nodes@.len() as int) =~= keys);
    }
    out
}

/// Some entry of the table lists `x`.
pub open spec fn listed(t: Seq<(RepoId, Vec<RepoId>)>, x: Seq<char>) -> bool {
    exists|a: Seq<char>| #[trigger] table_edge(t, a, x)
}

/// A node of the scope that no entry lists.
pub open spec fn is_root(t: Seq<(RepoId, Vec<RepoId>)>, scope: Seq<Seq<char>>, x: Seq<char>) -> bool {
    scope.contains(x) && !listed(t, x)
}

/// The names as identifiers.
fn to_ids(v: &Vec<String>) -> (r: Vec<RepoId>)
    ensures
        id_views(r@) == views(v@),
{
    let mut out: Vec<RepoId> = Vec::new();
    let mut i: usize = 0;
    while i < v.len()
        invariant
            i <= v@.len(),
            id_views(out@) == views(v@).take(i as int),
        decreases v@.len() - i,
    {
        let ghost before = id_views(out@);
        out.push(RepoId::new(v[i].as_str()));
        proof {
            assert(id_views(out@) =~= before.push(views(v@)[i as int]));
            assert(views(v@).take(i + 1) =~= views(v@).take(i as int).push(views(v@)[i as int]));
        }
        i += 1;
    }
    proof {
        assert(views(v@).take(v@.len() as int) =~= views(v@));
    }
    out
}

/// Whether some pair leads to `x`.
fn pair_target(pairs: &Vec<(String, String)>, x: &str) -> (r: bool)
    ensures
        r == exists|a: Seq<char>| has_pair(pairs@, a, x@),
{
    let mut k: usize = 0;
    while k < pairs.len()
        invariant
            k <= pairs@.len(),
            forall|m: int| 0 <= m < k ==> #[trigger] pairs@[m].1@ != x@,
        decreases pairs@.len() - k,
    {
        if str_eq(pairs[k].1.as_str(), x) {
            proof {
                assert(has_pair(pairs@, pairs@[k as int].0@, x@));
            }
            return true;
        }
        k += 1;
    }
    proof {
        assert forall|a: Seq<char>| !has_pair(pairs@, a, x@) by {
            if has_pair(pairs@, a, x@) {
                let m = choose|m: int| 0 <= m < pairs@.len() && #[trigger] pairs@[m].0@ == a && pairs@[m].1@ == x@;
                assert(pairs@[m].1@ != x@);
            }
        }
    }
    false
}

/// The nodes drawing starts from: the nodes of the scope no edge leads to,
/// sorted; all nodes of the scope, sorted, when every node has an edge
/// leading to it.
pub fn graph_roots(edges: &Vec<(RepoId, Vec<RepoId>)>, scope: &Vec<String>) -> (r: Vec<RepoId>)
    ensures
        strictly_sorted(id_views(r@)),
        forall|x: Seq<char>|
            id_views(r@).contains(x) <==> (if exists|y: Seq<char>| #[trigger] is_root(edges@, views(scope@), y) {
                is_root(edges@, views(scope@), x)
            } else {
                views(scope@).contains(x)
            }),
{
    let pairs = table_pairs(edges);
    let nodes = sorted_unique(scope);
    let mut roots: Vec<String> = Vec::new();
    let mut i: usize = 0;
    while i < nodes.len()
        invariant
            i <= nodes@.len(),
            strictly_sorted(views(nodes@)),
            forall|x: Seq<char>| views(nodes@).contains(x) <==> views(scope@).contains(x),
            forall|a: Seq<char>, b: Seq<char>| has_pair(pairs@, a, b) <==> table_edge(edges@, a, b),
            strictly_sorted(views(roots@)),
            forall|x: Seq<char>| #[trigger] views(roots@).contains(x) <==> (views(nodes@).take(i as int).contains(x) && !listed(edges@, x)),
        decreases nodes@.len() - i,
    {
        let hit = pair_target(&pairs, nodes[i].as_str());
        let ghost before = views(roots@);
        let ghost y = nodes@[i as int]@;
        if !hit {
            insert_sorted_unique(&mut roots, nodes[i].clone());
        }
        proof {
            let p = views(nodes@).take(i as int);
            let q = views(nodes@).take(i + 1);
            assert(q =~= p.push(y));
            assert(hit == listed(edges@, y)) by {
                if hit {
                    let a = choose|a: Seq<char>| has_pair(pairs@, a, y);
                    assert(table_edge(edges@, a, y));
                }
                if listed(edges@, y) {
                    let a = choose|a: Seq<char>| #[trigger] table_edge(edges@, a, y);
                    assert(has_pair(pairs@, a, y));
                }
            }
            assert(views(roots@).to_set() == (if !hit { before.to_set().insert(y) } else { before.to_set() }));
            assert forall|x: Seq<char>| views(roots@).contains(x) <==> (q.contains(x) && !listed(edges@, x)) by {
                assert(views(roots@).to_set().contains(x) == views(roots@).contains(x));
                assert(before.to_set().contains(x) == before.contains(x));
                assert(before.contains(x) == (p.contains(x) && !listed(edges@, x)));
                if x == y {
                    assert(q[i as int] == x);
                }
                if q.contains(x) {
                    let k = choose|k: int| 0 <= k < q.len() && #[trigger] q[k] == x;
                    if k < i {
                        assert(p[k] == x);
                    }
                }
                if p.contains(x) {
                    let k = choose|k: int| 0 <= k < p.len() && #[trigger] p[k] == x;
                    assert(q[k] == x);
                }
            }
        }
        i += 1;
    }
    proof {
        assert(views(nodes@).take(nodes@.len() as int) =~= views(nodes@));
        assert forall|x: Seq<char>| views(roots@).contains(x) <==> is_root(edges@, views(scope@), x) by {
            assert(views(nodes@).contains(x) == views(scope@).contains(x));
            assert(views(roots@).contains(x) == (views(nodes@).take(nodes@.len() as int).contains(x) && !listed(edges@, x)));
        }
    }
    if roots.len() == 0 {
        proof {
            assert forall|y: Seq<char>| !is_root(edges@, views(scope@), y) by {
                if is_root(edges@, views(scope@), y) {
                    assert(views(roots@).contains(y));
                }
            }
        }
        return to_ids(&nodes);
    }
    proof {
        let y = views(roots@)[0];
        assert(views(roots@).contains(y));
        assert(is_root(edges@, views(scope@), y));
    }
    to_ids(&roots)
}

/// The repositories that depend directly on `repo`, sorted.
pub fn direct_dependents(graph: &DependencyGraph, repos: &Vec<Repo>, repo: &RepoId) -> (r: Vec<RepoId>)
    ensures
        strictly_sorted(id_views(r@)),
        forall|b: Seq<char>| id_views(r@).contains(b) <==> dep_rel(graph.entries(), repos@)(b, repo@),
{
    let resolved = resolve_internal_edges(graph, repos);
    proof {
        lemma_resolved_relation(resolved.edges@, graph.entries(), repos@);
    }
    let ghost rel = dep_rel(graph.entries(), repos@);
    let pairs = table_pairs(&resolved.edges);
    let mut found: Vec<String> = Vec::new();
    let mut k: usize = 0;
    while k < pairs.len()
        invariant
            k <= pairs@.len(),
            forall|a: Seq<char>, b: Seq<char>| has_pair(pairs@, a, b) <==> rel(a, b),
            strictly_sorted(views(found@)),
            forall|b: Seq<char>| views(found@).contains(b) <==> has_pair(pairs@.take(k as int), b, repo@),
        decreases pairs@.len() - k,
    {
        let ghost before = views(found@);
        let hit = str_eq(pairs[k].1.as_str(), repo.as_str());
        if hit {
            insert_sorted_unique(&mut found, pairs[k].0.clone());
        }
        proof {
            let p = pairs@.take(k as int);
            let q = pairs@.take(k + 1);
            assert(q =~= p.push(pairs@[k as int]));
            let av = pairs@[k as int].0@;
            assert(views(found@).to_set() == (if hit { before.to_set().insert(av) } else { before.to_set() }));
            assert forall|b: Seq<char>| views(found@).contains(b) <==> has_pair(q, b, repo@) by {
                assert(views(found@).to_set().contains(b) == views(found@).contains(b));
                assert(before.to_set().contains(b) == before.contains(b));
                if has_pair(q, b, repo@) {
                    let w = choose|w: int| 0 <= w < q.len() && #[trigger] q[w].0@ == b && q[w].1@ == repo@;
                    if w < p.len() {
                        assert(p[w] == q[w]);
                    }
                }
                if has_pair(p, b, repo@) {
                    let w = choose|w: int| 0 <= w < p.len() && #[trigger] p[w].0@ == b && p[w].1@ == repo@;
                    assert(q[w] == p[w]);
                }
                if hit && b == av {
                    assert(q[k as int] == pairs@[k as int]);
                }
            }
        }
        k += 1;
    }
    proof {
        assert(pairs@.take(pairs@.len() as int) =~= pairs@);
    }
    to_ids(&found)
}

/// The repositories a graph shows: every repository not ignored; when
/// changed repositories are given, those and what they reach in the chosen
/// direction.
pub open spec fn in_show_scope(ws: Workspace, changed: Option<Seq<Seq<char>>>, d: GraphDirection, x: Seq<char>) -> bool {
    match changed {
        None => exists|i: int| 0 <= i < ws.repos@.len() && #[trigger] ws.repos@[i].id@ == x && !ws.repos@[i].ignored,
        Some(c) => c.contains(x) || (goes_down(d) && reached_from_some(dep_rel(ws.graph.entries(), ws.repos@), c, x)) || (
        goes_up(d) && reached_from_some(dependent_rel(ws.graph.entries(), ws.repos@), c, x)),
    }
}

/// The repositories a graph shows, sorted.
pub fn graph_show_scope(workspace: &Workspace, changed: Option<&Vec<RepoId>>, direction: GraphDirection) -> (r: Vec<String>)
    ensures
        strictly_sorted(views(r@)),
        forall|x: Seq<char>| #[trigger] views(r@).contains(x) <==> in_show_scope(
            *workspace,
            match changed {
                Some(c) => Some(id_views(c@)),
                None => None,
            },
            direction,
            x,
        ),
{
    let mut acc: Vec<String> = Vec::new();
    match changed {
        None => {
            let rs = &workspace.repos;
            let mut i: usize = 0;
            while i < rs.len()
                invariant
                    rs == &workspace.repos,
                    i <= rs@.len(),
                    strictly_sorted(views(acc@)),
                    forall|x: Seq<char>| #[trigger] views(acc@).contains(x) <==> exists|a: int|
                        0 <= a < i && #[trigger] rs@[a].id@ == x && !rs@[a].ignored,
                decreases rs@.len() - i,
            {
                let ghost before = views(acc@);
                if !rs[i].ignored {
                    insert_sorted_unique(&mut acc, string_of(rs[i].id.as_str()));
                }
                proof {
                    assert forall|x: Seq<char>| #[trigger] views(acc@).contains(x) <==> exists|a: int|
                        0 <= a < i + 1 && #[trigger] rs@[a].id@ == x && !rs@[a].ignored by {
                        assert(views(acc@).to_set().contains(x) == views(acc@).contains(x));
                        assert(before.to_set().contains(x) == before.contains(x));
                    }
                }
                i += 1;
            }
            acc
        },
        Some(c) => {
            let ghost iv = id_views(c@);
            let ghost down = dep_rel(workspace.graph.entries(), workspace.repos@);
            let ghost up = dependent_rel(workspace.graph.entries(), workspace.repos@);
            let mut k: usize = 0;
            while k < c.len()
                invariant
                    k <= c@.len(),
                    iv == id_views(c@),
                    down == dep_rel(workspace.graph.entries(), workspace.repos@),
                    up == dependent_rel(workspace.graph.entries(), workspace.repos@),
                    strictly_sorted(views(acc@)),
                    forall|x: Seq<char>| #[trigger] views(acc@).contains(x) <==> iv.take(k as int).contains(x) || (goes_down(
                        direction,
                    ) && reached_from_some(down, iv.take(k as int), x)) || (goes_up(direction) && reached_from_some(
                        up,
                        iv.take(k as int),
                        x,
                    )),
                decreases c@.len() - k,
            {
                let one = vec![c[k].duplicate()];
                add_all(&mut acc, &one);
                proof {
                    assert(id_views(one@) =~= seq![iv[k as int]]);
                }
                let d = matches!(direction, GraphDirection::Down | GraphDirection::Both);
                if d {
                    let found = crate::graph::ops::transitive_dependencies(&workspace.graph, &workspace.repos, &c[k]);
                    add_all(&mut acc, &found);
                }
                let u = matches!(direction, GraphDirection::Up | GraphDirection::Both);
                if u {
                    let found = crate::graph::ops::transitive_dependents(&workspace.graph, &workspace.repos, &c[k]);
                    add_all(&mut acc, &found);
                }
                proof {
                    assert(iv.take(k + 1) =~= iv.take(k as int).push(iv[k as int]));
                    assert forall|x: Seq<char>| #[trigger] views(acc@).contains(x) <==> iv.take(k + 1).contains(x) || (
                    goes_down(direction) && reached_from_some(down, iv.take(k + 1), x)) || (goes_up(direction)
                        && reached_from_some(up, iv.take(k + 1), x)) by {
                        lemma_reached_step(down, iv, k as int, x);
                        lemma_reached_step(up, iv, k as int, x);
                        vstd::seq_lib::lemma_seq_contains_after_push(iv.take(k as int), iv[k as int], x);
                        assert(seq![iv[k as int]].contains(x) == (x == iv[k as int])) by {
                            if x == iv[k as int] {
                                assert(seq![iv[k as int]][0] == x);
                            }
                        }
                    }
                }
                k += 1;
            }
            proof {
                assert(iv.take(c@.len() as int) =~= iv);
            }
            acc
        },
    }
}

/// The label of a repository: its name, and its version when one is known
/// (the first recorded for it).
pub open spec fn spec_graph_label(versions: Seq<(RepoId, Version)>, x: Seq<char>) -> Seq<char> {
    match version_index(versions, x) {
        Some(i) => x + " ("@ + versions[i].1.raw@ + ")"@,
        None => x,
    }
}

/// The position of the first version recorded for `x`.
pub open spec fn version_index(versions: Seq<(RepoId, Version)>, x: Seq<char>) -> Option<int>
    decreases versions.len(),
{
    if versions.len() == 0 {
        None
    } else if versions[0].0@ == x {
        Some(0)
    } else {
        match version_index(versions.drop_first(), x) {
            Some(i) => Some(i + 1),
            None => None,
        }
    }
}

proof fn lemma_version_index_at(versions: Seq<(RepoId, Version)>, x: Seq<char>, i: int)
    requires
        0 <= i <= versions.len(),
        forall|j: int| 0 <= j < i ==> #[trigger] versions[j].0@ != x,
        i == versions.len() || versions[i].0@ == x,
    ensures
        version_index(versions, x) == (if i == versions.len() { None } else { Some(i) }),
    decreases i,
{
    if i > 0 {
        let t = versions.drop_first();
        assert forall|j: int| 0 <= j < i - 1 implies #[trigger] t[j].0@ != x by {
            assert(t[j] == versions[j + 1]);
        }
        if i < versions.len() {
            assert(t[i - 1] == versions[i]);
        }
        lemma_version_index_at(t, x, i - 1);
    }
}

/// Entry `j` of the labels is that of scope entry `j`.
pub open spec fn label_at(o: Seq<(RepoId, String)>, scope: Seq<String>, versions: Seq<(RepoId, Version)>, j: int) -> bool {
    o[j].0@ == scope[j]@ && o[j].1@ == spec_graph_label(versions, scope[j]@)
}

/// The labels of the repositories of a graph, in scope order.
pub fn graph_labels(scope: &Vec<String>, versions: &Vec<(RepoId, Version)>) -> (r: Vec<(RepoId, String)>)
    ensures
        r@.len() == scope@.len(),
        forall|j: int| 0 <= j < r@.len() ==> #[trigger] label_at(r@, scope@, versions@, j),
{
    let mut out: Vec<(RepoId, String)> = Vec::new();
    let mut i: usize = 0;
    while i < scope.len()
        invariant
            i <= scope@.len(),
            out@.len() == i,
            forall|j: int| 0 <= j < i ==> #[trigger] label_at(out@, scope@, versions@, j),
        decreases scope@.len() - i,
    {
        let x = scope[i].as_str();
        let mut k: usize = 0;
        let mut found: Option<usize> = None;
        while k < versions.len()
            invariant
                i < scope@.len(),
                x@ == scope@[i as int]@,
                out@.len() == i,
                forall|j: int| 0 <= j < i ==> #[trigger] label_at(out@, scope@, versions@, j),
                k <= versions@.len(),
                found is None ==> forall|j: int| 0 <= j < k ==> #[trigger] versions@[j].0@ != x@,
                found matches Some(p) ==> p < k && versions@[p as int].0@ == x@ && forall|j: int|
                    0 <= j < p ==> #[trigger] versions@[j].0@ != x@,
            decreases versions@.len() - k,
        {
            if found.is_none() && str_eq(versions[k].0.as_str(), x) {
                found = Some(k);
            }
            k += 1;
        }
        let label = match found {
            Some(p) => {
                proof {
                    lemma_version_index_at(versions@, x@, p as int);
                }
                let mut l = string_of(x);
                crate::text::push_str(&mut l, " (");
                crate::text::push_str(&mut l, versions[p].1.raw.as_str());
                crate::text::push_str(&mut l, ")");
                l
            },
            None => {
                proof {
                    lemma_version_index_at(versions@, x@, versions@.len() as int);
                }
                string_of(x)
            },
        };
        assert(label@ == spec_graph_label(versions@, scope@[i as int]@));
        let ghost before = out@;
        let ghost lv = label@;
        let id = RepoId::new(x);
        let ghost idv = id@;
        out.push((id, label));
        proof {
            assert(out@[i as int].0@ == idv && idv == scope@[i as int]@);
            assert(out@[i as int].1@ == lv);
            assert forall|j: int| 0 <= j < i + 1 implies #[trigger] label_at(out@, scope@, versions@, j) by {
                if j < i {
                    assert(out@[j] == before[j]);
                    assert(label_at(before, scope@, versions@, j));
                }
            }
        }
        i += 1;
    }
    out
}

/// How a graph is printed.
#[derive(Debug, Clone, Copy, PartialEq, Eq, Structural)]
pub enum GraphFormat {
    Tree,
    Flat,
    Dot,
    Json,
}

/// The format a name selects, ignoring ASCII case.
pub open spec fn spec_graph_format(input: Seq<char>) -> Option<GraphFormat> {
    let l = ascii_lower(input);
    if l == "tree"@ {
        Some(GraphFormat::Tree)
    } else if l == "flat"@ {
        Some(GraphFormat::Flat)
    } else if l == "dot"@ {
        Some(GraphFormat::Dot)
    } else if l == "json"@ {
        Some(GraphFormat::Json)
    } else {
        None
    }
}

/// The format named `input`; an error naming it in lower case otherwise.
pub fn parse_graph_format(input: &str) -> (r: Result<GraphFormat, HarmoniaError>)
    ensures
        match spec_graph_format(input@) {
            Some(f) => r == Ok::<GraphFormat, HarmoniaError>(f),
            None => r matches Err(HarmoniaError::Other(m)) && m@ == "unknown graph format '"@ + ascii_lower(input@) + "'"@,
        },
{
    let l = to_ascii_lower(input);
    if lower_equals(&l, "tree") {
        Ok(GraphFormat::Tree)
    } else if lower_equals(&l, "flat") {
        Ok(GraphFormat::Flat)
    } else if lower_equals(&l, "dot") {
        Ok(GraphFormat::Dot)
    } else if lower_equals(&l, "json") {
        Ok(GraphFormat::Json)
    } else {
        let lower = crate::text::from_chars(&l);
        Err(HarmoniaError::Other(concat3("unknown graph format '", lower.as_str(), "'")))
    }
}

} // verus!
