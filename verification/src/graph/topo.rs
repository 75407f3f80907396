//! Dependency-first ordering of a set of repositories.
//!
//! The order is built greedily: at each step the least (by name) repository
//! that is ready is placed next. A repository is ready once each of its
//! dependencies inside the set is placed; a dependency listed twice counts
//! once. The ordering stops short of the whole set exactly when the set holds
//! a cycle.
use vstd::prelude::*;
use crate::graph::{find_key, key_index, unique_keys};
use crate::order::{contains_str, seq_lt, strictly_sorted, views, lemma_distinct_len_le};
use crate::project::repo::{RepoId, id_views};
use crate::text::{str_eq, string_of};

verus! {

/// `x` can be placed after `placed`: it is in the set, not yet placed, and each
/// of its dependencies in the set is placed.
pub open spec fn ready(
    deps: spec_fn(Seq<char>) -> Seq<Seq<char>>,
    n: Set<Seq<char>>,
    placed: Seq<Seq<char>>,
    x: Seq<char>,
) -> bool {
    &&& n.contains(x)
    &&& !placed.contains(x)
    &&& forall|k: int|
        0 <= k < deps(x).len() && n.contains(#[trigger] deps(x)[k]) ==> placed.contains(deps(x)[k])
}

/// `x` is the least ready repository.
pub open spec fn least_ready(
    deps: spec_fn(Seq<char>) -> Seq<Seq<char>>,
    n: Set<Seq<char>>,
    placed: Seq<Seq<char>>,
    x: Seq<char>,
) -> bool {
    &&& ready(deps, n, placed, x)
    &&& forall|y: Seq<char>| #[trigger] ready(deps, n, placed, y) ==> y == x || seq_lt(x, y)
}

/// Each element of `p` is the least repository ready after those before it.
pub open spec fn greedy_prefix(deps: spec_fn(Seq<char>) -> Seq<Seq<char>>, n: Set<Seq<char>>, p: Seq<Seq<char>>) -> bool {
    forall|k: int| 0 <= k < p.len() ==> least_ready(deps, n, p.take(k), #[trigger] p[k])
}

/// Nothing is ready after `p`.
pub open spec fn stuck(deps: spec_fn(Seq<char>) -> Seq<Seq<char>>, n: Set<Seq<char>>, p: Seq<Seq<char>>) -> bool {
    forall|y: Seq<char>| !#[trigger] ready(deps, n, p, y)
}

/// The dependencies an adjacency table with distinct keys lists for each key.
pub open spec fn table_deps(t: Seq<(RepoId, Vec<RepoId>)>) -> spec_fn(Seq<char>) -> Seq<Seq<char>> {
    |x: Seq<char>|
        match key_index(t, x) {
            Some(i) => id_views(t[i].1@),
            None => Seq::empty(),
        }
}

/// Whether `x`, a member of `nodes`, is ready after `placed`.
fn is_ready(t: &Vec<(RepoId, Vec<RepoId>)>, nodes: &Vec<String>, placed: &Vec<String>, x: &str) -> (r: bool)
    requires
        unique_keys(t@),
        views(nodes@).contains(x@),
    ensures
        r == ready(table_deps(t@), views(nodes@).to_set(), views(placed@), x@),
{
    let ghost n = views(nodes@).to_set();
    let ghost p = views(placed@);
    let ghost d = table_deps(t@)(x@);
    if contains_str(placed, x) {
        return false;
    }
    let pos = find_key(t, x);
    match pos {
        None => {
            proof {
                assert(d.len() == 0);
            }
            true
        },
        Some(i) => {
            let targets = &t[i].1;
            proof {
                assert(d == id_views(targets@));
            }
            let mut k: usize = 0;
            while k < targets.len()
                invariant
                    d == id_views(targets@),
                    d == table_deps(t@)(x@),
                    n == views(nodes@).to_set(),
                    p == views(placed@),
                    k <= targets@.len(),
                    forall|k1: int| 0 <= k1 < k && n.contains(#[trigger] d[k1]) ==> p.contains(d[k1]),
                decreases targets@.len() - k,
            {
                let name = targets[k].as_str();
                if contains_str(nodes, name) {
                    if !contains_str(placed, name) {
                        proof {
                            assert(n.contains(d[k as int]));
                            assert(!p.contains(d[k as int]));
                        }
                        return false;
                    }
                }
                k += 1;
            }
            true
        },
    }
}

/// The greedy dependency-first order of `nodes` (sorted, without repetitions)
/// along the table; `Err` when it stops before every node is placed.
pub fn order_nodes(t: &Vec<(RepoId, Vec<RepoId>)>, nodes: &Vec<String>) -> (r: Result<Vec<RepoId>, ()>)
    requires
        unique_keys(t@),
        strictly_sorted(views(nodes@)),
    ensures
        match r {
            Ok(o) => greedy_prefix(table_deps(t@), views(nodes@).to_set(), id_views(o@))
                && id_views(o@).len() == nodes@.len(),
            Err(_) => exists|p: Seq<Seq<char>>|
                greedy_prefix(table_deps(t@), views(nodes@).to_set(), p) && stuck(
                    table_deps(t@),
                    views(nodes@).to_set(),
                    p,
                ) && p.len() < nodes@.len(),
        },
{
    let ghost deps = table_deps(t@);
    let ghost nv = views(nodes@);
    let ghost n = nv.to_set();
    let mut placed: Vec<String> = Vec::new();
    let mut done = false;
    proof {
        assert(views(placed@) =~= Seq::<Seq<char>>::empty());
    }
    while !done
        invariant
            unique_keys(t@),
            strictly_sorted(nv),
            nv == views(nodes@),
            n == nv.to_set(),
            deps == table_deps(t@),
            greedy_prefix(deps, n, views(placed@)),
            views(placed@).no_duplicates(),
            forall|k: int| 0 <= k < placed@.len() ==> nv.contains(#[trigger] views(placed@)[k]),
            placed@.len() <= nodes@.len(),
            done ==> stuck(deps, n, views(placed@)),
        decreases nodes@.len() - placed@.len() + (if done { 0int } else { 1int }),
    {
        let mut k: usize = 0;
        let mut found: Option<usize> = None;
        while k < nodes.len()
            invariant_except_break
                found is None,
            invariant
                unique_keys(t@),
                nv == views(nodes@),
                n == nv.to_set(),
                deps == table_deps(t@),
                k <= nodes@.len(),
                forall|m: int| 0 <= m < k ==> !ready(deps, n, views(placed@), #[trigger] nv[m]),
            ensures
                found matches Some(i) ==> i < nodes@.len() && ready(deps, n, views(placed@), nv[i as int])
                    && forall|m: int| 0 <= m < i ==> !ready(deps, n, views(placed@), #[trigger] nv[m]),
                found is None ==> forall|m: int|
                    0 <= m < nodes@.len() ==> !ready(deps, n, views(placed@), #[trigger] nv[m]),
            decreases nodes@.len() - k,
        {
            proof {
                assert(nv.contains(nv[k as int]));
            }
            if is_ready(t, nodes, &placed, nodes[k].as_str()) {
                found = Some(k);
                break;
            }
            k += 1;
        }
        let ghost before = views(placed@);
        match found {
            None => {
                done = true;
                proof {
                    assert forall|y: Seq<char>| !#[trigger] ready(deps, n, before, y) by {
                        if ready(deps, n, before, y) {
                            assert(n.contains(y));
                            let m = choose|m: int| 0 <= m < nv.len() && nv[m] == y;
                            assert(!ready(deps, n, before, nv[m]));
                        }
                    }
                }
            },
            Some(i) => {
                let ghost x = nv[i as int];
                proof {
                    assert forall|y: Seq<char>| #[trigger] ready(deps, n, before, y) implies y == x || seq_lt(x, y) by {
                        assert(n.contains(y));
                        let m = choose|m: int| 0 <= m < nv.len() && nv[m] == y;
                        if m < i {
                            assert(!ready(deps, n, before, nv[m]));
                        } else if m > i {
                            assert(seq_lt(nv[i as int], nv[m]));
                        }
                    }
                    assert(least_ready(deps, n, before, x));
                }
                placed.push(string_of(nodes[i].as_str()));
                proof {
                    let after = views(placed@);
                    assert(after =~= before.push(x));
                    assert forall|k1: int| 0 <= k1 < after.len() implies least_ready(
                        deps,
                        n,
                        after.take(k1),
                        #[trigger] after[k1],
                    ) by {
                        if k1 < before.len() {
                            assert(after.take(k1) =~= before.take(k1));
                            assert(after[k1] == before[k1]);
                        } else {
                            assert(after.take(k1) =~= before);
                        }
                    }
                    assert(after.no_duplicates()) by {
                        assert(!before.contains(x));
                        assert forall|a: int, b: int| 0 <= a < b < after.len() implies after[a] != after[b] by {
                            if b == before.len() {
                                assert(after[a] == before[a]);
                                assert(before.contains(before[a]));
                            } else {
                                assert(after[a] == before[a] && after[b] == before[b]);
                            }
                        }
                    }
                    assert forall|k1: int| 0 <= k1 < after.len() implies nv.contains(#[trigger] after[k1]) by {
                        if k1 < before.len() {
                            assert(after[k1] == before[k1]);
                        } else {
                            assert(nv[i as int] == after[k1]);
                        }
                    }
                    lemma_distinct_len_le(after, nv);
                }
            },
        }
    }
    if placed.len() == nodes.len() {
        let ghost pv = views(placed@);
        let mut out: Vec<RepoId> = Vec::new();
        let mut i: usize = 0;
        while i < placed.len()
            invariant
                i <= placed@.len(),
                pv == views(placed@),
                id_views(out@) =~= pv.subrange(0, i as int),
            decreases placed@.len() - i,
        {
            out.push(RepoId::new(placed[i].as_str()));
            proof {
                assert(pv.subrange(0, i + 1) =~= pv.subrange(0, i as int).push(pv[i as int]));
            }
            i += 1;
        }
        proof {
            assert(pv.subrange(0, pv.len() as int) =~= pv);
        }
        Ok(out)
    } else {
        Err(())
    }
}

/// In a complete greedy order each dependency inside the set comes before the
/// repository that depends on it.
pub proof fn lemma_greedy_dependency_first(
    deps: spec_fn(Seq<char>) -> Seq<Seq<char>>,
    n: Set<Seq<char>>,
    p: Seq<Seq<char>>,
    i: int,
    k: int,
)
    requires
        greedy_prefix(deps, n, p),
        0 <= i < p.len(),
        0 <= k < deps(p[i]).len(),
        n.contains(deps(p[i])[k]),
    ensures
        exists|j: int| 0 <= j < i && p[j] == deps(p[i])[k],
{
    assert(least_ready(deps, n, p.take(i), p[i]));
    assert(p.take(i).contains(deps(p[i])[k]));
    let j = choose|j: int| 0 <= j < p.take(i).len() && p.take(i)[j] == deps(p[i])[k];
    assert(p[j] == deps(p[i])[k]);
}

/// A greedy prefix has no repetitions and stays inside the set.
pub proof fn lemma_greedy_distinct(deps: spec_fn(Seq<char>) -> Seq<Seq<char>>, n: Set<Seq<char>>, p: Seq<Seq<char>>)
    requires
        greedy_prefix(deps, n, p),
    ensures
        p.no_duplicates(),
        forall|k: int| 0 <= k < p.len() ==> n.contains(#[trigger] p[k]),
{
    assert forall|a: int, b: int| 0 <= a < b < p.len() implies p[a] != p[b] by {
        assert(least_ready(deps, n, p.take(b), p[b]));
        assert(p.take(b)[a] == p[a]);
        assert(p.take(b).contains(p[a]));
    }
    assert forall|k: int| 0 <= k < p.len() implies n.contains(#[trigger] p[k]) by {
        assert(least_ready(deps, n, p.take(k), p[k]));
    }
}

} // verus!
