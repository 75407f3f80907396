//! Cycle detection by depth-first search.
use vstd::prelude::*;
use crate::graph::DependencyGraph;
use crate::graph::closure::{successors, table_edge, table_rel, table_targets};
use crate::graph::model::dep_rel;
use crate::graph::ops::{resolve_internal_edges, lemma_resolved_relation, key_views};
use crate::order::{contains_str, insert_sorted_unique, strictly_sorted, views, lemma_sorted_distinct, lemma_distinct_len_le};
use crate::project::repo::{Repo, RepoId, id_views};
use crate::text::{str_eq, string_of};

verus! {

/// `c` is a cycle along `rel`: each element steps to the next, and the last
/// steps back to the first.
pub open spec fn is_cycle(rel: spec_fn(Seq<char>, Seq<char>) -> bool, c: Seq<Seq<char>>) -> bool {
    &&& c.len() >= 1
    &&& forall|k: int| 0 <= k < c.len() - 1 ==> #[trigger] rel(c[k], c[k + 1])
    &&& rel(c.last(), c[0])
}

/// Each element of `s` steps to the next along `rel`.
pub open spec fn is_path(rel: spec_fn(Seq<char>, Seq<char>) -> bool, s: Seq<Seq<char>>) -> bool {
    forall|k: int| 0 <= k < s.len() - 1 ==> #[trigger] rel(s[k], s[k + 1])
}

/// Every node a table mentions: its keys and what they list.
pub open spec fn table_nodes(t: Seq<(RepoId, Vec<RepoId>)>) -> Seq<Seq<char>> {
    key_views(t) + table_targets(t)
}

/// Every reported cycle is a cycle along `rel`.
pub open spec fn all_cycles(rel: spec_fn(Seq<char>, Seq<char>) -> bool, cs: Seq<Vec<RepoId>>) -> bool {
    forall|i: int| 0 <= i < cs.len() ==> is_cycle(rel, id_views(#[trigger] cs[i]@))
}

/// Each node of `fin` comes after every node it steps to along `rel`.
spec fn finish_order(rel: spec_fn(Seq<char>, Seq<char>) -> bool, fin: Seq<Seq<char>>) -> bool {
    forall|i: int, y: Seq<char>|
        0 <= i < fin.len() && #[trigger] rel(fin[i], y) ==> exists|j: int| 0 <= j < i && fin[j] == y
}

/// `b` begins with `a`.
spec fn extends(b: Seq<Seq<char>>, a: Seq<Seq<char>>) -> bool {
    &&& a.len() <= b.len()
    &&& forall|j: int| 0 <= j < a.len() ==> #[trigger] b[j] == a[j]
}

/// The state of a depth-first search: what was seen has either finished or is
/// on the current path, nothing finished twice or is still on the path, and
/// while no cycle was reported each finished node came after those it leads to.
spec fn search_state(
    rel: spec_fn(Seq<char>, Seq<char>) -> bool,
    seen: Seq<Seq<char>>,
    stack: Seq<Seq<char>>,
    fin: Seq<Seq<char>>,
    n_cycles: nat,
) -> bool {
    &&& forall|x: Seq<char>|
        #![trigger seen.contains(x)]
        #![trigger fin.contains(x)]
        #![trigger stack.contains(x)]
        seen.contains(x) <==> (fin.contains(x) || stack.contains(x))
    &&& fin.no_duplicates()
    &&& forall|i: int| 0 <= i < fin.len() ==> !stack.contains(#[trigger] fin[i])
    &&& n_cycles == 0 ==> finish_order(rel, fin)
}

/// Following a path from `c[0]` through a finish order only goes back in it.
proof fn lemma_chain(
    rel: spec_fn(Seq<char>, Seq<char>) -> bool,
    fin: Seq<Seq<char>>,
    c: Seq<Seq<char>>,
    i0: int,
    k: int,
) -> (j: int)
    requires
        finish_order(rel, fin),
        is_path(rel, c),
        0 <= k < c.len(),
        0 <= i0 < fin.len(),
        fin[i0] == c[0],
    ensures
        0 <= j <= i0 - k,
        fin[j] == c[k],
    decreases k,
{
    if k == 0 {
        i0
    } else {
        let jp = lemma_chain(rel, fin, c, i0, k - 1);
        assert(rel(c[k - 1], c[(k - 1) + 1]));
        assert(rel(fin[jp], c[k]));
        let j = choose|j: int| 0 <= j < jp && fin[j] == c[k];
        j
    }
}

/// No cycle runs through a table whose keys all stand, once each, in a finish
/// order.
proof fn lemma_finished_acyclic(t: Seq<(RepoId, Vec<RepoId>)>, fin: Seq<Seq<char>>, c: Seq<Seq<char>>)
    requires
        finish_order(table_rel(t), fin),
        fin.no_duplicates(),
        forall|k: int| 0 <= k < t.len() ==> fin.contains(#[trigger] t[k].0@),
    ensures
        !is_cycle(table_rel(t), c),
{
    let rel = table_rel(t);
    if is_cycle(rel, c) {
        let nx = if c.len() > 1 { c[1] } else { c[0] };
        if c.len() > 1 {
            assert(rel(c[0int], c[0int + 1]));
        }
        assert(table_edge(t, c[0], nx));
        let (a, b) = choose|a: int, b: int|
            0 <= a < t.len() && 0 <= b < t[a].1@.len() && #[trigger] t[a].0@ == c[0] && #[trigger] t[a].1@[b]@
                == nx;
        assert(fin.contains(t[a].0@));
        let i0 = choose|i0: int| 0 <= i0 < fin.len() && fin[i0] == c[0];
        let jl = lemma_chain(rel, fin, c, i0, c.len() - 1);
        assert(rel(fin[jl], c[0]));
        let j = choose|j: int| 0 <= j < jl && fin[j] == c[0];
        assert(fin[j] == fin[i0]);
    }
}

/// The identifiers for a list of names.
fn ids_of(v: &Vec<String>, from: usize) -> (r: Vec<RepoId>)
    requires
        from <= v@.len(),
    ensures
        id_views(r@) == views(v@).subrange(from as int, v@.len() as int),
{
    let ghost sv = views(v@);
    let mut out: Vec<RepoId> = Vec::new();
    let mut i: usize = from;
    while i < v.len()
        invariant
            from <= i <= v@.len(),
            sv == views(v@),
            id_views(out@) =~= sv.subrange(from as int, i as int),
        decreases v@.len() - i,
    {
        out.push(RepoId::new(v[i].as_str()));
        proof {
            assert(sv.subrange(from as int, i + 1) =~= sv.subrange(from as int, i as int).push(sv[i as int]));
        }
        i += 1;
    }
    out
}

/// Visits `node` and, depth first, everything it leads to that was not seen
/// yet; a step back onto the current path reports the path from there as a
/// cycle. `fin` lists the nodes whose search has finished, in the order they
/// finished; the result lists them after this visit.
fn visit(
    t: &Vec<(RepoId, Vec<RepoId>)>,
    node: &str,
    seen: &mut Vec<String>,
    stack: &mut Vec<String>,
    cycles: &mut Vec<Vec<RepoId>>,
    Ghost(u): Ghost<Seq<Seq<char>>>,
    Ghost(fin): Ghost<Seq<Seq<char>>>,
) -> (fin_out: Ghost<Seq<Seq<char>>>)
    requires
        u == table_nodes(t@),
        u.contains(node@),
        strictly_sorted(views(old(seen)@)),
        forall|k: int| 0 <= k < old(seen)@.len() ==> u.contains(#[trigger] views(old(seen)@)[k]),
        is_path(table_rel(t@), views(old(stack)@)),
        old(stack)@.len() > 0 ==> table_edge(t@, views(old(stack)@).last(), node@),
        all_cycles(table_rel(t@), old(cycles)@),
        search_state(table_rel(t@), views(old(seen)@), views(old(stack)@), fin, old(cycles)@.len()),
    ensures
        final(stack)@ == old(stack)@,
        strictly_sorted(views(final(seen)@)),
        forall|k: int| 0 <= k < final(seen)@.len() ==> u.contains(#[trigger] views(final(seen)@)[k]),
        final(seen)@.len() >= old(seen)@.len(),
        all_cycles(table_rel(t@), final(cycles)@),
        final(cycles)@.len() >= old(cycles)@.len(),
        views(final(seen)@).contains(node@),
        extends(fin_out@, fin),
        search_state(table_rel(t@), views(final(seen)@), views(final(stack)@), fin_out@, final(cycles)@.len()),
        final(cycles)@.len() == 0 ==> fin_out@.contains(node@),
    decreases u.len() - old(seen)@.len(),
{
    let ghost rel = table_rel(t@);
    let ghost seen0 = seen@.len();
    proof {
        lemma_sorted_distinct(views(seen@));
        lemma_distinct_len_le(views(seen@), u);
    }
    if contains_str(seen, node) {
        let mut pos: usize = 0;
        while pos < stack.len()
            invariant
                pos <= stack@.len(),
                forall|k: int| 0 <= k < pos ==> #[trigger] views(stack@)[k] != node@,
            ensures
                pos <= stack@.len(),
                forall|k: int| 0 <= k < pos ==> #[trigger] views(stack@)[k] != node@,
                pos < stack@.len() ==> views(stack@)[pos as int] == node@,
            decreases stack@.len() - pos,
        {
            if str_eq(stack[pos].as_str(), node) {
                break;
            }
            pos += 1;
        }
        if pos < stack.len() {
            let c = ids_of(stack, pos);
            proof {
                let sv = views(stack@);
                let cv = id_views(c@);
                assert(cv[0] == node@);
                assert forall|k: int| 0 <= k < cv.len() - 1 implies #[trigger] rel(cv[k], cv[k + 1]) by {
                    assert(cv[k] == sv[pos + k]);
                    assert(cv[k + 1] == sv[pos + k + 1]);
                    assert(rel(sv[pos + k], sv[pos + k + 1]));
                }
                assert(cv.last() == sv.last());
                assert(rel(cv.last(), cv[0]));
            }
            let ghost before = cycles@;
            cycles.push(c);
            proof {
                assert forall|i: int| 0 <= i < cycles@.len() implies is_cycle(rel, id_views(#[trigger] cycles@[i]@)) by {
                    if i < before.len() {
                        assert(cycles@[i] == before[i]);
                    }
                }
            }
        } else {
            proof {
                assert(!views(stack@).contains(node@));
            }
        }
        return Ghost(fin);
    }
    let ghost seen_before = views(seen@);
    let _ = insert_sorted_unique(seen, string_of(node));
    proof {
        let sv = views(seen@);
        assert forall|k: int| 0 <= k < seen@.len() implies u.contains(#[trigger] views(seen@)[k]) by {
            assert(sv.to_set().contains(sv[k]));
        }
    }
    let ghost old_stack = stack@;
    stack.push(string_of(node));
    proof {
        let sv = views(seen@);
        let st = views(stack@);
        let ost = views(old_stack);
        assert(st =~= ost.push(node@));
        assert forall|k: int| 0 <= k < st.len() - 1 implies #[trigger] rel(st[k], st[k + 1]) by {
            if k < st.len() - 2 {
                assert(rel(ost[k], ost[k + 1]));
            } else {
                assert(table_edge(t@, ost.last(), node@));
            }
        }
        assert(st[st.len() - 1] == node@);
        assert(!ost.contains(node@));
        assert forall|x: Seq<char>|
            #![trigger sv.contains(x)]
            #![trigger fin.contains(x)]
            #![trigger st.contains(x)]
            sv.contains(x) <==> (fin.contains(x) || st.contains(x)) by {
            assert(sv.to_set().contains(x) == sv.contains(x));
            assert(seen_before.to_set().contains(x) == seen_before.contains(x));
            if st.contains(x) && x != node@ {
                let k = choose|k: int| 0 <= k < st.len() && st[k] == x;
                assert(ost[k] == x);
            }
            if ost.contains(x) {
                let k = choose|k: int| 0 <= k < ost.len() && ost[k] == x;
                assert(st[k] == x);
            }
        }
        assert forall|i: int| 0 <= i < fin.len() implies !st.contains(#[trigger] fin[i]) by {
            assert(fin.contains(fin[i]));
            assert(seen_before.contains(fin[i]));
            if st.contains(fin[i]) {
                let k = choose|k: int| 0 <= k < st.len() && st[k] == fin[i];
                if k < st.len() - 1 {
                    assert(ost[k] == fin[i]);
                }
            }
        }
        assert(sv.contains(node@));
    }
    let next = successors(t, node);
    let ghost mid_stack = stack@;
    let ghost mut fin_cur = fin;
    let ghost c0 = cycles@.len();
    let mut i: usize = 0;
    while i < next.len()
        invariant
            u == table_nodes(t@),
            rel == table_rel(t@),
            i <= next@.len(),
            stack@ == mid_stack,
            views(mid_stack) == views(old_stack).push(node@),
            !views(old_stack).contains(node@),
            views(mid_stack).last() == node@,
            mid_stack.len() > 0,
            is_path(rel, views(stack@)),
            forall|k: int| 0 <= k < next@.len() ==> table_edge(t@, node@, #[trigger] views(next@)[k]),
            forall|b: Seq<char>| table_edge(t@, node@, b) ==> views(next@).contains(b),
            strictly_sorted(views(seen@)),
            forall|k: int| 0 <= k < seen@.len() ==> u.contains(#[trigger] views(seen@)[k]),
            seen@.len() > seen0,
            seen0 == old(seen)@.len(),
            all_cycles(rel, cycles@),
            c0 == old(cycles)@.len(),
            cycles@.len() >= c0,
            extends(fin_cur, fin),
            search_state(rel, views(seen@), views(stack@), fin_cur, cycles@.len()),
            cycles@.len() == 0 ==> forall|k: int| 0 <= k < i ==> fin_cur.contains(#[trigger] views(next@)[k]),
        decreases next@.len() - i,
    {
        proof {
            let nk = views(next@)[i as int];
            assert(table_edge(t@, node@, nk));
            let (a, j) = choose|a: int, j: int|
                0 <= a < t@.len() && 0 <= j < t@[a].1@.len() && #[trigger] t@[a].0@ == node@
                    && #[trigger] t@[a].1@[j]@ == nk;
            crate::graph::closure::lemma_target_listed(t@, a, j);
            let tt = table_targets(t@);
            let m = choose|m: int| 0 <= m < tt.len() && tt[m] == nk;
            assert(u[key_views(t@).len() + m] == nk);
            lemma_sorted_distinct(views(seen@));
            lemma_distinct_len_le(views(seen@), u);
        }
        let ghost prev = fin_cur;
        let ghost prev_len = cycles@.len();
        let r = visit(t, next[i].as_str(), seen, stack, cycles, Ghost(u), Ghost(fin_cur));
        proof {
            fin_cur = r@;
            if cycles@.len() == 0 {
                assert(prev_len == 0);
                assert forall|k: int| 0 <= k < i + 1 implies fin_cur.contains(#[trigger] views(next@)[k]) by {
                    if k < i {
                        assert(prev.contains(views(next@)[k]));
                        let j = choose|j: int| 0 <= j < prev.len() && prev[j] == views(next@)[k];
                        assert(fin_cur[j] == prev[j]);
                    }
                }
            }
        }
        i += 1;
    }
    let _ = stack.pop();
    proof {
        assert(stack@ =~= old_stack);
        let fin_new = fin_cur.push(node@);
        let sv = views(seen@);
        let st = views(stack@);
        let mst = views(mid_stack);
        let n = fin_cur.len() as int;
        assert(mst[mst.len() - 1] == node@);
        assert(mst.contains(node@));
        assert(sv.contains(node@));
        assert(!fin_cur.contains(node@)) by {
            if fin_cur.contains(node@) {
                let j = choose|j: int| 0 <= j < fin_cur.len() && fin_cur[j] == node@;
                assert(!mst.contains(fin_cur[j]));
            }
        }
        assert(fin_new[n] == node@);
        assert forall|a: int, b: int| 0 <= a < fin_new.len() && 0 <= b < fin_new.len() && a != b implies fin_new[a]
            != fin_new[b] by {
            if a < n && b < n {
                assert(fin_new[a] == fin_cur[a] && fin_new[b] == fin_cur[b]);
            } else if a == n {
                assert(fin_new[b] == fin_cur[b]);
            } else {
                assert(fin_new[a] == fin_cur[a]);
            }
        }
        assert forall|x: Seq<char>|
            #![trigger sv.contains(x)]
            #![trigger fin_new.contains(x)]
            #![trigger st.contains(x)]
            sv.contains(x) <==> (fin_new.contains(x) || st.contains(x)) by {
            if fin_new.contains(x) && x != node@ {
                let j = choose|j: int| 0 <= j < fin_new.len() && fin_new[j] == x;
                assert(fin_cur[j] == x);
            }
            if fin_cur.contains(x) {
                let j = choose|j: int| 0 <= j < fin_cur.len() && fin_cur[j] == x;
                assert(fin_new[j] == x);
            }
            if mst.contains(x) && x != node@ {
                let k = choose|k: int| 0 <= k < mst.len() && mst[k] == x;
                assert(st[k] == x);
            }
            if st.contains(x) {
                let k = choose|k: int| 0 <= k < st.len() && st[k] == x;
                assert(mst[k] == x);
            }
        }
        assert forall|j: int| 0 <= j < fin_new.len() implies !st.contains(#[trigger] fin_new[j]) by {
            if j < n {
                assert(fin_new[j] == fin_cur[j]);
                assert(!mst.contains(fin_cur[j]));
                if st.contains(fin_cur[j]) {
                    let k = choose|k: int| 0 <= k < st.len() && st[k] == fin_cur[j];
                    assert(mst[k] == st[k]);
                }
            }
        }
        if cycles@.len() == 0 {
            assert forall|j: int, y: Seq<char>| 0 <= j < fin_new.len() && #[trigger] rel(fin_new[j], y) implies exists|
                m: int,
            | 0 <= m < j && fin_new[m] == y by {
                if j < n {
                    assert(fin_new[j] == fin_cur[j]);
                    assert(rel(fin_cur[j], y));
                    let m = choose|m: int| 0 <= m < j && fin_cur[m] == y;
                    assert(fin_new[m] == y);
                } else {
                    assert(table_edge(t@, node@, y));
                    assert(views(next@).contains(y));
                    let k = choose|k: int| 0 <= k < next@.len() && views(next@)[k] == y;
                    assert(fin_cur.contains(views(next@)[k]));
                    let m = choose|m: int| 0 <= m < fin_cur.len() && fin_cur[m] == y;
                    assert(fin_new[m] == y);
                }
            }
        }
        assert forall|j: int| 0 <= j < fin.len() implies #[trigger] fin_new[j] == fin[j] by {
            assert(fin_cur[j] == fin[j]);
        }
    }
    Ghost(fin_cur.push(node@))
}

/// Depth-first search from each repository with an entry, in entry order;
/// each step back onto the current path reports the path from that
/// repository on as a cycle. Nothing is reported exactly when the graph has
/// no cycle.
pub fn find_cycles(graph: &DependencyGraph, repos: &Vec<Repo>) -> (r: Vec<Vec<RepoId>>)
    ensures
        all_cycles(dep_rel(graph.entries(), repos@), r@),
        r@.len() > 0 <==> exists|c: Seq<Seq<char>>| is_cycle(dep_rel(graph.entries(), repos@), c),
{
    let resolved = resolve_internal_edges(graph, repos);
    let t = &resolved.edges;
    proof {
        lemma_resolved_relation(t@, graph.entries(), repos@);
    }
    let ghost u = table_nodes(t@);
    let mut seen: Vec<String> = Vec::new();
    let mut stack: Vec<String> = Vec::new();
    let mut cycles: Vec<Vec<RepoId>> = Vec::new();
    let ghost mut fin: Seq<Seq<char>> = Seq::empty();
    proof {
        assert(views(seen@) =~= Seq::<Seq<char>>::empty());
        assert(views(stack@) =~= Seq::<Seq<char>>::empty());
    }
    let mut i: usize = 0;
    while i < t.len()
        invariant
            u == table_nodes(t@),
            i <= t@.len(),
            stack@.len() == 0,
            strictly_sorted(views(seen@)),
            forall|k: int| 0 <= k < seen@.len() ==> u.contains(#[trigger] views(seen@)[k]),
            all_cycles(table_rel(t@), cycles@),
            search_state(table_rel(t@), views(seen@), views(stack@), fin, cycles@.len()),
            cycles@.len() == 0 ==> forall|k: int| 0 <= k < i ==> fin.contains(#[trigger] t@[k].0@),
        decreases t@.len() - i,
    {
        let key = t[i].0.as_str();
        let ghost prev = fin;
        let ghost prev_len = cycles@.len();
        if !contains_str(&seen, key) {
            proof {
                assert(u[i as int] == key@);
                assert(is_path(table_rel(t@), views(stack@)));
            }
            let r = visit(t, key, &mut seen, &mut stack, &mut cycles, Ghost(u), Ghost(fin));
            proof {
                fin = r@;
            }
        } else {
            proof {
                assert(views(stack@) =~= Seq::<Seq<char>>::empty());
                assert(!views(stack@).contains(key@));
            }
        }
        proof {
            if cycles@.len() == 0 {
                assert(prev_len == 0);
                assert forall|k: int| 0 <= k < i + 1 implies fin.contains(#[trigger] t@[k].0@) by {
                    if k < i {
                        assert(prev.contains(t@[k].0@));
                        let j = choose|j: int| 0 <= j < prev.len() && prev[j] == t@[k].0@;
                        assert(fin[j] == prev[j]);
                    }
                }
            }
        }
        i += 1;
    }
    proof {
        let rel = dep_rel(graph.entries(), repos@);
        if cycles@.len() == 0 {
            assert forall|c: Seq<Seq<char>>| !is_cycle(rel, c) by {
                lemma_finished_acyclic(t@, fin, c);
            }
        } else {
            assert(is_cycle(rel, id_views(cycles@[0]@)));
        }
    }
    cycles
}

} // verus!
