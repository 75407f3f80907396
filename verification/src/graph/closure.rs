//! Reachability over adjacency tables: each entry lists the nodes a key
//! points to.
use vstd::prelude::*;
use crate::graph::model::{reaches, lemma_reach_step, lemma_reach_extend, lemma_closed_set_contains_reachable};
use crate::order::{insert_sorted_unique, strictly_sorted, views, lemma_sorted_distinct, lemma_distinct_len_le};
use crate::project::repo::{RepoId, id_views};
use crate::text::{str_eq, string_of};

verus! {

/// Some entry with key `a` lists `b`.
pub open spec fn table_edge(t: Seq<(RepoId, Vec<RepoId>)>, a: Seq<char>, b: Seq<char>) -> bool {
    exists|i: int, j: int|
        0 <= i < t.len() && 0 <= j < t[i].1@.len() && #[trigger] t[i].0@ == a && #[trigger] t[i].1@[j]@
            == b
}

/// The relation an adjacency table describes.
pub open spec fn table_rel(t: Seq<(RepoId, Vec<RepoId>)>) -> spec_fn(Seq<char>, Seq<char>) -> bool {
    |a: Seq<char>, b: Seq<char>| table_edge(t, a, b)
}

/// Every node that some entry lists, entry by entry.
pub open spec fn table_targets(t: Seq<(RepoId, Vec<RepoId>)>) -> Seq<Seq<char>>
    decreases t.len(),
{
    if t.len() == 0 {
        Seq::empty()
    } else {
        table_targets(t.drop_last()) + id_views(t.last().1@)
    }
}

pub proof fn lemma_target_listed(t: Seq<(RepoId, Vec<RepoId>)>, i: int, j: int)
    requires
        0 <= i < t.len(),
        0 <= j < t[i].1@.len(),
    ensures
        table_targets(t).contains(t[i].1@[j]@),
    decreases t.len(),
{
    let last = id_views(t.last().1@);
    let front = table_targets(t.drop_last());
    if i == t.len() - 1 {
        assert((front + last)[front.len() + j] == t[i].1@[j]@);
    } else {
        assert(t.drop_last()[i] == t[i]);
        lemma_target_listed(t.drop_last(), i, j);
        let k = choose|k: int| 0 <= k < front.len() && front[k] == t[i].1@[j]@;
        assert((front + last)[k] == t[i].1@[j]@);
    }
}

/// The nodes that entries with key `x` list, with repetitions.
pub fn successors(t: &Vec<(RepoId, Vec<RepoId>)>, x: &str) -> (r: Vec<String>)
    ensures
        forall|k: int| 0 <= k < r@.len() ==> table_edge(t@, x@, #[trigger] views(r@)[k]),
        forall|b: Seq<char>| table_edge(t@, x@, b) ==> views(r@).contains(b),
{
    let mut out: Vec<String> = Vec::new();
    let mut i: usize = 0;
    while i < t.len()
        invariant
            i <= t@.len(),
            forall|k: int| 0 <= k < out@.len() ==> table_edge(t@, x@, #[trigger] views(out@)[k]),
            forall|a: int, j: int|
                0 <= a < i && 0 <= j < t@[a].1@.len() && #[trigger] t@[a].0@ == x@ ==> views(
                    out@,
                ).contains(#[trigger] t@[a].1@[j]@),
        decreases t@.len() - i,
    {
        if str_eq(t[i].0.as_str(), x) {
            let targets = &t[i].1;
            let mut j: usize = 0;
            while j < targets.len()
                invariant
                    i < t@.len(),
                    targets == &t@[i as int].1,
                    t@[i as int].0@ == x@,
                    j <= targets@.len(),
                    forall|k: int| 0 <= k < out@.len() ==> table_edge(t@, x@, #[trigger] views(out@)[k]),
                    forall|a: int, j2: int|
                        0 <= a < i && 0 <= j2 < t@[a].1@.len() && #[trigger] t@[a].0@ == x@ ==> views(
                            out@,
                        ).contains(#[trigger] t@[a].1@[j2]@),
                    forall|j2: int| 0 <= j2 < j ==> views(out@).contains(#[trigger] t@[i as int].1@[j2]@),
                decreases targets@.len() - j,
            {
                let s = string_of(targets[j].as_str());
                let ghost before = out@;
                out.push(s);
                proof {
                    assert(views(out@) =~= views(before).push(s@));
                    assert(views(out@)[before.len() as int] == t@[i as int].1@[j as int]@);
                    assert(table_edge(t@, x@, t@[i as int].1@[j as int]@));
                    assert forall|k: int| 0 <= k < out@.len() implies table_edge(
                        t@,
                        x@,
                        #[trigger] views(out@)[k],
                    ) by {
                        if k < before.len() {
                            assert(views(out@)[k] == views(before)[k]);
                        }
                    }
                    assert forall|a: int, j2: int|
                        0 <= a < i && 0 <= j2 < t@[a].1@.len() && #[trigger] t@[a].0@ == x@ implies views(
                        out@,
                    ).contains(#[trigger] t@[a].1@[j2]@) by {
                        let k = choose|k: int| 0 <= k < views(before).len() && views(before)[k] == t@[a].1@[j2]@;
                        assert(views(out@)[k] == views(before)[k]);
                    }
                    assert forall|j2: int| 0 <= j2 < j + 1 implies views(out@).contains(
                        #[trigger] t@[i as int].1@[j2]@,
                    ) by {
                        if j2 < j {
                            let k = choose|k: int| 0 <= k < views(before).len() && views(before)[k] == t@[i as int].1@[j2]@;
                            assert(views(out@)[k] == views(before)[k]);
                        } else {
                            assert(views(out@)[before.len() as int] == t@[i as int].1@[j2]@);
                        }
                    }
                }
                j += 1;
            }
        }
        i += 1;
    }
    proof {
        assert forall|b: Seq<char>| table_edge(t@, x@, b) implies views(out@).contains(b) by {
            let (a, j) = choose|a: int, j: int|
                0 <= a < t@.len() && 0 <= j < t@[a].1@.len() && #[trigger] t@[a].0@ == x@
                    && #[trigger] t@[a].1@[j]@ == b;
            assert(views(out@).contains(t@[a].1@[j]@));
        }
    }
    out
}

/// The nodes reachable from `start` in one or more steps along the table,
/// sorted and without repetitions.
pub fn reachable_from(t: &Vec<(RepoId, Vec<RepoId>)>, start: &str) -> (r: Vec<RepoId>)
    ensures
        strictly_sorted(id_views(r@)),
        forall|b: Seq<char>| id_views(r@).contains(b) <==> reaches(table_rel(t@), start@, b),
{
    let ghost rel = table_rel(t@);
    let ghost u = table_targets(t@);
    let mut seen: Vec<String> = Vec::new();
    let mut stack: Vec<String> = successors(t, start);
    proof {
        assert forall|k: int| 0 <= k < stack@.len() implies reaches(rel, start@, #[trigger] views(stack@)[k])
            && u.contains(views(stack@)[k]) by {
            assert(table_edge(t@, start@, views(stack@)[k]));
            assert(rel(start@, views(stack@)[k]));
            lemma_reach_step(rel, start@, views(stack@)[k]);
            let (a, j) = choose|a: int, j: int|
                0 <= a < t@.len() && 0 <= j < t@[a].1@.len() && #[trigger] t@[a].0@ == start@
                    && #[trigger] t@[a].1@[j]@ == views(stack@)[k];
            lemma_target_listed(t@, a, j);
        }
    }
    while stack.len() > 0
        invariant
            rel == table_rel(t@),
            u == table_targets(t@),
            strictly_sorted(views(seen@)),
            seen@.len() <= u.len(),
            forall|k: int|
                0 <= k < seen@.len() ==> reaches(rel, start@, #[trigger] views(seen@)[k]) && u.contains(
                    views(seen@)[k],
                ),
            forall|k: int|
                0 <= k < stack@.len() ==> reaches(rel, start@, #[trigger] views(stack@)[k]) && u.contains(
                    views(stack@)[k],
                ),
            forall|y: Seq<char>| #[trigger] rel(start@, y) ==> views(seen@).contains(y) || views(stack@).contains(y),
            forall|x: Seq<char>, y: Seq<char>|
                views(seen@).contains(x) && #[trigger] rel(x, y) ==> views(seen@).contains(y) || views(
                    stack@,
                ).contains(y),
        decreases u.len() - seen@.len(), stack@.len(),
    {
        let ghost old_stack = views(stack@);
        let ghost old_seen = views(seen@);
        let cur = stack.pop().unwrap();
        let ghost c = cur@;
        proof {
            assert(views(stack@) =~= old_stack.drop_last());
            assert(c == old_stack.last());
        }
        let copy = string_of(cur.as_str());
        let inserted = insert_sorted_unique(&mut seen, copy);
        if inserted {
            let mut next = successors(t, cur.as_str());
            let ghost mid = views(stack@);
            let ghost succ = views(next@);
            stack.append(&mut next);
            proof {
                assert(views(stack@) =~= mid + succ);
                let ns = views(seen@);
                assert(ns.to_set() == old_seen.to_set().insert(c));
                assert forall|z: Seq<char>| ns.contains(z) <==> old_seen.contains(z) || z == c by {
                    assert(ns.to_set().contains(z) == ns.contains(z));
                    assert(old_seen.to_set().contains(z) == old_seen.contains(z));
                }
                assert(reaches(rel, start@, c) && u.contains(c)) by {
                    assert(old_stack[old_stack.len() - 1] == c);
                }
                lemma_sorted_distinct(ns);
                assert forall|k: int| 0 <= k < ns.len() implies u.contains(#[trigger] ns[k]) by {
                    assert(ns.contains(ns[k]));
                    if ns[k] != c {
                        let m = choose|m: int| 0 <= m < old_seen.len() && old_seen[m] == ns[k];
                        assert(u.contains(old_seen[m]));
                    }
                }
                lemma_distinct_len_le(ns, u);
                assert forall|k: int| 0 <= k < seen@.len() implies reaches(rel, start@, #[trigger] views(seen@)[k])
                    && u.contains(views(seen@)[k]) by {
                    assert(ns.contains(ns[k]));
                    if ns[k] != c {
                        let m = choose|m: int| 0 <= m < old_seen.len() && old_seen[m] == ns[k];
                        assert(reaches(rel, start@, old_seen[m]));
                    }
                }
                assert forall|k: int| 0 <= k < stack@.len() implies reaches(rel, start@, #[trigger] views(stack@)[k])
                    && u.contains(views(stack@)[k]) by {
                    if k < mid.len() {
                        assert(views(stack@)[k] == old_stack[k]);
                    } else {
                        let y = succ[k - mid.len()];
                        assert(views(stack@)[k] == y);
                        assert(table_edge(t@, c, y));
                        assert(rel(c, y));
                        lemma_reach_extend(rel, start@, c, y);
                        let (a, j) = choose|a: int, j: int|
                            0 <= a < t@.len() && 0 <= j < t@[a].1@.len() && #[trigger] t@[a].0@ == c
                                && #[trigger] t@[a].1@[j]@ == y;
                        lemma_target_listed(t@, a, j);
                    }
                }
                assert forall|z: Seq<char>| old_stack.contains(z) implies ns.contains(z) || views(stack@).contains(z) by {
                    let m = choose|m: int| 0 <= m < old_stack.len() && old_stack[m] == z;
                    if m < old_stack.len() - 1 {
                        assert(views(stack@)[m] == z);
                    }
                }
                assert forall|z: Seq<char>| #[trigger] rel(c, z) implies views(stack@).contains(z) by {
                    assert(table_edge(t@, c, z));
                    assert(succ.contains(z));
                    let m = choose|m: int| 0 <= m < succ.len() && succ[m] == z;
                    assert(views(stack@)[mid.len() + m] == z);
                }
            }
        } else {
            proof {
                assert(views(seen@) == old_seen);
                assert forall|z: Seq<char>| old_stack.contains(z) implies old_seen.contains(z) || views(stack@).contains(z) by {
                    let m = choose|m: int| 0 <= m < old_stack.len() && old_stack[m] == z;
                    if m < old_stack.len() - 1 {
                        assert(views(stack@)[m] == z);
                    }
                }
                assert forall|k: int| 0 <= k < stack@.len() implies reaches(rel, start@, #[trigger] views(stack@)[k])
                    && u.contains(views(stack@)[k]) by {
                    assert(views(stack@)[k] == old_stack[k]);
                }
            }
        }
    }
    let ghost sv = views(seen@);
    proof {
        assert forall|b: Seq<char>| reaches(rel, start@, b) implies sv.contains(b) by {
            lemma_closed_set_contains_reachable(rel, sv.to_set(), start@, b);
        }
    }
    let mut out: Vec<RepoId> = Vec::new();
    let mut i: usize = 0;
    while i < seen.len()
        invariant
            i <= seen@.len(),
            sv == views(seen@),
            id_views(out@) =~= sv.subrange(0, i as int),
        decreases seen@.len() - i,
    {
        out.push(RepoId::new(seen[i].as_str()));
        proof {
            assert(sv.subrange(0, i + 1) =~= sv.subrange(0, i as int).push(sv[i as int]));
        }
        i += 1;
    }
    proof {
        assert(sv.subrange(0, sv.len() as int) =~= sv);
        assert forall|b: Seq<char>| id_views(out@).contains(b) implies reaches(table_rel(t@), start@, b) by {
            let k = choose|k: int| 0 <= k < sv.len() && sv[k] == b;
            assert(reaches(rel, start@, sv[k]));
        }
    }
    out
}

} // verus!
