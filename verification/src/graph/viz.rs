//! Text renderings of the dependency graph: an indented tree, a flat
//! indented list, and Graphviz `dot`.
//!
//! The tree and list descend from each root through its dependencies,
//! sorted by name; a repository met again on the current path is marked
//! `(cycle)` and not descended into. The specifications carry a descent
//! budget one larger than the number of nodes the graph lists, which the
//! cycle cut-off never exhausts.
use vstd::prelude::*;
use crate::graph::{find_key, key_index, unique_keys};
use crate::graph::closure::{table_targets, lemma_target_listed};
use crate::order::{contains_str, sort_names, sort_strings, views, lemma_distinct_len_le};
use crate::project::repo::{RepoId, id_views};
use crate::text::{push_char, push_str, string_of};

verus! {

/// The label of a repository: its entry in `labels`, else its identifier.
pub open spec fn label_of(labels: Seq<(RepoId, String)>, id: Seq<char>) -> Seq<char> {
    match key_index(labels, id) {
        Some(i) => labels[i].1@,
        None => id,
    }
}

/// The dependencies of `node`, sorted by name.
pub open spec fn children_of(edges: Seq<(RepoId, Vec<RepoId>)>, node: Seq<char>) -> Seq<Seq<char>> {
    match key_index(edges, node) {
        Some(i) => sort_names(id_views(edges[i].1@)),
        None => Seq::empty(),
    }
}

/// The tree below `node`, each line led by `prefix`.
pub open spec fn tree_children(
    edges: Seq<(RepoId, Vec<RepoId>)>,
    labels: Seq<(RepoId, String)>,
    node: Seq<char>,
    prefix: Seq<char>,
    path: Seq<Seq<char>>,
    fuel: nat,
) -> Seq<char>
    decreases fuel, 0int,
{
    if fuel == 0 {
        Seq::empty()
    } else {
        tree_items(edges, labels, children_of(edges, node), 0, prefix, path, (fuel - 1) as nat)
    }
}

/// The tree lines for children `cs` from position `idx` on.
pub open spec fn tree_items(
    edges: Seq<(RepoId, Vec<RepoId>)>,
    labels: Seq<(RepoId, String)>,
    cs: Seq<Seq<char>>,
    idx: int,
    prefix: Seq<char>,
    path: Seq<Seq<char>>,
    fuel: nat,
) -> Seq<char>
    decreases fuel, cs.len() - idx,
{
    if idx < 0 || idx >= cs.len() {
        Seq::empty()
    } else {
        let child = cs[idx];
        let last = idx + 1 == cs.len();
        let line = prefix + (if last {
            "`-- "@
        } else {
            "|-- "@
        }) + label_of(labels, child);
        (if path.contains(child) {
            line + " (cycle)\n"@
        } else {
            line + "\n"@ + tree_children(
                edges,
                labels,
                child,
                prefix + (if last {
                    "    "@
                } else {
                    "|   "@
                }),
                path.push(child),
                fuel,
            )
        }) + tree_items(edges, labels, cs, idx + 1, prefix, path, fuel)
    }
}

/// The descent budget for a graph.
pub open spec fn budget(edges: Seq<(RepoId, Vec<RepoId>)>) -> nat {
    table_targets(edges).len() + 1
}

/// The whole tree: each root's label and the tree below it, roots separated
/// by an empty line.
pub open spec fn tree_text(roots: Seq<Seq<char>>, edges: Seq<(RepoId, Vec<RepoId>)>, labels: Seq<(RepoId, String)>) -> Seq<
    char,
>
    decreases roots.len(),
{
    if roots.len() == 0 {
        Seq::empty()
    } else {
        let root = roots.last();
        tree_text(roots.drop_last(), edges, labels) + (if roots.len() > 1 {
            "\n"@
        } else {
            Seq::empty()
        }) + label_of(labels, root) + "\n"@ + tree_children(
            edges,
            labels,
            root,
            Seq::empty(),
            Seq::empty(),
            budget(edges),
        )
    }
}

/// Two spaces per level.
pub open spec fn indent(depth: nat) -> Seq<char>
    decreases depth,
{
    if depth == 0 {
        Seq::empty()
    } else {
        indent((depth - 1) as nat) + "  "@
    }
}

/// The list below `node`, indented by depth.
pub open spec fn flat_children(
    edges: Seq<(RepoId, Vec<RepoId>)>,
    labels: Seq<(RepoId, String)>,
    node: Seq<char>,
    depth: nat,
    path: Seq<Seq<char>>,
    fuel: nat,
) -> Seq<char>
    decreases fuel, 0int,
{
    if fuel == 0 {
        Seq::empty()
    } else {
        flat_items(edges, labels, children_of(edges, node), 0, depth, path, (fuel - 1) as nat)
    }
}

/// The list lines for children `cs` from position `idx` on.
pub open spec fn flat_items(
    edges: Seq<(RepoId, Vec<RepoId>)>,
    labels: Seq<(RepoId, String)>,
    cs: Seq<Seq<char>>,
    idx: int,
    depth: nat,
    path: Seq<Seq<char>>,
    fuel: nat,
) -> Seq<char>
    decreases fuel, cs.len() - idx,
{
    if idx < 0 || idx >= cs.len() {
        Seq::empty()
    } else {
        let child = cs[idx];
        let line = indent(depth) + label_of(labels, child);
        (if path.contains(child) {
            line + " (cycle)\n"@
        } else {
            line + "\n"@ + flat_children(edges, labels, child, depth + 1, path.push(child), fuel)
        }) + flat_items(edges, labels, cs, idx + 1, depth, path, fuel)
    }
}

/// The whole list: each root's label and the list below it, roots
/// separated by an empty line.
pub open spec fn flat_text(roots: Seq<Seq<char>>, edges: Seq<(RepoId, Vec<RepoId>)>, labels: Seq<(RepoId, String)>) -> Seq<
    char,
>
    decreases roots.len(),
{
    if roots.len() == 0 {
        Seq::empty()
    } else {
        let root = roots.last();
        flat_text(roots.drop_last(), edges, labels) + (if roots.len() > 1 {
            "\n"@
        } else {
            Seq::empty()
        }) + label_of(labels, root) + "\n"@ + flat_children(edges, labels, root, 1, Seq::empty(), budget(edges))
    }
}

/// The label of a repository.
fn label_for(labels: &Vec<(RepoId, String)>, id: &RepoId) -> (r: String)
    requires
        unique_keys(labels@),
    ensures
        r@ == label_of(labels@, id@),
{
    match find_key(labels, id.as_str()) {
        Some(i) => labels[i].1.clone(),
        None => string_of(id.as_str()),
    }
}

/// The dependencies of `node`, sorted by name.
fn sorted_children(edges: &Vec<(RepoId, Vec<RepoId>)>, node: &str) -> (r: Vec<String>)
    requires
        unique_keys(edges@),
    ensures
        views(r@) == children_of(edges@, node@),
        forall|k: int| 0 <= k < r@.len() ==> table_targets(edges@).contains(#[trigger] views(r@)[k]),
{
    match find_key(edges, node) {
        Some(i) => {
            let deps = &edges[i].1;
            let mut names: Vec<String> = Vec::new();
            let mut j: usize = 0;
            while j < deps.len()
                invariant
                    i < edges@.len(),
                    deps == &edges@[i as int].1,
                    j <= deps@.len(),
                    views(names@) =~= id_views(deps@).take(j as int),
                decreases deps@.len() - j,
            {
                let ghost before = views(names@);
                names.push(string_of(deps[j].as_str()));
                proof {
                    assert(views(names@) =~= before.push(deps@[j as int]@));
                    assert(id_views(deps@).take(j + 1) =~= id_views(deps@).take(j as int).push(deps@[j as int]@));
                }
                j += 1;
            }
            proof {
                assert(id_views(deps@).take(deps@.len() as int) =~= id_views(deps@));
            }
            let sorted = sort_strings(&names);
            proof {
                assert forall|k: int| 0 <= k < sorted@.len() implies table_targets(edges@).contains(
                    #[trigger] views(sorted@)[k],
                ) by {
                    crate::graph::viz::lemma_sorted_members(id_views(deps@), views(sorted@)[k]);
                    let m = choose|m: int| 0 <= m < deps@.len() && id_views(deps@)[m] == views(sorted@)[k];
                    lemma_target_listed(edges@, i as int, m);
                }
            }
            sorted
        },
        None => Vec::new(),
    }
}

/// Every member of the sorted names is one of the names.
pub proof fn lemma_sorted_members(s: Seq<Seq<char>>, x: Seq<char>)
    ensures
        sort_names(s).contains(x) ==> s.contains(x),
        sort_names(s).len() == s.len(),
    decreases s.len(),
{
    if s.len() > 0 {
        lemma_sorted_members(s.drop_last(), x);
        let sorted = sort_names(s.drop_last());
        let p = crate::order::first_greater(sorted, s.last());
        crate::graph::viz::lemma_first_greater_bounds(sorted, s.last());
        let ins = sorted.take(p).push(s.last()) + sorted.skip(p);
        assert(ins.len() == s.len());
        if ins.contains(x) && x != s.last() {
            let k = choose|k: int| 0 <= k < ins.len() && ins[k] == x;
            if k < p {
                assert(sorted[k] == x);
            } else {
                assert(sorted[k - 1] == x);
            }
            assert(sorted.contains(x));
            let m = choose|m: int| 0 <= m < s.drop_last().len() && s.drop_last()[m] == x;
            assert(s[m] == x);
        }
        if x == s.last() {
            assert(s[s.len() - 1] == x);
        }
    }
}

/// The insertion point lies within the list.
pub proof fn lemma_first_greater_bounds(s: Seq<Seq<char>>, x: Seq<char>)
    ensures
        0 <= crate::order::first_greater(s, x) <= s.len(),
    decreases s.len(),
{
    if s.len() > 0 {
        lemma_first_greater_bounds(s.drop_first(), x);
    }
}

fn render_tree_children(
    edges: &Vec<(RepoId, Vec<RepoId>)>,
    labels: &Vec<(RepoId, String)>,
    node: &str,
    prefix: &str,
    path: &mut Vec<String>,
    out: &mut String,
    Ghost(fuel): Ghost<nat>,
)
    requires
        unique_keys(edges@),
        unique_keys(labels@),
        fuel >= 1,
        fuel + old(path)@.len() == budget(edges@),
        views(old(path)@).no_duplicates(),
        forall|k: int| 0 <= k < old(path)@.len() ==> table_targets(edges@).contains(#[trigger] views(old(path)@)[k]),
    ensures
        final(path)@ == old(path)@,
        final(out)@ == old(out)@ + tree_children(edges@, labels@, node@, prefix@, views(old(path)@), fuel),
    decreases fuel,
{
    let children = sorted_children(edges, node);
    let ghost cs = views(children@);
    let ghost pv = views(path@);
    let ghost f = (fuel - 1) as nat;
    let ghost base = out@;
    proof {
        assert(out@ + tree_items(edges@, labels@, cs, 0, prefix@, pv, f) =~= base + tree_children(
            edges@,
            labels@,
            node@,
            prefix@,
            pv,
            fuel,
        ));
    }
    let mut idx: usize = 0;
    while idx < children.len()
        invariant
            unique_keys(edges@),
            unique_keys(labels@),
            cs == views(children@),
            forall|k: int| 0 <= k < children@.len() ==> table_targets(edges@).contains(#[trigger] views(children@)[k]),
            path@ == old(path)@,
            pv == views(path@),
            pv.no_duplicates(),
            forall|k: int| 0 <= k < path@.len() ==> table_targets(edges@).contains(#[trigger] views(path@)[k]),
            fuel >= 1,
            f == fuel - 1,
            fuel + path@.len() == budget(edges@),
            idx <= children@.len(),
            out@ + tree_items(edges@, labels@, cs, idx as int, prefix@, pv, f) == base + tree_children(
                edges@,
                labels@,
                node@,
                prefix@,
                pv,
                fuel,
            ),
        decreases children@.len() - idx,
    {
        let child = &children[idx];
        let last = idx + 1 == children.len();
        let ghost before = out@;
        let ghost line_len = out@.len();
        push_str(out, prefix);
        if last {
            push_str(out, "`-- ");
        } else {
            push_str(out, "|-- ");
        }
        let id = RepoId::new(child.as_str());
        let label = label_for(labels, &id);
        push_str(out, label.as_str());
        let ghost line = prefix@ + (if last {
            "`-- "@
        } else {
            "|-- "@
        }) + label_of(labels@, cs[idx as int]);
        proof {
            assert(cs[idx as int] == child@);
            assert(out@ =~= before + line);
        }
        if contains_str(path, child.as_str()) {
            push_str(out, " (cycle)\n");
            proof {
                assert(out@ =~= before + (line + " (cycle)\n"@));
            }
        } else {
            push_str(out, "\n");
            let ghost mid = out@;
            let mut next_prefix = string_of(prefix);
            if last {
                push_str(&mut next_prefix, "    ");
            } else {
                push_str(&mut next_prefix, "|   ");
            }
            path.push(string_of(child.as_str()));
            proof {
                let np = views(path@);
                assert(np =~= pv.push(child@));
                assert(np.no_duplicates()) by {
                    assert forall|a: int, b: int| 0 <= a < np.len() && 0 <= b < np.len() && a != b implies np[a] != np[b] by {
                        if a < pv.len() && b < pv.len() {
                        } else if a == pv.len() {
                            assert(pv.contains(pv[b]));
                        } else {
                            assert(pv.contains(pv[a]));
                        }
                    }
                }
                assert(table_targets(edges@).contains(cs[idx as int]));
                assert forall|k: int| 0 <= k < path@.len() implies table_targets(edges@).contains(#[trigger] views(path@)[k]) by {
                    if k < pv.len() {
                        assert(views(path@)[k] == pv[k]);
                    }
                }
                lemma_distinct_len_le(np, table_targets(edges@));
            }
            render_tree_children(edges, labels, child.as_str(), next_prefix.as_str(), path, out, Ghost(f));
            let _ = path.pop();
            proof {
                assert(path@ =~= old(path)@);
                assert(out@ =~= before + (line + "\n"@ + tree_children(
                    edges@,
                    labels@,
                    cs[idx as int],
                    prefix@ + (if last {
                        "    "@
                    } else {
                        "|   "@
                    }),
                    pv.push(cs[idx as int]),
                    f,
                )));
            }
        }
        proof {
            assert(tree_items(edges@, labels@, cs, idx as int, prefix@, pv, f) == (if pv.contains(cs[idx as int]) {
                line + " (cycle)\n"@
            } else {
                line + "\n"@ + tree_children(
                    edges@,
                    labels@,
                    cs[idx as int],
                    prefix@ + (if last {
                        "    "@
                    } else {
                        "|   "@
                    }),
                    pv.push(cs[idx as int]),
                    f,
                )
            }) + tree_items(edges@, labels@, cs, idx + 1, prefix@, pv, f));
        }
        idx += 1;
    }
}

/// The dependency tree below each root, roots sorted as given.
pub fn render_tree(roots: &[RepoId], edges: &Vec<(RepoId, Vec<RepoId>)>, labels: &Vec<(RepoId, String)>) -> (r: String)
    requires
        unique_keys(edges@),
        unique_keys(labels@),
    ensures
        r@ == tree_text(id_views(roots@), edges@, labels@),
{
    let ghost rv = id_views(roots@);
    let mut out = String::new();
    let mut idx: usize = 0;
    while idx < roots.len()
        invariant
            unique_keys(edges@),
            unique_keys(labels@),
            rv == id_views(roots@),
            idx <= roots@.len(),
            out@ == tree_text(rv.take(idx as int), edges@, labels@),
        decreases roots@.len() - idx,
    {
        let root = &roots[idx];
        let ghost before = out@;
        proof {
            assert(rv.take(idx + 1).drop_last() =~= rv.take(idx as int));
            assert(rv.take(idx + 1).last() == root@);
        }
        if idx > 0 {
            push_char(&mut out, '\n');
        }
        let label = label_for(labels, root);
        push_str(&mut out, label.as_str());
        push_char(&mut out, '\n');
        let ghost mid = out@;
        let mut path: Vec<String> = Vec::new();
        proof {
            assert(views(path@) =~= Seq::<Seq<char>>::empty());
        }
        render_tree_children(edges, labels, root.as_str(), "", &mut path, &mut out, Ghost(budget(edges@)));
        proof {
            reveal_strlit("");
            reveal_strlit("\n");
            assert(""@ =~= Seq::<char>::empty());
            let sep: Seq<char> = if idx + 1 > 1 {
                "\n"@
            } else {
                Seq::empty()
            };
            assert(mid =~= before + sep + label_of(labels@, root@) + "\n"@);
        }
        idx += 1;
    }
    proof {
        assert(rv.take(rv.len() as int) =~= rv);
    }
    out
}

fn push_indent(out: &mut String, depth: usize)
    ensures
        final(out)@ == old(out)@ + indent(depth as nat),
{
    let mut k: usize = 0;
    while k < depth
        invariant
            k <= depth,
            out@ == old(out)@ + indent(k as nat),
        decreases depth - k,
    {
        push_str(out, "  ");
        proof {
            assert(indent((k + 1) as nat) == indent(k as nat) + "  "@);
            assert(old(out)@ + indent(k as nat) + "  "@ =~= old(out)@ + (indent(k as nat) + "  "@));
        }
        k += 1;
    }
}

fn render_flat_children(
    edges: &Vec<(RepoId, Vec<RepoId>)>,
    labels: &Vec<(RepoId, String)>,
    node: &str,
    depth: usize,
    path: &mut Vec<String>,
    out: &mut String,
    Ghost(fuel): Ghost<nat>,
)
    requires
        unique_keys(edges@),
        unique_keys(labels@),
        fuel >= 1,
        fuel + old(path)@.len() == budget(edges@),
        depth == old(path)@.len() + 1,
        budget(edges@) < usize::MAX,
        views(old(path)@).no_duplicates(),
        forall|k: int| 0 <= k < old(path)@.len() ==> table_targets(edges@).contains(#[trigger] views(old(path)@)[k]),
    ensures
        final(path)@ == old(path)@,
        final(out)@ == old(out)@ + flat_children(edges@, labels@, node@, depth as nat, views(old(path)@), fuel),
    decreases fuel,
{
    let children = sorted_children(edges, node);
    let ghost cs = views(children@);
    let ghost pv = views(path@);
    let ghost f = (fuel - 1) as nat;
    let ghost base = out@;
    proof {
        assert(out@ + flat_items(edges@, labels@, cs, 0, depth as nat, pv, f) =~= base + flat_children(
            edges@,
            labels@,
            node@,
            depth as nat,
            pv,
            fuel,
        ));
    }
    let mut idx: usize = 0;
    while idx < children.len()
        invariant
            unique_keys(edges@),
            unique_keys(labels@),
            cs == views(children@),
            forall|k: int| 0 <= k < children@.len() ==> table_targets(edges@).contains(#[trigger] views(children@)[k]),
            path@ == old(path)@,
            pv == views(path@),
            pv.no_duplicates(),
            forall|k: int| 0 <= k < path@.len() ==> table_targets(edges@).contains(#[trigger] views(path@)[k]),
            fuel >= 1,
            f == fuel - 1,
            fuel + path@.len() == budget(edges@),
            depth == path@.len() + 1,
            budget(edges@) < usize::MAX,
            idx <= children@.len(),
            out@ + flat_items(edges@, labels@, cs, idx as int, depth as nat, pv, f) == base + flat_children(
                edges@,
                labels@,
                node@,
                depth as nat,
                pv,
                fuel,
            ),
        decreases children@.len() - idx,
    {
        let child = &children[idx];
        let ghost before = out@;
        push_indent(out, depth);
        let id = RepoId::new(child.as_str());
        let label = label_for(labels, &id);
        push_str(out, label.as_str());
        let ghost line = indent(depth as nat) + label_of(labels@, cs[idx as int]);
        proof {
            assert(cs[idx as int] == child@);
            assert(out@ =~= before + line);
        }
        if contains_str(path, child.as_str()) {
            push_str(out, " (cycle)\n");
            proof {
                assert(out@ =~= before + (line + " (cycle)\n"@));
            }
        } else {
            push_str(out, "\n");
            path.push(string_of(child.as_str()));
            proof {
                let np = views(path@);
                assert(np =~= pv.push(child@));
                assert(np.no_duplicates()) by {
                    assert forall|a: int, b: int| 0 <= a < np.len() && 0 <= b < np.len() && a != b implies np[a] != np[b] by {
                        if a < pv.len() && b < pv.len() {
                        } else if a == pv.len() {
                            assert(pv.contains(pv[b]));
                        } else {
                            assert(pv.contains(pv[a]));
                        }
                    }
                }
                assert(table_targets(edges@).contains(cs[idx as int]));
                assert forall|k: int| 0 <= k < path@.len() implies table_targets(edges@).contains(#[trigger] views(path@)[k]) by {
                    if k < pv.len() {
                        assert(views(path@)[k] == pv[k]);
                    }
                }
                lemma_distinct_len_le(np, table_targets(edges@));
            }
            render_flat_children(edges, labels, child.as_str(), depth + 1, path, out, Ghost(f));
            let _ = path.pop();
            proof {
                assert(path@ =~= old(path)@);
                assert(out@ =~= before + (line + "\n"@ + flat_children(
                    edges@,
                    labels@,
                    cs[idx as int],
                    (depth + 1) as nat,
                    pv.push(cs[idx as int]),
                    f,
                )));
            }
        }
        proof {
            let item = out@.skip(before.len() as int);
            assert(out@ =~= before + item);
            assert(out@ + flat_items(edges@, labels@, cs, idx + 1, depth as nat, pv, f) =~= before + (item + flat_items(
                edges@,
                labels@,
                cs,
                idx + 1,
                depth as nat,
                pv,
                f,
            )));
        }
        idx += 1;
    }
}

/// The dependency list below each root, indented two spaces per level.
pub fn render_flat(roots: &[RepoId], edges: &Vec<(RepoId, Vec<RepoId>)>, labels: &Vec<(RepoId, String)>) -> (r: String)
    requires
        unique_keys(edges@),
        unique_keys(labels@),
        budget(edges@) < usize::MAX,
    ensures
        r@ == flat_text(id_views(roots@), edges@, labels@),
{
    let ghost rv = id_views(roots@);
    let mut out = String::new();
    let mut idx: usize = 0;
    while idx < roots.len()
        invariant
            unique_keys(edges@),
            unique_keys(labels@),
            budget(edges@) < usize::MAX,
            rv == id_views(roots@),
            idx <= roots@.len(),
            out@ == flat_text(rv.take(idx as int), edges@, labels@),
        decreases roots@.len() - idx,
    {
        let root = &roots[idx];
        let ghost before = out@;
        proof {
            assert(rv.take(idx + 1).drop_last() =~= rv.take(idx as int));
            assert(rv.take(idx + 1).last() == root@);
        }
        if idx > 0 {
            push_char(&mut out, '\n');
        }
        let label = label_for(labels, root);
        push_str(&mut out, label.as_str());
        push_char(&mut out, '\n');
        let ghost mid = out@;
        let mut path: Vec<String> = Vec::new();
        proof {
            assert(views(path@) =~= Seq::<Seq<char>>::empty());
        }
        render_flat_children(edges, labels, root.as_str(), 1, &mut path, &mut out, Ghost(budget(edges@)));
        proof {
            reveal_strlit("\n");
            let sep: Seq<char> = if idx + 1 > 1 {
                "\n"@
            } else {
                Seq::empty()
            };
            assert(mid =~= before + sep + label_of(labels@, root@) + "\n"@);
        }
        idx += 1;
    }
    proof {
        assert(rv.take(rv.len() as int) =~= rv);
    }
    out
}

/// A label with each `"` escaped as `\"`.
pub open spec fn escape_spec(s: Seq<char>) -> Seq<char>
    decreases s.len(),
{
    if s.len() == 0 {
        Seq::empty()
    } else {
        escape_spec(s.drop_last()) + (if s.last() == '"' {
            seq!['\\', '"']
        } else {
            seq![s.last()]
        })
    }
}

/// A label with each `"` escaped as `\"`.
pub fn escape_dot_label(label: &str) -> (r: String)
    ensures
        r@ == escape_spec(label@),
{
    let cs = crate::text::to_chars(label);
    let mut out = String::new();
    let mut i: usize = 0;
    while i < cs.len()
        invariant
            cs@ == label@,
            i <= cs@.len(),
            out@ == escape_spec(cs@.take(i as int)),
        decreases cs@.len() - i,
    {
        proof {
            assert(cs@.take(i + 1).drop_last() =~= cs@.take(i as int));
            assert(cs@.take(i + 1).last() == cs@[i as int]);
        }
        let ghost before = out@;
        if cs[i] == '"' {
            push_char(&mut out, '\\');
            push_char(&mut out, '"');
        } else {
            push_char(&mut out, cs[i]);
        }
        proof {
            assert(out@ =~= before + (if cs@[i as int] == '"' {
                seq!['\\', '"']
            } else {
                seq![cs@[i as int]]
            }));
        }
        i += 1;
    }
    proof {
        assert(cs@.take(cs@.len() as int) =~= cs@);
    }
    out
}

/// The node lines of the `dot` text, one per label.
pub open spec fn dot_nodes(labels: Seq<(RepoId, String)>) -> Seq<char>
    decreases labels.len(),
{
    if labels.len() == 0 {
        Seq::empty()
    } else {
        dot_nodes(labels.drop_last()) + "  \""@ + labels.last().0@ + "\" [label=\""@ + escape_spec(labels.last().1@)
            + "\"];\n"@
    }
}

/// The edge lines for one repository's dependencies.
pub open spec fn dot_edges_of(from: Seq<char>, deps: Seq<Seq<char>>) -> Seq<char>
    decreases deps.len(),
{
    if deps.len() == 0 {
        Seq::empty()
    } else {
        dot_edges_of(from, deps.drop_last()) + "  \""@ + from + "\" -> \""@ + deps.last() + "\";\n"@
    }
}

/// The edge lines of the `dot` text, entry by entry.
pub open spec fn dot_edges(edges: Seq<(RepoId, Vec<RepoId>)>) -> Seq<char>
    decreases edges.len(),
{
    if edges.len() == 0 {
        Seq::empty()
    } else {
        dot_edges(edges.drop_last()) + dot_edges_of(edges.last().0@, id_views(edges.last().1@))
    }
}

/// The graph in Graphviz `dot`: a node per label, an edge per dependency.
pub fn render_dot(edges: &Vec<(RepoId, Vec<RepoId>)>, labels: &Vec<(RepoId, String)>) -> (r: String)
    ensures
        r@ == "digraph harmonia {\n"@ + dot_nodes(labels@) + dot_edges(edges@) + "}\n"@,
{
    let mut out = string_of("digraph harmonia {\n");
    let ghost head = out@;
    let mut i: usize = 0;
    while i < labels.len()
        invariant
            i <= labels@.len(),
            out@ == head + dot_nodes(labels@.take(i as int)),
        decreases labels@.len() - i,
    {
        proof {
            assert(labels@.take(i + 1).drop_last() =~= labels@.take(i as int));
            assert(labels@.take(i + 1).last() == labels@[i as int]);
        }
        let ghost before = out@;
        let escaped = escape_dot_label(labels[i].1.as_str());
        push_str(&mut out, "  \"");
        push_str(&mut out, labels[i].0.as_str());
        push_str(&mut out, "\" [label=\"");
        push_str(&mut out, escaped.as_str());
        push_str(&mut out, "\"];\n");
        proof {
            assert(out@ =~= before + "  \""@ + labels@[i as int].0@ + "\" [label=\""@ + escape_spec(labels@[i as int].1@)
                + "\"];\n"@);
        }
        i += 1;
    }
    proof {
        assert(labels@.take(labels@.len() as int) =~= labels@);
    }
    let ghost mid = out@;
    let mut j: usize = 0;
    while j < edges.len()
        invariant
            j <= edges@.len(),
            out@ == mid + dot_edges(edges@.take(j as int)),
        decreases edges@.len() - j,
    {
        proof {
            assert(edges@.take(j + 1).drop_last() =~= edges@.take(j as int));
            assert(edges@.take(j + 1).last() == edges@[j as int]);
        }
        let from = &edges[j].0;
        let deps = &edges[j].1;
        let ghost start = out@;
        let mut k: usize = 0;
        while k < deps.len()
            invariant
                j < edges@.len(),
                from == &edges@[j as int].0,
                deps == &edges@[j as int].1,
                k <= deps@.len(),
                out@ == start + dot_edges_of(from@, id_views(deps@).take(k as int)),
            decreases deps@.len() - k,
        {
            proof {
                assert(id_views(deps@).take(k + 1).drop_last() =~= id_views(deps@).take(k as int));
                assert(id_views(deps@).take(k + 1).last() == deps@[k as int]@);
            }
            let ghost before = out@;
            push_str(&mut out, "  \"");
            push_str(&mut out, from.as_str());
            push_str(&mut out, "\" -> \"");
            push_str(&mut out, deps[k].as_str());
            push_str(&mut out, "\";\n");
            proof {
                assert(out@ =~= before + "  \""@ + from@ + "\" -> \""@ + deps@[k as int]@ + "\";\n"@);
            }
            k += 1;
        }
        proof {
            assert(id_views(deps@).take(deps@.len() as int) =~= id_views(deps@));
            assert(out@ =~= mid + dot_edges(edges@.take(j + 1)));
        }
        j += 1;
    }
    proof {
        assert(edges@.take(edges@.len() as int) =~= edges@);
    }
    push_str(&mut out, "}\n");
    out
}

} // verus!
