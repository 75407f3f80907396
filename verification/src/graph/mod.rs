//! The dependency graph between the repositories of a workspace.
use vstd::prelude::*;
use crate::project::repo::{Dependency, RepoId};
use crate::text::str_eq;

pub mod model;
pub mod closure;
pub mod topo;
pub mod ops;
pub mod cycles;
pub mod constraint;
pub mod viz;
pub mod builder;

verus! {

/// Each repository's declared dependencies, at most one entry per repository.
#[derive(Debug)]
pub struct DependencyGraph {
    edges: Vec<(RepoId, Vec<Dependency>)>,
}

/// No two entries share a key.
pub open spec fn unique_keys<V>(e: Seq<(RepoId, V)>) -> bool {
    forall|i: int, j: int| 0 <= i < j < e.len() ==> #[trigger] e[i].0@ != #[trigger] e[j].0@
}

/// The position of the entry with key `k`, if any.
pub open spec fn key_index<V>(e: Seq<(RepoId, V)>, k: Seq<char>) -> Option<int> {
    if exists|i: int| 0 <= i < e.len() && #[trigger] e[i].0@ == k {
        Some(choose|i: int| 0 <= i < e.len() && #[trigger] e[i].0@ == k)
    } else {
        None
    }
}

impl DependencyGraph {
    #[verifier::type_invariant]
    spec fn keys_are_unique(self) -> bool {
        unique_keys(self.edges@)
    }

    /// The entries, in insertion order.
    pub closed spec fn entries(self) -> Seq<(RepoId, Vec<Dependency>)> {
        self.edges@
    }

    /// The entries have pairwise distinct keys.
    pub fn assert_unique(&self)
        ensures
            unique_keys(self.entries()),
    {
        proof {
            use_type_invariant(self);
        }
    }

    /// An empty graph.
    pub fn new() -> (r: Self)
        ensures
            r.entries().len() == 0,
    {
        DependencyGraph { edges: Vec::new() }
    }

    /// Sets the dependencies of `id`, replacing an earlier entry for it.
    pub fn insert(&mut self, id: RepoId, deps: Vec<Dependency>)
        ensures
            match key_index(old(self).entries(), id@) {
                Some(i) => final(self).entries() == old(self).entries().update(i, (id, deps)),
                None => final(self).entries() == old(self).entries().push((id, deps)),
            },
    {
        proof {
            use_type_invariant(&*self);
        }
        let mut edges: Vec<(RepoId, Vec<Dependency>)> = Vec::new();
        std::mem::swap(&mut edges, &mut self.edges);
        let ghost before = edges@;
        let pos = find_key(&edges, id.as_str());
        let ghost idv = id@;
        let ghost entry = (id, deps);
        match pos {
            Some(i) => {
                edges.set(i, (id, deps));
                proof {
                    assert forall|a: int, b: int| 0 <= a < b < edges@.len() implies #[trigger] edges@[a].0@
                        != #[trigger] edges@[b].0@ by {
                        if a != i && b != i {
                            assert(edges@[a] == before[a] && edges@[b] == before[b]);
                        } else if a == i {
                            assert(edges@[b] == before[b]);
                            assert(before[i as int].0@ == idv);
                        } else {
                            assert(edges@[a] == before[a]);
                            assert(before[i as int].0@ == idv);
                        }
                    }
                }
            },
            None => {
                edges.push((id, deps));
                proof {
                    assert forall|a: int, b: int| 0 <= a < b < edges@.len() implies #[trigger] edges@[a].0@
                        != #[trigger] edges@[b].0@ by {
                        if b < before.len() {
                            assert(edges@[a] == before[a] && edges@[b] == before[b]);
                        } else {
                            assert(edges@[a] == before[a]);
                        }
                    }
                }
            },
        }
        self.edges = edges;
    }

    /// The dependencies recorded for `id`.
    pub fn get(&self, id: &RepoId) -> (r: Option<&Vec<Dependency>>)
        ensures
            match key_index(self.entries(), id@) {
                Some(i) => r == Some(&self.entries()[i].1),
                None => r is None,
            },
    {
        proof {
            use_type_invariant(self);
        }
        match find_key(&self.edges, id.as_str()) {
            Some(i) => Some(&self.edges[i].1),
            None => None,
        }
    }

    /// All entries, in insertion order.
    pub fn edges(&self) -> (r: &Vec<(RepoId, Vec<Dependency>)>)
        ensures
            r@ == self.entries(),
    {
        &self.edges
    }
}

/// The position of the entry with key `k` in a list with distinct keys.
pub fn find_key<V>(e: &Vec<(RepoId, V)>, k: &str) -> (r: Option<usize>)
    requires
        unique_keys(e@),
    ensures
        r matches Some(i) ==> key_index(e@, k@) == Some(i as int) && i < e@.len() && e@[i as int].0@
            == k@,
        r is None <==> key_index(e@, k@) is None,
{
    let mut i: usize = 0;
    while i < e.len()
        invariant
            i <= e@.len(),
            unique_keys(e@),
            forall|j: int| 0 <= j < i ==> #[trigger] e@[j].0@ != k@,
        decreases e@.len() - i,
    {
        if str_eq(e[i].0.as_str(), k) {
            proof {
                assert(e@[i as int].0@ == k@);
                let c = choose|j: int| 0 <= j < e@.len() && #[trigger] e@[j].0@ == k@;
                assert(0 <= c < e@.len() && e@[c].0@ == k@);
                if c != i {
                    if c < i {
                        assert(e@[c].0@ != k@);
                    } else {
                        assert(e@[i as int].0@ != e@[c].0@);
                    }
                }
            }
            return Some(i);
        }
        i += 1;
    }
    proof {
        if exists|j: int| 0 <= j < e@.len() && #[trigger] e@[j].0@ == k@ {
            let c = choose|j: int| 0 <= j < e@.len() && #[trigger] e@[j].0@ == k@;
            assert(e@[c].0@ != k@);
        }
    }
    None
}

} // verus!
