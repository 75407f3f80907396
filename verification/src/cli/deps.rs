//! Which dependency requirements to rewrite after versions change, and how
//! each new requirement is written.
use vstd::prelude::*;
use crate::cli::graph_view::sorted_unique;
use crate::cli::select::{find_repo, repo_index};
use crate::ecosystem::EcosystemId;
use crate::error::HarmoniaError;
use crate::graph::{DependencyGraph, key_index};
use crate::graph::model::lookup_package;
use crate::graph::ops::{internal_dependencies_for, internal_only, map_get, package_map};
use crate::order::{contains_str, strictly_sorted, views};
use crate::project::repo::{DependencyView, Repo, RepoId, dep_views};
use crate::project::version::Version;
use crate::project::workspace::Workspace;
use crate::text::{concat2, index_of_char, find_char, starts, str_eq, str_starts, string_of, to_chars, trim_spec, trim_str};

verus! {

/// The operator a requirement starts with, kept when it is rewritten: `^`,
/// `~`, `==` or `=`; none for a requirement with several comparators (a
/// `,`) or another start.
pub open spec fn spec_constraint_prefix(raw: Seq<char>) -> Option<Seq<char>> {
    let t = trim_spec(raw);
    if index_of_char(t, ',') is Some {
        None
    } else if starts(t, "^"@) {
        Some("^"@)
    } else if starts(t, "~"@) {
        Some("~"@)
    } else if starts(t, "=="@) {
        Some("=="@)
    } else if starts(t, "="@) {
        Some("="@)
    } else {
        None
    }
}

/// The operator a requirement starts with.
pub fn detect_constraint_prefix(raw: &str) -> (r: Option<&'static str>)
    ensures
        match r {
            Some(p) => spec_constraint_prefix(raw@) == Some(p@),
            None => spec_constraint_prefix(raw@) is None,
        },
{
    let t = trim_str(raw);
    let cs = to_chars(t.as_str());
    if find_char(&cs, ',').is_some() {
        return None;
    }
    if str_starts(t.as_str(), "^") {
        Some("^")
    } else if str_starts(t.as_str(), "~") {
        Some("~")
    } else if str_starts(t.as_str(), "==") {
        Some("==")
    } else if str_starts(t.as_str(), "=") {
        Some("=")
    } else {
        None
    }
}

/// The requirement written for a new version: the old requirement's
/// operator (`==` for Python when it has none) and the version.
pub open spec fn spec_updated_constraint(eco: Option<EcosystemId>, raw: Seq<char>, version: Seq<char>) -> Seq<char> {
    let prefix = match spec_constraint_prefix(trim_spec(raw)) {
        Some(p) => p,
        None => if eco == Some(EcosystemId::Python) {
            "=="@
        } else {
            Seq::empty()
        },
    };
    prefix + version
}

/// The requirement a repository writes for a new version of a dependency.
pub fn update_constraint_for_repo(repo: &Repo, dep: &crate::project::repo::Dependency, version: &Version) -> (r:
    String)
    ensures
        r@ == spec_updated_constraint(repo.ecosystem, dep.constraint.raw@, version.raw@),
{
    let raw = trim_str(dep.constraint.raw.as_str());
    let prefix: &str = match detect_constraint_prefix(raw.as_str()) {
        Some(p) => p,
        None => match repo.ecosystem {
            Some(EcosystemId::Python) => "==",
            _ => "",
        },
    };
    proof {
        reveal_strlit("");
    }
    concat2(prefix, version.raw.as_str())
}

/// A requirement to rewrite: in `repo`, dependency `dependency` becomes
/// `constraint`.
#[derive(Debug)]
pub struct DependencyUpdate {
    pub repo: RepoId,
    pub dependency: String,
    pub constraint: String,
}

/// An update as plain values.
pub type UpdateView = (Seq<char>, Seq<char>, Seq<char>);

pub open spec fn update_views(v: Seq<DependencyUpdate>) -> Seq<UpdateView> {
    v.map_values(|u: DependencyUpdate| (u.repo@, u.dependency@, u.constraint@))
}

/// The version recorded for repository `id` (the first entry for it).
pub open spec fn version_for(vs: Seq<(RepoId, Version)>, id: Seq<char>) -> Option<Seq<char>>
    decreases vs.len(),
{
    if vs.len() == 0 {
        None
    } else if vs[0].0@ == id {
        Some(vs[0].1.raw@)
    } else {
        version_for(vs.drop_first(), id)
    }
}

/// The version recorded for repository `id`.
fn find_version(vs: &Vec<(RepoId, Version)>, id: &str) -> (r: Option<usize>)
    ensures
        match r {
            Some(i) => i < vs@.len() && version_for(vs@, id@) == Some(vs@[i as int].1.raw@),
            None => version_for(vs@, id@) is None,
        },
{
    let mut i: usize = 0;
    proof {
        assert(vs@.skip(0) =~= vs@);
    }
    while i < vs.len()
        invariant
            i <= vs@.len(),
            version_for(vs@.skip(i as int), id@) == version_for(vs@, id@),
        decreases vs@.len() - i,
    {
        proof {
            assert(vs@.skip(i as int).drop_first() =~= vs@.skip(i + 1));
            assert(vs@.skip(i as int)[0] == vs@[i as int]);
        }
        if str_eq(vs[i].0.as_str(), id) {
            return Some(i);
        }
        i += 1;
    }
    proof {
        assert(vs@.skip(vs@.len() as int) =~= Seq::<(RepoId, Version)>::empty());
    }
    None
}

/// The internal dependencies the graph records for repository `id`.
pub open spec fn internal_of(g: Seq<(RepoId, Vec<crate::project::repo::Dependency>)>, id: Seq<char>) -> Seq<DependencyView> {
    match key_index(g, id) {
        Some(i) => internal_only(dep_views(g[i].1@)),
        None => Seq::empty(),
    }
}

/// The updates for the dependencies `deps` of `repo`: each one named by
/// `targets` (every one when `targets` is empty) whose providing repository
/// has a recorded version.
pub open spec fn updates_of(rs: Seq<Repo>, vs: Seq<(RepoId, Version)>, targets: Seq<Seq<char>>, repo: Repo, deps: Seq<
    DependencyView,
>) -> Seq<UpdateView>
    decreases deps.len(),
{
    if deps.len() == 0 {
        Seq::empty()
    } else {
        let prev = updates_of(rs, vs, targets, repo, deps.drop_last());
        let d = deps.last();
        if targets.len() > 0 && !targets.contains(d.0) {
            prev
        } else {
            match lookup_package(rs, d.0) {
                None => prev,
                Some(t) => match version_for(vs, t) {
                    None => prev,
                    Some(v) => prev.push((repo.id@, d.0, spec_updated_constraint(repo.ecosystem, d.1, v))),
                },
            }
        }
    }
}

/// The updates for the repositories `ids`, in order.
pub open spec fn plan_updates(rs: Seq<Repo>, g: Seq<(RepoId, Vec<crate::project::repo::Dependency>)>, vs: Seq<(RepoId, Version)>, targets: Seq<
    Seq<char>,
>, ids: Seq<Seq<char>>) -> Seq<UpdateView>
    decreases ids.len(),
{
    if ids.len() == 0 {
        Seq::empty()
    } else {
        plan_updates(rs, g, vs, targets, ids.drop_last()) + match repo_index(rs, ids.last()) {
            Some(k) => updates_of(rs, vs, targets, rs[k], internal_of(g, ids.last())),
            None => Seq::empty(),
        }
    }
}

/// A repository whose requirements are rewritten: neither ignored nor
/// external.
pub open spec fn updatable(rs: Seq<Repo>, x: Seq<char>) -> bool {
    match repo_index(rs, x) {
        Some(k) => !rs[k].ignored && !rs[k].external,
        None => false,
    }
}

/// The identifiers of the repositories whose requirements are rewritten.
fn updatable_ids(rs: &Vec<Repo>) -> (r: Vec<String>)
    ensures
        strictly_sorted(views(r@)),
        forall|x: Seq<char>| views(r@).contains(x) <==> updatable(rs@, x),
{
    let mut all: Vec<String> = Vec::new();
    let mut i: usize = 0;
    while i < rs.len()
        invariant
            i <= rs@.len(),
            forall|x: Seq<char>| views(all@).contains(x) ==> updatable(rs@, x),
            forall|j: int| 0 <= j < i && updatable(rs@, #[trigger] rs@[j].id@) ==> views(all@).contains(rs@[j].id@),
        decreases rs@.len() - i,
    {
        let id = rs[i].id.as_str();
        match find_repo(rs, id) {
            Some(k) => {
                if !rs[k].ignored && !rs[k].external {
                    let ghost before = views(all@);
                    all.push(string_of(id));
                    proof {
                        assert(views(all@) =~= before.push(id@));
                        assert forall|x: Seq<char>| views(all@).contains(x) implies updatable(rs@, x) by {
                            if x != id@ {
                                let w = choose|w: int| 0 <= w < views(all@).len() && views(all@)[w] == x;
                                assert(before[w] == x);
                            }
                        }
                        assert forall|j: int| 0 <= j < i + 1 && updatable(rs@, #[trigger] rs@[j].id@) implies views(
                            all@,
                        ).contains(rs@[j].id@) by {
                            if j < i {
                                let w = choose|w: int| 0 <= w < before.len() && before[w] == rs@[j].id@;
                                assert(views(all@)[w] == rs@[j].id@);
                            } else {
                                assert(views(all@)[before.len() as int] == rs@[j].id@);
                            }
                        }
                    }
                }
            },
            None => {},
        }
        i += 1;
    }
    proof {
        assert forall|x: Seq<char>| updatable(rs@, x) implies views(all@).contains(x) by {
            let k = repo_index(rs@, x)->0;
            crate::cli::select::lemma_repo_index_found(rs@, x);
            assert(rs@[k].id@ == x);
        }
    }
    sorted_unique(&all)
}

/// The requirement updates to make for the recorded versions: for each
/// repository that is neither ignored nor external, in identifier order,
/// each internal dependency named by `targets` (all when empty) whose
/// providing repository has a version, with the requirement rewritten for
/// that version.
pub fn plan_dependency_updates(workspace: &Workspace, versions: &Vec<(RepoId, Version)>, targets: &Vec<String>) -> (r:
    Vec<DependencyUpdate>)
    ensures
        exists|ids: Seq<Seq<char>>|
            #![trigger plan_updates(workspace.repos@, workspace.graph.entries(), versions@, views(targets@), ids)]
            strictly_sorted(ids) && (forall|x: Seq<char>| ids.contains(x) <==> updatable(workspace.repos@, x))
                && update_views(r@) == plan_updates(
                workspace.repos@,
                workspace.graph.entries(),
                versions@,
                views(targets@),
                ids,
            ),
{
    let rs = &workspace.repos;
    let ghost g = workspace.graph.entries();
    let ghost tv = views(targets@);
    let map = package_map(rs);
    let ids = updatable_ids(rs);
    let mut out: Vec<DependencyUpdate> = Vec::new();
    let mut i: usize = 0;
    while i < ids.len()
        invariant
            i <= ids@.len(),
            g == workspace.graph.entries(),
            tv == views(targets@),
            forall|k: int| 0 <= k < map@.len() ==> lookup_package(rs@, #[trigger] map@[k].0@) == Some(map@[k].1@),
            forall|nm: Seq<char>| #[trigger] lookup_package(rs@, nm) is Some ==> exists|k: int|
                0 <= k < map@.len() && #[trigger] map@[k].0@ == nm,
            update_views(out@) == plan_updates(rs@, g, versions@, tv, views(ids@).take(i as int)),
        decreases ids@.len() - i,
    {
        proof {
            assert(views(ids@).take(i + 1).drop_last() =~= views(ids@).take(i as int));
            assert(views(ids@).take(i + 1).last() == ids@[i as int]@);
        }
        let ghost start = update_views(out@);
        match find_repo(rs, ids[i].as_str()) {
            None => {
                proof {
                    assert(start + Seq::<UpdateView>::empty() =~= start);
                }
            },
            Some(k) => {
                let repo = &rs[k];
                let deps = internal_dependencies_for(&workspace.graph, &repo.id);
                let ghost dv = dep_views(deps@);
                proof {
                    crate::cli::select::lemma_repo_index_found(rs@, ids@[i as int]@);
                    assert(rs@[k as int].id@ == ids@[i as int]@);
                    if key_index(g, ids@[i as int]@) is None {
                        assert(dv =~= Seq::<DependencyView>::empty());
                    }
                    assert(dv == internal_of(g, ids@[i as int]@));
                }
                let mut j: usize = 0;
                while j < deps.len()
                    invariant
                        j <= deps@.len(),
                        dv == dep_views(deps@),
                        tv == views(targets@),
                        k < rs@.len(),
                        repo == &rs@[k as int],
                        forall|m: int| 0 <= m < map@.len() ==> lookup_package(rs@, #[trigger] map@[m].0@) == Some(map@[m].1@),
                        forall|nm: Seq<char>| #[trigger] lookup_package(rs@, nm) is Some ==> exists|m: int|
                            0 <= m < map@.len() && #[trigger] map@[m].0@ == nm,
                        update_views(out@) == start + updates_of(rs@, versions@, tv, rs@[k as int], dv.take(j as int)),
                    decreases deps@.len() - j,
                {
                    proof {
                        assert(dv.take(j + 1).drop_last() =~= dv.take(j as int));
                        assert(dv.take(j + 1).last() == deps@[j as int].view());
                    }
                    let d = &deps[j];
                    let wanted = targets.len() == 0 || contains_str(targets, d.name.as_str());
                    if wanted {
                        match map_get(&map, Ghost(rs@), d.name.as_str()) {
                            Some(t) => match find_version(versions, t.as_str()) {
                                Some(vi) => {
                                    let c = update_constraint_for_repo(repo, d, &versions[vi].1);
                                    let ghost before = update_views(out@);
                                    out.push(
                                        DependencyUpdate {
                                            repo: repo.id.duplicate(),
                                            dependency: string_of(d.name.as_str()),
                                            constraint: c,
                                        },
                                    );
                                    proof {
                                        assert(update_views(out@) =~= before.push(
                                            (rs@[k as int].id@, d.name@, spec_updated_constraint(repo.ecosystem, d.constraint.raw@, versions@[vi as int].1.raw@)),
                                        ));
                                    }
                                },
                                None => {},
                            },
                            None => {},
                        }
                    }
                    j += 1;
                }
                proof {
                    assert(dv.take(deps@.len() as int) =~= dv);
                }
            },
        }
        i += 1;
    }
    proof {
        assert(views(ids@).take(ids@.len() as int) =~= views(ids@));
    }
    out
}

/// The package names that `packages` name: a repository's package (its
/// identifier when it names none), or a package some repository provides;
/// an error for the first name that is neither.
pub open spec fn spec_update_targets(rs: Seq<Repo>, packages: Seq<Seq<char>>) -> Result<Seq<Seq<char>>, Seq<char>>
    decreases packages.len(),
{
    if packages.len() == 0 {
        Ok(Seq::empty())
    } else {
        match spec_update_targets(rs, packages.drop_last()) {
            Err(e) => Err(e),
            Ok(acc) => {
                let p = packages.last();
                match repo_index(rs, p) {
                    Some(k) => Ok(acc.push(crate::graph::model::package_of(rs[k]))),
                    None => if lookup_package(rs, p) is Some {
                        Ok(acc.push(p))
                    } else {
                        Err("unknown package "@ + p)
                    },
                }
            },
        }
    }
}

proof fn lemma_targets_err(rs: Seq<Repo>, packages: Seq<Seq<char>>, i: int, e: Seq<char>)
    requires
        0 <= i <= packages.len(),
        spec_update_targets(rs, packages.take(i)) == Err::<Seq<Seq<char>>, Seq<char>>(e),
    ensures
        spec_update_targets(rs, packages) == Err::<Seq<Seq<char>>, Seq<char>>(e),
    decreases packages.len(),
{
    if i == packages.len() {
        assert(packages.take(i) =~= packages);
    } else {
        assert(packages.drop_last().take(i) =~= packages.take(i));
        lemma_targets_err(rs, packages.drop_last(), i, e);
    }
}

/// The package names a `deps update` is limited to.
pub fn resolve_update_targets(workspace: &Workspace, packages: &Vec<String>) -> (r: Result<Vec<String>, HarmoniaError>)
    ensures
        match (r, spec_update_targets(workspace.repos@, views(packages@))) {
            (Ok(v), Ok(s)) => views(v@) == s,
            (Err(HarmoniaError::Other(m)), Err(e)) => m@ == e,
            _ => false,
        },
{
    let rs = &workspace.repos;
    let map = package_map(rs);
    let ghost pv = views(packages@);
    let mut out: Vec<String> = Vec::new();
    let mut i: usize = 0;
    proof {
        assert(pv.take(0) =~= Seq::<Seq<char>>::empty());
        assert(views(out@) =~= Seq::<Seq<char>>::empty());
    }
    while i < packages.len()
        invariant
            i <= packages@.len(),
            pv == views(packages@),
            rs@ == workspace.repos@,
            forall|m: int| 0 <= m < map@.len() ==> lookup_package(rs@, #[trigger] map@[m].0@) == Some(map@[m].1@),
            forall|nm: Seq<char>| #[trigger] lookup_package(rs@, nm) is Some ==> exists|m: int|
                0 <= m < map@.len() && #[trigger] map@[m].0@ == nm,
            spec_update_targets(rs@, pv.take(i as int)) == Ok::<Seq<Seq<char>>, Seq<char>>(views(out@)),
        decreases packages@.len() - i,
    {
        proof {
            assert(pv.take(i + 1).drop_last() =~= pv.take(i as int));
            assert(pv.take(i + 1).last() == packages@[i as int]@);
        }
        let p = packages[i].as_str();
        let ghost before = views(out@);
        match find_repo(rs, p) {
            Some(k) => {
                let name = match &rs[k].package_name {
                    Some(n) => string_of(n.as_str()),
                    None => string_of(rs[k].id.as_str()),
                };
                out.push(name);
                proof {
                    assert(views(out@) =~= before.push(crate::graph::model::package_of(rs@[k as int])));
                }
            },
            None => {
                match map_get(&map, Ghost(rs@), p) {
                    Some(_) => {
                        out.push(string_of(p));
                        proof {
                            assert(views(out@) =~= before.push(p@));
                        }
                    },
                    None => {
                        proof {
                            let q = pv.take(i + 1);
                            assert(q.drop_last() =~= pv.take(i as int));
                            assert(q.last() == p@);
                            assert(repo_index(rs@, p@) is None);
                            assert(lookup_package(rs@, p@) is None);
                            assert(spec_update_targets(rs@, q) == Err::<Seq<Seq<char>>, Seq<char>>("unknown package "@ + p@));
                            lemma_targets_err(rs@, pv, i + 1, "unknown package "@ + p@);
                        }
                        return Err(HarmoniaError::Other(concat2("unknown package ", p)));
                    },
                }
            },
        }
        i += 1;
    }
    proof {
        assert(pv.take(packages@.len() as int) =~= pv);
    }
    Ok(out)
}

} // verus!
