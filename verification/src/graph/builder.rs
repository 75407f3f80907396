//! Building the dependency graph from what each repository's manifest
//! declares: which dependencies are internal, and the dependencies the
//! workspace configuration declares on top.
use vstd::prelude::*;
use crate::cli::select::{find_repo, repo_index};
use crate::graph::DependencyGraph;
use crate::graph::model::{lookup_package, package_of};
use crate::graph::ops::{map_get, package_map};
use crate::order::{contains_str, views};
use crate::project::repo::{Dependency, DependencyView, Repo, RepoId, dep_views, deps_parsed};
use crate::project::version::VersionReq;
use crate::text::string_of;

verus! {

/// What the pattern compiled by `regex::Regex::new` answers for `text`
/// under `Regex::is_match`; none when the pattern does not compile.
pub uninterp spec fn spec_pattern_match(pattern: Seq<char>, text: Seq<char>) -> Option<bool>;

/// Compiles `pattern` with `regex::Regex::new` and, when it compiles, asks
/// `Regex::is_match` about `text`. The result is named, not described:
/// the regular expression language is the crate's.
#[verifier::external_body]
fn pattern_match(pattern: &str, text: &str) -> (r: Option<bool>)
    ensures
        r == spec_pattern_match(pattern@, text@),
{
    regex::Regex::new(pattern).ok().map(|re| re.is_match(text))
}

/// A dependency is internal when the repository lists it among its internal
/// packages, when it matches the repository's internal pattern, or when a
/// repository of the workspace provides it.
pub open spec fn spec_is_internal(name: Seq<char>, internal_packages: Seq<Seq<char>>, pattern: Option<Seq<char>>, rs: Seq<
    Repo,
>) -> bool {
    internal_packages.contains(name) || (match pattern {
        Some(p) => spec_pattern_match(p, name) == Some(true),
        None => false,
    }) || lookup_package(rs, name) is Some
}

/// The dependencies with their internal flags set.
pub open spec fn marked(deps: Seq<DependencyView>, internal_packages: Seq<Seq<char>>, pattern: Option<Seq<char>>, rs: Seq<
    Repo,
>) -> Seq<DependencyView> {
    deps.map_values(|d: DependencyView| (d.0, d.1, spec_is_internal(d.0, internal_packages, pattern, rs)))
}

/// Sets the internal flag of each dependency.
pub fn mark_internal(deps: &mut Vec<Dependency>, internal_packages: &Vec<String>, pattern: Option<&str>, repos: &Vec<Repo>)
    ensures
        dep_views(final(deps)@) == marked(
            dep_views(old(deps)@),
            views(internal_packages@),
            crate::text::opt_str_view(pattern),
            repos@,
        ),
{
    let map = package_map(repos);
    let ghost start = dep_views(deps@);
    let ghost pat = crate::text::opt_str_view(pattern);
    let mut i: usize = 0;
    while i < deps.len()
        invariant
            i <= deps@.len(),
            deps@.len() == start.len(),
            pat == crate::text::opt_str_view(pattern),
            forall|k: int| 0 <= k < map@.len() ==> lookup_package(repos@, #[trigger] map@[k].0@) == Some(map@[k].1@),
            forall|nm: Seq<char>| #[trigger] lookup_package(repos@, nm) is Some ==> exists|k: int|
                0 <= k < map@.len() && #[trigger] map@[k].0@ == nm,
            forall|k: int|
                0 <= k < i ==> #[trigger] dep_views(deps@)[k] == marked(start, views(internal_packages@), pat, repos@)[k],
            forall|k: int| i <= k < deps@.len() ==> #[trigger] dep_views(deps@)[k] == start[k],
        decreases deps@.len() - i,
    {
        let listed = contains_str(internal_packages, deps[i].name.as_str());
        let matched = match pattern {
            Some(p) => match pattern_match(p, deps[i].name.as_str()) {
                Some(b) => b,
                None => false,
            },
            None => false,
        };
        let provided = map_get(&map, Ghost(repos@), deps[i].name.as_str()).is_some();
        let ghost before = deps@;
        let mut d = deps[i].duplicate();
        d.is_internal = listed || matched || provided;
        deps.set(i, d);
        proof {
            assert(start[i as int] == dep_views(before)[i as int]);
            assert(marked(start, views(internal_packages@), pat, repos@)[i as int] == (
                start[i as int].0,
                start[i as int].1,
                spec_is_internal(start[i as int].0, views(internal_packages@), pat, repos@),
            ));
            assert(dep_views(deps@)[i as int] == marked(start, views(internal_packages@), pat, repos@)[i as int]);
            assert forall|k: int| 0 <= k < deps@.len() && k != i implies #[trigger] dep_views(deps@)[k] == dep_views(before)[k] by {
                assert(deps@[k] == before[k]);
            }
        }
        i += 1;
    }
    proof {
        assert(dep_views(deps@) =~= marked(start, views(internal_packages@), pat, repos@));
    }
}

/// The package a dependency declared in the workspace configuration names:
/// the name itself when a repository provides that package, else the
/// package of the repository with that identifier, else the name.
pub open spec fn spec_normalize_declared(declared: Seq<char>, rs: Seq<Repo>) -> Seq<char> {
    if lookup_package(rs, declared) is Some {
        declared
    } else {
        match repo_index(rs, declared) {
            Some(k) => package_of(rs[k]),
            None => declared,
        }
    }
}

/// The package a dependency declared in the workspace configuration names.
pub fn normalize_declared_dependency(declared: &str, repos: &Vec<Repo>) -> (r: String)
    ensures
        r@ == spec_normalize_declared(declared@, repos@),
{
    let map = package_map(repos);
    if map_get(&map, Ghost(repos@), declared).is_some() {
        return string_of(declared);
    }
    match find_repo(repos, declared) {
        Some(k) => match &repos[k].package_name {
            Some(n) => string_of(n.as_str()),
            None => string_of(repos[k].id.as_str()),
        },
        None => string_of(declared),
    }
}

/// The dependencies with the declared ones appended: each declared name,
/// normalized, that is not yet among the names, as an internal dependency
/// on any version (`*`).
pub open spec fn with_declared(deps: Seq<DependencyView>, declared: Seq<Seq<char>>, rs: Seq<Repo>) -> Seq<DependencyView>
    decreases declared.len(),
{
    if declared.len() == 0 {
        deps
    } else {
        let prev = with_declared(deps, declared.drop_last(), rs);
        let n = spec_normalize_declared(declared.last(), rs);
        if prev.map_values(|d: DependencyView| d.0).contains(n) {
            prev
        } else {
            prev.push((n, "*"@, true))
        }
    }
}

/// Whether some dependency has this name.
fn has_name(deps: &Vec<Dependency>, name: &str) -> (r: bool)
    ensures
        r == dep_views(deps@).map_values(|d: DependencyView| d.0).contains(name@),
{
    let ghost names = dep_views(deps@).map_values(|d: DependencyView| d.0);
    let mut i: usize = 0;
    while i < deps.len()
        invariant
            i <= deps@.len(),
            names == dep_views(deps@).map_values(|d: DependencyView| d.0),
            forall|k: int| 0 <= k < i ==> #[trigger] names[k] != name@,
        decreases deps@.len() - i,
    {
        if crate::text::str_eq(deps[i].name.as_str(), name) {
            proof {
                assert(names[i as int] == name@);
            }
            return true;
        }
        i += 1;
    }
    false
}

/// Appends the dependencies declared in the workspace configuration.
pub fn append_workspace_declared_dependencies(deps: &mut Vec<Dependency>, declared: &Vec<String>, repos: &Vec<Repo>)
    ensures
        dep_views(final(deps)@) == with_declared(dep_views(old(deps)@), views(declared@), repos@),
        deps_parsed(old(deps)@) ==> deps_parsed(final(deps)@),
{
    let ghost start = dep_views(deps@);
    let ghost parsed0 = deps_parsed(deps@);
    let mut i: usize = 0;
    while i < declared.len()
        invariant
            i <= declared@.len(),
            dep_views(deps@) == with_declared(start, views(declared@).take(i as int), repos@),
            parsed0 ==> deps_parsed(deps@),
        decreases declared@.len() - i,
    {
        proof {
            assert(views(declared@).take(i + 1).drop_last() =~= views(declared@).take(i as int));
            assert(views(declared@).take(i + 1).last() == declared@[i as int]@);
        }
        let n = normalize_declared_dependency(declared[i].as_str(), repos);
        if !has_name(deps, n.as_str()) {
            let ghost before = dep_views(deps@);
            let ghost nv = n@;
            let ghost before_deps = deps@;
            deps.push(Dependency { name: n, constraint: VersionReq::new("*"), is_internal: true });
            proof {
                assert(deps@ == before_deps.push(deps@.last()));
                assert(dep_views(deps@) =~= before.push((nv, "*"@, true)));
            }
        }
        i += 1;
    }
    proof {
        assert(views(declared@).take(declared@.len() as int) =~= views(declared@));
    }
}

/// The internal packages and the internal pattern of a repository's
/// dependency settings.
pub open spec fn deps_settings(repo: Repo) -> (Seq<Seq<char>>, Option<Seq<char>>) {
    match repo.config {
        Some(c) => match c.dependencies {
            Some(d) => (
                match d.internal_packages {
                    Some(l) => views(l@),
                    None => Seq::empty(),
                },
                crate::text::opt_string_view(d.internal_pattern),
            ),
            None => (Seq::empty(), None),
        },
        None => (Seq::empty(), None),
    }
}

/// A repository's dependencies as the graph holds them: those its manifest
/// declares (`parsed`), flagged internal or not, then those the workspace
/// configuration declares.
pub open spec fn spec_repo_dependencies(repo: Repo, parsed: Seq<DependencyView>, rs: Seq<Repo>) -> Seq<DependencyView> {
    with_declared(marked(parsed, deps_settings(repo).0, deps_settings(repo).1, rs), views(repo.depends_on@), rs)
}

/// A repository's dependencies as the graph holds them.
pub fn repo_dependencies(repo: &Repo, parsed: Vec<Dependency>, repos: &Vec<Repo>) -> (r: Vec<Dependency>)
    ensures
        dep_views(r@) == spec_repo_dependencies(*repo, dep_views(parsed@), repos@),
{
    let mut deps = parsed;
    let empty: Vec<String> = Vec::new();
    let (packages, pattern): (&Vec<String>, Option<&str>) = match &repo.config {
        Some(c) => match &c.dependencies {
            Some(d) => (
                match &d.internal_packages {
                    Some(l) => l,
                    None => &empty,
                },
                match &d.internal_pattern {
                    Some(p) => Some(p.as_str()),
                    None => None,
                },
            ),
            None => (&empty, None),
        },
        None => (&empty, None),
    };
    proof {
        assert(views(empty@) =~= Seq::<Seq<char>>::empty());
    }
    mark_internal(&mut deps, packages, pattern, repos);
    append_workspace_declared_dependencies(&mut deps, &repo.depends_on, repos);
    deps
}

/// `repos[j]` is the first repository with its identifier.
pub open spec fn first_at(repos: Seq<Repo>, j: int) -> bool {
    repo_index(repos, repos[j].id@) == Some(j)
}

/// `x` is the identifier of a repository at `k` or later that is the first
/// with its identifier.
pub open spec fn key_from(x: Seq<char>, repos: Seq<Repo>, k: int) -> bool {
    exists|j: int| k <= j < repos.len() && #[trigger] first_at(repos, j) && x == repos[j].id@
}

/// The graph holds an entry for `id` whose dependencies are `deps`.
pub open spec fn has_entry(e: Seq<(RepoId, Vec<Dependency>)>, id: Seq<char>, deps: Seq<DependencyView>) -> bool {
    exists|i: int| 0 <= i < e.len() && #[trigger] e[i].0@ == id && dep_views(e[i].1@) == deps
}

/// The graph of a workspace: each repository that is not ignored (the
/// first with its identifier), with its dependencies; `parsed[k]` is what
/// the manifest of `repos[k]` declares.
pub fn build_graph(repos: &Vec<Repo>, parsed: Vec<Vec<Dependency>>) -> (r: DependencyGraph)
    requires
        parsed@.len() == repos@.len(),
    ensures
        forall|k: int|
            0 <= k < repos@.len() && !repos@[k].ignored && repo_index(repos@, repos@[k].id@) == Some(k) ==> has_entry(
                r.entries(),
                #[trigger] repos@[k].id@,
                spec_repo_dependencies(repos@[k], dep_views(parsed@[k]@), repos@),
            ),
{
    let mut graph = DependencyGraph::new();
    let mut parsed = parsed;
    let ghost orig = parsed@;
    let mut k: usize = repos.len();
    while k > 0
        invariant
            k <= repos@.len(),
            parsed@.len() == k,
            graph.entries().len() <= repos@.len() - k,
            orig.len() == repos@.len(),
            forall|j: int| 0 <= j < k ==> #[trigger] parsed@[j] == orig[j],
            forall|j: int|
                k <= j < repos@.len() && !repos@[j].ignored && repo_index(repos@, repos@[j].id@) == Some(j) ==> has_entry(
                    graph.entries(),
                    #[trigger] repos@[j].id@,
                    spec_repo_dependencies(repos@[j], dep_views(orig[j]@), repos@),
                ),
            forall|i: int| 0 <= i < graph.entries().len() ==> key_from(#[trigger] graph.entries()[i].0@, repos@, k as int),
        decreases k,
    {
        proof {
            assert forall|i: int| 0 <= i < graph.entries().len() implies key_from(#[trigger] graph.entries()[i].0@, repos@, k - 1) by {
                let j = choose|j: int| k <= j < repos@.len() && #[trigger] first_at(repos@, j) && graph.entries()[i].0@ == repos@[j].id@;
                assert(first_at(repos@, j));
            }
        }
        k -= 1;
        let ghost pbefore = parsed@;
        let deps = match parsed.pop() {
            Some(d) => d,
            None => Vec::new(),
        };
        proof {
            assert(deps == orig[k as int]);
            assert forall|j: int| 0 <= j < k implies #[trigger] parsed@[j] == orig[j] by {
                assert(parsed@[j] == pbefore[j]);
            }
        }
        let repo = &repos[k];
        match find_repo(repos, repo.id.as_str()) {
            Some(first) => {
                if first == k && !repo.ignored {
                    let built = repo_dependencies(repo, deps, repos);
                    let ghost before = graph.entries();
                    let ghost idk = repos@[k as int].id@;
                    let id_copy = repo.id.duplicate();
                    let ghost idc = id_copy;
                    let ghost bv = built;
                    graph.insert(id_copy, built);
                    proof {
                        let after = graph.entries();
                        match crate::graph::key_index(before, idk) {
                            Some(i0) => {
                                assert(before[i0].0@ == idk);
                                assert(key_from(before[i0].0@, repos@, k + 1));
                                let j0 = choose|j: int| k + 1 <= j < repos@.len() && #[trigger] first_at(repos@, j) && before[i0].0@ == repos@[j].id@;
                                assert(repos@[j0].id@ == idk);
                                assert(first_at(repos@, k as int));
                                assert(false);
                            },
                            None => {
                                assert(after == before.push((idc, bv)));
                                assert(after[before.len() as int].0@ == idk);
                                assert(dep_views(after[before.len() as int].1@) == spec_repo_dependencies(
                                    repos@[k as int],
                                    dep_views(orig[k as int]@),
                                    repos@,
                                ));
                                assert forall|j: int|
                                    k <= j < repos@.len() && !repos@[j].ignored && repo_index(repos@, repos@[j].id@) == Some(j) implies has_entry(
                                        after,
                                        #[trigger] repos@[j].id@,
                                        spec_repo_dependencies(repos@[j], dep_views(orig[j]@), repos@),
                                    ) by {
                                    if j == k {
                                        assert(has_entry(after, idk, spec_repo_dependencies(repos@[k as int], dep_views(orig[k as int]@), repos@)));
                                    } else {
                                        let i = choose|i: int| 0 <= i < before.len() && #[trigger] before[i].0@ == repos@[j].id@
                                            && dep_views(before[i].1@) == spec_repo_dependencies(repos@[j], dep_views(orig[j]@), repos@);
                                        assert(after[i] == before[i]);
                                    }
                                }
                                assert forall|i: int| 0 <= i < after.len() implies key_from(#[trigger] after[i].0@, repos@, k as int) by {
                                    if i < before.len() {
                                        assert(after[i] == before[i]);
                                        assert(key_from(before[i].0@, repos@, k as int));
                                    } else {
                                        assert(after[i].0@ == repos@[k as int].id@);
                                        assert(first_at(repos@, k as int));
                                    }
                                }
                            },
                        }
                    }
                }
            },
            None => {},
        }
    }
    graph
}

} // verus!
