//! Repositories, their identifiers and their declared dependencies.
use vstd::prelude::*;
use crate::config::repo::RepoConfig;
use crate::ecosystem::EcosystemId;
use crate::project::version::VersionReq;
use crate::text::string_of;

verus! {

/// The identifier of a repository within a workspace (its key in the
/// workspace configuration).
#[derive(Debug, Clone, PartialEq, Eq, Hash)]
pub struct RepoId {
    id: String,
}

impl View for RepoId {
    type V = Seq<char>;

    closed spec fn view(&self) -> Seq<char> {
        self.id@
    }
}

impl RepoId {
    /// The identifier with the given text.
    pub fn new(id: &str) -> (r: Self)
        ensures
            r@ == id@,
    {
        RepoId { id: string_of(id) }
    }

    /// The identifier's text.
    pub fn as_str(&self) -> (r: &str)
        ensures
            r@ == self@,
    {
        self.id.as_str()
    }

    /// A copy.
    pub fn duplicate(&self) -> (r: Self)
        ensures
            r@ == self@,
    {
        RepoId { id: self.id.clone() }
    }
}

/// The views of a list of identifiers.
pub open spec fn id_views(v: Seq<RepoId>) -> Seq<Seq<char>> {
    v.map_values(|r: RepoId| r@)
}

/// A repository of the workspace; `path` is where it is checked out.
#[derive(Debug, Clone)]
pub struct Repo {
    pub id: RepoId,
    pub path: String,
    pub remote_url: String,
    pub default_branch: String,
    pub package_name: Option<String>,
    pub depends_on: Vec<String>,
    pub ecosystem: Option<EcosystemId>,
    pub config: Option<RepoConfig>,
    pub external: bool,
    pub ignored: bool,
}

/// The working-tree state of one repository.
#[derive(Debug, Clone)]
pub struct RepoStatus {
    pub repo: RepoId,
    pub branch: String,
    pub ahead: usize,
    pub behind: usize,
    pub staged: Vec<String>,
    pub modified: Vec<String>,
    pub untracked: Vec<String>,
    pub conflicts: Vec<String>,
}

/// A dependency of a repository on a package, with its version requirement;
/// `is_internal` marks a package that a repository of the workspace provides.
#[derive(Debug)]
pub struct Dependency {
    pub name: String,
    pub constraint: VersionReq,
    pub is_internal: bool,
}

/// Each requirement holds what `semver` parses from its text.
pub open spec fn deps_parsed(s: Seq<Dependency>) -> bool {
    forall|k: int| 0 <= k < s.len() ==> #[trigger] s[k].constraint.parsed()
}

/// A dependency as plain values: name, requirement text, internal flag.
pub type DependencyView = (Seq<char>, Seq<char>, bool);

impl Dependency {
    pub open spec fn view(&self) -> DependencyView {
        (self.name@, self.constraint.raw@, self.is_internal)
    }

    /// A copy.
    pub fn duplicate(&self) -> (r: Self)
        ensures
            r.view() == self.view(),
            r.constraint.semver is Some <==> self.constraint.semver is Some,
            r.constraint.semver matches Some(p) ==> p.comparator_views()
                == self.constraint.semver->0.comparator_views() && p.source()
                == self.constraint.semver->0.source(),
    {
        Dependency {
            name: self.name.clone(),
            constraint: self.constraint.duplicate(),
            is_internal: self.is_internal,
        }
    }
}

/// The views of a list of dependencies.
pub open spec fn dep_views(v: Seq<Dependency>) -> Seq<DependencyView> {
    v.map_values(|d: Dependency| d.view())
}

/// A copy of a list of dependencies.
pub fn duplicate_deps(v: &Vec<Dependency>) -> (r: Vec<Dependency>)
    ensures
        dep_views(r@) == dep_views(v@),
{
    let mut out: Vec<Dependency> = Vec::new();
    let mut i: usize = 0;
    while i < v.len()
        invariant
            i <= v@.len(),
            dep_views(out@) =~= dep_views(v@.subrange(0, i as int)),
        decreases v@.len() - i,
    {
        let d = v[i].duplicate();
        let ghost before = out@;
        let ghost dv = d.view();
        out.push(d);
        proof {
            assert(v@.subrange(0, i + 1) =~= v@.subrange(0, i as int).push(v@[i as int]));
            assert(dep_views(out@) =~= dep_views(before).push(dv));
            assert(dep_views(v@.subrange(0, i + 1)) =~= dep_views(v@.subrange(0, i as int)).push(
                v@[i as int].view(),
            ));
        }
        i += 1;
    }
    proof {
        assert(v@.subrange(0, v@.len() as int) =~= v@);
    }
    out
}

} // verus!
