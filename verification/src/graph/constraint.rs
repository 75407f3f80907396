//! Version constraints between repositories: which declared requirements the
//! current (or a proposed) version fails, pins exactly, or caps.
use vstd::prelude::*;
use crate::graph::{DependencyGraph, find_key, key_index, unique_keys};
use crate::graph::cycles::{all_cycles, find_cycles, is_cycle};
use crate::graph::model::{all_missing, dep_rel, lookup_package, package_of};
use crate::graph::ops::{MissingDependency, map_get, missing_parsed, missing_views, package_map, resolve_internal_edges};
use crate::project::repo::{Dependency, Repo, RepoId, deps_parsed};
use crate::project::semver_bridge::{ComparatorView, ReqOp, ReqParts, req_matches, spec_req_matches};
use crate::project::version::{Version, VersionReq};
use crate::text::str_eq;

verus! {

/// The kind of a constraint finding.
#[derive(Debug, Clone, Copy, PartialEq, Eq, Structural)]
pub enum ViolationType {
    Unsatisfied,
    ExactPin,
    UpperBound,
    Circular,
}

impl ViolationType {
    pub open spec fn spec_as_str(&self) -> Seq<char> {
        match self {
            ViolationType::Unsatisfied => "unsatisfied"@,
            ViolationType::ExactPin => "exact_pin"@,
            ViolationType::UpperBound => "upper_bound"@,
            ViolationType::Circular => "circular"@,
        }
    }

    /// The kind's name as reported.
    pub fn as_str(&self) -> (r: &'static str)
        ensures
            r@ == self.spec_as_str(),
    {
        match self {
            ViolationType::Unsatisfied => "unsatisfied",
            ViolationType::ExactPin => "exact_pin",
            ViolationType::UpperBound => "upper_bound",
            ViolationType::Circular => "circular",
        }
    }
}

/// A finding about the requirement `from_repo` declares on `to_repo`.
#[derive(Debug)]
pub struct ConstraintViolation {
    pub from_repo: RepoId,
    pub to_repo: RepoId,
    pub constraint: VersionReq,
    pub actual_version: Version,
    pub violation_type: ViolationType,
}

/// A finding as plain values: from, to, requirement text, version text, kind.
pub type ViolationView = (Seq<char>, Seq<char>, Seq<char>, Seq<char>, ViolationType);

impl ConstraintViolation {
    pub open spec fn view(&self) -> ViolationView {
        (self.from_repo@, self.to_repo@, self.constraint.raw@, self.actual_version.raw@, self.violation_type)
    }
}

/// The views of a list of findings.
pub open spec fn violation_views(v: Seq<ConstraintViolation>) -> Seq<ViolationView> {
    v.map_values(|c: ConstraintViolation| c.view())
}

/// Everything a constraint check found.
#[derive(Debug)]
pub struct ConstraintReport {
    pub violations: Vec<ConstraintViolation>,
    pub missing: Vec<MissingDependency>,
    pub cycles: Vec<Vec<RepoId>>,
}

/// A requirement that is a single `=` comparator with minor and patch given.
pub open spec fn spec_exact_pin(cs: Seq<ComparatorView>) -> bool {
    cs.len() == 1 && cs[0].0 == ReqOp::Exact && cs[0].2 is Some && cs[0].3 is Some
}

/// A requirement with a `<` or `<=` comparator.
pub open spec fn spec_upper_bound(cs: Seq<ComparatorView>) -> bool {
    exists|k: int| 0 <= k < cs.len() && (#[trigger] cs[k].0 == ReqOp::Less || cs[k].0 == ReqOp::LessEq)
}

/// Whether the requirement pins one exact version.
pub fn is_exact_pin(req: &ReqParts) -> (r: bool)
    ensures
        r == spec_exact_pin(req.comparator_views()),
{
    if req.comparator_count() != 1 {
        return false;
    }
    let (op, has_minor, has_patch) = req.comparator_shape(0);
    if op != ReqOp::Exact {
        return false;
    }
    has_minor && has_patch
}

/// Whether the requirement caps the version from above.
pub fn has_upper_bound(req: &ReqParts) -> (r: bool)
    ensures
        r == spec_upper_bound(req.comparator_views()),
{
    let n = req.comparator_count();
    let mut k: usize = 0;
    while k < n
        invariant
            n == req.comparator_views().len(),
            k <= n,
            forall|j: int| 0 <= j < k ==> !(#[trigger] req.comparator_views()[j].0 == ReqOp::Less
                || req.comparator_views()[j].0 == ReqOp::LessEq),
        decreases n - k,
    {
        let (op, _, _) = req.comparator_shape(k);
        if op == ReqOp::Less || op == ReqOp::LessEq {
            return true;
        }
        k += 1;
    }
    false
}

/// The findings for requirement `d` (declared by `from` on `to`) against
/// version `actual`: unsatisfied alone; otherwise an exact pin and an upper
/// bound, each when present. Nothing when either side is not semantic.
pub open spec fn judge(from: Seq<char>, to: Seq<char>, d: Dependency, actual: Version) -> Seq<ViolationView> {
    match d.constraint.semver {
        None => Seq::empty(),
        Some(req) => match actual.semver {
            None => Seq::empty(),
            Some(ver) => if !spec_req_matches(req.source(), ver.source()) {
                seq![(from, to, d.constraint.raw@, actual.raw@, ViolationType::Unsatisfied)]
            } else {
                (if spec_exact_pin(req.comparator_views()) {
                    seq![(from, to, d.constraint.raw@, actual.raw@, ViolationType::ExactPin)]
                } else {
                    Seq::empty()
                }) + (if spec_upper_bound(req.comparator_views()) {
                    seq![(from, to, d.constraint.raw@, actual.raw@, ViolationType::UpperBound)]
                } else {
                    Seq::empty()
                })
            },
        },
    }
}

fn make_violation(from: &RepoId, to: &RepoId, d: &Dependency, actual: &Version, kind: ViolationType) -> (r:
    ConstraintViolation)
    ensures
        r.view() == (from@, to@, d.constraint.raw@, actual.raw@, kind),
        d.constraint.parsed() ==> r.constraint.parsed(),
        actual.parsed() ==> r.actual_version.parsed(),
{
    ConstraintViolation {
        from_repo: from.duplicate(),
        to_repo: to.duplicate(),
        constraint: d.constraint.duplicate(),
        actual_version: actual.duplicate(),
        violation_type: kind,
    }
}

fn push_violation(out: &mut Vec<ConstraintViolation>, v: ConstraintViolation)
    ensures
        violation_views(final(out)@) == violation_views(old(out)@).push(v.view()),
        final(out)@ == old(out)@.push(v),
        violations_parsed(old(out)@) && v.constraint.parsed() && v.actual_version.parsed() ==> violations_parsed(
            final(out)@,
        ),
{
    let ghost vv = v.view();
    let ghost vg = v;
    out.push(v);
    proof {
        assert(violation_views(out@) =~= violation_views(old(out)@).push(vv));
        if violations_parsed(old(out)@) && vg.constraint.parsed() && vg.actual_version.parsed() {
            assert forall|k: int| 0 <= k < out@.len() implies #[trigger] out@[k].constraint.parsed()
                && out@[k].actual_version.parsed() by {
                if k < old(out)@.len() {
                    assert(out@[k] == old(out)@[k]);
                }
            }
        }
    }
}

/// Appends the findings for requirement `d` against `actual`.
fn judge_into(from: &RepoId, to: &RepoId, d: &Dependency, actual: &Version, out: &mut Vec<ConstraintViolation>)
    ensures
        violation_views(final(out)@) == violation_views(old(out)@) + judge(from@, to@, *d, *actual),
        d.constraint.parsed() && actual.parsed() && violations_parsed(old(out)@) ==> violations_parsed(final(out)@),
{
    let ghost base = violation_views(out@);
    match &d.constraint.semver {
        None => {
            proof {
                assert(base + Seq::<ViolationView>::empty() =~= base);
            }
        },
        Some(req) => match &actual.semver {
            None => {
                proof {
                    assert(base + Seq::<ViolationView>::empty() =~= base);
                }
            },
            Some(ver) => {
                let ghost row = |k: ViolationType| (from@, to@, d.constraint.raw@, actual.raw@, k);
                if !req_matches(req, ver) {
                    push_violation(out, make_violation(from, to, d, actual, ViolationType::Unsatisfied));
                    proof {
                        assert(violation_views(out@) =~= base + judge(from@, to@, *d, *actual));
                    }
                    return;
                }
                let pin = is_exact_pin(req);
                if pin {
                    push_violation(out, make_violation(from, to, d, actual, ViolationType::ExactPin));
                }
                let ghost mid = violation_views(out@);
                let upper = has_upper_bound(req);
                if upper {
                    push_violation(out, make_violation(from, to, d, actual, ViolationType::UpperBound));
                }
                proof {
                    assert(violation_views(out@) =~= base + judge(from@, to@, *d, *actual));
                }
            },
        },
    }
}

/// Each finding's requirement and version hold what `semver` parses from
/// their texts.
pub open spec fn violations_parsed(vs: Seq<ConstraintViolation>) -> bool {
    forall|k: int| 0 <= k < vs.len() ==> #[trigger] vs[k].constraint.parsed() && vs[k].actual_version.parsed()
}

/// Every requirement of a graph holds what `semver` parses from its text.
pub open spec fn graph_parsed(g: Seq<(RepoId, Vec<Dependency>)>) -> bool {
    forall|i: int| 0 <= i < g.len() ==> deps_parsed(#[trigger] g[i].1@)
}

/// Every recorded version holds what `semver` parses from its text.
pub open spec fn versions_parsed(vs: Seq<(RepoId, Version)>) -> bool {
    forall|i: int| 0 <= i < vs.len() ==> #[trigger] vs[i].1.parsed()
}

/// The findings for one dependency declared by `from` against the recorded
/// versions: only for an internal dependency whose providing repository has a
/// recorded version.
pub open spec fn dep_findings(rs: Seq<Repo>, vs: Seq<(RepoId, Version)>, from: Seq<char>, d: Dependency) -> Seq<
    ViolationView,
> {
    if !d.is_internal {
        Seq::empty()
    } else {
        match lookup_package(rs, d.name@) {
            None => Seq::empty(),
            Some(target) => match key_index(vs, target) {
                None => Seq::empty(),
                Some(vi) => judge(from, target, d, vs[vi].1),
            },
        }
    }
}

/// The findings for the dependencies of one entry, in order.
pub open spec fn entry_findings(rs: Seq<Repo>, vs: Seq<(RepoId, Version)>, from: Seq<char>, deps: Seq<Dependency>) -> Seq<
    ViolationView,
>
    decreases deps.len(),
{
    if deps.len() == 0 {
        Seq::empty()
    } else {
        entry_findings(rs, vs, from, deps.drop_last()) + dep_findings(rs, vs, from, deps.last())
    }
}

/// The findings for every entry of the graph, entry by entry.
pub open spec fn all_findings(rs: Seq<Repo>, vs: Seq<(RepoId, Version)>, g: Seq<(RepoId, Vec<Dependency>)>) -> Seq<
    ViolationView,
>
    decreases g.len(),
{
    if g.len() == 0 {
        Seq::empty()
    } else {
        all_findings(rs, vs, g.drop_last()) + entry_findings(rs, vs, g.last().0@, g.last().1@)
    }
}

/// Checks every internal requirement against the recorded version of the
/// repository it resolves to; also reports unresolved dependencies and cycles.
pub fn check_constraints(graph: &DependencyGraph, repos: &Vec<Repo>, versions: &Vec<(RepoId, Version)>) -> (r:
    ConstraintReport)
    requires
        unique_keys(versions@),
    ensures
        violation_views(r.violations@) == all_findings(repos@, versions@, graph.entries()),
        missing_views(r.missing@) == all_missing(repos@, graph.entries()),
        all_cycles(dep_rel(graph.entries(), repos@), r.cycles@),
        r.cycles@.len() > 0 <==> exists|c: Seq<Seq<char>>| is_cycle(dep_rel(graph.entries(), repos@), c),
        graph_parsed(graph.entries()) && versions_parsed(versions@) ==> violations_parsed(r.violations@),
        graph_parsed(graph.entries()) ==> missing_parsed(r.missing@),
{
    let resolved = resolve_internal_edges(graph, repos);
    let cycles = find_cycles(graph, repos);
    let map = package_map(repos);
    let entries = graph.edges();
    let ghost g = graph.entries();
    let ghost rs = repos@;
    let ghost vs = versions@;
    let mut violations: Vec<ConstraintViolation> = Vec::new();
    let mut i: usize = 0;
    while i < entries.len()
        invariant
            g == entries@,
            rs == repos@,
            vs == versions@,
            unique_keys(vs),
            i <= g.len(),
            forall|a: int| 0 <= a < map@.len() ==> lookup_package(rs, #[trigger] map@[a].0@) == Some(map@[a].1@),
            forall|nm: Seq<char>| #[trigger] lookup_package(rs, nm) is Some ==> exists|a: int|
                0 <= a < map@.len() && #[trigger] map@[a].0@ == nm,
            violation_views(violations@) == all_findings(rs, vs, g.take(i as int)),
            graph_parsed(g) && versions_parsed(vs) ==> violations_parsed(violations@),
        decreases g.len() - i,
    {
        let from = &entries[i].0;
        let deps = &entries[i].1;
        let ghost base = violation_views(violations@);
        let mut k: usize = 0;
        while k < deps.len()
            invariant
                g == entries@,
                rs == repos@,
                vs == versions@,
                unique_keys(vs),
                i < g.len(),
                deps == &g[i as int].1,
                from == &g[i as int].0,
                forall|a: int| 0 <= a < map@.len() ==> lookup_package(rs, #[trigger] map@[a].0@) == Some(map@[a].1@),
                forall|nm: Seq<char>| #[trigger] lookup_package(rs, nm) is Some ==> exists|a: int|
                    0 <= a < map@.len() && #[trigger] map@[a].0@ == nm,
                k <= deps@.len(),
                violation_views(violations@) == base + entry_findings(rs, vs, from@, deps@.take(k as int)),
                graph_parsed(g) && versions_parsed(vs) ==> violations_parsed(violations@),
            decreases deps@.len() - k,
        {
            let dep = &deps[k];
            let ghost before = violation_views(violations@);
            proof {
                assert(deps@.take(k + 1).drop_last() =~= deps@.take(k as int));
                assert(deps@.take(k + 1).last() == deps@[k as int]);
            }
            let mut done = false;
            if dep.is_internal {
                let target = map_get(&map, Ghost(rs), dep.name.as_str());
                match target {
                    Some(target) => {
                        match find_key(versions, target.as_str()) {
                            Some(vi) => {
                                proof {
                                    if graph_parsed(g) && versions_parsed(vs) {
                                        assert(deps_parsed(g[i as int].1@));
                                        assert(dep.constraint.parsed());
                                        assert(vs[vi as int].1.parsed());
                                    }
                                }
                                judge_into(from, &target, dep, &versions[vi].1, &mut violations);
                                done = true;
                            },
                            None => {},
                        }
                    },
                    None => {},
                }
            }
            proof {
                if !done {
                    assert(dep_findings(rs, vs, from@, *dep) =~= Seq::<ViolationView>::empty());
                }
                assert(violation_views(violations@) =~= before + dep_findings(rs, vs, from@, *dep));
                assert(base + entry_findings(rs, vs, from@, deps@.take(k + 1)) =~= base + entry_findings(
                    rs,
                    vs,
                    from@,
                    deps@.take(k as int),
                ) + dep_findings(rs, vs, from@, *dep));
            }
            k += 1;
        }
        proof {
            assert(deps@.take(deps@.len() as int) =~= deps@);
            assert(g.take(i + 1).drop_last() =~= g.take(i as int));
            assert(g.take(i + 1).last() == g[i as int]);
        }
        i += 1;
    }
    proof {
        assert(g.take(g.len() as int) =~= g);
    }
    ConstraintReport { violations, missing: resolved.missing, cycles }
}

/// No two repositories share an identifier.
pub open spec fn distinct_ids(rs: Seq<Repo>) -> bool {
    forall|i: int, j: int| 0 <= i < j < rs.len() ==> #[trigger] rs[i].id@ != #[trigger] rs[j].id@
}

/// The package that repository `id` provides, when the workspace resolves
/// that package to it.
pub open spec fn provided_package(rs: Seq<Repo>, id: Seq<char>) -> Option<Seq<char>> {
    if exists|i: int|
        0 <= i < rs.len() && #[trigger] rs[i].id@ == id && lookup_package(rs, package_of(rs[i])) == Some(id) {
        Some(
            package_of(
                rs[choose|i: int|
                    0 <= i < rs.len() && #[trigger] rs[i].id@ == id && lookup_package(rs, package_of(rs[i]))
                        == Some(id)],
            ),
        )
    } else {
        None
    }
}

/// The package a repository resolves to is that repository's own package.
pub proof fn lemma_lookup_provider(rs: Seq<Repo>, n: Seq<char>)
    requires
        lookup_package(rs, n) is Some,
    ensures
        exists|i: int|
            0 <= i < rs.len() && #[trigger] rs[i].id@ == lookup_package(rs, n)->0 && package_of(rs[i]) == n,
    decreases rs.len(),
{
    if package_of(rs.last()) == n {
        assert(rs[rs.len() - 1].id@ == lookup_package(rs, n)->0);
    } else {
        lemma_lookup_provider(rs.drop_last(), n);
        let i = choose|i: int|
            0 <= i < rs.drop_last().len() && #[trigger] rs.drop_last()[i].id@ == lookup_package(rs.drop_last(), n)->0
                && package_of(rs.drop_last()[i]) == n;
        assert(rs[i] == rs.drop_last()[i]);
    }
}

/// The findings for the dependencies of one entry on package `pkg`, provided
/// by `to`, against version `new`.
pub open spec fn entry_bump_findings(from: Seq<char>, deps: Seq<Dependency>, pkg: Seq<char>, to: Seq<char>, new: Version) -> Seq<
    ViolationView,
>
    decreases deps.len(),
{
    if deps.len() == 0 {
        Seq::empty()
    } else {
        let d = deps.last();
        entry_bump_findings(from, deps.drop_last(), pkg, to, new) + (if d.is_internal && d.name@ == pkg {
            judge(from, to, d, new)
        } else {
            Seq::empty()
        })
    }
}

/// The findings for every entry on package `pkg` against version `new`.
pub open spec fn bump_findings(g: Seq<(RepoId, Vec<Dependency>)>, pkg: Seq<char>, to: Seq<char>, new: Version) -> Seq<
    ViolationView,
>
    decreases g.len(),
{
    if g.len() == 0 {
        Seq::empty()
    } else {
        bump_findings(g.drop_last(), pkg, to, new) + entry_bump_findings(g.last().0@, g.last().1@, pkg, to, new)
    }
}

/// Checks every internal requirement on the package that `repo` provides
/// against a proposed new version of it; nothing when `repo` provides no
/// package the workspace resolves to it.
pub fn validate_bump(
    graph: &DependencyGraph,
    repos: &Vec<Repo>,
    versions: &Vec<(RepoId, Version)>,
    repo: &RepoId,
    new_version: &Version,
) -> (r: Vec<ConstraintViolation>)
    requires
        distinct_ids(repos@),
    ensures
        match provided_package(repos@, repo@) {
            None => r@.len() == 0,
            Some(pkg) => violation_views(r@) == bump_findings(graph.entries(), pkg, repo@, *new_version),
        },
{
    let map = package_map(repos);
    let ghost rs = repos@;
    let mut found: Option<usize> = None;
    let mut j: usize = 0;
    while j < map.len()
        invariant_except_break
            found is None,
        invariant
            j <= map@.len(),
            forall|a: int| 0 <= a < j ==> #[trigger] map@[a].1@ != repo@,
        ensures
            found matches Some(a) ==> a < map@.len() && map@[a as int].1@ == repo@,
            found is None ==> forall|a: int| 0 <= a < map@.len() ==> #[trigger] map@[a].1@ != repo@,
        decreases map@.len() - j,
    {
        if str_eq(map[j].1.as_str(), repo.as_str()) {
            found = Some(j);
            break;
        }
        j += 1;
    }
    let pkg_index = match found {
        None => {
            proof {
                if provided_package(rs, repo@) is Some {
                    let i = choose|i: int|
                        0 <= i < rs.len() && #[trigger] rs[i].id@ == repo@ && lookup_package(rs, package_of(rs[i]))
                            == Some(repo@);
                    let n = package_of(rs[i]);
                    let a = choose|a: int| 0 <= a < map@.len() && #[trigger] map@[a].0@ == n;
                    assert(map@[a].1@ == repo@);
                }
            }
            return Vec::new();
        },
        Some(a) => a,
    };
    let pkg = &map[pkg_index].0;
    proof {
        let n = pkg@;
        assert(lookup_package(rs, n) == Some(repo@));
        lemma_lookup_provider(rs, n);
        let i = choose|i: int|
            0 <= i < rs.len() && #[trigger] rs[i].id@ == lookup_package(rs, n)->0 && package_of(rs[i]) == n;
        let c = choose|c: int|
            0 <= c < rs.len() && #[trigger] rs[c].id@ == repo@ && lookup_package(rs, package_of(rs[c])) == Some(repo@);
        if c != i {
            if c < i {
                assert(rs[c].id@ != rs[i].id@);
            } else {
                assert(rs[i].id@ != rs[c].id@);
            }
        }
        assert(provided_package(rs, repo@) == Some(n));
    }
    let entries = graph.edges();
    let ghost g = graph.entries();
    let mut violations: Vec<ConstraintViolation> = Vec::new();
    let mut i: usize = 0;
    while i < entries.len()
        invariant
            g == entries@,
            i <= g.len(),
            violation_views(violations@) == bump_findings(g.take(i as int), pkg@, repo@, *new_version),
        decreases g.len() - i,
    {
        let from = &entries[i].0;
        let deps = &entries[i].1;
        let ghost base = violation_views(violations@);
        let mut k: usize = 0;
        while k < deps.len()
            invariant
                g == entries@,
                i < g.len(),
                deps == &g[i as int].1,
                from == &g[i as int].0,
                k <= deps@.len(),
                violation_views(violations@) == base + entry_bump_findings(
                    from@,
                    deps@.take(k as int),
                    pkg@,
                    repo@,
                    *new_version,
                ),
            decreases deps@.len() - k,
        {
            let dep = &deps[k];
            let ghost before = violation_views(violations@);
            proof {
                assert(deps@.take(k + 1).drop_last() =~= deps@.take(k as int));
                assert(deps@.take(k + 1).last() == deps@[k as int]);
            }
            if dep.is_internal && str_eq(dep.name.as_str(), pkg.as_str()) {
                judge_into(from, repo, dep, new_version, &mut violations);
                proof {
                    assert(base + entry_bump_findings(from@, deps@.take(k + 1), pkg@, repo@, *new_version) =~= base
                        + entry_bump_findings(from@, deps@.take(k as int), pkg@, repo@, *new_version) + judge(
                        from@,
                        repo@,
                        *dep,
                        *new_version,
                    ));
                }
            } else {
                proof {
                    assert(base + entry_bump_findings(from@, deps@.take(k + 1), pkg@, repo@, *new_version) =~= base
                        + entry_bump_findings(from@, deps@.take(k as int), pkg@, repo@, *new_version));
                }
            }
            k += 1;
        }
        proof {
            assert(deps@.take(deps@.len() as int) =~= deps@);
            assert(g.take(i + 1).drop_last() =~= g.take(i as int));
            assert(g.take(i + 1).last() == g[i as int]);
        }
        i += 1;
    }
    proof {
        assert(g.take(g.len() as int) =~= g);
    }
    violations
}

/// What one dependency's findings hold, the findings of its entry hold.
proof fn lemma_entry_findings_has(rs: Seq<Repo>, vs: Seq<(RepoId, Version)>, from: Seq<char>, deps: Seq<Dependency>, k: int, x: ViolationView)
    requires
        0 <= k < deps.len(),
        dep_findings(rs, vs, from, deps[k]).contains(x),
    ensures
        entry_findings(rs, vs, from, deps).contains(x),
    decreases deps.len(),
{
    let front = entry_findings(rs, vs, from, deps.drop_last());
    let last = dep_findings(rs, vs, from, deps.last());
    if k == deps.len() - 1 {
        let j = choose|j: int| 0 <= j < last.len() && last[j] == x;
        assert((front + last)[front.len() + j] == x);
    } else {
        assert(deps.drop_last()[k] == deps[k]);
        lemma_entry_findings_has(rs, vs, from, deps.drop_last(), k, x);
        let j = choose|j: int| 0 <= j < front.len() && front[j] == x;
        assert((front + last)[j] == x);
    }
}

/// What one entry's findings hold, the findings of the graph hold.
proof fn lemma_all_findings_has(rs: Seq<Repo>, vs: Seq<(RepoId, Version)>, g: Seq<(RepoId, Vec<Dependency>)>, i: int, x: ViolationView)
    requires
        0 <= i < g.len(),
        entry_findings(rs, vs, g[i].0@, g[i].1@).contains(x),
    ensures
        all_findings(rs, vs, g).contains(x),
    decreases g.len(),
{
    let front = all_findings(rs, vs, g.drop_last());
    let last = entry_findings(rs, vs, g.last().0@, g.last().1@);
    if i == g.len() - 1 {
        let j = choose|j: int| 0 <= j < last.len() && last[j] == x;
        assert((front + last)[front.len() + j] == x);
    } else {
        assert(g.drop_last()[i] == g[i]);
        lemma_all_findings_has(rs, vs, g.drop_last(), i, x);
        let j = choose|j: int| 0 <= j < front.len() && front[j] == x;
        assert((front + last)[j] == x);
    }
}

/// An internal requirement that `semver` parsed, resolving to a repository
/// whose recorded version `semver` parsed and does not satisfy, is reported
/// as unsatisfied, whatever comparators it has.
pub proof fn lemma_unsatisfied_reported(
    rs: Seq<Repo>,
    vs: Seq<(RepoId, Version)>,
    g: Seq<(RepoId, Vec<Dependency>)>,
    i: int,
    k: int,
    vi: int,
)
    requires
        unique_keys(vs),
        0 <= i < g.len(),
        0 <= k < g[i].1@.len(),
        0 <= vi < vs.len(),
        g[i].1@[k].is_internal,
        lookup_package(rs, g[i].1@[k].name@) == Some(vs[vi].0@),
        g[i].1@[k].constraint.semver is Some,
        vs[vi].1.semver is Some,
        !spec_req_matches(g[i].1@[k].constraint.semver->0.source(), vs[vi].1.semver->0.source()),
    ensures
        all_findings(rs, vs, g).contains(
            (g[i].0@, vs[vi].0@, g[i].1@[k].constraint.raw@, vs[vi].1.raw@, ViolationType::Unsatisfied),
        ),
{
    let d = g[i].1@[k];
    let target = vs[vi].0@;
    let x = (g[i].0@, target, d.constraint.raw@, vs[vi].1.raw@, ViolationType::Unsatisfied);
    assert(key_index(vs, target) == Some(vi)) by {
        let c = choose|c: int| 0 <= c < vs.len() && #[trigger] vs[c].0@ == target;
        if c != vi {
            if c < vi {
                assert(vs[c].0@ != vs[vi].0@);
            } else {
                assert(vs[vi].0@ != vs[c].0@);
            }
        }
    }
    assert(dep_findings(rs, vs, g[i].0@, d) == seq![x]);
    assert(seq![x][0] == x);
    lemma_entry_findings_has(rs, vs, g[i].0@, g[i].1@, k, x);
    lemma_all_findings_has(rs, vs, g, i, x);
}

/// A requirement is reported as unsatisfied exactly when both it and the
/// version were parsed by `semver` and the version does not satisfy it.
pub proof fn lemma_judge_unsatisfied_iff(from: Seq<char>, to: Seq<char>, d: Dependency, actual: Version)
    ensures
        judge(from, to, d, actual).contains((from, to, d.constraint.raw@, actual.raw@, ViolationType::Unsatisfied))
            <==> (d.constraint.semver is Some && actual.semver is Some && !spec_req_matches(
            d.constraint.semver->0.source(),
            actual.semver->0.source(),
        )),
{
    let x = (from, to, d.constraint.raw@, actual.raw@, ViolationType::Unsatisfied);
    let f = judge(from, to, d, actual);
    if d.constraint.semver is Some && actual.semver is Some {
        if !spec_req_matches(d.constraint.semver->0.source(), actual.semver->0.source()) {
            assert(f[0] == x);
        } else {
            if f.contains(x) {
                let j = choose|j: int| 0 <= j < f.len() && f[j] == x;
                assert(f[j].4 != ViolationType::Unsatisfied);
            }
        }
    } else {
        assert(f.len() == 0);
    }
}

} // verus!
