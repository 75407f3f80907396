//! Node packages: version and dependencies in `package.json`.
use vstd::prelude::*;
use crate::ecosystem::manifest::{entries_result, entry_deps, file_is, find_entry, has_entry, is_other, json_reformat,
    json_set_entry, json_set_top, json_str_at, json_str_entries, push_entry_deps, spec_json_reformat, json_set_entry_of,
    json_set_top_of, spec_json_str_at, spec_json_str_entries};
use crate::ecosystem::rust::{text_from_write, version_from_read, version_read};
use crate::error::HarmoniaError;
use crate::project::repo::{Dependency, DependencyView, dep_views, deps_parsed};
use crate::project::version::Version;
use crate::text::{file_name_spec, string_of};

verus! {

/// The Node ecosystem.
#[derive(Debug, Clone, Copy)]
pub struct NodePlugin;

/// The dependency objects of a package, in the order they are read.
pub open spec fn node_sections() -> Seq<Seq<char>> {
    seq!["dependencies"@, "devDependencies"@, "peerDependencies"@, "optionalDependencies"@]
}

/// The dependencies with a string constraint in the given objects, or the
/// first read error.
pub open spec fn node_deps(content: Seq<char>, sections: Seq<Seq<char>>) -> Result<Seq<DependencyView>, Seq<char>>
    decreases sections.len(),
{
    if sections.len() == 0 {
        Ok(Seq::empty())
    } else {
        match spec_json_str_entries(content, sections[0]) {
            Err(e) => Err(e),
            Ok(t) => match node_deps(content, sections.drop_first()) {
                Err(e) => Err(e),
                Ok(rest) => Ok((match t {
                    Some(es) => entry_deps(es, false),
                    None => Seq::empty(),
                }) + rest),
            },
        }
    }
}

/// The result of setting `dep` in the first of `sections` that lists it.
pub open spec fn node_update(content: Seq<char>, sections: Seq<Seq<char>>, dep: Seq<char>, c: Seq<char>) -> Result<
    Seq<char>,
    Seq<char>,
>
    decreases sections.len(),
{
    if sections.len() == 0 {
        spec_json_reformat(content)
    } else {
        match spec_json_str_entries(content, sections[0]) {
            Err(e) => Err(e),
            Ok(Some(es)) => if has_entry(es, dep) {
                json_set_entry_of(content, sections[0], dep, c)
            } else {
                node_update(content, sections.drop_first(), dep, c)
            },
            Ok(None) => node_update(content, sections.drop_first(), dep, c),
        }
    }
}

fn sections_vec() -> (r: Vec<&'static str>)
    ensures
        r@.map_values(|s: &str| s@) == node_sections(),
{
    let mut v: Vec<&'static str> = Vec::new();
    v.push("dependencies");
    v.push("devDependencies");
    v.push("peerDependencies");
    v.push("optionalDependencies");
    proof {
        assert(v@.map_values(|s: &str| s@) =~= node_sections());
    }
    v
}

impl NodePlugin {
    pub fn id(&self) -> (r: &'static str)
        ensures
            r@ == "node"@,
    {
        "node"
    }

    /// The files that describe a package.
    pub fn file_patterns(&self) -> (r: Vec<&'static str>)
        ensures
            r@.len() == 1 && r@[0]@ == "package.json"@,
    {
        let mut v: Vec<&'static str> = Vec::new();
        v.push("package.json");
        v
    }

    pub fn default_test_command(&self) -> (r: Option<&'static str>)
        ensures
            r matches Some(c) && c@ == "npm test"@,
    {
        Some("npm test")
    }

    pub fn default_lint_command(&self) -> (r: Option<&'static str>)
        ensures
            r matches Some(c) && c@ == "npm run lint"@,
    {
        Some("npm run lint")
    }

    /// The package's `version` (none for any other file).
    pub fn parse_version(&self, path: &str, content: &str) -> (r: Result<Option<Version>, HarmoniaError>)
        ensures
            if file_name_spec(path@) == Some("package.json"@) {
                version_read(r, spec_json_str_at(content@, "version"@))
            } else {
                r matches Ok(None)
            },
    {
        if !file_is(path, "package.json") {
            return Ok(None);
        }
        version_from_read(json_str_at(content, "version"))
    }

    /// The string-valued entries of the four dependency objects, in order.
    pub fn parse_dependencies(&self, path: &str, content: &str) -> (r: Result<Vec<Dependency>, HarmoniaError>)
        ensures
            r matches Ok(v) ==> deps_parsed(v@),
            if file_name_spec(path@) == Some("package.json"@) {
                match node_deps(content@, node_sections()) {
                    Ok(ds) => r matches Ok(v) && dep_views(v@) == ds,
                    Err(e) => r matches Err(err) && is_other(err, e),
                }
            } else {
                r matches Ok(v) && v@.len() == 0
            },
    {
        if !file_is(path, "package.json") {
            return Ok(Vec::new());
        }
        let sections = sections_vec();
        let ghost secs = node_sections();
        let mut deps: Vec<Dependency> = Vec::new();
        let mut i: usize = 0;
        proof {
            assert(secs.skip(0) =~= secs);
            assert(dep_views(deps@) =~= Seq::<DependencyView>::empty());
        }
        while i < sections.len()
            invariant
                file_name_spec(path@) == Some("package.json"@),
                i <= sections@.len(),
                sections@.map_values(|s: &str| s@) == secs,
                secs == node_sections(),
                deps_parsed(deps@),
                match node_deps(content@, secs.skip(i as int)) {
                    Ok(rest) => match node_deps(content@, secs) {
                        Ok(all) => dep_views(deps@) + rest == all,
                        Err(_) => false,
                    },
                    Err(e) => node_deps(content@, secs) == Err::<Seq<DependencyView>, Seq<char>>(e),
                },
            decreases sections@.len() - i,
        {
            let section = sections[i];
            proof {
                assert(sections@.map_values(|s: &str| s@)[i as int] == section@);
                assert(secs.skip(i as int)[0] == section@);
                assert(secs.skip(i as int).drop_first() =~= secs.skip(i + 1));
            }
            let ghost before = dep_views(deps@);
            match json_str_entries(content, section) {
                Err(e) => return Err(HarmoniaError::Other(e)),
                Ok(Some(es)) => {
                    push_entry_deps(&es, false, &mut deps);
                },
                Ok(None) => {
                    proof {
                        assert(dep_views(deps@) =~= before + Seq::<DependencyView>::empty());
                    }
                },
            }
            proof {
                match node_deps(content@, secs.skip(i + 1)) {
                    Ok(rest) => {
                        assert(before + (dep_views(deps@).skip(before.len() as int) + rest) =~= dep_views(deps@) + rest);
                    },
                    Err(_) => {},
                }
            }
            i += 1;
        }
        proof {
            assert(secs.skip(4) =~= Seq::<Seq<char>>::empty());
            assert(dep_views(deps@) + Seq::<DependencyView>::empty() =~= dep_views(deps@));
        }
        Ok(deps)
    }

    /// The package with `version` set (any other file unchanged).
    pub fn update_version(&self, path: &str, content: &str, new_version: &Version) -> (r: Result<String, HarmoniaError>)
        ensures
            if file_name_spec(path@) == Some("package.json"@) {
                match json_set_top_of(content@, "version"@, new_version.raw@) {
                    Ok(s) => r matches Ok(t) && t@ == s,
                    Err(e) => r matches Err(err) && is_other(err, e),
                }
            } else {
                r matches Ok(t) && t@ == content@
            },
    {
        if !file_is(path, "package.json") {
            return Ok(string_of(content));
        }
        text_from_write(json_set_top(content, "version", new_version.raw.as_str()))
    }

    /// The package with dependency `dep` set to `constraint` in the first
    /// object that lists it; rewritten unchanged when none does.
    pub fn update_dependency(&self, path: &str, content: &str, dep: &str, constraint: &str) -> (r: Result<
        String,
        HarmoniaError,
    >)
        ensures
            if file_name_spec(path@) == Some("package.json"@) {
                match node_update(content@, node_sections(), dep@, constraint@) {
                    Ok(s) => r matches Ok(t) && t@ == s,
                    Err(e) => r matches Err(err) && is_other(err, e),
                }
            } else {
                r matches Ok(t) && t@ == content@
            },
    {
        if !file_is(path, "package.json") {
            return Ok(string_of(content));
        }
        let sections = sections_vec();
        let ghost secs = node_sections();
        let mut i: usize = 0;
        proof {
            assert(secs.skip(0) =~= secs);
        }
        while i < sections.len()
            invariant
                file_name_spec(path@) == Some("package.json"@),
                i <= sections@.len(),
                sections@.map_values(|s: &str| s@) == secs,
                secs == node_sections(),
                node_update(content@, secs.skip(i as int), dep@, constraint@) == node_update(
                    content@,
                    secs,
                    dep@,
                    constraint@,
                ),
            decreases sections@.len() - i,
        {
            let section = sections[i];
            proof {
                assert(sections@.map_values(|s: &str| s@)[i as int] == section@);
                assert(secs.skip(i as int)[0] == section@);
                assert(secs.skip(i as int).drop_first() =~= secs.skip(i + 1));
            }
            match json_str_entries(content, section) {
                Err(e) => return Err(HarmoniaError::Other(e)),
                Ok(Some(es)) => {
                    if find_entry(&es, dep) {
                        return text_from_write(json_set_entry(content, section, dep, constraint));
                    }
                },
                Ok(None) => {},
            }
            i += 1;
        }
        proof {
            assert(secs.skip(4) =~= Seq::<Seq<char>>::empty());
        }
        text_from_write(json_reformat(content))
    }
}

/// Every entry with a string constraint is among the dependencies made of a
/// list of entries.
proof fn lemma_entry_deps_has(es: Seq<(Seq<char>, Option<Seq<char>>)>, all: bool, k: int)
    requires
        0 <= k < es.len(),
        es[k].1 is Some,
    ensures
        entry_deps(es, all).contains((es[k].0, es[k].1->Some_0, false)),
    decreases es.len(),
{
    let rest = entry_deps(es.drop_last(), all);
    if k == es.len() - 1 {
        let x = (es[k].0, es[k].1->Some_0, false);
        assert(entry_deps(es, all) == rest.push(x));
        assert(rest.push(x)[rest.len() as int] == x);
    } else {
        assert(es.drop_last()[k] == es[k]);
        lemma_entry_deps_has(es.drop_last(), all, k);
        let x = (es[k].0, es[k].1->Some_0, false);
        let j = choose|j: int| 0 <= j < rest.len() && rest[j] == x;
        let e = es.last();
        match e.1 {
            Some(c) => {
                assert(entry_deps(es, all) == rest.push((e.0, c, false)));
                assert(rest.push((e.0, c, false))[j] == x);
            },
            None => {
                if all {
                    assert(entry_deps(es, all) == rest.push((e.0, Seq::<char>::empty(), false)));
                    assert(rest.push((e.0, Seq::<char>::empty(), false))[j] == x);
                } else {
                    assert(entry_deps(es, all) == rest);
                }
            },
        }
    }
}

/// Every string-valued entry of every one of the given objects of a
/// package manifest is among the dependencies read from it, not only those
/// of the first object that is present.
pub proof fn lemma_node_deps_has_entries(
    content: Seq<char>,
    sections: Seq<Seq<char>>,
    m: int,
    es: Seq<(Seq<char>, Option<Seq<char>>)>,
    k: int,
)
    requires
        0 <= m < sections.len(),
        spec_json_str_entries(content, sections[m]) == Ok::<Option<Seq<(Seq<char>, Option<Seq<char>>)>>, Seq<char>>(
            Some(es),
        ),
        0 <= k < es.len(),
        es[k].1 is Some,
        node_deps(content, sections) is Ok,
    ensures
        node_deps(content, sections)->Ok_0.contains((es[k].0, es[k].1->Some_0, false)),
    decreases m,
{
    let x = (es[k].0, es[k].1->Some_0, false);
    let all = node_deps(content, sections)->Ok_0;
    let rest = node_deps(content, sections.drop_first());
    let head = match spec_json_str_entries(content, sections[0]) {
        Ok(Some(e0)) => entry_deps(e0, false),
        _ => Seq::empty(),
    };
    assert(rest is Ok);
    assert(all == head + rest->Ok_0);
    if m == 0 {
        lemma_entry_deps_has(es, false, k);
        let j = choose|j: int| 0 <= j < head.len() && head[j] == x;
        assert(all[j] == x);
    } else {
        assert(sections.drop_first()[m - 1] == sections[m]);
        lemma_node_deps_has_entries(content, sections.drop_first(), m - 1, es, k);
        let r = rest->Ok_0;
        let j = choose|j: int| 0 <= j < r.len() && r[j] == x;
        assert(all[head.len() + j] == x);
    }
}

/// Each dependency made of a list of entries (those with a constraint only)
/// is one of the entries with its constraint.
proof fn lemma_entry_deps_from(es: Seq<(Seq<char>, Option<Seq<char>>)>, j: int) -> (k: int)
    requires
        0 <= j < entry_deps(es, false).len(),
    ensures
        0 <= k < es.len(),
        es[k].1 == Some(entry_deps(es, false)[j].1),
        es[k].0 == entry_deps(es, false)[j].0,
        !entry_deps(es, false)[j].2,
    decreases es.len(),
{
    let rest = entry_deps(es.drop_last(), false);
    let e = es.last();
    if j < rest.len() {
        let k = lemma_entry_deps_from(es.drop_last(), j);
        assert(es.drop_last()[k] == es[k]);
        match e.1 {
            Some(c) => {
                assert(entry_deps(es, false)[j] == rest.push((e.0, c, false))[j]);
            },
            None => {},
        }
        k
    } else {
        es.len() - 1
    }
}

/// Each dependency read from a package manifest is a string-valued entry
/// of one of the given objects, and none is marked internal.
pub proof fn lemma_node_deps_from_entries(content: Seq<char>, sections: Seq<Seq<char>>, j: int) -> (w: (
    int,
    Seq<(Seq<char>, Option<Seq<char>>)>,
    int,
))
    requires
        node_deps(content, sections) is Ok,
        0 <= j < node_deps(content, sections)->Ok_0.len(),
    ensures
        ({
            let d = node_deps(content, sections)->Ok_0[j];
            &&& 0 <= w.0 < sections.len()
            &&& spec_json_str_entries(content, sections[w.0]) == Ok::<
                Option<Seq<(Seq<char>, Option<Seq<char>>)>>,
                Seq<char>,
            >(Some(w.1))
            &&& 0 <= w.2 < w.1.len()
            &&& w.1[w.2].0 == d.0
            &&& w.1[w.2].1 == Some(d.1)
            &&& !d.2
        }),
    decreases sections.len(),
{
    let all = node_deps(content, sections)->Ok_0;
    let rest = node_deps(content, sections.drop_first());
    let t = spec_json_str_entries(content, sections[0]);
    let head = match t {
        Ok(Some(e0)) => entry_deps(e0, false),
        _ => Seq::empty(),
    };
    assert(rest is Ok);
    assert(all == head + rest->Ok_0);
    if j < head.len() {
        let e0 = t->Ok_0->Some_0;
        let k = lemma_entry_deps_from(e0, j);
        assert(all[j] == head[j]);
        (0, e0, k)
    } else {
        let w = lemma_node_deps_from_entries(content, sections.drop_first(), j - head.len());
        assert(all[j] == rest->Ok_0[j - head.len()]);
        assert(sections.drop_first()[w.0] == sections[w.0 + 1]);
        (w.0 + 1, w.1, w.2)
    }
}

} // verus!
