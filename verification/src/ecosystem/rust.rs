//! Rust crates: version and dependencies in `Cargo.toml`.
use vstd::prelude::*;
use crate::ecosystem::manifest::{entries_result, entry_deps, file_is, find_entry, has_entry, is_other, opt_text_result, push_entry_deps, toml_dep_table_of, spec_toml_reformat, toml_set_dep_of, toml_set_str_of, spec_toml_str_at, text_result, toml_dep_table, toml_reformat, toml_set_dep, toml_set_str, toml_str_at};
use crate::error::HarmoniaError;
use crate::project::repo::{Dependency, DependencyView, dep_views, deps_parsed};
use crate::project::version::{Version, VersionKind};
use crate::text::{file_name_spec, string_of};

verus! {

/// The Rust ecosystem.
#[derive(Debug, Clone, Copy)]
pub struct RustPlugin;

/// The dependency tables of a crate, in the order they are read.
pub open spec fn rust_sections() -> Seq<Seq<char>> {
    seq!["dependencies"@, "dev-dependencies"@, "build-dependencies"@]
}

/// The dependencies of a `Cargo.toml` from the results of reading its three
/// tables: the first error, else each table's entries in turn.
pub open spec fn rust_deps(
    a: Result<Option<Seq<(Seq<char>, Option<Seq<char>>)>>, Seq<char>>,
    b: Result<Option<Seq<(Seq<char>, Option<Seq<char>>)>>, Seq<char>>,
    c: Result<Option<Seq<(Seq<char>, Option<Seq<char>>)>>, Seq<char>>,
) -> Result<Seq<DependencyView>, Seq<char>> {
    match (a, b, c) {
        (Err(e), _, _) => Err(e),
        (_, Err(e), _) => Err(e),
        (_, _, Err(e)) => Err(e),
        (Ok(x), Ok(y), Ok(z)) => Ok(table_deps(x) + table_deps(y) + table_deps(z)),
    }
}

/// The dependencies listed in one table, if it exists.
pub open spec fn table_deps(t: Option<Seq<(Seq<char>, Option<Seq<char>>)>>) -> Seq<DependencyView> {
    match t {
        Some(es) => entry_deps(es, true),
        None => Seq::empty(),
    }
}

/// A version read from a manifest as a semantic version.
pub open spec fn version_read(r: Result<Option<Version>, HarmoniaError>, read: Result<Option<Seq<char>>, Seq<char>>) -> bool {
    match read {
        Err(e) => r matches Err(err) && is_other(err, e),
        Ok(None) => r matches Ok(None),
        Ok(Some(v)) => r matches Ok(Some(ver)) && ver.raw@ == v && ver.kind == VersionKind::Semver,
    }
}

/// Turns a manifest read into a version.
pub fn version_from_read(read: Result<Option<String>, String>) -> (r: Result<Option<Version>, HarmoniaError>)
    ensures
        version_read(r, opt_text_result(read)),
{
    match read {
        Err(e) => Err(HarmoniaError::Other(e)),
        Ok(None) => Ok(None),
        Ok(Some(v)) => Ok(Some(Version::new(v.as_str(), VersionKind::Semver))),
    }
}

/// A written manifest as the library's result.
pub fn text_from_write(w: Result<String, String>) -> (r: Result<String, HarmoniaError>)
    ensures
        match text_result(w) {
            Ok(s) => r matches Ok(t) && t@ == s,
            Err(e) => r matches Err(err) && is_other(err, e),
        },
{
    match w {
        Ok(s) => Ok(s),
        Err(e) => Err(HarmoniaError::Other(e)),
    }
}

impl RustPlugin {
    pub fn id(&self) -> (r: &'static str)
        ensures
            r@ == "rust"@,
    {
        "rust"
    }

    /// The files that describe a crate.
    pub fn file_patterns(&self) -> (r: Vec<&'static str>)
        ensures
            r@.len() == 1 && r@[0]@ == "Cargo.toml"@,
    {
        let mut v: Vec<&'static str> = Vec::new();
        v.push("Cargo.toml");
        v
    }

    pub fn default_test_command(&self) -> (r: Option<&'static str>)
        ensures
            r matches Some(c) && c@ == "cargo test"@,
    {
        Some("cargo test")
    }

    pub fn default_lint_command(&self) -> (r: Option<&'static str>)
        ensures
            r matches Some(c) && c@ == "cargo clippy"@,
    {
        Some("cargo clippy")
    }

    /// The crate's `package.version` (none for any other file).
    pub fn parse_version(&self, path: &str, content: &str) -> (r: Result<Option<Version>, HarmoniaError>)
        ensures
            if file_name_spec(path@) == Some("Cargo.toml"@) {
                version_read(r, spec_toml_str_at(content@, "package"@, "version"@))
            } else {
                r matches Ok(None)
            },
    {
        if !file_is(path, "Cargo.toml") {
            return Ok(None);
        }
        version_from_read(toml_str_at(content, "package", "version"))
    }

    /// The entries of the three dependency tables, in order; a table entry's
    /// constraint is its `version` (empty when it has none).
    pub fn parse_dependencies(&self, path: &str, content: &str) -> (r: Result<Vec<Dependency>, HarmoniaError>)
        ensures
            r matches Ok(v) ==> deps_parsed(v@),
            if file_name_spec(path@) == Some("Cargo.toml"@) {
                match rust_deps(
                    toml_dep_table_of(content@, "dependencies"@),
                    toml_dep_table_of(content@, "dev-dependencies"@),
                    toml_dep_table_of(content@, "build-dependencies"@),
                ) {
                    Ok(ds) => r matches Ok(v) && dep_views(v@) == ds,
                    Err(e) => r matches Err(err) && is_other(err, e),
                }
            } else {
                r matches Ok(v) && v@.len() == 0
            },
    {
        if !file_is(path, "Cargo.toml") {
            return Ok(Vec::new());
        }
        let a = toml_dep_table(content, "dependencies");
        let b = toml_dep_table(content, "dev-dependencies");
        let c = toml_dep_table(content, "build-dependencies");
        let mut deps: Vec<Dependency> = Vec::new();
        let ghost av = entries_result(a);
        let ghost bv = entries_result(b);
        let ghost cv = entries_result(c);
        match a {
            Err(e) => return Err(HarmoniaError::Other(e)),
            Ok(Some(es)) => push_entry_deps(&es, true, &mut deps),
            Ok(None) => {},
        }
        match b {
            Err(e) => return Err(HarmoniaError::Other(e)),
            Ok(Some(es)) => push_entry_deps(&es, true, &mut deps),
            Ok(None) => {},
        }
        match c {
            Err(e) => return Err(HarmoniaError::Other(e)),
            Ok(Some(es)) => push_entry_deps(&es, true, &mut deps),
            Ok(None) => {},
        }
        proof {
            let x = av->Ok_0;
            let y = bv->Ok_0;
            let z = cv->Ok_0;
            assert(dep_views(deps@) =~= Seq::<DependencyView>::empty() + table_deps(x) + table_deps(y) + table_deps(z));
        }
        Ok(deps)
    }

    /// The manifest with `package.version` set (any other file unchanged).
    pub fn update_version(&self, path: &str, content: &str, new_version: &Version) -> (r: Result<String, HarmoniaError>)
        ensures
            if file_name_spec(path@) == Some("Cargo.toml"@) {
                match toml_set_str_of(content@, "package"@, "version"@, new_version.raw@) {
                    Ok(s) => r matches Ok(t) && t@ == s,
                    Err(e) => r matches Err(err) && is_other(err, e),
                }
            } else {
                r matches Ok(t) && t@ == content@
            },
    {
        if !file_is(path, "Cargo.toml") {
            return Ok(string_of(content));
        }
        text_from_write(toml_set_str(content, "package", "version", new_version.raw.as_str()))
    }

    /// The manifest with dependency `dep` set to `constraint` in the first
    /// table that lists it; rewritten unchanged when none does.
    pub fn update_dependency(&self, path: &str, content: &str, dep: &str, constraint: &str) -> (r: Result<
        String,
        HarmoniaError,
    >)
        ensures
            if file_name_spec(path@) == Some("Cargo.toml"@) {
                match rust_update(content@, rust_sections(), dep@, constraint@) {
                    Ok(s) => r matches Ok(t) && t@ == s,
                    Err(e) => r matches Err(err) && is_other(err, e),
                }
            } else {
                r matches Ok(t) && t@ == content@
            },
    {
        if !file_is(path, "Cargo.toml") {
            return Ok(string_of(content));
        }
        let mut sections: Vec<&str> = Vec::new();
        sections.push("dependencies");
        sections.push("dev-dependencies");
        sections.push("build-dependencies");
        let ghost secs = rust_sections();
        proof {
            assert(sections@.map_values(|s: &str| s@) =~= secs);
        }
        let mut i: usize = 0;
        proof {
            assert(secs.skip(0) =~= secs);
        }
        while i < sections.len()
            invariant
                file_name_spec(path@) == Some("Cargo.toml"@),
                i <= sections@.len(),
                sections@.map_values(|s: &str| s@) == secs,
                secs == rust_sections(),
                rust_update(content@, secs.skip(i as int), dep@, constraint@) == rust_update(
                    content@,
                    secs,
                    dep@,
                    constraint@,
                ),
            decreases sections@.len() - i,
        {
            let section = sections[i];
            proof {
                assert(sections@.map_values(|s: &str| s@)[i as int] == section@);
                assert(secs.skip(i as int)[0] == section@);
                assert(secs.skip(i as int).drop_first() =~= secs.skip(i + 1));
            }
            match toml_dep_table(content, section) {
                Err(e) => return Err(HarmoniaError::Other(e)),
                Ok(Some(es)) => {
                    if find_entry(&es, dep) {
                        return text_from_write(toml_set_dep(content, section, dep, constraint));
                    }
                },
                Ok(None) => {},
            }
            i += 1;
        }
        proof {
            assert(secs.skip(3) =~= Seq::<Seq<char>>::empty());
        }
        text_from_write(toml_reformat(content))
    }
}

/// The result of setting `dep` in the first of `sections` that lists it.
pub open spec fn rust_update(content: Seq<char>, sections: Seq<Seq<char>>, dep: Seq<char>, c: Seq<char>) -> Result<
    Seq<char>,
    Seq<char>,
>
    decreases sections.len(),
{
    if sections.len() == 0 {
        spec_toml_reformat(content)
    } else {
        match toml_dep_table_of(content, sections[0]) {
            Err(e) => Err(e),
            Ok(Some(es)) => if has_entry(es, dep) {
                toml_set_dep_of(content, sections[0], dep, c)
            } else {
                rust_update(content, sections.drop_first(), dep, c)
            },
            Ok(None) => rust_update(content, sections.drop_first(), dep, c),
        }
    }
}

} // verus!
