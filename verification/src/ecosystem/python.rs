//! Python projects: PEP 508 requirements in `pyproject.toml`.
use vstd::prelude::*;
use crate::ecosystem::manifest::{is_other, list_result, opt_views, spec_toml_reformat, spec_toml_set_list_item, toml_set_str_of,
    spec_toml_str_at, spec_toml_str_list_at, file_is, toml_reformat, toml_set_list_item, toml_set_str, toml_str_at, toml_str_list_at};
use crate::ecosystem::rust::{text_from_write, version_from_read, version_read};
use crate::error::HarmoniaError;
use crate::project::repo::{Dependency, DependencyView, dep_views, deps_parsed};
use crate::project::version::{Version, VersionReq};
use crate::text::{file_name_spec, concat2, from_chars, index_of_char, push_char, push_str, split_once_char, split_once_spec, strip_end_char,
    strip_end_str, string_of, to_chars, trim_spec, trim_str, opt_str_view, opt_string_view};

verus! {

/// The Python ecosystem.
#[derive(Debug, Clone, Copy)]
pub struct PythonPlugin;

/// A character that ends the name part of a requirement.
pub open spec fn ends_name(c: char) -> bool {
    c == '<' || c == '>' || c == '=' || c == '!' || c == '~' || c == '@' || c == ' '
}

/// The position where the name part of a requirement ends.
pub open spec fn name_end(s: Seq<char>) -> int
    decreases s.len(),
{
    if s.len() == 0 {
        0
    } else if ends_name(s[0]) {
        0
    } else {
        1 + name_end(s.drop_first())
    }
}

proof fn lemma_name_end_at(s: Seq<char>, i: int)
    requires
        0 <= i <= s.len(),
        forall|k: int| 0 <= k < i ==> !ends_name(#[trigger] s[k]),
        i == s.len() || ends_name(s[i]),
    ensures
        name_end(s) == i,
    decreases i,
{
    if i > 0 {
        let t = s.drop_first();
        assert forall|k: int| 0 <= k < i - 1 implies !ends_name(#[trigger] t[k]) by {
            assert(t[k] == s[k + 1]);
        }
        if i < s.len() {
            assert(t[i - 1] == s[i]);
        }
        lemma_name_end_at(t, i - 1);
    }
}

/// A text, unless it is empty.
pub open spec fn non_empty(s: Seq<char>) -> Option<Seq<char>> {
    if s.len() == 0 {
        None
    } else {
        Some(s)
    }
}

/// A PEP 508 requirement split into name, version constraint, extras (with
/// their brackets) and environment marker.
pub open spec fn spec_pep508(req: Seq<char>) -> (Seq<char>, Option<Seq<char>>, Option<Seq<char>>, Option<Seq<char>>) {
    let (req_part, marker) = match split_once_spec(req, ';') {
        Some(p) => p,
        None => (req, Seq::empty()),
    };
    let rp = trim_spec(req_part);
    let cut = name_end(rp);
    let name_part = trim_spec(rp.take(cut));
    let rest = rp.skip(cut);
    let (name, extras) = match split_once_spec(name_part, '[') {
        Some((base, r)) => (base, Some("["@ + strip_end_char(r, ']') + "]"@)),
        None => (name_part, None),
    };
    (name, non_empty(trim_spec(rest)), extras, non_empty(trim_spec(marker)))
}

fn non_empty_string(s: String) -> (r: Option<String>)
    ensures
        opt_string_view(r) == non_empty(s@),
{
    if s.unicode_len() == 0 {
        None
    } else {
        Some(s)
    }
}

/// A requirement as `(constraint, extras, marker)` views.
pub open spec fn pep508_view(r: (String, Option<String>, Option<String>, Option<String>)) -> (Seq<char>, Option<
    Seq<char>,
>, Option<Seq<char>>, Option<Seq<char>>) {
    (r.0@, opt_string_view(r.1), opt_string_view(r.2), opt_string_view(r.3))
}

/// A requirement written from its parts: name, extras, a space and the
/// constraint when there is one, `; ` and the marker when there is one.
pub open spec fn spec_rewrite_req(name: Seq<char>, constraint: Seq<char>, extras: Option<Seq<char>>, marker: Option<
    Seq<char>,
>) -> Seq<char> {
    name + (match extras {
        Some(e) => e,
        None => Seq::empty(),
    }) + (if constraint.len() > 0 {
        " "@ + trim_spec(constraint)
    } else {
        Seq::empty()
    }) + (match marker {
        Some(m) => "; "@ + trim_spec(m),
        None => Seq::empty(),
    })
}

impl PythonPlugin {
    pub fn id(&self) -> (r: &'static str)
        ensures
            r@ == "python"@,
    {
        "python"
    }

    /// The files that describe a Python project.
    pub fn file_patterns(&self) -> (r: Vec<&'static str>)
        ensures
            r@.len() == 1 && r@[0]@ == "pyproject.toml"@,
    {
        let mut v: Vec<&'static str> = Vec::new();
        v.push("pyproject.toml");
        v
    }

    pub fn default_test_command(&self) -> (r: Option<&'static str>)
        ensures
            r matches Some(c) && c@ == "pytest"@,
    {
        Some("pytest")
    }

    pub fn default_lint_command(&self) -> (r: Option<&'static str>)
        ensures
            r matches Some(c) && c@ == "ruff check ."@,
    {
        Some("ruff check .")
    }

    /// Splits a PEP 508 requirement into name, constraint, extras and marker.
    pub fn parse_pep508(req: &str) -> (r: (String, Option<String>, Option<String>, Option<String>))
        ensures
            pep508_view(r) == spec_pep508(req@),
    {
        let (req_part, marker) = match split_once_char(req, ';') {
            Some((a, b)) => (a, b),
            None => (string_of(req), String::new()),
        };
        let marker_t = trim_str(marker.as_str());
        let marker_opt = non_empty_string(marker_t);
        let rp = trim_str(req_part.as_str());
        let rc = to_chars(rp.as_str());
        let mut cut: usize = 0;
        while cut < rc.len() && !(rc[cut] == '<' || rc[cut] == '>' || rc[cut] == '=' || rc[cut] == '!' || rc[cut]
            == '~' || rc[cut] == '@' || rc[cut] == ' ')
            invariant
                cut <= rc@.len(),
                forall|k: int| 0 <= k < cut ==> !ends_name(#[trigger] rc@[k]),
            decreases rc@.len() - cut,
        {
            cut += 1;
        }
        proof {
            lemma_name_end_at(rc@, cut as int);
        }
        let head = crate::numbers::slice_range(&rc, 0, cut);
        let tail = crate::numbers::slice_from(&rc, cut);
        let head_s = from_chars(&head);
        let tail_s = from_chars(&tail);
        proof {
            assert(head_s@ =~= rp@.take(cut as int));
            assert(tail_s@ =~= rp@.skip(cut as int));
        }
        let name_part = trim_str(head_s.as_str());
        let (name, extras) = match split_once_char(name_part.as_str(), '[') {
            Some((base, r)) => {
                let inner = strip_end_str(r.as_str(), ']');
                let mut e = string_of("[");
                push_str(&mut e, inner.as_str());
                push_char(&mut e, ']');
                proof {
                    reveal_strlit("[");
                    reveal_strlit("]");
                    assert(e@ =~= "["@ + strip_end_char(r@, ']') + "]"@);
                }
                (base, Some(e))
            },
            None => (name_part, None),
        };
        let constraint = non_empty_string(trim_str(tail_s.as_str()));
        (name, constraint, extras, marker_opt)
    }

    /// A requirement written from its parts.
    pub fn rewrite_req(name: &str, constraint: &str, extras: Option<&str>, marker: Option<&str>) -> (r: String)
        ensures
            r@ == spec_rewrite_req(name@, constraint@, opt_str_view(extras), opt_str_view(marker)),
    {
        let mut out = String::new();
        push_str(&mut out, name);
        match extras {
            Some(e) => push_str(&mut out, e),
            None => {},
        }
        let ghost mid = out@;
        if constraint.unicode_len() > 0 {
            push_char(&mut out, ' ');
            let t = trim_str(constraint);
            push_str(&mut out, t.as_str());
            proof {
                reveal_strlit(" ");
                assert(out@ =~= mid + (" "@ + trim_spec(constraint@)));
            }
        }
        let ghost mid2 = out@;
        match marker {
            Some(m) => {
                push_str(&mut out, "; ");
                let t = trim_str(m);
                push_str(&mut out, t.as_str());
                proof {
                    assert(out@ =~= mid2 + ("; "@ + trim_spec(m@)));
                }
            },
            None => {},
        }
        proof {
            let e = match opt_str_view(extras) {
                Some(x) => x,
                None => Seq::<char>::empty(),
            };
            let c = if constraint@.len() > 0 {
                " "@ + trim_spec(constraint@)
            } else {
                Seq::<char>::empty()
            };
            let mk = match opt_str_view(marker) {
                Some(x) => "; "@ + trim_spec(x),
                None => Seq::<char>::empty(),
            };
            assert(out@ =~= name@ + e + c + mk);
        }
        out
    }
}

/// The dependencies for the listed requirements that are strings: name and
/// constraint (empty when none) as PEP 508 gives them.
pub open spec fn py_deps(items: Seq<Option<Seq<char>>>) -> Seq<DependencyView>
    decreases items.len(),
{
    if items.len() == 0 {
        Seq::empty()
    } else {
        let rest = py_deps(items.drop_last());
        match items.last() {
            Some(req) => rest.push(
                (
                    spec_pep508(req).0,
                    match spec_pep508(req).1 {
                        Some(c) => c,
                        None => Seq::empty(),
                    },
                    false,
                ),
            ),
            None => rest,
        }
    }
}

/// The position of the first requirement on `dep`.
pub open spec fn py_match(items: Seq<Option<Seq<char>>>, dep: Seq<char>) -> Option<int>
    decreases items.len(),
{
    if items.len() == 0 {
        None
    } else if items[0] matches Some(req) && spec_pep508(req).0 == dep {
        Some(0)
    } else {
        match py_match(items.drop_first(), dep) {
            Some(k) => Some(k + 1),
            None => None,
        }
    }
}

proof fn lemma_py_match_at(items: Seq<Option<Seq<char>>>, dep: Seq<char>, i: int)
    requires
        0 <= i <= items.len(),
        forall|k: int| 0 <= k < i ==> !(#[trigger] items[k] matches Some(req) && spec_pep508(req).0 == dep),
        i == items.len() || (items[i] matches Some(req) && spec_pep508(req).0 == dep),
    ensures
        py_match(items, dep) == (if i == items.len() { None } else { Some(i) }),
    decreases i,
{
    if i > 0 {
        let t = items.drop_first();
        assert(!(items[0] matches Some(req) && spec_pep508(req).0 == dep));
        assert forall|k: int| 0 <= k < i - 1 implies !(#[trigger] t[k] matches Some(req) && spec_pep508(req).0 == dep) by {
            assert(t[k] == items[k + 1]);
        }
        if i < items.len() {
            assert(t[i - 1] == items[i]);
        }
        lemma_py_match_at(t, dep, i - 1);
    }
}

/// The manifest text after updating the requirement on `dep`: the first
/// matching requirement rewritten with the new constraint, else the
/// document rewritten unchanged.
pub open spec fn py_update(content: Seq<char>, dep: Seq<char>, constraint: Seq<char>) -> Result<Seq<char>, Seq<char>> {
    match spec_toml_str_list_at(content, "project"@, "dependencies"@) {
        Err(e) => Err(e),
        Ok(Some(items)) => match py_match(items, dep) {
            Some(k) => {
                let p = spec_pep508(items[k]->0);
                spec_toml_set_list_item(content, "project"@, "dependencies"@, k as nat, spec_rewrite_req(p.0, constraint, p.2, p.3))
            },
            None => spec_toml_reformat(content),
        },
        Ok(None) => spec_toml_reformat(content),
    }
}

impl PythonPlugin {
    /// The project's `project.version` (none for any other file).
    pub fn parse_version(&self, path: &str, content: &str) -> (r: Result<Option<Version>, HarmoniaError>)
        ensures
            if file_name_spec(path@) == Some("pyproject.toml"@) {
                version_read(r, spec_toml_str_at(content@, "project"@, "version"@))
            } else {
                r matches Ok(None)
            },
    {
        if !file_is(path, "pyproject.toml") {
            return Ok(None);
        }
        version_from_read(toml_str_at(content, "project", "version"))
    }

    /// The requirements of `project.dependencies`, in order.
    pub fn parse_dependencies(&self, path: &str, content: &str) -> (r: Result<Vec<Dependency>, HarmoniaError>)
        ensures
            r matches Ok(v) ==> deps_parsed(v@),
            if file_name_spec(path@) == Some("pyproject.toml"@) {
                match spec_toml_str_list_at(content@, "project"@, "dependencies"@) {
                    Err(e) => r matches Err(err) && is_other(err, e),
                    Ok(Some(items)) => r matches Ok(v) && dep_views(v@) == py_deps(items),
                    Ok(None) => r matches Ok(v) && v@.len() == 0,
                }
            } else {
                r matches Ok(v) && v@.len() == 0
            },
    {
        if !file_is(path, "pyproject.toml") {
            return Ok(Vec::new());
        }
        let items = match toml_str_list_at(content, "project", "dependencies") {
            Err(e) => return Err(HarmoniaError::Other(e)),
            Ok(None) => return Ok(Vec::new()),
            Ok(Some(items)) => items,
        };
        let ghost iv = opt_views(items@);
        let mut deps: Vec<Dependency> = Vec::new();
        let mut i: usize = 0;
        while i < items.len()
            invariant
                iv == opt_views(items@),
                i <= items@.len(),
                dep_views(deps@) == py_deps(iv.take(i as int)),
                deps_parsed(deps@),
            decreases items@.len() - i,
        {
            proof {
                assert(iv.take(i + 1).drop_last() =~= iv.take(i as int));
                assert(iv.take(i + 1).last() == iv[i as int]);
            }
            match &items[i] {
                Some(req) => {
                    let (name, constraint, _, _) = PythonPlugin::parse_pep508(req.as_str());
                    let c = match constraint {
                        Some(c) => c,
                        None => String::new(),
                    };
                    let ghost before = dep_views(deps@);
                    let d = Dependency { name, constraint: VersionReq::new(c.as_str()), is_internal: false };
                    let ghost dv = d.view();
                    let ghost before_deps = deps@;
                    deps.push(d);
                    proof {
                        assert(deps@ == before_deps.push(deps@.last()));
                        assert(dep_views(deps@) =~= before.push(dv));
                    }
                },
                None => {},
            }
            i += 1;
        }
        proof {
            assert(iv.take(iv.len() as int) =~= iv);
        }
        Ok(deps)
    }

    /// The manifest with `project.version` set (any other file unchanged).
    pub fn update_version(&self, path: &str, content: &str, new_version: &Version) -> (r: Result<String, HarmoniaError>)
        ensures
            if file_name_spec(path@) == Some("pyproject.toml"@) {
                match toml_set_str_of(content@, "project"@, "version"@, new_version.raw@) {
                    Ok(s) => r matches Ok(t) && t@ == s,
                    Err(e) => r matches Err(err) && is_other(err, e),
                }
            } else {
                r matches Ok(t) && t@ == content@
            },
    {
        if !file_is(path, "pyproject.toml") {
            return Ok(string_of(content));
        }
        text_from_write(toml_set_str(content, "project", "version", new_version.raw.as_str()))
    }

    /// The manifest with the requirement on `dep` given constraint
    /// `constraint` (any other file unchanged).
    pub fn update_dependency(&self, path: &str, content: &str, dep: &str, constraint: &str) -> (r: Result<
        String,
        HarmoniaError,
    >)
        ensures
            if file_name_spec(path@) == Some("pyproject.toml"@) {
                match py_update(content@, dep@, constraint@) {
                    Ok(s) => r matches Ok(t) && t@ == s,
                    Err(e) => r matches Err(err) && is_other(err, e),
                }
            } else {
                r matches Ok(t) && t@ == content@
            },
    {
        if !file_is(path, "pyproject.toml") {
            return Ok(string_of(content));
        }
        let items = match toml_str_list_at(content, "project", "dependencies") {
            Err(e) => return Err(HarmoniaError::Other(e)),
            Ok(None) => return text_from_write(toml_reformat(content)),
            Ok(Some(items)) => items,
        };
        let ghost iv = opt_views(items@);
        proof {
            assert(spec_toml_str_list_at(content@, "project"@, "dependencies"@) == Ok::<Option<Seq<Option<Seq<char>>>>, Seq<char>>(Some(iv)));
        }
        let mut i: usize = 0;
        while i < items.len()
            invariant
                file_name_spec(path@) == Some("pyproject.toml"@),
                spec_toml_str_list_at(content@, "project"@, "dependencies"@) == Ok::<Option<Seq<Option<Seq<char>>>>, Seq<char>>(Some(iv)),
                iv == opt_views(items@),
                i <= items@.len(),
                forall|k: int| 0 <= k < i ==> !(#[trigger] iv[k] matches Some(req) && spec_pep508(req).0 == dep@),
            decreases items@.len() - i,
        {
            match &items[i] {
                Some(req) => {
                    let (name, _old, extras, marker) = PythonPlugin::parse_pep508(req.as_str());
                    if str_eq_name(&name, dep) {
                        proof {
                            assert(iv[i as int] == Some(req@));
                            lemma_py_match_at(iv, dep@, i as int);
                        }
                        let ex = match &extras {
                            Some(e) => Some(e.as_str()),
                            None => None,
                        };
                        let mk = match &marker {
                            Some(m) => Some(m.as_str()),
                            None => None,
                        };
                        proof {
                            assert(crate::text::opt_str_view(ex) == opt_string_view(extras));
                            assert(crate::text::opt_str_view(mk) == opt_string_view(marker));
                        }
                        let new_req = PythonPlugin::rewrite_req(name.as_str(), constraint, ex, mk);
                        return text_from_write(toml_set_list_item(content, "project", "dependencies", i, new_req.as_str()));
                    }
                    proof {
                        assert(iv[i as int] == Some(req@));
                    }
                },
                None => {
                    proof {
                        assert(iv[i as int] is None);
                    }
                },
            }
            i += 1;
        }
        proof {
            lemma_py_match_at(iv, dep@, iv.len() as int);
        }
        text_from_write(toml_reformat(content))
    }
}

fn str_eq_name(name: &String, dep: &str) -> (r: bool)
    ensures
        r == (name@ == dep@),
{
    crate::text::str_eq(name.as_str(), dep)
}

} // verus!
