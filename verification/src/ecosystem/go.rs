//! Go modules: dependencies in `go.mod`.
use vstd::prelude::*;
use crate::error::HarmoniaError;
use crate::order::{join_names, join_strings, views};
use crate::project::repo::{Dependency, DependencyView, dep_views, deps_parsed};
use crate::project::version::{Version, VersionReq};
use crate::text::{concat2, file_name, file_name_spec, lines, lines_spec, split_whitespace, starts, str_eq, string_of,
    to_chars, trim_spec, trim_str, words_spec, opt_string_view};

verus! {

/// The Go ecosystem.
#[derive(Debug, Clone, Copy)]
pub struct GoPlugin;

/// A `require` entry: module path and version, the first two words; none
/// for an empty line or a comment.
pub open spec fn spec_require_line(line: Seq<char>) -> Option<(Seq<char>, Seq<char>)> {
    let t = trim_spec(line);
    if t.len() == 0 || starts(t, "//"@) || words_spec(t).len() < 2 {
        None
    } else {
        Some((words_spec(t)[0], words_spec(t)[1]))
    }
}

/// What follows the `require` keyword of a one-line `require`, trimmed.
pub open spec fn after_require(t: Seq<char>) -> Seq<char> {
    trim_spec(t.skip(7))
}

/// The `require` entries of a `go.mod`, from the given lines on, `in_block`
/// telling whether a `require (` block is open.
pub open spec fn go_requires(ls: Seq<Seq<char>>, in_block: bool) -> Seq<(Seq<char>, Seq<char>)>
    decreases ls.len(),
{
    if ls.len() == 0 {
        Seq::empty()
    } else {
        let t = trim_spec(ls[0]);
        let rest = ls.drop_first();
        if starts(t, "require ("@) {
            go_requires(rest, true)
        } else if in_block && starts(t, ")"@) {
            go_requires(rest, false)
        } else if starts(t, "require "@) {
            (match spec_require_line(after_require(t)) {
                Some(e) => seq![e],
                None => Seq::empty(),
            }) + go_requires(rest, in_block)
        } else if in_block {
            (match spec_require_line(t) {
                Some(e) => seq![e],
                None => Seq::empty(),
            }) + go_requires(rest, in_block)
        } else {
            go_requires(rest, in_block)
        }
    }
}

/// The first word of a line, empty when it has none.
pub open spec fn first_word(line: Seq<char>) -> Seq<char> {
    if words_spec(line).len() > 0 {
        words_spec(line)[0]
    } else {
        Seq::empty()
    }
}

/// The entry is for module `dep`.
pub open spec fn names_dep(e: Option<(Seq<char>, Seq<char>)>, dep: Seq<char>) -> bool {
    match e {
        Some(x) => x.0 == dep,
        None => false,
    }
}

/// The lines of a `go.mod` with the requirement on `dep` set to `c`.
pub open spec fn go_update(ls: Seq<Seq<char>>, in_block: bool, dep: Seq<char>, c: Seq<char>) -> Seq<Seq<char>>
    decreases ls.len(),
{
    if ls.len() == 0 {
        Seq::empty()
    } else {
        let line = ls[0];
        let t = trim_spec(line);
        let rest = ls.drop_first();
        if starts(t, "require ("@) {
            seq![line] + go_update(rest, true, dep, c)
        } else if in_block && starts(t, ")"@) {
            seq![line] + go_update(rest, false, dep, c)
        } else if starts(t, "require "@) && names_dep(spec_require_line(after_require(t)), dep) {
            seq!["require "@ + dep + " "@ + c] + go_update(rest, in_block, dep, c)
        } else if in_block && names_dep(spec_require_line(t), dep) {
            seq![(if first_word(line) == dep {
                "\t"@
            } else {
                Seq::empty()
            }) + dep + " "@ + c] + go_update(rest, in_block, dep, c)
        } else {
            seq![line] + go_update(rest, in_block, dep, c)
        }
    }
}

/// The dependency view of a `require` entry.
pub open spec fn require_dep(e: (Seq<char>, Seq<char>)) -> DependencyView {
    (e.0, e.1, false)
}

fn lit_starts(t: &Vec<char>, lit: &str) -> (r: bool)
    ensures
        r == starts(t@, lit@),
{
    let p = to_chars(lit);
    crate::text::starts_with_chars(t, &p)
}

impl GoPlugin {
    pub fn id(&self) -> (r: &'static str)
        ensures
            r@ == "go"@,
    {
        "go"
    }

    /// The files that describe a Go module.
    pub fn file_patterns(&self) -> (r: Vec<&'static str>)
        ensures
            r@.len() == 1 && r@[0]@ == "go.mod"@,
    {
        let mut v: Vec<&'static str> = Vec::new();
        v.push("go.mod");
        v
    }

    /// Go modules carry no version of their own.
    pub fn parse_version(&self, path: &str, content: &str) -> (r: Result<Option<Version>, HarmoniaError>)
        ensures
            r matches Ok(None),
    {
        Ok(None)
    }

    /// The module path and version of a `require` entry.
    pub fn parse_require_line(line: &str) -> (r: Option<(String, String)>)
        ensures
            match r {
                Some((n, v)) => spec_require_line(line@) == Some((n@, v@)),
                None => spec_require_line(line@) is None,
            },
    {
        let t = trim_str(line);
        let tc = to_chars(t.as_str());
        if tc.len() == 0 || lit_starts(&tc, "//") {
            return None;
        }
        let words = split_whitespace(t.as_str());
        if words.len() < 2 {
            return None;
        }
        proof {
            assert(views(words@)[0] == words@[0]@);
            assert(views(words@)[1] == words@[1]@);
        }
        Some((words[0].clone(), words[1].clone()))
    }

    /// The requirements of a `go.mod` (none for any other file), in order.
    pub fn parse_dependencies(&self, path: &str, content: &str) -> (r: Result<Vec<Dependency>, HarmoniaError>)
        ensures
            r matches Ok(v) ==> deps_parsed(v@),
            match r {
                Ok(ds) => if file_name_spec(path@) == Some("go.mod"@) {
                    dep_views(ds@) == go_requires(lines_spec(content@), false).map_values(
                        |e: (Seq<char>, Seq<char>)| require_dep(e),
                    )
                } else {
                    ds@.len() == 0
                },
                Err(_) => false,
            },
    {
        let name = file_name(path);
        let is_go_mod = match &name {
            Some(n) => str_eq(n.as_str(), "go.mod"),
            None => false,
        };
        if !is_go_mod {
            return Ok(Vec::new());
        }
        let ls = lines(content);
        let ghost lv = views(ls@);
        let mut deps: Vec<Dependency> = Vec::new();
        let mut in_block = false;
        let mut i: usize = 0;
        proof {
            assert(lv.skip(0) =~= lv);
            assert(dep_views(deps@) + go_requires(lv, false).map_values(|e: (Seq<char>, Seq<char>)| require_dep(e))
                =~= go_requires(lv, false).map_values(|e: (Seq<char>, Seq<char>)| require_dep(e)));
        }
        while i < ls.len()
            invariant
                lv == views(ls@),
                lv == lines_spec(content@),
                i <= lv.len(),
                deps_parsed(deps@),
                dep_views(deps@) + go_requires(lv.skip(i as int), in_block).map_values(
                    |e: (Seq<char>, Seq<char>)| require_dep(e),
                ) == go_requires(lv, false).map_values(|e: (Seq<char>, Seq<char>)| require_dep(e)),
            decreases lv.len() - i,
        {
            let ghost rest = lv.skip(i as int);
            proof {
                assert(rest[0] == lv[i as int]);
                assert(rest.drop_first() =~= lv.skip(i + 1));
            }
            let ghost b = in_block;
            let t = trim_str(ls[i].as_str());
            let tc = to_chars(t.as_str());
            let ghost before = dep_views(deps@);
            let ghost m = |e: (Seq<char>, Seq<char>)| require_dep(e);
            let ghost rest1 = lv.skip(i + 1);
            if lit_starts(&tc, "require (") {
                in_block = true;
                proof {
                    assert(go_requires(rest, b) == go_requires(rest1, true));
                }
            } else if in_block && lit_starts(&tc, ")") {
                in_block = false;
                proof {
                    assert(go_requires(rest, b) == go_requires(rest1, false));
                }
            } else {
                let mut entry: Option<(String, String)> = None;
                let mut matched = false;
                if lit_starts(&tc, "require ") {
                    proof {
                        reveal_strlit("require ");
                    }
                    let after = crate::numbers::slice_from(&tc, 7);
                    let after_s = crate::text::from_chars(&after);
                    proof {
                        assert(after_s@ =~= t@.skip(7));
                    }
                    let a = trim_str(after_s.as_str());
                    entry = GoPlugin::parse_require_line(a.as_str());
                    matched = true;
                } else if in_block {
                    entry = GoPlugin::parse_require_line(t.as_str());
                    matched = true;
                }
                let ghost head: Seq<(Seq<char>, Seq<char>)> = match &entry {
                    Some(e) => seq![(e.0@, e.1@)],
                    None => Seq::empty(),
                };
                proof {
                    if matched {
                        assert(go_requires(rest, b) == head + go_requires(rest1, b));
                    } else {
                        assert(head =~= Seq::<(Seq<char>, Seq<char>)>::empty());
                        assert(go_requires(rest, b) == go_requires(rest1, b));
                        assert(head + go_requires(rest1, b) =~= go_requires(rest1, b));
                    }
                }
                match entry {
                    Some((n, v)) => {
                        let d = Dependency { name: n, constraint: VersionReq::new(v.as_str()), is_internal: false };
                        let ghost dv = d.view();
                        let ghost before_deps = deps@;
                        deps.push(d);
                        proof {
                            assert(deps@ == before_deps.push(deps@.last()));
                            assert(dep_views(deps@) =~= before.push(dv));
                            assert(head.map_values(m) =~= seq![dv]);
                        }
                    },
                    None => {
                        proof {
                            assert(head.map_values(m) =~= Seq::<DependencyView>::empty());
                        }
                    },
                }
                proof {
                    assert(dep_views(deps@) =~= before + head.map_values(m));
                    assert((head + go_requires(rest1, b)).map_values(m) =~= head.map_values(m) + go_requires(
                        rest1,
                        b,
                    ).map_values(m));
                    assert(before + head.map_values(m) + go_requires(rest1, b).map_values(m) =~= before + (
                    head.map_values(m) + go_requires(rest1, b).map_values(m)));
                }
            }
            i += 1;
        }
        proof {
            assert(lv.skip(lv.len() as int) =~= Seq::<Seq<char>>::empty());
        }
        Ok(deps)
    }

    /// Go modules carry no version of their own: the content is unchanged.
    pub fn update_version(&self, path: &str, content: &str, new_version: &Version) -> (r: Result<String, HarmoniaError>)
        ensures
            r matches Ok(s) && s@ == content@,
    {
        Ok(string_of(content))
    }

    /// A `go.mod` with the requirement on `dep` set to `constraint`, lines
    /// joined with `\n` (any other file unchanged).
    pub fn update_dependency(&self, path: &str, content: &str, dep: &str, constraint: &str) -> (r: Result<
        String,
        HarmoniaError,
    >)
        ensures
            match r {
                Ok(s) => if file_name_spec(path@) == Some("go.mod"@) {
                    s@ == join_names(go_update(lines_spec(content@), false, dep@, constraint@), "\n"@)
                } else {
                    s@ == content@
                },
                Err(_) => false,
            },
    {
        let name = file_name(path);
        let is_go_mod = match &name {
            Some(n) => str_eq(n.as_str(), "go.mod"),
            None => false,
        };
        if !is_go_mod {
            return Ok(string_of(content));
        }
        let ls = lines(content);
        let ghost lv = views(ls@);
        let mut out: Vec<String> = Vec::new();
        let mut in_block = false;
        let mut i: usize = 0;
        proof {
            assert(lv.skip(0) =~= lv);
            assert(views(out@) + go_update(lv, false, dep@, constraint@) =~= go_update(lv, false, dep@, constraint@));
        }
        while i < ls.len()
            invariant
                lv == views(ls@),
                lv == lines_spec(content@),
                i <= lv.len(),
                views(out@) + go_update(lv.skip(i as int), in_block, dep@, constraint@) == go_update(
                    lv,
                    false,
                    dep@,
                    constraint@,
                ),
            decreases lv.len() - i,
        {
            let ghost rest = lv.skip(i as int);
            let ghost rest1 = lv.skip(i + 1);
            proof {
                assert(rest[0] == lv[i as int]);
                assert(rest.drop_first() =~= rest1);
            }
            let ghost b = in_block;
            let line = &ls[i];
            let t = trim_str(line.as_str());
            let tc = to_chars(t.as_str());
            let ghost before = views(out@);
            let new_line: String;
            if lit_starts(&tc, "require (") {
                in_block = true;
                new_line = line.clone();
            } else if in_block && lit_starts(&tc, ")") {
                in_block = false;
                new_line = line.clone();
            } else {
                let mut done = false;
                let mut replaced = String::new();
                let ghost first_hit = starts(t@, "require "@) && names_dep(spec_require_line(after_require(t@)), dep@);
                if lit_starts(&tc, "require ") {
                    proof {
                        reveal_strlit("require ");
                    }
                    let after = crate::numbers::slice_from(&tc, 7);
                    let after_s = crate::text::from_chars(&after);
                    proof {
                        assert(after_s@ =~= t@.skip(7));
                    }
                    let a = trim_str(after_s.as_str());
                    match GoPlugin::parse_require_line(a.as_str()) {
                        Some((n, _)) => {
                            if str_eq(n.as_str(), dep) {
                                let head = concat2("require ", dep);
                                let head2 = concat2(head.as_str(), " ");
                                replaced = concat2(head2.as_str(), constraint);
                                done = true;
                            }
                        },
                        None => {},
                    }
                }
                proof {
                    assert(done == first_hit);
                }
                if !done && in_block {
                    match GoPlugin::parse_require_line(t.as_str()) {
                        Some((n, _)) => {
                            if str_eq(n.as_str(), dep) {
                                let words = split_whitespace(line.as_str());
                                let prefix_matches = if words.len() > 0 {
                                    str_eq(words[0].as_str(), dep)
                                } else {
                                    str_eq("", dep)
                                };
                                proof {
                                    assert(views(words@) == words_spec(line@));
                                    assert(views(words@).len() == words@.len());
                                    if words@.len() > 0 {
                                        assert(views(words@)[0] == words@[0]@);
                                    } else {
                                        reveal_strlit("");
                                        assert(""@ =~= Seq::<char>::empty());
                                    }
                                    assert(prefix_matches == (first_word(line@) == dep@));
                                }
                                let lead = if prefix_matches {
                                    string_of("\t")
                                } else {
                                    String::new()
                                };
                                let head = concat2(lead.as_str(), dep);
                                let head2 = concat2(head.as_str(), " ");
                                replaced = concat2(head2.as_str(), constraint);
                                done = true;
                            }
                        },
                        None => {},
                    }
                }
                if done {
                    new_line = replaced;
                } else {
                    new_line = line.clone();
                }
            }
            proof {
                assert(go_update(rest, b, dep@, constraint@) == seq![new_line@] + go_update(rest1, in_block, dep@, constraint@));
            }
            out.push(new_line);
            proof {
                assert(views(out@) =~= before.push(new_line@));
                assert(before.push(new_line@) + go_update(rest1, in_block, dep@, constraint@) =~= before + (seq![
                    new_line@,
                ] + go_update(rest1, in_block, dep@, constraint@)));
            }
            i += 1;
        }
        proof {
            assert(lv.skip(lv.len() as int) =~= Seq::<Seq<char>>::empty());
            assert(views(out@) + Seq::<Seq<char>>::empty() =~= views(out@));
        }
        Ok(join_strings(&out, "\n"))
    }

    pub fn default_test_command(&self) -> (r: Option<&'static str>)
        ensures
            r matches Some(c) && c@ == "go test ./..."@,
    {
        Some("go test ./...")
    }

    pub fn default_lint_command(&self) -> (r: Option<&'static str>)
        ensures
            r matches Some(c) && c@ == "golangci-lint run"@,
    {
        Some("golangci-lint run")
    }
}

} // verus!
