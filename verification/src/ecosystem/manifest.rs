//! Reading and writing package manifests through the `toml` and
//! `serde_json` crates. Each call parses the whole text; what it yields is a
//! function of its arguments, named here, and the callers state their
//! results over these names.
use vstd::prelude::*;
use crate::error::HarmoniaError;
use crate::project::repo::{Dependency, DependencyView, dep_views, deps_parsed};
use crate::project::version::{Version, VersionKind, VersionReq};
use crate::text::{file_name, str_eq, string_of};
use crate::ecosystem::document::{NewNode, NodeKind, json_insert, key_path1, key_path2, key_path3, spec_json_insert, spec_toml_insert,
    spec_toml_keys_at, spec_toml_node_at, toml_insert, toml_keys_at, toml_node_at};
use crate::order::views;

verus! {

/// The file name of `path` is `name`.
pub fn file_is(path: &str, name: &str) -> (r: bool)
    ensures
        r == (crate::text::file_name_spec(path@) == Some(name@)),
{
    match file_name(path) {
        Some(n) => str_eq(n.as_str(), name),
        None => false,
    }
}

/// Dependencies from manifest entries: every entry, its constraint empty
/// when it has none (`all`), or only the entries with a constraint.
pub open spec fn entry_deps(es: Seq<(Seq<char>, Option<Seq<char>>)>, all: bool) -> Seq<DependencyView>
    decreases es.len(),
{
    if es.len() == 0 {
        Seq::empty()
    } else {
        let rest = entry_deps(es.drop_last(), all);
        let e = es.last();
        match e.1 {
            Some(c) => rest.push((e.0, c, false)),
            None => if all {
                rest.push((e.0, Seq::empty(), false))
            } else {
                rest
            },
        }
    }
}

/// Appends the dependencies for manifest entries.
pub fn push_entry_deps(es: &Vec<(String, Option<String>)>, all: bool, out: &mut Vec<Dependency>)
    ensures
        dep_views(final(out)@) == dep_views(old(out)@) + entry_deps(entry_views(es@), all),
        deps_parsed(old(out)@) ==> deps_parsed(final(out)@),
{
    let ghost base = dep_views(out@);
    let ghost parsed0 = deps_parsed(out@);
    let ghost ev = entry_views(es@);
    let mut i: usize = 0;
    proof {
        assert(ev.take(0) =~= Seq::<(Seq<char>, Option<Seq<char>>)>::empty());
        assert(base + entry_deps(ev.take(0), all) =~= base);
    }
    while i < es.len()
        invariant
            ev == entry_views(es@),
            i <= es@.len(),
            dep_views(out@) == base + entry_deps(ev.take(i as int), all),
            parsed0 ==> deps_parsed(out@),
        decreases es@.len() - i,
    {
        proof {
            assert(ev.take(i + 1).drop_last() =~= ev.take(i as int));
            assert(ev.take(i + 1).last() == ev[i as int]);
        }
        let ghost before = dep_views(out@);
        let ghost before_out = out@;
        let (name, c) = (&es[i].0, &es[i].1);
        match c {
            Some(v) => {
                let d = Dependency { name: name.clone(), constraint: VersionReq::new(v.as_str()), is_internal: false };
                let ghost dv = d.view();
                out.push(d);
                proof {
                    assert(dep_views(out@) =~= before.push(dv));
                    assert(out@ == before_out.push(out@.last()));
                }
            },
            None => {
                if all {
                    let d = Dependency { name: name.clone(), constraint: VersionReq::new(""), is_internal: false };
                    let ghost dv = d.view();
                    out.push(d);
                    proof {
                        reveal_strlit("");
                        assert(dv.1 =~= Seq::<char>::empty());
                        assert(dep_views(out@) =~= before.push(dv));
                        assert(out@ == before_out.push(out@.last()));
                    }
                }
            },
        }
        proof {
            assert(base + entry_deps(ev.take(i + 1), all) =~= before + (entry_deps(ev.take(i + 1), all).skip(
                entry_deps(ev.take(i as int), all).len() as int,
            )));
        }
        i += 1;
    }
    proof {
        assert(ev.take(ev.len() as int) =~= ev);
    }
}

/// Some entry is named `dep`.
pub open spec fn has_entry(es: Seq<(Seq<char>, Option<Seq<char>>)>, dep: Seq<char>) -> bool {
    exists|k: int| 0 <= k < es.len() && #[trigger] es[k].0 == dep
}

/// Whether some entry is named `dep`.
pub fn find_entry(es: &Vec<(String, Option<String>)>, dep: &str) -> (r: bool)
    ensures
        r == has_entry(entry_views(es@), dep@),
{
    let ghost ev = entry_views(es@);
    let mut i: usize = 0;
    while i < es.len()
        invariant
            ev == entry_views(es@),
            i <= es@.len(),
            forall|k: int| 0 <= k < i ==> #[trigger] ev[k].0 != dep@,
        decreases es@.len() - i,
    {
        if str_eq(es[i].0.as_str(), dep) {
            proof {
                assert(ev[i as int].0 == dep@);
            }
            return true;
        }
        i += 1;
    }
    false
}

/// The error is `Other` with the given text.
pub open spec fn is_other(e: HarmoniaError, m: Seq<char>) -> bool {
    e matches HarmoniaError::Other(s) && s@ == m
}


/// A text result as plain values.
pub open spec fn text_result(r: Result<String, String>) -> Result<Seq<char>, Seq<char>> {
    match r {
        Ok(s) => Ok(s@),
        Err(e) => Err(e@),
    }
}

/// An optional text result as plain values.
pub open spec fn opt_text_result(r: Result<Option<String>, String>) -> Result<Option<Seq<char>>, Seq<char>> {
    match r {
        Ok(Some(s)) => Ok(Some(s@)),
        Ok(None) => Ok(None),
        Err(e) => Err(e@),
    }
}

/// The views of optional texts.
pub open spec fn opt_views(v: Seq<Option<String>>) -> Seq<Option<Seq<char>>> {
    v.map_values(|o: Option<String>| match o {
        Some(s) => Some(s@),
        None => None,
    })
}

/// The views of named optional texts.
pub open spec fn entry_views(v: Seq<(String, Option<String>)>) -> Seq<(Seq<char>, Option<Seq<char>>)> {
    v.map_values(|e: (String, Option<String>)| (e.0@, match e.1 {
        Some(s) => Some(s@),
        None => None,
    }))
}

/// A list result as plain values.
pub open spec fn list_result(r: Result<Option<Vec<Option<String>>>, String>) -> Result<Option<Seq<Option<Seq<char>>>>, Seq<char>> {
    match r {
        Ok(Some(v)) => Ok(Some(opt_views(v@))),
        Ok(None) => Ok(None),
        Err(e) => Err(e@),
    }
}

/// An entries result as plain values.
pub open spec fn entries_result(r: Result<Option<Vec<(String, Option<String>)>>, String>) -> Result<
    Option<Seq<(Seq<char>, Option<Seq<char>>)>>,
    Seq<char>,
> {
    match r {
        Ok(Some(v)) => Ok(Some(entry_views(v@))),
        Ok(None) => Ok(None),
        Err(e) => Err(e@),
    }
}

/// What `toml` yields for `content[k1][k2]` as a string.
pub uninterp spec fn spec_toml_str_at(content: Seq<char>, k1: Seq<char>, k2: Seq<char>) -> Result<Option<Seq<char>>, Seq<char>>;

/// What `toml` yields for the array `content[k1][k2]`, each element as a string.
pub uninterp spec fn spec_toml_str_list_at(content: Seq<char>, k1: Seq<char>, k2: Seq<char>) -> Result<
    Option<Seq<Option<Seq<char>>>>,
    Seq<char>,
>;



/// What `toml` writes after setting element `index` of the array
/// `content[k1][k2]` to a string.
pub uninterp spec fn spec_toml_set_list_item(content: Seq<char>, k1: Seq<char>, k2: Seq<char>, index: nat, value: Seq<
    char,
>) -> Result<Seq<char>, Seq<char>>;


/// What `toml` writes back for `content` unchanged.
pub uninterp spec fn spec_toml_reformat(content: Seq<char>) -> Result<Seq<char>, Seq<char>>;

/// What `serde_json` yields for `content[key]` as a string.
pub uninterp spec fn spec_json_str_at(content: Seq<char>, key: Seq<char>) -> Result<Option<Seq<char>>, Seq<char>>;

/// What `serde_json` yields for the object `content[key]`: each key with its
/// value when a string.
pub uninterp spec fn spec_json_str_entries(content: Seq<char>, key: Seq<char>) -> Result<
    Option<Seq<(Seq<char>, Option<Seq<char>>)>>,
    Seq<char>,
>;



/// What `serde_json` writes (pretty) back for `content` unchanged.
pub uninterp spec fn spec_json_reformat(content: Seq<char>) -> Result<Seq<char>, Seq<char>>;

/// Parses `content` with `toml` and reads `content[k1][k2]` as a string.
#[verifier::external_body]
pub(crate) fn toml_str_at(content: &str, k1: &str, k2: &str) -> (r: Result<Option<String>, String>)
    ensures
        opt_text_result(r) == spec_toml_str_at(content@, k1@, k2@),
{
    let value: toml::Value = match toml::from_str(content) {
        Ok(v) => v,
        Err(e) => return Err(e.to_string()),
    };
    match value.get(k1) {
        Some(inner) => Ok(inner.get(k2).and_then(toml::Value::as_str).map(str::to_string)),
        None => Ok(None),
    }
}

/// Parses `content` with `toml` and reads the array `content[k1][k2]`.
#[verifier::external_body]
pub(crate) fn toml_str_list_at(content: &str, k1: &str, k2: &str) -> (r: Result<Option<Vec<Option<String>>>, String>)
    ensures
        list_result(r) == spec_toml_str_list_at(content@, k1@, k2@),
{
    let value: toml::Value = match toml::from_str(content) {
        Ok(v) => v,
        Err(e) => return Err(e.to_string()),
    };
    match value.get(k1).and_then(|v| v.get(k2)).and_then(toml::Value::as_array) {
        Some(items) => Ok(Some(items.iter().map(|v| v.as_str().map(str::to_string)).collect())),
        None => Ok(None),
    }
}



/// Parses `content` with `toml`, sets element `index` of the array
/// `content[k1][k2]`, and writes the document.
#[verifier::external_body]
pub(crate) fn toml_set_list_item(content: &str, k1: &str, k2: &str, index: usize, value: &str) -> (r: Result<String, String>)
    ensures
        text_result(r) == spec_toml_set_list_item(content@, k1@, k2@, index as nat, value@),
{
    let mut doc: toml::Value = toml::from_str(content).map_err(|e: toml::de::Error| e.to_string())?;
    if let Some(items) = doc.get_mut(k1).and_then(|v| v.get_mut(k2)).and_then(toml::Value::as_array_mut) {
        if let Some(item) = items.get_mut(index) {
            *item = toml::Value::String(value.to_string());
        }
    }
    toml::to_string(&doc).map_err(|e| e.to_string())
}


/// Parses `content` with `toml` and writes it back.
#[verifier::external_body]
pub(crate) fn toml_reformat(content: &str) -> (r: Result<String, String>)
    ensures
        text_result(r) == spec_toml_reformat(content@),
{
    let doc: toml::Value = toml::from_str(content).map_err(|e: toml::de::Error| e.to_string())?;
    toml::to_string(&doc).map_err(|e| e.to_string())
}

/// Parses `content` with `serde_json` and reads `content[key]` as a string.
#[verifier::external_body]
pub(crate) fn json_str_at(content: &str, key: &str) -> (r: Result<Option<String>, String>)
    ensures
        opt_text_result(r) == spec_json_str_at(content@, key@),
{
    let value: serde_json::Value = serde_json::from_str(content).map_err(|e| e.to_string())?;
    Ok(value.get(key).and_then(serde_json::Value::as_str).map(str::to_string))
}

/// Parses `content` with `serde_json` and reads the object `content[key]`.
#[verifier::external_body]
pub(crate) fn json_str_entries(content: &str, key: &str) -> (r: Result<Option<Vec<(String, Option<String>)>>, String>)
    ensures
        entries_result(r) == spec_json_str_entries(content@, key@),
{
    let value: serde_json::Value = serde_json::from_str(content).map_err(|e| e.to_string())?;
    match value.get(key).and_then(serde_json::Value::as_object) {
        Some(map) => Ok(Some(map.iter().map(|(k, v)| (k.clone(), v.as_str().map(str::to_string))).collect())),
        None => Ok(None),
    }
}



/// Parses `content` with `serde_json` and writes it back pretty.
#[verifier::external_body]
pub(crate) fn json_reformat(content: &str) -> (r: Result<String, String>)
    ensures
        text_result(r) == spec_json_reformat(content@),
{
    let doc: serde_json::Value = serde_json::from_str(content).map_err(|e| e.to_string())?;
    serde_json::to_string_pretty(&doc).map_err(|e| e.to_string())
}

/// The constraint of dependency `key` of TOML table `section`: a string
/// value, or the `version` string of a table value.
pub open spec fn toml_dep_value_of(content: Seq<char>, section: Seq<char>, key: Seq<char>) -> Result<Option<Seq<char>>, Seq<char>> {
    match spec_toml_node_at(content, seq![section, key]) {
        Err(e) => Err(e),
        Ok(n) => if n.0 == NodeKind::Text {
            Ok(Some(n.1))
        } else if n.0 == NodeKind::Table {
            match spec_toml_node_at(content, seq![section, key, "version"@]) {
                Err(e) => Err(e),
                Ok(v) => if v.0 == NodeKind::Text {
                    Ok(Some(v.1))
                } else {
                    Ok(None)
                },
            }
        } else {
            Ok(None)
        },
    }
}

/// The entries for `keys` of TOML table `section`, in order; the first
/// failure stops them.
pub open spec fn toml_dep_entries(content: Seq<char>, section: Seq<char>, keys: Seq<Seq<char>>) -> Result<
    Seq<(Seq<char>, Option<Seq<char>>)>,
    Seq<char>,
>
    decreases keys.len(),
{
    if keys.len() == 0 {
        Ok(Seq::empty())
    } else {
        match toml_dep_entries(content, section, keys.drop_last()) {
            Err(e) => Err(e),
            Ok(front) => match toml_dep_value_of(content, section, keys.last()) {
                Err(e) => Err(e),
                Ok(v) => Ok(front.push((keys.last(), v))),
            },
        }
    }
}

/// The dependency table `section` of a TOML manifest: each key with its
/// constraint; none when there is no such table.
pub open spec fn toml_dep_table_of(content: Seq<char>, section: Seq<char>) -> Result<
    Option<Seq<(Seq<char>, Option<Seq<char>>)>>,
    Seq<char>,
> {
    match spec_toml_keys_at(content, seq![section]) {
        Err(e) => Err(e),
        Ok(None) => Ok(None),
        Ok(Some(keys)) => match toml_dep_entries(content, section, keys) {
            Err(e) => Err(e),
            Ok(es) => Ok(Some(es)),
        },
    }
}

/// A TOML manifest with dependency `dep` of table `section` set: a string
/// value is replaced, a table value gets its `version` set, and otherwise
/// the document is written back unchanged.
pub open spec fn toml_set_dep_of(content: Seq<char>, section: Seq<char>, dep: Seq<char>, c: Seq<char>) -> Result<
    Seq<char>,
    Seq<char>,
> {
    match spec_toml_node_at(content, seq![section, dep]) {
        Err(e) => Err(e),
        Ok(n) => if n.0 == NodeKind::Text {
            spec_toml_insert(content, seq![section], dep, Some(c))
        } else if n.0 == NodeKind::Table {
            spec_toml_insert(content, seq![section, dep], "version"@, Some(c))
        } else {
            spec_toml_reformat(content)
        },
    }
}

/// A TOML document with `key` of table `table` set to a string, when that
/// table exists.
pub open spec fn toml_set_str_of(content: Seq<char>, table: Seq<char>, key: Seq<char>, value: Seq<char>) -> Result<
    Seq<char>,
    Seq<char>,
> {
    spec_toml_insert(content, seq![table], key, Some(value))
}

/// A JSON document with top-level `key` set to a string, when the document
/// is an object.
pub open spec fn json_set_top_of(content: Seq<char>, key: Seq<char>, value: Seq<char>) -> Result<Seq<char>, Seq<char>> {
    spec_json_insert(content, Seq::empty(), key, Some(value))
}

/// A JSON document with `dep` of object `section` set to a string, when
/// that object exists.
pub open spec fn json_set_entry_of(content: Seq<char>, section: Seq<char>, dep: Seq<char>, value: Seq<char>) -> Result<
    Seq<char>,
    Seq<char>,
> {
    spec_json_insert(content, seq![section], dep, Some(value))
}

/// Once the entries stop at a failure, longer prefixes stop at it too.
proof fn lemma_dep_entries_err(content: Seq<char>, section: Seq<char>, keys: Seq<Seq<char>>, i: int, m: int)
    requires
        0 <= i <= m <= keys.len(),
        toml_dep_entries(content, section, keys.take(i)) is Err,
    ensures
        toml_dep_entries(content, section, keys.take(m)) == toml_dep_entries(content, section, keys.take(i)),
    decreases m - i,
{
    if m > i {
        lemma_dep_entries_err(content, section, keys, i, m - 1);
        assert(keys.take(m).drop_last() =~= keys.take(m - 1));
    }
}

/// Reads the constraint of dependency `key` of TOML table `section`.
fn toml_dep_value(content: &str, section: &str, key: &str) -> (r: Result<Option<String>, String>)
    ensures
        opt_text_result(r) == toml_dep_value_of(content@, section@, key@),
{
    match toml_node_at(content, &key_path2(section, key)) {
        Err(e) => Err(e),
        Ok(n) => if n.kind == NodeKind::Text {
            Ok(Some(n.text))
        } else if n.kind == NodeKind::Table {
            match toml_node_at(content, &key_path3(section, key, "version")) {
                Err(e) => Err(e),
                Ok(v) => if v.kind == NodeKind::Text {
                    Ok(Some(v.text))
                } else {
                    Ok(None)
                },
            }
        } else {
            Ok(None)
        },
    }
}

/// Reads the dependency table `section` of a TOML manifest.
pub(crate) fn toml_dep_table(content: &str, section: &str) -> (r: Result<Option<Vec<(String, Option<String>)>>, String>)
    ensures
        entries_result(r) == toml_dep_table_of(content@, section@),
{
    match toml_keys_at(content, &key_path1(section)) {
        Err(e) => Err(e),
        Ok(None) => Ok(None),
        Ok(Some(keys)) => {
            let ghost kv = views(keys@);
            let mut out: Vec<(String, Option<String>)> = Vec::new();
            let mut i: usize = 0;
            proof {
                assert(kv.take(0) =~= Seq::<Seq<char>>::empty());
                assert(entry_views(out@) =~= Seq::<(Seq<char>, Option<Seq<char>>)>::empty());
            }
            while i < keys.len()
                invariant
                    kv == views(keys@),
                    spec_toml_keys_at(content@, seq![section@]) == Ok::<Option<Seq<Seq<char>>>, Seq<char>>(Some(kv)),
                    i <= keys@.len(),
                    toml_dep_entries(content@, section@, kv.take(i as int)) == Ok::<
                        Seq<(Seq<char>, Option<Seq<char>>)>,
                        Seq<char>,
                    >(entry_views(out@)),
                decreases keys@.len() - i,
            {
                let v = toml_dep_value(content, section, keys[i].as_str());
                proof {
                    assert(kv.take(i + 1).drop_last() =~= kv.take(i as int));
                    assert(kv.take(i + 1).last() == keys@[i as int]@);
                }
                match v {
                    Err(e) => {
                        proof {
                            lemma_dep_entries_err(content@, section@, kv, i + 1, kv.len() as int);
                            assert(kv.take(kv.len() as int) =~= kv);
                        }
                        return Err(e);
                    },
                    Ok(c) => {
                        let ghost before = entry_views(out@);
                        let ghost cv = match &c {
                            Some(t) => Some(t@),
                            None => None::<Seq<char>>,
                        };
                        out.push((keys[i].clone(), c));
                        proof {
                            assert(entry_views(out@) =~= before.push((keys@[i as int]@, cv)));
                        }
                    },
                }
                i += 1;
            }
            proof {
                assert(kv.take(kv.len() as int) =~= kv);
            }
            Ok(Some(out))
        },
    }
}

/// Sets dependency `dep` of TOML table `section` to `constraint`.
pub(crate) fn toml_set_dep(content: &str, section: &str, dep: &str, constraint: &str) -> (r: Result<String, String>)
    ensures
        text_result(r) == toml_set_dep_of(content@, section@, dep@, constraint@),
{
    match toml_node_at(content, &key_path2(section, dep)) {
        Err(e) => Err(e),
        Ok(n) => if n.kind == NodeKind::Text {
            toml_insert(content, &key_path1(section), dep, &NewNode::Text(string_of(constraint)))
        } else if n.kind == NodeKind::Table {
            toml_insert(content, &key_path2(section, dep), "version", &NewNode::Text(string_of(constraint)))
        } else {
            toml_reformat(content)
        },
    }
}

/// Sets `key` of TOML table `table` to a string.
pub(crate) fn toml_set_str(content: &str, table: &str, key: &str, value: &str) -> (r: Result<String, String>)
    ensures
        text_result(r) == toml_set_str_of(content@, table@, key@, value@),
{
    toml_insert(content, &key_path1(table), key, &NewNode::Text(string_of(value)))
}

/// Sets top-level `key` of a JSON document to a string.
pub(crate) fn json_set_top(content: &str, key: &str, value: &str) -> (r: Result<String, String>)
    ensures
        text_result(r) == json_set_top_of(content@, key@, value@),
{
    let root: Vec<String> = Vec::new();
    proof {
        assert(views(root@) =~= Seq::<Seq<char>>::empty());
    }
    json_insert(content, &root, key, &NewNode::Text(string_of(value)))
}

/// Sets `dep` of JSON object `section` to a string.
pub(crate) fn json_set_entry(content: &str, section: &str, dep: &str, value: &str) -> (r: Result<String, String>)
    ensures
        text_result(r) == json_set_entry_of(content@, section@, dep@, value@),
{
    json_insert(content, &key_path1(section), dep, &NewNode::Text(string_of(value)))
}

} // verus!
