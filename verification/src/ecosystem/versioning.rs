//! A repository's version read from, and written into, its version file by
//! the `[versioning]` settings: a regular expression whose first group is
//! the version (`pattern`), or a dotted key path into a TOML, JSON or YAML
//! document (`path`).
use vstd::prelude::*;
use crate::ecosystem::document::{DocNode, NewNode, NodeKind, json_insert, json_node_at, node_result, spec_json_insert,
    spec_json_node_at, spec_toml_insert, spec_toml_node_at, spec_yaml_insert, spec_yaml_node_at, spec_yaml_reformat,
    toml_insert, toml_node_at, yaml_insert, yaml_node_at, yaml_reformat};
use crate::ecosystem::manifest::{is_other, json_reformat, spec_json_reformat, spec_toml_reformat, text_result, toml_reformat};
use crate::error::HarmoniaError;
use crate::order::views;
use crate::project::version::Version;
use crate::text::{concat3, file_name, file_name_spec, from_chars, opt_string_view, string_of, to_chars};

verus! {

// ------------------------------------------------------------ key paths

/// `cur` as a part, when it is not empty.
pub open spec fn nonempty_part(cur: Seq<char>) -> Seq<Seq<char>> {
    if cur.len() == 0 {
        Seq::empty()
    } else {
        seq![cur]
    }
}

/// The non-empty parts between dots of `cur` followed by `s`.
pub open spec fn dot_parts_acc(s: Seq<char>, cur: Seq<char>) -> Seq<Seq<char>>
    decreases s.len(),
{
    if s.len() == 0 {
        nonempty_part(cur)
    } else if s[0] == '.' {
        nonempty_part(cur) + dot_parts_acc(s.drop_first(), Seq::empty())
    } else {
        dot_parts_acc(s.drop_first(), cur.push(s[0]))
    }
}

/// The keys of a dotted key path: its non-empty parts between dots.
pub open spec fn key_segments(key_path: Seq<char>) -> Seq<Seq<char>> {
    dot_parts_acc(key_path, Seq::empty())
}

/// The keys of a dotted key path.
pub fn key_path_segments(key_path: &str) -> (r: Vec<String>)
    ensures
        views(r@) == key_segments(key_path@),
{
    let cs = to_chars(key_path);
    let mut segs: Vec<String> = Vec::new();
    let mut cur: Vec<char> = Vec::new();
    let mut i: usize = 0;
    proof {
        assert(cs@.skip(0) =~= cs@);
        assert(views(segs@) =~= Seq::<Seq<char>>::empty());
        assert(views(segs@) + dot_parts_acc(cs@, cur@) =~= dot_parts_acc(cs@, cur@));
        assert(cur@ =~= Seq::<char>::empty());
    }
    while i < cs.len()
        invariant
            cs@ == key_path@,
            i <= cs@.len(),
            views(segs@) + dot_parts_acc(cs@.skip(i as int), cur@) == key_segments(key_path@),
        decreases cs@.len() - i,
    {
        let ghost rest = cs@.skip(i as int);
        proof {
            assert(rest.drop_first() =~= cs@.skip(i + 1));
            assert(rest[0] == cs@[i as int]);
        }
        if cs[i] == '.' {
            let ghost before = views(segs@);
            let ghost cv = cur@;
            if cur.len() > 0 {
                segs.push(from_chars(&cur));
            }
            proof {
                assert(views(segs@) =~= before + nonempty_part(cv));
            }
            cur = Vec::new();
            proof {
                assert(cur@ =~= Seq::<char>::empty());
                assert(before + nonempty_part(cv) + dot_parts_acc(cs@.skip(i + 1), cur@) =~= before + (
                nonempty_part(cv) + dot_parts_acc(cs@.skip(i + 1), cur@)));
            }
        } else {
            cur.push(cs[i]);
        }
        i += 1;
    }
    proof {
        assert(cs@.skip(cs@.len() as int) =~= Seq::<char>::empty());
    }
    let ghost before = views(segs@);
    let ghost cv = cur@;
    if cur.len() > 0 {
        segs.push(from_chars(&cur));
    }
    proof {
        assert(views(segs@) =~= before + nonempty_part(cv));
    }
    segs
}

/// The first `k` keys of a path.
fn path_prefix(segs: &Vec<String>, k: usize) -> (r: Vec<String>)
    requires
        k <= segs@.len(),
    ensures
        views(r@) == views(segs@).take(k as int),
{
    let mut out: Vec<String> = Vec::new();
    let mut i: usize = 0;
    while i < k
        invariant
            i <= k <= segs@.len(),
            views(out@) == views(segs@).take(i as int),
        decreases k - i,
    {
        let ghost before = views(out@);
        let x = string_of(segs[i].as_str());
        out.push(x);
        proof {
            assert(views(out@) =~= before.push(segs@[i as int]@));
            assert(views(segs@).take(i + 1) =~= views(segs@).take(i as int).push(views(segs@)[i as int]));
        }
        i += 1;
    }
    out
}

// ------------------------------------------------------------ formats

/// A structured document format.
#[derive(Debug, Clone, Copy, PartialEq, Eq, Structural)]
pub enum DocFormat {
    Toml,
    Json,
    Yaml,
}

/// The position of the last `c` in `s`.
pub open spec fn last_index_of(s: Seq<char>, c: char) -> Option<int>
    decreases s.len(),
{
    if s.len() == 0 {
        None
    } else if s.last() == c {
        Some(s.len() - 1)
    } else {
        last_index_of(s.drop_last(), c)
    }
}

/// The extension of a path, as `Path::extension`: what follows the last
/// dot of its file name, unless that name has no dot or its only dot leads.
pub open spec fn extension_spec(path: Seq<char>) -> Option<Seq<char>> {
    match file_name_spec(path) {
        None => None,
        Some(n) => match last_index_of(n, '.') {
            None => None,
            Some(i) => if i == 0 {
                None
            } else {
                Some(n.skip(i + 1))
            },
        },
    }
}

/// The document format a path's extension names.
pub open spec fn format_of(path: Seq<char>) -> Option<DocFormat> {
    match extension_spec(path) {
        Some(e) => if e == "toml"@ {
            Some(DocFormat::Toml)
        } else if e == "json"@ {
            Some(DocFormat::Json)
        } else if e == "yaml"@ || e == "yml"@ {
            Some(DocFormat::Yaml)
        } else {
            None
        },
        None => None,
    }
}

/// The extension of a path.
pub fn path_extension(path: &str) -> (r: Option<String>)
    ensures
        opt_string_view(r) == extension_spec(path@),
{
    let name = match file_name(path) {
        None => return None,
        Some(n) => n,
    };
    let cs = to_chars(name.as_str());
    let mut i: usize = cs.len();
    proof {
        assert(cs@.take(cs@.len() as int) =~= cs@);
    }
    while i > 0 && cs[i - 1] != '.'
        invariant
            i <= cs@.len(),
            last_index_of(cs@, '.') == last_index_of(cs@.take(i as int), '.'),
        decreases i,
    {
        proof {
            assert(cs@.take(i as int).drop_last() =~= cs@.take(i - 1));
        }
        i -= 1;
    }
    proof {
        assert(cs@.take(cs@.len() as int) =~= cs@);
    }
    if i <= 1 {
        proof {
            if i == 1 {
                assert(cs@.take(1)[0] == '.');
            }
        }
        return None;
    }
    proof {
        assert(cs@.take(i as int).last() == '.');
    }
    let mut tail: Vec<char> = Vec::new();
    let mut j: usize = i;
    while j < cs.len()
        invariant
            i <= j <= cs@.len(),
            tail@ == cs@.subrange(i as int, j as int),
        decreases cs@.len() - j,
    {
        tail.push(cs[j]);
        proof {
            assert(tail@ =~= cs@.subrange(i as int, j + 1));
        }
        j += 1;
    }
    proof {
        assert(tail@ =~= cs@.skip(i as int));
    }
    Some(from_chars(&tail))
}

/// The document format of a path.
pub fn path_format(path: &str) -> (r: Option<DocFormat>)
    ensures
        r == format_of(path@),
{
    match path_extension(path) {
        None => None,
        Some(e) => {
            let s = e.as_str();
            if crate::text::str_eq(s, "toml") {
                Some(DocFormat::Toml)
            } else if crate::text::str_eq(s, "json") {
                Some(DocFormat::Json)
            } else if crate::text::str_eq(s, "yaml") || crate::text::str_eq(s, "yml") {
                Some(DocFormat::Yaml)
            } else {
                None
            }
        },
    }
}

/// What the format's crate finds along `path`.
pub open spec fn node_at_spec(f: DocFormat, content: Seq<char>, path: Seq<Seq<char>>) -> Result<(NodeKind, Seq<char>), Seq<char>> {
    match f {
        DocFormat::Toml => spec_toml_node_at(content, path),
        DocFormat::Json => spec_json_node_at(content, path),
        DocFormat::Yaml => spec_yaml_node_at(content, path),
    }
}

/// What the format's crate writes after setting `key` of the table at
/// `parent`.
pub open spec fn insert_spec(f: DocFormat, content: Seq<char>, parent: Seq<Seq<char>>, key: Seq<char>, value: Option<
    Seq<char>,
>) -> Result<Seq<char>, Seq<char>> {
    match f {
        DocFormat::Toml => spec_toml_insert(content, parent, key, value),
        DocFormat::Json => spec_json_insert(content, parent, key, value),
        DocFormat::Yaml => spec_yaml_insert(content, parent, key, value),
    }
}

/// What the format's crate writes back for `content` unchanged.
pub open spec fn reformat_spec(f: DocFormat, content: Seq<char>) -> Result<Seq<char>, Seq<char>> {
    match f {
        DocFormat::Toml => spec_toml_reformat(content),
        DocFormat::Json => spec_json_reformat(content),
        DocFormat::Yaml => spec_yaml_reformat(content),
    }
}

fn node_at(f: DocFormat, content: &str, path: &Vec<String>) -> (r: Result<DocNode, String>)
    ensures
        node_result(r) == node_at_spec(f, content@, views(path@)),
{
    match f {
        DocFormat::Toml => toml_node_at(content, path),
        DocFormat::Json => json_node_at(content, path),
        DocFormat::Yaml => yaml_node_at(content, path),
    }
}

fn insert(f: DocFormat, content: &str, parent: &Vec<String>, key: &str, value: &NewNode) -> (r: Result<String, String>)
    ensures
        text_result(r) == insert_spec(f, content@, views(parent@), key@, crate::ecosystem::document::new_view(*value)),
{
    match f {
        DocFormat::Toml => toml_insert(content, parent, key, value),
        DocFormat::Json => json_insert(content, parent, key, value),
        DocFormat::Yaml => yaml_insert(content, parent, key, value),
    }
}

fn reformat(f: DocFormat, content: &str) -> (r: Result<String, String>)
    ensures
        text_result(r) == reformat_spec(f, content@),
{
    match f {
        DocFormat::Toml => toml_reformat(content),
        DocFormat::Json => json_reformat(content),
        DocFormat::Yaml => yaml_reformat(content),
    }
}

// ------------------------------------------------------------ reading and writing by path

/// The text of a string or a number.
pub open spec fn scalar_text(n: (NodeKind, Seq<char>)) -> Option<Seq<char>> {
    if n.0 == NodeKind::Text || n.0 == NodeKind::Number {
        Some(n.1)
    } else {
        None
    }
}

/// The document after the tables along `segs` from the `k`-th prefix on
/// are made (a missing one becomes an empty table) and the last key is set
/// to `v`; it is written back as it is once a step is neither a table nor
/// missing.
pub open spec fn set_from(f: DocFormat, cur: Seq<char>, segs: Seq<Seq<char>>, k: nat, v: Seq<char>) -> Result<
    Seq<char>,
    Seq<char>,
>
    decreases segs.len() - k,
{
    if k >= segs.len() {
        insert_spec(f, cur, segs.drop_last(), segs.last(), Some(v))
    } else {
        match node_at_spec(f, cur, segs.take(k as int)) {
            Err(e) => Err(e),
            Ok(n) => if n.0 == NodeKind::Table {
                set_from(f, cur, segs, k + 1, v)
            } else if n.0 == NodeKind::Missing && k > 0 {
                match insert_spec(f, cur, segs.take(k - 1), segs[k - 1], None) {
                    Err(e) => Err(e),
                    Ok(c2) => set_from(f, c2, segs, k + 1, v),
                }
            } else {
                reformat_spec(f, cur)
            },
        }
    }
}

/// The version held at `key_path` of the document at `path`: a string or a
/// number; none for an empty key path, a file that is not TOML, JSON or
/// YAML, or another value.
pub fn read_version_with_path(path: &str, content: &str, key_path: &str) -> (r: Result<Option<String>, HarmoniaError>)
    ensures
        ({
            let segs = key_segments(key_path@);
            if segs.len() == 0 {
                r matches Ok(None)
            } else {
                match format_of(path@) {
                    None => r matches Ok(None),
                    Some(f) => match node_at_spec(f, content@, segs) {
                        Ok(n) => r matches Ok(o) && opt_string_view(o) == scalar_text(n),
                        Err(e) => r matches Err(err) && is_other(err, e),
                    },
                }
            }
        }),
{
    let segs = key_path_segments(key_path);
    if segs.len() == 0 {
        return Ok(None);
    }
    let f = match path_format(path) {
        None => return Ok(None),
        Some(f) => f,
    };
    match node_at(f, content, &segs) {
        Err(e) => Err(HarmoniaError::Other(e)),
        Ok(n) => if n.kind == NodeKind::Text || n.kind == NodeKind::Number {
            Ok(Some(n.text))
        } else {
            Ok(None)
        },
    }
}

/// The document at `path` with `key_path` set to the new version's text,
/// making missing tables on the way; unchanged for an empty key path or a
/// file that is not TOML, JSON or YAML.
pub fn update_version_with_path(path: &str, content: &str, key_path: &str, new_version: &Version) -> (r: Result<
    String,
    HarmoniaError,
>)
    ensures
        ({
            let segs = key_segments(key_path@);
            if segs.len() == 0 {
                r matches Ok(t) && t@ == content@
            } else {
                match format_of(path@) {
                    None => r matches Ok(t) && t@ == content@,
                    Some(f) => match set_from(f, content@, segs, 0, new_version.raw@) {
                        Ok(s) => r matches Ok(t) && t@ == s,
                        Err(e) => r matches Err(err) && is_other(err, e),
                    },
                }
            }
        }),
{
    let segs = key_path_segments(key_path);
    if segs.len() == 0 {
        return Ok(string_of(content));
    }
    let f = match path_format(path) {
        None => return Ok(string_of(content)),
        Some(f) => f,
    };
    let ghost sv = views(segs@);
    let ghost v = new_version.raw@;
    let mut cur: String = string_of(content);
    let mut k: usize = 0;
    while k < segs.len()
        invariant
            sv == views(segs@),
            sv == key_segments(key_path@),
            format_of(path@) == Some(f),
            sv.len() > 0,
            v == new_version.raw@,
            k <= segs@.len(),
            set_from(f, cur@, sv, k as nat, v) == set_from(f, content@, sv, 0, v),
        decreases segs@.len() - k,
    {
        let prefix = path_prefix(&segs, k);
        let res = node_at(f, cur.as_str(), &prefix);
        proof {
            assert(views(prefix@) == sv.take(k as int));
            assert(node_result(res) == node_at_spec(f, cur@, sv.take(k as int)));
        }
        match res {
            Err(e) => {
                proof {
                    assert(set_from(f, cur@, sv, k as nat, v) == Err::<Seq<char>, Seq<char>>(e@));
                }
                return Err(HarmoniaError::Other(e));
            },
            Ok(n) => {
                if n.kind == NodeKind::Table {
                } else if n.kind == NodeKind::Missing && k > 0 {
                    let parent = path_prefix(&segs, k - 1);
                    let ins = insert(f, cur.as_str(), &parent, segs[k - 1].as_str(), &NewNode::Table);
                    proof {
                        assert(views(parent@) == sv.take(k - 1));
                        assert(segs@[k - 1]@ == sv[k - 1]);
                    }
                    match ins {
                        Err(e) => {
                            proof {
                                assert(set_from(f, cur@, sv, k as nat, v) == Err::<Seq<char>, Seq<char>>(e@));
                            }
                            return Err(HarmoniaError::Other(e));
                        },
                        Ok(c2) => {
                            cur = c2;
                        },
                    }
                } else {
                    return match reformat(f, cur.as_str()) {
                        Ok(t) => Ok(t),
                        Err(e) => Err(HarmoniaError::Other(e)),
                    };
                }
            },
        }
        k += 1;
    }
    let last = segs.len() - 1;
    let parent = path_prefix(&segs, last);
    proof {
        assert(sv.take(last as int) =~= sv.drop_last());
    }
    match insert(f, cur.as_str(), &parent, segs[last].as_str(), &NewNode::Text(new_version.raw.clone())) {
        Ok(t) => Ok(t),
        Err(e) => Err(HarmoniaError::Other(e)),
    }
}

// ------------------------------------------------------------ reading and writing by pattern

/// What `regex` finds for `pattern` in `text`: an error text when the
/// pattern does not compile; none without a match; for the first match,
/// none when its group 1 took no part, else the text before that group, the
/// group, and the text after it.
pub uninterp spec fn spec_regex_capture1(pattern: Seq<char>, text: Seq<char>) -> Result<
    Option<Option<(Seq<char>, Seq<char>, Seq<char>)>>,
    Seq<char>,
>;

/// A capture result as plain values.
pub open spec fn capture_view(r: Result<Option<Option<(String, String, String)>>, String>) -> Result<
    Option<Option<(Seq<char>, Seq<char>, Seq<char>)>>,
    Seq<char>,
> {
    match r {
        Ok(Some(Some(t))) => Ok(Some(Some((t.0@, t.1@, t.2@)))),
        Ok(Some(None)) => Ok(Some(None)),
        Ok(None) => Ok(None),
        Err(e) => Err(e@),
    }
}

/// Compiles `pattern` with `regex::Regex::new` and takes group 1 of the
/// first match that `Regex::captures` finds in `text`, with the text around
/// it. A match's bounds are positions in `text`, so the three parts make
/// up `text`.
#[verifier::external_body]
fn regex_capture1(pattern: &str, text: &str) -> (r: Result<Option<Option<(String, String, String)>>, String>)
    ensures
        capture_view(r) == spec_regex_capture1(pattern@, text@),
        r matches Ok(Some(Some(t))) ==> t.0@ + t.1@ + t.2@ == text@,
{
    let re = regex::Regex::new(pattern).map_err(|e| e.to_string())?;
    Ok(match re.captures(text) {
        None => None,
        Some(c) => match c.get(1) {
            None => Some(None),
            Some(m) => Some(Some((text[..m.start()].to_string(), m.as_str().to_string(), text[m.end()..].to_string()))),
        },
    })
}

/// The version that group 1 of `pattern` captures in `content`; none when
/// the pattern does not match.
pub fn read_version_with_pattern(pattern: &str, content: &str) -> (r: Result<Option<String>, HarmoniaError>)
    ensures
        match spec_regex_capture1(pattern@, content@) {
            Err(e) => r matches Err(err) && is_other(err, e),
            Ok(None) => r matches Ok(None),
            Ok(Some(None)) => r matches Err(err) && is_other(err, "version regex must include a capture group"@),
            Ok(Some(Some(t))) => r matches Ok(Some(s)) && s@ == t.1,
        },
{
    match regex_capture1(pattern, content) {
        Err(e) => Err(HarmoniaError::Other(e)),
        Ok(None) => Ok(None),
        Ok(Some(None)) => Err(HarmoniaError::Other(string_of("version regex must include a capture group"))),
        Ok(Some(Some(t))) => Ok(Some(t.1)),
    }
}

/// `content` with the text that group 1 of `pattern` captures replaced by
/// the new version's text.
pub fn update_version_with_pattern(pattern: &str, content: &str, new_version: &Version) -> (r: Result<
    String,
    HarmoniaError,
>)
    ensures
        match spec_regex_capture1(pattern@, content@) {
            Err(e) => r matches Err(err) && is_other(err, e),
            Ok(None) => r matches Err(err) && is_other(err, "version pattern did not match"@),
            Ok(Some(None)) => r matches Err(err) && is_other(err, "version regex must include a capture group"@),
            Ok(Some(Some(t))) => r matches Ok(s) && s@ == t.0 + new_version.raw@ + t.2,
        },
{
    match regex_capture1(pattern, content) {
        Err(e) => Err(HarmoniaError::Other(e)),
        Ok(None) => Err(HarmoniaError::Other(string_of("version pattern did not match"))),
        Ok(Some(None)) => Err(HarmoniaError::Other(string_of("version regex must include a capture group"))),
        Ok(Some(Some(t))) => Ok(concat3(t.0.as_str(), new_version.raw.as_str(), t.2.as_str())),
    }
}

} // verus!
