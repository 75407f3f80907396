//! What a TOML, JSON or YAML document holds along a path of keys, and
//! documents with one key set. Each call parses the whole text with the
//! format's crate; what it yields is a function of its arguments, named here.
use vstd::prelude::*;
use crate::order::views;

verus! {

/// The kind of value found along a path.
#[derive(Debug, Clone, Copy, PartialEq, Eq, Structural)]
pub enum NodeKind {
    /// Some key of the path is absent, or a step is not a table.
    Missing,
    /// A string.
    Text,
    /// A number, with its text as the format's crate writes it.
    Number,
    /// A table (a JSON object, a YAML mapping).
    Table,
    /// Anything else.
    Other,
}

/// A value found along a path: its kind and, for a string or a number, its
/// text (empty otherwise).
#[derive(Debug)]
pub struct DocNode {
    pub kind: NodeKind,
    pub text: String,
}

/// A value to set: a string, or an empty table.
#[derive(Debug)]
pub enum NewNode {
    Text(String),
    Table,
}

/// A node as plain values.
pub open spec fn node_view(n: DocNode) -> (NodeKind, Seq<char>) {
    (n.kind, n.text@)
}

/// A node result as plain values.
pub open spec fn node_result(r: Result<DocNode, String>) -> Result<(NodeKind, Seq<char>), Seq<char>> {
    match r {
        Ok(n) => Ok(node_view(n)),
        Err(e) => Err(e@),
    }
}

/// A value to set as plain values: the string, or none for an empty table.
pub open spec fn new_view(v: NewNode) -> Option<Seq<char>> {
    match v {
        NewNode::Text(s) => Some(s@),
        NewNode::Table => None,
    }
}

/// A text result as plain values.
pub open spec fn doc_text_result(r: Result<String, String>) -> Result<Seq<char>, Seq<char>> {
    match r {
        Ok(s) => Ok(s@),
        Err(e) => Err(e@),
    }
}

/// A list of keys as plain values.
pub open spec fn keys_result(r: Result<Option<Vec<String>>, String>) -> Result<Option<Seq<Seq<char>>>, Seq<char>> {
    match r {
        Ok(Some(v)) => Ok(Some(views(v@))),
        Ok(None) => Ok(None),
        Err(e) => Err(e@),
    }
}

impl DocNode {
    /// A node of the given kind and text.
    pub fn of(kind: NodeKind, text: String) -> (r: Self)
        ensures
            r.kind == kind,
            r.text@ == text@,
    {
        DocNode { kind, text }
    }

    /// A node of the given kind with no text.
    pub fn bare(kind: NodeKind) -> (r: Self)
        ensures
            r.kind == kind,
            r.text@ == Seq::<char>::empty(),
    {
        DocNode { kind, text: String::new() }
    }
}

/// The path of one key.
pub fn key_path1(a: &str) -> (r: Vec<String>)
    ensures
        views(r@) == seq![a@],
{
    let mut v: Vec<String> = Vec::new();
    v.push(crate::text::string_of(a));
    proof {
        assert(views(v@) =~= seq![a@]);
    }
    v
}

/// The path of two keys.
pub fn key_path2(a: &str, b: &str) -> (r: Vec<String>)
    ensures
        views(r@) == seq![a@, b@],
{
    let mut v: Vec<String> = Vec::new();
    v.push(crate::text::string_of(a));
    v.push(crate::text::string_of(b));
    proof {
        assert(views(v@) =~= seq![a@, b@]);
    }
    v
}

/// The path of three keys.
pub fn key_path3(a: &str, b: &str, c: &str) -> (r: Vec<String>)
    ensures
        views(r@) == seq![a@, b@, c@],
{
    let mut v: Vec<String> = Vec::new();
    v.push(crate::text::string_of(a));
    v.push(crate::text::string_of(b));
    v.push(crate::text::string_of(c));
    proof {
        assert(views(v@) =~= seq![a@, b@, c@]);
    }
    v
}

/// What `toml` finds in `content` along `path`.
pub uninterp spec fn spec_toml_node_at(content: Seq<char>, path: Seq<Seq<char>>) -> Result<(NodeKind, Seq<char>), Seq<char>>;

/// The keys `toml` lists, in its order, for the table in `content` at
/// `path`; none when there is no table there.
pub uninterp spec fn spec_toml_keys_at(content: Seq<char>, path: Seq<Seq<char>>) -> Result<Option<Seq<Seq<char>>>, Seq<char>>;

/// What `toml` writes after setting `key` of the table at `parent` (when
/// there is one) to `value`.
pub uninterp spec fn spec_toml_insert(content: Seq<char>, parent: Seq<Seq<char>>, key: Seq<char>, value: Option<Seq<char>>) -> Result<
    Seq<char>,
    Seq<char>,
>;

/// What `serde_json` finds in `content` along `path`.
pub uninterp spec fn spec_json_node_at(content: Seq<char>, path: Seq<Seq<char>>) -> Result<(NodeKind, Seq<char>), Seq<char>>;

/// What `serde_json` writes (pretty) after setting `key` of the object at
/// `parent` (when there is one) to `value`.
pub uninterp spec fn spec_json_insert(content: Seq<char>, parent: Seq<Seq<char>>, key: Seq<char>, value: Option<Seq<char>>) -> Result<
    Seq<char>,
    Seq<char>,
>;

/// What `serde_yaml` finds in `content` along `path`.
pub uninterp spec fn spec_yaml_node_at(content: Seq<char>, path: Seq<Seq<char>>) -> Result<(NodeKind, Seq<char>), Seq<char>>;

/// What `serde_yaml` writes after setting `key` of the mapping at `parent`
/// (when there is one) to `value`.
pub uninterp spec fn spec_yaml_insert(content: Seq<char>, parent: Seq<Seq<char>>, key: Seq<char>, value: Option<Seq<char>>) -> Result<
    Seq<char>,
    Seq<char>,
>;

/// What `serde_yaml` writes back for `content` unchanged.
pub uninterp spec fn spec_yaml_reformat(content: Seq<char>) -> Result<Seq<char>, Seq<char>>;

/// Parses `content` with `toml::from_str` and follows `path` with
/// `Value::get`; reports the kind found and the text of a string or number.
#[verifier::external_body]
pub(crate) fn toml_node_at(content: &str, path: &Vec<String>) -> (r: Result<DocNode, String>)
    ensures
        node_result(r) == spec_toml_node_at(content@, views(path@)),
{
    let mut cur: &toml::Value = &toml::from_str(content).map_err(|e: toml::de::Error| e.to_string())?;
    for seg in path.iter() {
        cur = match cur.get(seg.as_str()) { Some(v) => v, None => return Ok(DocNode::bare(NodeKind::Missing)) };
    }
    Ok(match cur {
        toml::Value::String(s) => DocNode::of(NodeKind::Text, s.clone()),
        toml::Value::Integer(i) => DocNode::of(NodeKind::Number, i.to_string()),
        toml::Value::Float(x) => DocNode::of(NodeKind::Number, x.to_string()),
        toml::Value::Table(_) => DocNode::bare(NodeKind::Table),
        _ => DocNode::bare(NodeKind::Other),
    })
}

/// Parses `content` with `toml::from_str`, follows `path` with `Value::get`
/// and lists the keys of the table found there.
#[verifier::external_body]
pub(crate) fn toml_keys_at(content: &str, path: &Vec<String>) -> (r: Result<Option<Vec<String>>, String>)
    ensures
        keys_result(r) == spec_toml_keys_at(content@, views(path@)),
{
    let mut cur: &toml::Value = &toml::from_str(content).map_err(|e: toml::de::Error| e.to_string())?;
    for seg in path.iter() {
        cur = match cur.get(seg.as_str()) { Some(v) => v, None => return Ok(None) };
    }
    match cur.as_table() {
        Some(t) => Ok(Some(t.keys().cloned().collect())),
        None => Ok(None),
    }
}

/// Parses `content` with `toml::from_str`, follows `parent` with
/// `Value::get_mut`, inserts `key` into the table found there, and writes
/// the document with `toml::to_string`.
#[verifier::external_body]
pub(crate) fn toml_insert(content: &str, parent: &Vec<String>, key: &str, value: &NewNode) -> (r: Result<String, String>)
    ensures
        doc_text_result(r) == spec_toml_insert(content@, views(parent@), key@, new_view(*value)),
{
    let mut root: toml::Value = toml::from_str(content).map_err(|e: toml::de::Error| e.to_string())?;
    let mut cur = Some(&mut root);
    for seg in parent.iter() {
        cur = match cur { Some(v) => v.get_mut(seg.as_str()), None => None };
    }
    if let Some(toml::Value::Table(t)) = cur {
        t.insert(key.to_string(), match value {
            NewNode::Text(s) => toml::Value::String(s.clone()),
            NewNode::Table => toml::Value::Table(toml::map::Map::new()),
        });
    }
    toml::to_string(&root).map_err(|e| e.to_string())
}

/// Parses `content` with `serde_json::from_str` and follows `path` with
/// `Value::get`; reports the kind found and the text of a string or number.
#[verifier::external_body]
pub(crate) fn json_node_at(content: &str, path: &Vec<String>) -> (r: Result<DocNode, String>)
    ensures
        node_result(r) == spec_json_node_at(content@, views(path@)),
{
    let mut cur: &serde_json::Value = &serde_json::from_str(content).map_err(|e| e.to_string())?;
    for seg in path.iter() {
        cur = match cur.get(seg.as_str()) { Some(v) => v, None => return Ok(DocNode::bare(NodeKind::Missing)) };
    }
    Ok(match cur {
        serde_json::Value::String(s) => DocNode::of(NodeKind::Text, s.clone()),
        serde_json::Value::Number(n) => DocNode::of(NodeKind::Number, n.to_string()),
        serde_json::Value::Object(_) => DocNode::bare(NodeKind::Table),
        _ => DocNode::bare(NodeKind::Other),
    })
}

/// Parses `content` with `serde_json::from_str`, follows `parent` with
/// `Value::get_mut`, inserts `key` into the object found there, and writes
/// the document with `serde_json::to_string_pretty`.
#[verifier::external_body]
pub(crate) fn json_insert(content: &str, parent: &Vec<String>, key: &str, value: &NewNode) -> (r: Result<String, String>)
    ensures
        doc_text_result(r) == spec_json_insert(content@, views(parent@), key@, new_view(*value)),
{
    let mut root: serde_json::Value = serde_json::from_str(content).map_err(|e| e.to_string())?;
    let mut cur = Some(&mut root);
    for seg in parent.iter() {
        cur = match cur { Some(v) => v.get_mut(seg.as_str()), None => None };
    }
    if let Some(serde_json::Value::Object(m)) = cur {
        m.insert(key.to_string(), match value {
            NewNode::Text(s) => serde_json::Value::String(s.clone()),
            NewNode::Table => serde_json::Value::Object(serde_json::Map::new()),
        });
    }
    serde_json::to_string_pretty(&root).map_err(|e| e.to_string())
}

/// Parses `content` with `serde_yaml::from_str` and follows `path` with
/// `Value::get`; reports the kind found (a tagged mapping counts as a
/// table, as `Value::as_mapping` sees it) and the text of a string or number.
#[verifier::external_body]
pub(crate) fn yaml_node_at(content: &str, path: &Vec<String>) -> (r: Result<DocNode, String>)
    ensures
        node_result(r) == spec_yaml_node_at(content@, views(path@)),
{
    let mut cur: &serde_yaml::Value = &serde_yaml::from_str(content).map_err(|e| e.to_string())?;
    for seg in path.iter() {
        cur = match cur.get(seg.as_str()) { Some(v) => v, None => return Ok(DocNode::bare(NodeKind::Missing)) };
    }
    Ok(match cur {
        serde_yaml::Value::String(s) => DocNode::of(NodeKind::Text, s.clone()),
        serde_yaml::Value::Number(n) => DocNode::of(NodeKind::Number, n.to_string()),
        _ if cur.as_mapping().is_some() => DocNode::bare(NodeKind::Table),
        _ => DocNode::bare(NodeKind::Other),
    })
}

/// Parses `content` with `serde_yaml::from_str`, follows `parent` with
/// `Value::get_mut`, inserts `key` into the mapping that `Value::as_mapping_mut`
/// finds there, and writes
/// the document with `serde_yaml::to_string`.
#[verifier::external_body]
pub(crate) fn yaml_insert(content: &str, parent: &Vec<String>, key: &str, value: &NewNode) -> (r: Result<String, String>)
    ensures
        doc_text_result(r) == spec_yaml_insert(content@, views(parent@), key@, new_view(*value)),
{
    let mut root: serde_yaml::Value = serde_yaml::from_str(content).map_err(|e| e.to_string())?;
    let mut cur = Some(&mut root);
    for seg in parent.iter() {
        cur = match cur { Some(v) => v.get_mut(seg.as_str()), None => None };
    }
    if let Some(m) = match cur { Some(v) => v.as_mapping_mut(), None => None } {
        m.insert(serde_yaml::Value::String(key.to_string()), match value {
            NewNode::Text(s) => serde_yaml::Value::String(s.clone()),
            NewNode::Table => serde_yaml::Value::Mapping(serde_yaml::Mapping::new()),
        });
    }
    serde_yaml::to_string(&root).map_err(|e| e.to_string())
}

/// Parses `content` with `serde_yaml::from_str` and writes it back with
/// `serde_yaml::to_string`.
#[verifier::external_body]
pub(crate) fn yaml_reformat(content: &str) -> (r: Result<String, String>)
    ensures
        doc_text_result(r) == spec_yaml_reformat(content@),
{
    let root: serde_yaml::Value = serde_yaml::from_str(content).map_err(|e| e.to_string())?;
    serde_yaml::to_string(&root).map_err(|e| e.to_string())
}

} // verus!
