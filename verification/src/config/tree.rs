//! The workspace configuration file as a tree of values, and the edits the
//! `config` and `repo` commands make to it.
use vstd::prelude::*;
use crate::error::HarmoniaError;
use crate::order::views;
use crate::text::{push_str, str_eq, string_of, to_chars, from_chars};

verus! {

/// A value of the configuration file.
#[derive(Debug)]
pub enum ConfigValue {
    Text(String),
    Integer(i64),
    Boolean(bool),
    /// A float or a date, as the file writes it.
    Other(String),
    Array(Vec<ConfigValue>),
    Table(ConfigTable),
}

/// A table of the configuration file: its keys with their values.
#[derive(Debug)]
pub struct ConfigTable {
    pub entries: Vec<(String, ConfigValue)>,
}

/// The pieces of `s` between separators `sep`, after a piece that has read
/// `cur` so far; empty pieces are dropped.
pub open spec fn pieces_acc(s: Seq<char>, sep: char, cur: Seq<char>) -> Seq<Seq<char>>
    decreases s.len(),
{
    if s.len() == 0 {
        if cur.len() == 0 {
            Seq::empty()
        } else {
            seq![cur]
        }
    } else if s[0] == sep {
        (if cur.len() == 0 {
            Seq::empty()
        } else {
            seq![cur]
        }) + pieces_acc(s.drop_first(), sep, Seq::empty())
    } else {
        pieces_acc(s.drop_first(), sep, cur.push(s[0]))
    }
}

/// The segments of a dotted configuration key, empty ones dropped.
pub open spec fn key_segments(key: Seq<char>) -> Seq<Seq<char>> {
    pieces_acc(key, '.', Seq::empty())
}

/// The segments of a dotted configuration key.
pub fn config_key_segments(key: &str) -> (r: Vec<String>)
    ensures
        views(r@) == key_segments(key@),
{
    let cs = to_chars(key);
    let mut out: Vec<String> = Vec::new();
    let mut cur: Vec<char> = Vec::new();
    let mut i: usize = 0;
    proof {
        assert(cs@.skip(0) =~= cs@);
        assert(views(out@) + pieces_acc(cs@, '.', cur@) =~= pieces_acc(cs@, '.', cur@));
        assert(cur@ =~= Seq::<char>::empty());
    }
    while i < cs.len()
        invariant
            cs@ == key@,
            i <= cs@.len(),
            views(out@) + pieces_acc(cs@.skip(i as int), '.', cur@) == key_segments(key@),
        decreases cs@.len() - i,
    {
        let ghost rest = cs@.skip(i as int);
        proof {
            assert(rest.drop_first() =~= cs@.skip(i + 1));
            assert(rest[0] == cs@[i as int]);
        }
        if cs[i] == '.' {
            let ghost before = views(out@);
            let ghost cv = cur@;
            if cur.len() > 0 {
                out.push(from_chars(&cur));
                proof {
                    assert(views(out@) =~= before + seq![cv]);
                }
            } else {
                proof {
                    assert(views(out@) =~= before + Seq::<Seq<char>>::empty());
                }
            }
            cur = Vec::new();
            proof {
                let head: Seq<Seq<char>> = if cv.len() == 0 {
                    Seq::empty()
                } else {
                    seq![cv]
                };
                assert(views(out@) =~= before + head);
                assert(before + head + pieces_acc(cs@.skip(i + 1), '.', Seq::empty()) =~= before + (head + pieces_acc(
                    cs@.skip(i + 1),
                    '.',
                    Seq::empty(),
                )));
                assert(cur@ =~= Seq::<char>::empty());
            }
        } else {
            cur.push(cs[i]);
        }
        i += 1;
    }
    proof {
        assert(cs@.skip(cs@.len() as int) =~= Seq::<char>::empty());
    }
    if cur.len() > 0 {
        let ghost before = views(out@);
        let ghost cv = cur@;
        out.push(from_chars(&cur));
        proof {
            assert(views(out@) =~= before + seq![cv]);
        }
    } else {
        proof {
            assert(views(out@) + Seq::<Seq<char>>::empty() =~= views(out@));
        }
    }
    out
}

/// The position of the first entry with key `k`.
pub open spec fn entry_index(es: Seq<(String, ConfigValue)>, k: Seq<char>) -> Option<int>
    decreases es.len(),
{
    if es.len() == 0 {
        None
    } else if es[0].0@ == k {
        Some(0)
    } else {
        match entry_index(es.drop_first(), k) {
            Some(i) => Some(i + 1),
            None => None,
        }
    }
}

/// The value of the first entry with key `k`.
pub open spec fn entry_value(es: Seq<(String, ConfigValue)>, k: Seq<char>) -> Option<ConfigValue> {
    match entry_index(es, k) {
        Some(i) => Some(es[i].1),
        None => None,
    }
}

proof fn lemma_entry_index_at(es: Seq<(String, ConfigValue)>, k: Seq<char>, i: int)
    requires
        0 <= i <= es.len(),
        forall|j: int| 0 <= j < i ==> #[trigger] es[j].0@ != k,
        i == es.len() || es[i].0@ == k,
    ensures
        entry_index(es, k) == (if i == es.len() { None } else { Some(i) }),
    decreases i,
{
    if i > 0 {
        let t = es.drop_first();
        assert forall|j: int| 0 <= j < i - 1 implies #[trigger] t[j].0@ != k by {
            assert(t[j] == es[j + 1]);
        }
        if i < es.len() {
            assert(t[i - 1] == es[i]);
        }
        lemma_entry_index_at(t, k, i - 1);
    }
}

/// Where `entry_index` finds a key, earlier entries have other keys.
pub proof fn lemma_entry_index_found(es: Seq<(String, ConfigValue)>, k: Seq<char>)
    ensures
        entry_index(es, k) matches Some(i) ==> 0 <= i < es.len() && es[i].0@ == k && forall|j: int|
            0 <= j < i ==> #[trigger] es[j].0@ != k,
        entry_index(es, k) is None ==> forall|j: int| 0 <= j < es.len() ==> #[trigger] es[j].0@ != k,
    decreases es.len(),
{
    if es.len() > 0 && es[0].0@ != k {
        let t = es.drop_first();
        lemma_entry_index_found(t, k);
        assert forall|j: int| 1 <= j < es.len() implies es[j] == #[trigger] t[j - 1] by {}
        if let Some(i) = entry_index(t, k) {
            assert forall|j: int| 0 <= j < i + 1 implies #[trigger] es[j].0@ != k by {
                if j > 0 {
                    assert(es[j] == t[j - 1]);
                }
            }
        } else {
            assert forall|j: int| 0 <= j < es.len() implies #[trigger] es[j].0@ != k by {
                if j > 0 {
                    assert(es[j] == t[j - 1]);
                }
            }
        }
    }
}

/// Entries with the same keys in the same places find keys alike.
proof fn lemma_same_keys(a: Seq<(String, ConfigValue)>, b: Seq<(String, ConfigValue)>, k: Seq<char>)
    requires
        a.len() == b.len(),
        forall|j: int| 0 <= j < a.len() ==> #[trigger] a[j].0@ == b[j].0@,
    ensures
        entry_index(a, k) == entry_index(b, k),
    decreases a.len(),
{
    if a.len() > 0 {
        let (ta, tb) = (a.drop_first(), b.drop_first());
        assert forall|j: int| 0 <= j < ta.len() implies #[trigger] ta[j].0@ == tb[j].0@ by {
            assert(ta[j] == a[j + 1] && tb[j] == b[j + 1]);
        }
        lemma_same_keys(ta, tb, k);
        assert(a[0].0@ == b[0].0@);
    }
}

/// An entry pushed at the end is found only where no earlier one is.
proof fn lemma_entry_push(a: Seq<(String, ConfigValue)>, e: (String, ConfigValue), k: Seq<char>)
    ensures
        entry_index(a.push(e), k) == match entry_index(a, k) {
            Some(i) => Some(i),
            None => if e.0@ == k {
                Some(a.len() as int)
            } else {
                None
            },
        },
{
    lemma_entry_index_found(a, k);
    let b = a.push(e);
    match entry_index(a, k) {
        Some(i) => {
            assert forall|j: int| 0 <= j < i implies #[trigger] b[j].0@ != k by {
                assert(b[j] == a[j]);
            }
            assert(b[i] == a[i]);
            lemma_entry_index_at(b, k, i);
        },
        None => {
            assert forall|j: int| 0 <= j < a.len() implies #[trigger] b[j].0@ != k by {
                assert(b[j] == a[j]);
            }
            if e.0@ == k {
                lemma_entry_index_at(b, k, a.len() as int);
            } else {
                lemma_entry_index_at(b, k, b.len() as int);
            }
        },
    }
}

/// The position of the first entry with key `k`.
pub fn find_entry(es: &Vec<(String, ConfigValue)>, k: &str) -> (r: Option<usize>)
    ensures
        r matches Some(p) ==> entry_index(es@, k@) == Some(p as int) && p < es@.len(),
        r is None <==> entry_index(es@, k@) is None,
{
    let mut i: usize = 0;
    while i < es.len()
        invariant
            i <= es@.len(),
            forall|j: int| 0 <= j < i ==> #[trigger] es@[j].0@ != k@,
        decreases es@.len() - i,
    {
        if str_eq(es[i].0.as_str(), k) {
            proof {
                lemma_entry_index_at(es@, k@, i as int);
            }
            return Some(i);
        }
        i += 1;
    }
    proof {
        lemma_entry_index_at(es@, k@, es@.len() as int);
    }
    None
}

/// The value at the path `segs`, each segment a key of a table.
pub open spec fn lookup(v: ConfigValue, segs: Seq<Seq<char>>) -> Option<ConfigValue>
    decreases segs.len(),
{
    if segs.len() == 0 {
        Some(v)
    } else {
        match v {
            ConfigValue::Table(t) => match entry_value(t.entries@, segs[0]) {
                Some(c) => lookup(c, segs.drop_first()),
                None => None,
            },
            _ => None,
        }
    }
}

/// The value at a dotted key; nothing for an empty key.
pub open spec fn spec_config_get(v: ConfigValue, key: Seq<char>) -> Option<ConfigValue> {
    if key_segments(key).len() == 0 {
        None
    } else {
        lookup(v, key_segments(key))
    }
}

/// The value at a dotted key.
pub fn workspace_config_get<'a>(value: &'a ConfigValue, key: &str) -> (r: Option<&'a ConfigValue>)
    ensures
        match spec_config_get(*value, key@) {
            Some(x) => r matches Some(y) && *y == x,
            None => r is None,
        },
{
    let segs = config_key_segments(key);
    if segs.len() == 0 {
        return None;
    }
    let ghost sv = views(segs@);
    let mut cur: &'a ConfigValue = value;
    let mut i: usize = 0;
    proof {
        assert(sv.skip(0) =~= sv);
    }
    while i < segs.len()
        invariant
            sv == views(segs@),
            sv == key_segments(key@),
            sv.len() > 0,
            i <= sv.len(),
            lookup(*value, sv) == lookup(*cur, sv.skip(i as int)),
        decreases sv.len() - i,
    {
        proof {
            assert(sv.skip(i as int)[0] == sv[i as int]);
            assert(sv.skip(i as int).drop_first() =~= sv.skip(i + 1));
        }
        match cur {
            ConfigValue::Table(t) => match find_entry(&t.entries, segs[i].as_str()) {
                Some(p) => {
                    proof {
                        assert(sv[i as int] == segs@[i as int]@);
                        assert(entry_index(t.entries@, segs@[i as int]@) == Some(p as int));
                        assert(entry_value(t.entries@, sv[i as int]) == Some(t.entries@[p as int].1));
                    }
                    cur = &t.entries[p].1;
                },
                None => {
                    return None;
                },
            },
            _ => {
                return None;
            },
        }
        i += 1;
    }
    proof {
        assert(sv.skip(sv.len() as int) =~= Seq::<Seq<char>>::empty());
    }
    Some(cur)
}

/// The entries of a table; none for anything else or for nothing.
pub open spec fn table_entries(v: Option<ConfigValue>) -> Seq<(String, ConfigValue)> {
    match v {
        Some(ConfigValue::Table(t)) => t.entries@,
        _ => Seq::empty(),
    }
}

/// `new` is `old` (a table, or nothing, which counts as an empty table)
/// with `nv` set at the path `segs`, tables made where missing; every other
/// key keeps its value.
pub open spec fn set_result(old: Option<ConfigValue>, new: ConfigValue, segs: Seq<Seq<char>>, nv: ConfigValue) -> bool
    decreases segs.len(),
{
    if segs.len() == 0 {
        false
    } else {
        match new {
            ConfigValue::Table(t) => {
                &&& forall|k: Seq<char>| k != segs[0] ==> #[trigger] entry_value(t.entries@, k) == entry_value(
                    table_entries(old),
                    k,
                )
                &&& match entry_value(t.entries@, segs[0]) {
                    Some(c) => if segs.len() == 1 {
                        c == nv
                    } else {
                        set_result(entry_value(table_entries(old), segs[0]), c, segs.drop_first(), nv)
                    },
                    None => false,
                }
            },
            _ => false,
        }
    }
}

/// The first segment, before the last, whose value exists and is not a
/// table, looking from the table `cur` (nothing counts as an empty table).
pub open spec fn blocked_at(cur: Option<ConfigValue>, segs: Seq<Seq<char>>) -> Option<Seq<char>>
    decreases segs.len(),
{
    if segs.len() < 2 {
        None
    } else {
        match cur {
            None => None,
            Some(ConfigValue::Table(t)) => match entry_value(t.entries@, segs[0]) {
                None => None,
                Some(c) => if c is Table {
                    blocked_at(Some(c), segs.drop_first())
                } else {
                    Some(segs[0])
                },
            },
            Some(_) => Some(segs[0]),
        }
    }
}

/// Why a value cannot be set at a dotted key, if it cannot.
pub open spec fn spec_set_error(root: ConfigValue, key: Seq<char>) -> Option<Seq<char>> {
    let segs = key_segments(key);
    if segs.len() == 0 {
        Some("config key cannot be empty"@)
    } else if segs.len() == 1 && !(root is Table) {
        Some("cannot set '"@ + key + "' because parent path is not a table"@)
    } else {
        match blocked_at(Some(root), segs) {
            Some(s) => Some("cannot set '"@ + key + "' because '"@ + s + "' is not a table"@),
            None => None,
        }
    }
}

/// The position of the segment that blocks setting a value at `segs`.
fn find_block(root: &ConfigValue, segs: &Vec<String>) -> (r: Option<usize>)
    ensures
        match blocked_at(Some(*root), views(segs@)) {
            Some(s) => r matches Some(i) && i < segs@.len() && segs@[i as int]@ == s,
            None => r is None,
        },
{
    let ghost sv = views(segs@);
    let n = segs.len();
    if n < 2 {
        return None;
    }
    let mut cur: &ConfigValue = root;
    let mut i: usize = 0;
    proof {
        assert(sv.skip(0) =~= sv);
    }
    while i < n - 1
        invariant
            sv == views(segs@),
            n == sv.len(),
            n >= 2,
            i <= n - 1,
            blocked_at(Some(*root), sv) == blocked_at(Some(*cur), sv.skip(i as int)),
        decreases sv.len() - i,
    {
        proof {
            assert(sv.skip(i as int)[0] == sv[i as int]);
            assert(sv.skip(i as int).drop_first() =~= sv.skip(i + 1));
        }
        match cur {
            ConfigValue::Table(t) => match find_entry(&t.entries, segs[i].as_str()) {
                Some(p) => {
                    proof {
                        assert(sv[i as int] == segs@[i as int]@);
                        assert(entry_value(t.entries@, sv[i as int]) == Some(t.entries@[p as int].1));
                    }
                    let child = &t.entries[p].1;
                    match child {
                        ConfigValue::Table(_) => {
                            cur = child;
                        },
                        _ => {
                            proof {
                                assert(sv[i as int] == segs@[i as int]@);
                            }
                            return Some(i);
                        },
                    }
                },
                None => {
                    return None;
                },
            },
            _ => {
                proof {
                    assert(sv[i as int] == segs@[i as int]@);
                }
                return Some(i);
            },
        }
        i += 1;
    }
    proof {
        assert(sv.skip(i as int).len() == 1);
    }
    None
}

/// `nv` set at the path `segs` from `start` on, in the table `cur` (or in a
/// new table).
fn set_owned(cur: Option<ConfigValue>, segs: &Vec<String>, start: usize, nv: ConfigValue) -> (r: ConfigValue)
    requires
        start < segs@.len(),
        cur is None || cur matches Some(ConfigValue::Table(_)),
        blocked_at(cur, views(segs@).skip(start as int)) is None,
    ensures
        set_result(cur, r, views(segs@).skip(start as int), nv),
    decreases segs@.len() - start,
{
    let ghost sv = views(segs@).skip(start as int);
    let n = segs.len();
    proof {
        assert(sv[0] == segs@[start as int]@);
        assert(sv.drop_first() =~= views(segs@).skip(start + 1));
    }
    let mut entries: Vec<(String, ConfigValue)> = match cur {
        Some(ConfigValue::Table(t)) => t.entries,
        _ => Vec::new(),
    };
    let ghost before = entries@;
    assert(before == table_entries(cur));
    let pos = find_entry(&entries, segs[start].as_str());
    proof {
        lemma_entry_index_found(before, sv[0]);
    }
    if start + 1 == n {
        match pos {
            Some(p) => {
                let ghost nvv = nv;
                let kstr = string_of(segs[start].as_str());
                entries.set(p, (kstr, nv));
                proof {
                    assert(before[p as int].0@ == sv[0]);
                    assert(entries@[p as int].0@ == sv[0]);
                    assert forall|j: int| 0 <= j < before.len() implies #[trigger] before[j].0@ == entries@[j].0@ by {}
                    assert forall|k: Seq<char>| #[trigger] entry_value(entries@, k) == (if k == sv[0] {
                        Some(nvv)
                    } else {
                        entry_value(before, k)
                    }) by {
                        lemma_same_keys(before, entries@, k);
                        lemma_entry_index_found(before, k);
                    }
                }
            },
            None => {
                let ghost nvv = nv;
                entries.push((string_of(segs[start].as_str()), nv));
                proof {
                    assert forall|k: Seq<char>| #[trigger] entry_value(entries@, k) == (if k == sv[0] {
                        Some(nvv)
                    } else {
                        entry_value(before, k)
                    }) by {
                        assert(entries@ =~= before.push(entries@.last()));
                        lemma_entry_push(before, entries@.last(), k);
                        lemma_entry_index_found(before, k);
                    }
                }
            },
        }
        proof {
            assert(sv.len() == 1);
        }
    } else {
        match pos {
            Some(p) => {
                let (k0, child) = entries.remove(p);
                let ghost old_child = child;
                proof {
                    assert(old_child == before[p as int].1);
                    assert(entry_value(before, sv[0]) == Some(old_child));
                    if !(old_child is Table) {
                        assert(blocked_at(cur, sv) == Some(sv[0]));
                    }
                    assert(blocked_at(Some(old_child), sv.drop_first()) is None);
                }
                let newc = set_owned(Some(child), segs, start + 1, nv);
                let ghost nc = newc;
                entries.insert(p, (k0, newc));
                proof {
                    assert(entries@ =~= before.update(p as int, (before[p as int].0, nc)));
                    assert forall|j: int| 0 <= j < before.len() implies #[trigger] before[j].0@ == entries@[j].0@ by {}
                    assert forall|k: Seq<char>| #[trigger] entry_value(entries@, k) == (if k == sv[0] {
                        Some(nc)
                    } else {
                        entry_value(before, k)
                    }) by {
                        lemma_same_keys(before, entries@, k);
                        lemma_entry_index_found(before, k);
                    }
                }
            },
            None => {
                let newc = set_owned(None, segs, start + 1, nv);
                let ghost nc = newc;
                entries.push((string_of(segs[start].as_str()), newc));
                proof {
                    assert forall|k: Seq<char>| #[trigger] entry_value(entries@, k) == (if k == sv[0] {
                        Some(nc)
                    } else {
                        entry_value(before, k)
                    }) by {
                        assert(entries@ =~= before.push(entries@.last()));
                        lemma_entry_push(before, entries@.last(), k);
                        lemma_entry_index_found(before, k);
                    }
                }
            },
        }
    }
    ConfigValue::Table(ConfigTable { entries })
}

/// Sets `new_value` at a dotted key, making the tables on the way that are
/// missing; an error, with nothing changed, when the key is empty or a value
/// on the way is not a table.
pub fn workspace_config_set(value: &mut ConfigValue, key: &str, new_value: ConfigValue) -> (r: Result<(), HarmoniaError>)
    ensures
        match spec_set_error(*old(value), key@) {
            Some(m) => (r matches Err(HarmoniaError::Other(e)) && e@ == m) && *final(value) == *old(value),
            None => r is Ok && set_result(Some(*old(value)), *final(value), key_segments(key@), new_value),
        },
{
    let segs = config_key_segments(key);
    if segs.len() == 0 {
        return Err(HarmoniaError::Other(string_of("config key cannot be empty")));
    }
    let is_table = match &*value {
        ConfigValue::Table(_) => true,
        _ => false,
    };
    if segs.len() == 1 && !is_table {
        let mut m = string_of("cannot set '");
        push_str(&mut m, key);
        push_str(&mut m, "' because parent path is not a table");
        return Err(HarmoniaError::Other(m));
    }
    match find_block(&*value, &segs) {
        Some(i) => {
            let mut m = string_of("cannot set '");
            push_str(&mut m, key);
            push_str(&mut m, "' because '");
            push_str(&mut m, segs[i].as_str());
            push_str(&mut m, "' is not a table");
            return Err(HarmoniaError::Other(m));
        },
        None => {},
    }
    proof {
        assert(views(segs@).skip(0) =~= views(segs@));
        if !is_table {
            assert(blocked_at(Some(*value), views(segs@)) == Some(views(segs@)[0]));
        }
    }
    let mut taken = ConfigValue::Boolean(false);
    std::mem::swap(&mut taken, value);
    *value = set_owned(Some(taken), &segs, 0, new_value);
    Ok(())
}

/// Every key but `key` has the same value in `b` as in `a`.
pub open spec fn same_except(a: Seq<(String, ConfigValue)>, b: Seq<(String, ConfigValue)>, key: Seq<char>) -> bool {
    forall|k: Seq<char>| k != key ==> #[trigger] entry_value(b, k) == entry_value(a, k)
}

/// Sets `key` to `v` in a table's entries, in place of its first entry or
/// at the end.
pub fn put_entry(es: &mut Vec<(String, ConfigValue)>, key: &str, v: ConfigValue)
    ensures
        same_except(old(es)@, final(es)@, key@),
        entry_value(final(es)@, key@) == Some(v),
{
    let ghost before = es@;
    let ghost vv = v;
    proof {
        lemma_entry_index_found(before, key@);
    }
    match find_entry(es, key) {
        Some(p) => {
            es.set(p, (string_of(key), v));
            proof {
                assert forall|j: int| 0 <= j < before.len() implies #[trigger] before[j].0@ == es@[j].0@ by {}
                assert forall|k: Seq<char>| #[trigger] entry_value(es@, k) == (if k == key@ {
                    Some(vv)
                } else {
                    entry_value(before, k)
                }) by {
                    lemma_same_keys(before, es@, k);
                    lemma_entry_index_found(before, k);
                }
            }
        },
        None => {
            es.push((string_of(key), v));
            proof {
                assert forall|k: Seq<char>| #[trigger] entry_value(es@, k) == (if k == key@ {
                    Some(vv)
                } else {
                    entry_value(before, k)
                }) by {
                    assert(es@ =~= before.push(es@.last()));
                    lemma_entry_push(before, es@.last(), k);
                    lemma_entry_index_found(before, k);
                }
            }
        },
    }
}

/// Takes the value of entry `p` out, leaving `false` in its place.
pub fn take_entry(es: &mut Vec<(String, ConfigValue)>, p: usize) -> (r: ConfigValue)
    requires
        p < old(es)@.len(),
    ensures
        r == old(es)@[p as int].1,
        final(es)@ == old(es)@.update(p as int, (old(es)@[p as int].0, ConfigValue::Boolean(false))),
{
    let (k, v) = es.remove(p);
    es.insert(p, (k, ConfigValue::Boolean(false)));
    v
}

/// Taking a value out keeps every key where it was.
pub proof fn lemma_take_keeps_keys(a: Seq<(String, ConfigValue)>, p: int, v: ConfigValue, k: Seq<char>)
    requires
        0 <= p < a.len(),
    ensures
        entry_index(a.update(p, (a[p].0, v)), k) == entry_index(a, k),
{
    lemma_same_keys(a, a.update(p, (a[p].0, v)), k);
}

/// Removes every entry with key `key`.
pub fn remove_key(es: Vec<(String, ConfigValue)>, key: &str) -> (r: Vec<(String, ConfigValue)>)
    ensures
        same_except(es@, r@, key@),
        entry_value(r@, key@) is None,
{
    let ghost orig = es@;
    let mut rest = es;
    let total = rest.len();
    let mut out: Vec<(String, ConfigValue)> = Vec::new();
    let mut i: usize = 0;
    while rest.len() > 0
        invariant
            orig.len() == total,
            i <= orig.len(),
            rest@ == orig.skip(i as int),
            rest@.len() == orig.len() - i,
            forall|k: Seq<char>| k != key@ ==> #[trigger] entry_value(out@, k) == entry_value(orig.take(i as int), k),
            entry_value(out@, key@) is None,
        decreases rest@.len(),
    {
        proof {
            assert(rest@[0] == orig[i as int]);
        }
        let e = rest.remove(0);
        proof {
            assert(rest@ =~= orig.skip(i + 1));
            assert(orig.take(i + 1) =~= orig.take(i as int).push(orig[i as int]));
        }
        let ghost before = out@;
        let ghost ev = e;
        if !str_eq(e.0.as_str(), key) {
            out.push(e);
            proof {
                assert(out@ =~= before.push(ev));
                assert forall|k: Seq<char>| k != key@ implies #[trigger] entry_value(out@, k) == entry_value(orig.take(i + 1), k) by {
                    assert(entry_value(before, k) == entry_value(orig.take(i as int), k));
                    lemma_entry_push(before, ev, k);
                    lemma_entry_push(orig.take(i as int), ev, k);
                    lemma_entry_index_found(before, k);
                    lemma_entry_index_found(orig.take(i as int), k);
                    assert(orig.take(i + 1) == orig.take(i as int).push(ev));
                    if let Some(a) = entry_index(before, k) {
                        assert(out@[a] == before[a]);
                    }
                    if let Some(b) = entry_index(orig.take(i as int), k) {
                        assert(orig.take(i + 1)[b] == orig.take(i as int)[b]);
                    }
                    assert(out@[before.len() as int] == ev);
                    assert(orig.take(i + 1)[i as int] == ev);
                }
                lemma_entry_push(before, ev, key@);
            }
        } else {
            proof {
                assert(ev.0@ == key@);
                assert forall|k: Seq<char>| k != key@ implies #[trigger] entry_value(out@, k) == entry_value(orig.take(i + 1), k) by {
                    assert(entry_value(out@, k) == entry_value(orig.take(i as int), k));
                    lemma_entry_push(orig.take(i as int), ev, k);
                    lemma_entry_index_found(orig.take(i as int), k);
                    assert(orig.take(i + 1) == orig.take(i as int).push(ev));
                    if let Some(j) = entry_index(orig.take(i as int), k) {
                        assert(orig.take(i + 1)[j] == orig.take(i as int)[j]);
                    }
                }
            }
        }
        i += 1;
    }
    proof {
        assert(orig.take(i as int) =~= orig);
    }
    out
}

/// Taking the value of the first entry for `key` out changes only that
/// key's value.
pub proof fn lemma_take_entry(es: Seq<(String, ConfigValue)>, key: Seq<char>, p: int)
    requires
        entry_index(es, key) == Some(p),
    ensures
        forall|k: Seq<char>| #[trigger] entry_value(es.update(p, (es[p].0, ConfigValue::Boolean(false))), k) == (if k == key {
            Some(ConfigValue::Boolean(false))
        } else {
            entry_value(es, k)
        }),
{
    lemma_entry_index_found(es, key);
    assert forall|k: Seq<char>| #[trigger] entry_value(es.update(p, (es[p].0, ConfigValue::Boolean(false))), k) == (if k
        == key {
        Some(ConfigValue::Boolean(false))
    } else {
        entry_value(es, k)
    }) by {
        lemma_take_keeps_keys(es, p, ConfigValue::Boolean(false), k);
        lemma_entry_index_found(es, k);
    }
}

} // verus!
