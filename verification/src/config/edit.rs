//! The `repo` commands on the configuration file: listing, showing, adding
//! and removing repositories.
use vstd::prelude::*;
use crate::cli::status::{pad_right, push_padded_right};
use crate::cli::args::RepoAddArgs;
use crate::config::tree::{ConfigTable, ConfigValue, entry_index, entry_value, find_entry, lemma_entry_index_found,
    lemma_take_entry, lemma_take_keeps_keys, put_entry, remove_key, same_except, take_entry};
use crate::error::HarmoniaError;
use crate::order::{insert_sorted_unique, strictly_sorted, views};
use crate::text::{push_str, str_eq, string_of};

verus! {

/// The `[repos]` table's entries, when the root is a table holding one.
pub open spec fn repos_table(root: ConfigValue) -> Option<Seq<(String, ConfigValue)>> {
    match root {
        ConfigValue::Table(t) => match entry_value(t.entries@, "repos"@) {
            Some(ConfigValue::Table(r)) => Some(r.entries@),
            _ => None,
        },
        _ => None,
    }
}

/// The entries of a table value; none for anything else.
pub open spec fn entries_of(v: Option<ConfigValue>) -> Seq<(String, ConfigValue)> {
    match v {
        Some(ConfigValue::Table(t)) => t.entries@,
        _ => Seq::empty(),
    }
}

/// The text at `key` of a repository entry, if it is text.
pub open spec fn text_at(es: Seq<(String, ConfigValue)>, key: Seq<char>) -> Option<Seq<char>> {
    match entry_value(es, key) {
        Some(ConfigValue::Text(s)) => Some(s@),
        _ => None,
    }
}

/// The flag at `key` of a repository entry; false unless it is `true`.
pub open spec fn flag_at(es: Seq<(String, ConfigValue)>, key: Seq<char>) -> bool {
    match entry_value(es, key) {
        Some(ConfigValue::Boolean(b)) => b,
        _ => false,
    }
}

/// A flag as printed.
pub open spec fn bool_text(b: bool) -> Seq<char> {
    if b {
        "true"@
    } else {
        "false"@
    }
}

/// `t` when there is one, else `d`.
pub open spec fn or_default(t: Option<Seq<char>>, d: Seq<char>) -> Seq<char> {
    match t {
        Some(x) => x,
        None => d,
    }
}

/// The line of one repository in the listing.
pub open spec fn repo_list_line(repos: Seq<(String, ConfigValue)>, name: Seq<char>) -> Seq<char> {
    let e = entries_of(entry_value(repos, name));
    pad_right(name, 13) + " "@ + pad_right(or_default(text_at(e, "url"@), "-"@), 32) + " "@ + pad_right(
        bool_text(flag_at(e, "external"@)),
        8,
    ) + " "@ + bool_text(flag_at(e, "ignored"@)) + "\n"@
}

/// The lines of the named repositories, in order.
pub open spec fn repo_list_lines(repos: Seq<(String, ConfigValue)>, names: Seq<Seq<char>>) -> Seq<char>
    decreases names.len(),
{
    if names.len() == 0 {
        Seq::empty()
    } else {
        repo_list_lines(repos, names.drop_last()) + repo_list_line(repos, names.last())
    }
}

/// Some entry has key `x`.
pub open spec fn has_key(es: Seq<(String, ConfigValue)>, x: Seq<char>) -> bool {
    exists|i: int| 0 <= i < es.len() && #[trigger] es[i].0@ == x
}

pub open spec fn list_header() -> Seq<char> {
    "Repo          URL                              External  Ignored\n"@
        + "----------------------------------------------------------------\n"@
}

/// The text at `key` of an entry, if it is text.
fn entry_text(es: &Vec<(String, ConfigValue)>, key: &str) -> (r: Option<String>)
    ensures
        crate::text::opt_string_view(r) == text_at(es@, key@),
{
    match find_entry(es, key) {
        Some(p) => match &es[p].1 {
            ConfigValue::Text(s) => Some(string_of(s.as_str())),
            _ => None,
        },
        None => None,
    }
}

/// The flag at `key` of an entry.
fn entry_flag(es: &Vec<(String, ConfigValue)>, key: &str) -> (r: bool)
    ensures
        r == flag_at(es@, key@),
{
    match find_entry(es, key) {
        Some(p) => match &es[p].1 {
            ConfigValue::Boolean(b) => *b,
            _ => false,
        },
        None => false,
    }
}

/// The entries of the table at `key`, if that is a table.
fn table_at<'a>(es: &'a Vec<(String, ConfigValue)>, key: &str) -> (r: Option<&'a Vec<(String, ConfigValue)>>)
    ensures
        match entry_value(es@, key@) {
            Some(ConfigValue::Table(t)) => r matches Some(x) && x@ == t.entries@,
            _ => r is None,
        },
{
    match find_entry(es, key) {
        Some(p) => match &es[p].1 {
            ConfigValue::Table(t) => Some(&t.entries),
            _ => None,
        },
        None => None,
    }
}

/// The `[repos]` table's entries.
fn find_repos_table(root: &ConfigValue) -> (r: Result<&Vec<(String, ConfigValue)>, HarmoniaError>)
    ensures
        match repos_table(*root) {
            Some(es) => r matches Ok(x) && x@ == es,
            None => r matches Err(HarmoniaError::Other(m)) && m@ == "[repos] must be a table"@,
        },
{
    match root {
        ConfigValue::Table(t) => match table_at(&t.entries, "repos") {
            Some(x) => Ok(x),
            None => Err(HarmoniaError::Other(string_of("[repos] must be a table"))),
        },
        _ => Err(HarmoniaError::Other(string_of("[repos] must be a table"))),
    }
}

/// A flag as printed.
fn bool_str(b: bool) -> (r: &'static str)
    ensures
        r@ == bool_text(b),
{
    if b {
        "true"
    } else {
        "false"
    }
}

/// Appends the listing line of repository `name`.
fn push_repo_line(out: &mut String, es: &Vec<(String, ConfigValue)>, name: &str)
    ensures
        final(out)@ == old(out)@ + repo_list_line(es@, name@),
{
    let ghost before = out@;
    let entry: Option<&Vec<(String, ConfigValue)>> = table_at(es, name);
    let (url, external, ignored) = match entry {
        Some(e) => (entry_text(e, "url"), entry_flag(e, "external"), entry_flag(e, "ignored")),
        None => (None, false, false),
    };
    push_padded_right(out, name, 13);
    push_str(out, " ");
    match &url {
        Some(u) => push_padded_right(out, u.as_str(), 32),
        None => push_padded_right(out, "-", 32),
    }
    push_str(out, " ");
    push_padded_right(out, bool_str(external), 8);
    push_str(out, " ");
    push_str(out, bool_str(ignored));
    push_str(out, "\n");
    proof {
        assert(out@ =~= before + repo_list_line(es@, name@));
    }
}

/// Appends `label`, the text at `key` (or `default`) and a line break.
fn push_text_line(out: &mut String, label: &str, e: &Vec<(String, ConfigValue)>, key: &str, default: &str)
    ensures
        final(out)@ == old(out)@ + label@ + or_default(text_at(e@, key@), default@) + "\n"@,
{
    let ghost before = out@;
    push_str(out, label);
    match entry_text(e, key) {
        Some(u) => push_str(out, u.as_str()),
        None => push_str(out, default),
    }
    push_str(out, "\n");
    proof {
        assert(out@ =~= before + label@ + or_default(text_at(e@, key@), default@) + "\n"@);
    }
}

/// Appends `label`, the flag at `key` and a line break.
fn push_flag_line(out: &mut String, label: &str, e: &Vec<(String, ConfigValue)>, key: &str)
    ensures
        final(out)@ == old(out)@ + label@ + bool_text(flag_at(e@, key@)) + "\n"@,
{
    let ghost before = out@;
    push_str(out, label);
    push_str(out, bool_str(entry_flag(e, key)));
    push_str(out, "\n");
    proof {
        assert(out@ =~= before + label@ + bool_text(flag_at(e@, key@)) + "\n"@);
    }
}

/// What `harmonia repo list` prints: `None` when no repository is
/// configured, else a table of the repositories sorted by name.
pub fn repo_list_text(root: &ConfigValue) -> (r: Result<Option<String>, HarmoniaError>)
    ensures
        match repos_table(*root) {
            None => r matches Err(HarmoniaError::Other(m)) && m@ == "[repos] must be a table"@,
            Some(es) => if es.len() == 0 {
                r matches Ok(None)
            } else {
                r matches Ok(Some(text)) && exists|names: Seq<Seq<char>>|
                    strictly_sorted(names) && (forall|x: Seq<char>| #[trigger] names.contains(x) <==> has_key(es, x))
                        && text@ == list_header() + repo_list_lines(es, names)
            },
        },
{
    let es = match find_repos_table(root) {
        Ok(x) => x,
        Err(e) => {
            return Err(e);
        },
    };
    if es.len() == 0 {
        return Ok(None);
    }
    let mut names: Vec<String> = Vec::new();
    let mut i: usize = 0;
    while i < es.len()
        invariant
            i <= es@.len(),
            strictly_sorted(views(names@)),
            forall|x: Seq<char>| #[trigger] views(names@).contains(x) <==> has_key(es@.take(i as int), x),
        decreases es@.len() - i,
    {
        let ghost before = views(names@);
        insert_sorted_unique(&mut names, string_of(es[i].0.as_str()));
        proof {
            assert forall|x: Seq<char>| #[trigger] views(names@).contains(x) <==> has_key(es@.take(i + 1), x) by {
                assert(views(names@).to_set().contains(x) == views(names@).contains(x));
                assert(before.to_set().contains(x) == before.contains(x));
                if has_key(es@.take(i + 1), x) {
                    let a = choose|a: int| 0 <= a < es@.take(i + 1).len() && #[trigger] es@.take(i + 1)[a].0@ == x;
                    if a < i {
                        assert(es@.take(i as int)[a] == es@.take(i + 1)[a]);
                    }
                }
                if has_key(es@.take(i as int), x) {
                    let a = choose|a: int| 0 <= a < es@.take(i as int).len() && #[trigger] es@.take(i as int)[a].0@ == x;
                    assert(es@.take(i + 1)[a] == es@.take(i as int)[a]);
                }
                if x == es@[i as int].0@ {
                    assert(es@.take(i + 1)[i as int] == es@[i as int]);
                }
            }
        }
        i += 1;
    }
    proof {
        assert(es@.take(es@.len() as int) =~= es@);
    }
    let mut out = string_of("Repo          URL                              External  Ignored\n");
    push_str(&mut out, "----------------------------------------------------------------\n");
    let ghost head = out@;
    let ghost nv = views(names@);
    let mut k: usize = 0;
    while k < names.len()
        invariant
            k <= names@.len(),
            nv == views(names@),
            out@ == head + repo_list_lines(es@, nv.take(k as int)),
        decreases names@.len() - k,
    {
        proof {
            assert(nv.take(k + 1).drop_last() =~= nv.take(k as int));
            assert(nv.take(k + 1).last() == nv[k as int]);
        }
        push_repo_line(&mut out, es, names[k].as_str());
        k += 1;
    }
    proof {
        assert(nv.take(names@.len() as int) =~= nv);
        assert(out@ == list_header() + repo_list_lines(es@, nv));
    }
    Ok(Some(out))
}

/// What `harmonia repo show` prints for a repository.
pub open spec fn spec_repo_show(name: Seq<char>, e: Seq<(String, ConfigValue)>) -> Seq<char> {
    "repo: "@ + name + "\n"@ + "  url: "@ + or_default(text_at(e, "url"@), "(default)"@) + "\n"@
        + "  default_branch: "@ + or_default(text_at(e, "default_branch"@), "(workspace default)"@) + "\n"@
        + "  package_name: "@ + or_default(text_at(e, "package_name"@), "(repo name)"@) + "\n"@ + "  external: "@
        + bool_text(flag_at(e, "external"@)) + "\n"@ + "  ignored: "@ + bool_text(flag_at(e, "ignored"@)) + "\n"@
}

/// What `harmonia repo show` prints; an error when the repository is not
/// configured.
pub fn repo_show_text(root: &ConfigValue, name: &str) -> (r: Result<String, HarmoniaError>)
    ensures
        match repos_table(*root) {
            None => r matches Err(HarmoniaError::Other(m)) && m@ == "[repos] must be a table"@,
            Some(es) => match entry_value(es, name@) {
                None => r matches Err(HarmoniaError::Other(m)) && m@ == "repo '"@ + name@ + "' not found in config"@,
                Some(v) => r matches Ok(text) && text@ == spec_repo_show(name@, entries_of(Some(v))),
            },
        },
{
    let es = match find_repos_table(root) {
        Ok(x) => x,
        Err(e) => {
            return Err(e);
        },
    };
    let p = match find_entry(es, name) {
        Some(p) => p,
        None => {
            let mut m = string_of("repo '");
            push_str(&mut m, name);
            push_str(&mut m, "' not found in config");
            return Err(HarmoniaError::Other(m));
        },
    };
    let empty: Vec<(String, ConfigValue)> = Vec::new();
    let e: &Vec<(String, ConfigValue)> = match &es[p].1 {
        ConfigValue::Table(t) => &t.entries,
        _ => &empty,
    };
    assert(e@ == entries_of(entry_value(es@, name@)));
    let mut out = string_of("repo: ");
    push_str(&mut out, name);
    push_str(&mut out, "\n");
    let ghost head = out@;
    push_text_line(&mut out, "  url: ", e, "url", "(default)");
    push_text_line(&mut out, "  default_branch: ", e, "default_branch", "(workspace default)");
    push_text_line(&mut out, "  package_name: ", e, "package_name", "(repo name)");
    push_flag_line(&mut out, "  external: ", e, "external");
    push_flag_line(&mut out, "  ignored: ", e, "ignored");
    proof {
        assert(out@ =~= spec_repo_show(name@, e@));
    }
    Ok(out)
}

/// Why a repository cannot be removed from the configuration, if it cannot.
pub open spec fn spec_remove_problem(root: ConfigValue, name: Seq<char>) -> Option<Seq<char>> {
    match root {
        ConfigValue::Table(_) => match repos_table(root) {
            None => Some("[repos] must be a table"@),
            Some(es) => if entry_value(es, name) is None {
                Some("repo '"@ + name + "' not found in config"@)
            } else {
                None
            },
        },
        _ => Some("workspace config root must be a table"@),
    }
}

/// The items without the texts equal to `name`.
pub open spec fn without_text(items: Seq<ConfigValue>, name: Seq<char>) -> Seq<ConfigValue>
    decreases items.len(),
{
    if items.len() == 0 {
        Seq::empty()
    } else if items.last() matches ConfigValue::Text(t) && t@ == name {
        without_text(items.drop_last(), name)
    } else {
        without_text(items.drop_last(), name).push(items.last())
    }
}

/// A group's members without `name`; anything but a list stays as it was.
pub open spec fn pruned_group(o: ConfigValue, n: ConfigValue, name: Seq<char>) -> bool {
    match o {
        ConfigValue::Array(a) => n matches ConfigValue::Array(b) && b@ == without_text(a@, name),
        _ => n == o,
    }
}

/// Every group, in place, without `name` among its members.
pub open spec fn groups_pruned(og: Seq<(String, ConfigValue)>, ng: Seq<(String, ConfigValue)>, name: Seq<char>) -> bool {
    og.len() == ng.len() && forall|i: int|
        0 <= i < og.len() ==> ng[i].0 == og[i].0 && pruned_group(og[i].1, #[trigger] ng[i].1, name)
}

/// `new` is `old` without repository `name` in `[repos]` nor among the
/// members of any group; everything else as it was.
pub open spec fn repo_removed(old: ConfigValue, new: ConfigValue, name: Seq<char>) -> bool {
    new matches ConfigValue::Table(nt) && {
        let oes = entries_of(Some(old));
        let nes = nt.entries@;
        &&& forall|k: Seq<char>| k != "repos"@ && k != "groups"@ ==> #[trigger] entry_value(nes, k) == entry_value(oes, k)
        &&& entry_value(nes, "repos"@) matches Some(ConfigValue::Table(rt)) && same_except(
            entries_of(entry_value(oes, "repos"@)),
            rt.entries@,
            name,
        ) && entry_value(rt.entries@, name) is None
        &&& match entry_value(oes, "groups"@) {
            Some(ConfigValue::Table(og)) => entry_value(nes, "groups"@) matches Some(ConfigValue::Table(ng))
                && groups_pruned(og.entries@, ng.entries@, name),
            other => entry_value(nes, "groups"@) == other,
        }
    }
}

/// The items without the texts equal to `name`.
fn drop_texts(items: Vec<ConfigValue>, name: &str) -> (r: Vec<ConfigValue>)
    ensures
        r@ == without_text(items@, name@),
{
    let ghost orig = items@;
    let mut rest = items;
    let total = rest.len();
    let mut out: Vec<ConfigValue> = Vec::new();
    let mut i: usize = 0;
    while rest.len() > 0
        invariant
            orig.len() == total,
            i <= orig.len(),
            rest@ == orig.skip(i as int),
            rest@.len() == orig.len() - i,
            out@ == without_text(orig.take(i as int), name@),
        decreases rest@.len(),
    {
        proof {
            assert(rest@[0] == orig[i as int]);
            assert(orig.take(i + 1).drop_last() =~= orig.take(i as int));
            assert(orig.take(i + 1).last() == orig[i as int]);
        }
        let v = rest.remove(0);
        proof {
            assert(rest@ =~= orig.skip(i + 1));
        }
        let drop = match &v {
            ConfigValue::Text(t) => str_eq(t.as_str(), name),
            _ => false,
        };
        if !drop {
            out.push(v);
        }
        i += 1;
    }
    proof {
        assert(orig.take(i as int) =~= orig);
    }
    out
}

/// Every group without `name` among its members.
fn prune_groups(groups: Vec<(String, ConfigValue)>, name: &str) -> (r: Vec<(String, ConfigValue)>)
    ensures
        groups_pruned(groups@, r@, name@),
{
    let ghost orig = groups@;
    let mut rest = groups;
    let total = rest.len();
    let mut out: Vec<(String, ConfigValue)> = Vec::new();
    let mut i: usize = 0;
    while rest.len() > 0
        invariant
            orig.len() == total,
            i <= orig.len(),
            rest@ == orig.skip(i as int),
            rest@.len() == orig.len() - i,
            out@.len() == i,
            forall|j: int| #![trigger out@[j]] 0 <= j < i ==> out@[j].0 == orig[j].0 && pruned_group(orig[j].1, out@[j].1, name@),
        decreases rest@.len(),
    {
        proof {
            assert(rest@[0] == orig[i as int]);
        }
        let e = rest.remove(0);
        proof {
            assert(rest@ =~= orig.skip(i + 1));
            assert(e == orig[i as int]);
        }
        let ghost before = out@;
        let (k, v) = e;
        let nv = match v {
            ConfigValue::Array(items) => ConfigValue::Array(drop_texts(items, name)),
            other => other,
        };
        proof {
            assert(pruned_group(orig[i as int].1, nv, name@));
            assert(k == orig[i as int].0);
        }
        let ghost kg = k;
        let ghost nvg = nv;
        out.push((k, nv));
        proof {
            assert(out@[i as int] == (kg, nvg));
            assert forall|j: int| #![trigger out@[j]] 0 <= j < i + 1 implies out@[j].0 == orig[j].0 && pruned_group(
                orig[j].1,
                out@[j].1,
                name@,
            ) by {
                if j < i {
                    assert(out@[j] == before[j]);
                    assert(before[j].0 == orig[j].0);
                }
            }
        }
        i += 1;
    }
    out
}

/// Removes repository `name` from `[repos]` and from every group; an
/// error, with nothing changed, when the root or `[repos]` is not a table or
/// the repository is not there.
pub fn workspace_repo_remove(root: &mut ConfigValue, name: &str) -> (r: Result<(), HarmoniaError>)
    ensures
        match spec_remove_problem(*old(root), name@) {
            Some(m) => (r matches Err(HarmoniaError::Other(e)) && e@ == m) && *final(root) == *old(root),
            None => r is Ok && repo_removed(*old(root), *final(root), name@),
        },
{
    match &*root {
        ConfigValue::Table(t) => match table_at(&t.entries, "repos") {
            None => {
                return Err(HarmoniaError::Other(string_of("[repos] must be a table")));
            },
            Some(r) => {
                if find_entry(r, name).is_none() {
                    let mut m = string_of("repo '");
                    push_str(&mut m, name);
                    push_str(&mut m, "' not found in config");
                    return Err(HarmoniaError::Other(m));
                }
            },
        },
        _ => {
            return Err(HarmoniaError::Other(string_of("workspace config root must be a table")));
        },
    }
    proof {
        reveal_strlit("repos");
        reveal_strlit("groups");
        assert("groups"@ != "repos"@) by {
            assert("groups"@[0] == 'g');
            assert("repos"@[0] == 'r');
        }
    }
    let ghost old_root = *root;
    let mut taken = ConfigValue::Boolean(false);
    std::mem::swap(&mut taken, root);
    let mut es = match taken {
        ConfigValue::Table(t) => t.entries,
        _ => Vec::new(),
    };
    let ghost oes = es@;
    assert(oes == entries_of(Some(old_root)));
    let p = match find_entry(&es, "repos") {
        Some(p) => p,
        None => {
            *root = ConfigValue::Table(ConfigTable { entries: es });
            return Ok(());
        },
    };
    let repos_v = take_entry(&mut es, p);
    let repos_es = match repos_v {
        ConfigValue::Table(t) => t.entries,
        _ => Vec::new(),
    };
    let ghost old_repos = repos_es@;
    assert(old_repos == entries_of(entry_value(oes, "repos"@)));
    let new_repos = remove_key(repos_es, name);
    let ghost mid = es@;
    proof {
        assert forall|k: Seq<char>| #[trigger] entry_value(mid, k) == (if k == "repos"@ {
            Some(ConfigValue::Boolean(false))
        } else {
            entry_value(oes, k)
        }) by {
            lemma_take_keeps_keys(oes, p as int, ConfigValue::Boolean(false), k);
            lemma_entry_index_found(oes, k);
            lemma_entry_index_found(oes, "repos"@);
        }
    }
    put_entry(&mut es, "repos", ConfigValue::Table(ConfigTable { entries: new_repos }));
    let ghost mid2 = es@;
    match find_entry(&es, "groups") {
        Some(g) => {
            let is_table = match &es[g].1 {
                ConfigValue::Table(_) => true,
                _ => false,
            };
            if is_table {
                let gv = take_entry(&mut es, g);
                let ges = match gv {
                    ConfigValue::Table(t) => t.entries,
                    _ => Vec::new(),
                };
                let ghost mid3 = es@;
                proof {
                    assert forall|k: Seq<char>| #[trigger] entry_value(mid3, k) == (if k == "groups"@ {
                        Some(ConfigValue::Boolean(false))
                    } else {
                        entry_value(mid2, k)
                    }) by {
                        lemma_take_keeps_keys(mid2, g as int, ConfigValue::Boolean(false), k);
                        lemma_entry_index_found(mid2, k);
                        lemma_entry_index_found(mid2, "groups"@);
                    }
                }
                let ghost old_groups = ges@;
                assert(entry_value(mid2, "groups"@) == Some(ConfigValue::Table(ConfigTable { entries: ges })));
                let pruned = prune_groups(ges, name);
                let ghost pg = pruned@;
                put_entry(&mut es, "groups", ConfigValue::Table(ConfigTable { entries: pruned }));
                proof {
                    assert forall|k: Seq<char>| k != "groups"@ implies #[trigger] entry_value(es@, k) == entry_value(mid2, k) by {
                        assert(entry_value(es@, k) == entry_value(mid3, k));
                    }
                    assert(entry_value(es@, "groups"@) matches Some(ConfigValue::Table(ng)) && ng.entries@ == pg);
                    assert(groups_pruned(old_groups, pg, name@));
                }
            } else {
                proof {
                    assert(!(entry_value(mid2, "groups"@) matches Some(ConfigValue::Table(_))));
                }
            }
        },
        None => {
            proof {
                assert(entry_value(mid2, "groups"@) is None);
            }
        },
    }
    proof {
        assert(entry_value(mid2, "groups"@) == entry_value(oes, "groups"@)) by {
            assert(entry_value(mid2, "groups"@) == entry_value(mid, "groups"@));
        }
        assert forall|k: Seq<char>| k != "repos"@ && k != "groups"@ implies #[trigger] entry_value(es@, k) == entry_value(oes, k) by {
            assert(entry_value(mid2, k) == entry_value(mid, k));
            assert(entry_value(mid, k) == entry_value(oes, k));
        }
        assert(entry_value(es@, "repos"@) == entry_value(mid2, "repos"@));
    }
    *root = ConfigValue::Table(ConfigTable { entries: es });
    Ok(())
}

/// Why a repository cannot be added to the configuration, if it cannot.
pub open spec fn spec_add_problem(root: ConfigValue, args: RepoAddArgs) -> Option<Seq<char>> {
    match root {
        ConfigValue::Table(t) => {
            let es = t.entries@;
            if entry_value(es, "repos"@) matches Some(v) && !(v is Table) {
                Some("[repos] must be a table"@)
            } else if entry_value(entries_of(entry_value(es, "repos"@)), args.name@) is Some {
                Some("repo '"@ + args.name@ + "' already exists"@)
            } else {
                match args.group {
                    None => None,
                    Some(g) => if entry_value(es, "groups"@) matches Some(v) && !(v is Table) {
                        Some("[groups] must be a table"@)
                    } else if entry_value(entries_of(entry_value(es, "groups"@)), g@) matches Some(m) && !(m is Array) {
                        Some("[groups]."@ + g@ + " must be an array"@)
                    } else {
                        None
                    },
                }
            }
        },
        _ => Some("workspace config root must be a table"@),
    }
}

/// The value is the text `s` when there is one, else absent.
pub open spec fn opt_text(v: Option<ConfigValue>, s: Option<Seq<char>>) -> bool {
    match s {
        Some(x) => v matches Some(ConfigValue::Text(t)) && t@ == x,
        None => v is None,
    }
}

/// The value is `true` when the flag is set, else absent.
pub open spec fn opt_flag(v: Option<ConfigValue>, b: bool) -> bool {
    if b {
        v == Some(ConfigValue::Boolean(true))
    } else {
        v is None
    }
}

/// The table written for a new repository: its URL, default branch and
/// package name when given, `external` and `ignored` when set, nothing else.
pub open spec fn new_repo_entry(v: ConfigValue, args: RepoAddArgs) -> bool {
    v matches ConfigValue::Table(t) && {
        let es = t.entries@;
        &&& opt_text(entry_value(es, "url"@), crate::text::opt_string_view(args.url))
        &&& opt_text(entry_value(es, "default_branch"@), crate::text::opt_string_view(args.default_branch))
        &&& opt_text(entry_value(es, "package_name"@), crate::text::opt_string_view(args.package_name))
        &&& opt_flag(entry_value(es, "external"@), args.external)
        &&& opt_flag(entry_value(es, "ignored"@), args.ignored)
        &&& forall|k: Seq<char>|
            k != "url"@ && k != "default_branch"@ && k != "package_name"@ && k != "external"@ && k != "ignored"@
                ==> #[trigger] entry_value(es, k) is None
    }
}

/// The value is the text `name`.
pub open spec fn is_text(v: ConfigValue, name: Seq<char>) -> bool {
    v matches ConfigValue::Text(t) && t@ == name
}

/// Some item is the text `name`.
pub open spec fn has_text(items: Seq<ConfigValue>, name: Seq<char>) -> bool {
    exists|i: int| 0 <= i < items.len() && is_text(#[trigger] items[i], name)
}

/// A group's members with `name` added at the end unless already there.
pub open spec fn members_after(old: Option<ConfigValue>, new: ConfigValue, name: Seq<char>) -> bool {
    let items = match old {
        Some(ConfigValue::Array(a)) => a@,
        _ => Seq::empty(),
    };
    new matches ConfigValue::Array(b) && if has_text(items, name) {
        b@ == items
    } else {
        b@.len() == items.len() + 1 && b@.take(items.len() as int) == items && is_text(b@.last(), name)
    }
}

/// `new` is `old` with the repository of `args` in `[repos]` and, when a
/// group is given, among that group's members; everything else as it was.
pub open spec fn repo_added(old: ConfigValue, new: ConfigValue, args: RepoAddArgs) -> bool {
    new matches ConfigValue::Table(nt) && {
        let oes = entries_of(Some(old));
        let nes = nt.entries@;
        &&& forall|k: Seq<char>| k != "repos"@ && k != "groups"@ ==> #[trigger] entry_value(nes, k) == entry_value(oes, k)
        &&& match entry_value(nes, "repos"@) {
            Some(ConfigValue::Table(rt)) => same_except(entries_of(entry_value(oes, "repos"@)), rt.entries@, args.name@)
                && match entry_value(rt.entries@, args.name@) {
                Some(e) => new_repo_entry(e, args),
                None => false,
            },
            _ => false,
        }
        &&& match args.group {
            None => entry_value(nes, "groups"@) == entry_value(oes, "groups"@),
            Some(g) => match entry_value(nes, "groups"@) {
                Some(ConfigValue::Table(gt)) => same_except(entries_of(entry_value(oes, "groups"@)), gt.entries@, g@)
                    && match entry_value(gt.entries@, g@) {
                    Some(m) => members_after(entry_value(entries_of(entry_value(oes, "groups"@)), g@), m, args.name@),
                    None => false,
                },
                _ => false,
            },
        }
    }
}

/// The table written for a new repository.
fn new_entry(args: &RepoAddArgs) -> (r: ConfigValue)
    ensures
        new_repo_entry(r, *args),
{
    proof {
        reveal_strlit("url");
        reveal_strlit("default_branch");
        reveal_strlit("package_name");
        reveal_strlit("external");
        reveal_strlit("ignored");
        assert("url"@[0] == 'u' && "default_branch"@[0] == 'd' && "package_name"@[0] == 'p' && "external"@[0] == 'e'
            && "ignored"@[0] == 'i');
    }
    let mut es: Vec<(String, ConfigValue)> = Vec::new();
    match &args.url {
        Some(u) => put_entry(&mut es, "url", ConfigValue::Text(string_of(u.as_str()))),
        None => {},
    }
    match &args.default_branch {
        Some(b) => put_entry(&mut es, "default_branch", ConfigValue::Text(string_of(b.as_str()))),
        None => {},
    }
    match &args.package_name {
        Some(n) => put_entry(&mut es, "package_name", ConfigValue::Text(string_of(n.as_str()))),
        None => {},
    }
    if args.external {
        put_entry(&mut es, "external", ConfigValue::Boolean(true));
    }
    if args.ignored {
        put_entry(&mut es, "ignored", ConfigValue::Boolean(true));
    }
    ConfigValue::Table(ConfigTable { entries: es })
}

/// Whether some item is the text `name`.
fn contains_text(items: &Vec<ConfigValue>, name: &str) -> (r: bool)
    ensures
        r == has_text(items@, name@),
{
    let mut i: usize = 0;
    while i < items.len()
        invariant
            i <= items@.len(),
            forall|j: int| 0 <= j < i ==> !is_text(#[trigger] items@[j], name@),
        decreases items@.len() - i,
    {
        match &items[i] {
            ConfigValue::Text(t) => {
                if str_eq(t.as_str(), name) {
                    return true;
                }
            },
            _ => {},
        }
        i += 1;
    }
    false
}

/// Adds a repository to `[repos]` and, when a group is given, to that
/// group's members; an error, with nothing changed, when the root, `[repos]`
/// or `[groups]` is not a table, the group is not a list, or the repository
/// is already there.
pub fn workspace_repo_add(root: &mut ConfigValue, args: &RepoAddArgs) -> (r: Result<(), HarmoniaError>)
    ensures
        match spec_add_problem(*old(root), *args) {
            Some(m) => (r matches Err(HarmoniaError::Other(e)) && e@ == m) && *final(root) == *old(root),
            None => r is Ok && repo_added(*old(root), *final(root), *args),
        },
{
    proof {
        reveal_strlit("repos");
        reveal_strlit("groups");
        assert("groups"@ != "repos"@) by {
            assert("groups"@[0] == 'g');
            assert("repos"@[0] == 'r');
        }
    }
    match &*root {
        ConfigValue::Table(t) => {
            let empty: Vec<(String, ConfigValue)> = Vec::new();
            let repos: &Vec<(String, ConfigValue)> = match find_entry(&t.entries, "repos") {
                Some(p) => match &t.entries[p].1 {
                    ConfigValue::Table(r) => &r.entries,
                    _ => {
                        return Err(HarmoniaError::Other(string_of("[repos] must be a table")));
                    },
                },
                None => &empty,
            };
            if find_entry(repos, args.name.as_str()).is_some() {
                let mut m = string_of("repo '");
                push_str(&mut m, args.name.as_str());
                push_str(&mut m, "' already exists");
                return Err(HarmoniaError::Other(m));
            }
            match &args.group {
                Some(g) => {
                    let groups: &Vec<(String, ConfigValue)> = match find_entry(&t.entries, "groups") {
                        Some(p) => match &t.entries[p].1 {
                            ConfigValue::Table(gt) => &gt.entries,
                            _ => {
                                return Err(HarmoniaError::Other(string_of("[groups] must be a table")));
                            },
                        },
                        None => &empty,
                    };
                    match find_entry(groups, g.as_str()) {
                        Some(q) => match &groups[q].1 {
                            ConfigValue::Array(_) => {},
                            _ => {
                                let mut m = string_of("[groups].");
                                push_str(&mut m, g.as_str());
                                push_str(&mut m, " must be an array");
                                return Err(HarmoniaError::Other(m));
                            },
                        },
                        None => {},
                    }
                },
                None => {},
            }
        },
        _ => {
            return Err(HarmoniaError::Other(string_of("workspace config root must be a table")));
        },
    }
    let ghost old_root = *root;
    let mut taken = ConfigValue::Boolean(false);
    std::mem::swap(&mut taken, root);
    let mut es = match taken {
        ConfigValue::Table(t) => t.entries,
        _ => Vec::new(),
    };
    let ghost oes = es@;
    assert(oes == entries_of(Some(old_root)));
    let mut repos_es: Vec<(String, ConfigValue)> = match find_entry(&es, "repos") {
        Some(p) => {
            proof {
                lemma_take_entry(es@, "repos"@, p as int);
            }
            match take_entry(&mut es, p) {
                ConfigValue::Table(t) => t.entries,
                _ => Vec::new(),
            }
        },
        None => Vec::new(),
    };
    let ghost mid = es@;
    let ghost old_repos = repos_es@;
    assert(old_repos == entries_of(entry_value(oes, "repos"@)));
    assert(forall|k: Seq<char>| k != "repos"@ ==> #[trigger] entry_value(mid, k) == entry_value(oes, k));
    let entry = new_entry(args);
    put_entry(&mut repos_es, args.name.as_str(), entry);
    let ghost new_repos = repos_es@;
    put_entry(&mut es, "repos", ConfigValue::Table(ConfigTable { entries: repos_es }));
    let ghost mid2 = es@;
    match &args.group {
        Some(g) => {
            let mut groups_es: Vec<(String, ConfigValue)> = match find_entry(&es, "groups") {
                Some(p) => {
                    proof {
                        lemma_take_entry(es@, "groups"@, p as int);
                    }
                    match take_entry(&mut es, p) {
                        ConfigValue::Table(t) => t.entries,
                        _ => Vec::new(),
                    }
                },
                None => Vec::new(),
            };
            let ghost mid3 = es@;
            let ghost old_groups = groups_es@;
            assert(old_groups == entries_of(entry_value(oes, "groups"@))) by {
                assert(entry_value(mid2, "groups"@) == entry_value(mid, "groups"@));
            }
            let mut items: Vec<ConfigValue> = match find_entry(&groups_es, g.as_str()) {
                Some(q) => {
                    proof {
                        lemma_take_entry(groups_es@, g@, q as int);
                    }
                    match take_entry(&mut groups_es, q) {
                        ConfigValue::Array(a) => a,
                        _ => Vec::new(),
                    }
                },
                None => Vec::new(),
            };
            let ghost old_items = items@;
            let ghost gmid = groups_es@;
            assert(forall|k: Seq<char>| k != g@ ==> #[trigger] entry_value(gmid, k) == entry_value(old_groups, k));
            if !contains_text(&items, args.name.as_str()) {
                items.push(ConfigValue::Text(string_of(args.name.as_str())));
                proof {
                    assert(items@.take(old_items.len() as int) =~= old_items);
                }
            }
            let ghost new_items = items@;
            put_entry(&mut groups_es, g.as_str(), ConfigValue::Array(items));
            let ghost new_groups = groups_es@;
            put_entry(&mut es, "groups", ConfigValue::Table(ConfigTable { entries: groups_es }));
            proof {
                assert forall|k: Seq<char>| k != "groups"@ implies #[trigger] entry_value(es@, k) == entry_value(mid2, k) by {
                    assert(entry_value(es@, k) == entry_value(mid3, k));
                }
                assert(same_except(old_groups, new_groups, g@)) by {
                    assert forall|k: Seq<char>| k != g@ implies #[trigger] entry_value(new_groups, k) == entry_value(
                        old_groups,
                        k,
                    ) by {
                        assert(entry_value(new_groups, k) == entry_value(gmid, k));
                    }
                }
                assert(members_after(entry_value(old_groups, g@), ConfigValue::Array(items), args.name@));
            }
        },
        None => {},
    }
    proof {
        assert forall|k: Seq<char>| k != "repos"@ && k != "groups"@ implies #[trigger] entry_value(es@, k) == entry_value(
            oes,
            k,
        ) by {
            assert(entry_value(mid2, k) == entry_value(mid, k));
        }
        assert(entry_value(es@, "repos"@) == entry_value(mid2, "repos"@));
        assert(same_except(old_repos, new_repos, args.name@));
        if args.group is None {
            assert(entry_value(mid2, "groups"@) == entry_value(mid, "groups"@));
        }
    }
    *root = ConfigValue::Table(ConfigTable { entries: es });
    Ok(())
}

} // verus!
