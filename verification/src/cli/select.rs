//! Which repositories a command acts on.
use vstd::prelude::*;
use crate::config::workspace::GroupsConfig;
use crate::error::HarmoniaError;
use crate::order::views;
use crate::project::repo::Repo;
use crate::project::workspace::Workspace;
use crate::text::{concat2, str_eq};

verus! {

/// A repository takes part unless it is ignored, or external and externals
/// are not included.
pub open spec fn spec_include(r: Repo, include_external: bool) -> bool {
    !r.ignored && (!r.external || include_external)
}

/// Whether a repository takes part.
pub fn should_include_repo(repo: &Repo, include_external: bool) -> (r: bool)
    ensures
        r == spec_include(*repo, include_external),
{
    if repo.ignored {
        return false;
    }
    if repo.external && !include_external {
        return false;
    }
    true
}

/// The position of the first repository with identifier `name`.
pub open spec fn repo_index(rs: Seq<Repo>, name: Seq<char>) -> Option<int>
    decreases rs.len(),
{
    if rs.len() == 0 {
        None
    } else if rs[0].id@ == name {
        Some(0)
    } else {
        match repo_index(rs.drop_first(), name) {
            Some(i) => Some(i + 1),
            None => None,
        }
    }
}

/// The repositories named, in order; an error for the first unknown name.
pub open spec fn by_names(rs: Seq<Repo>, names: Seq<Seq<char>>) -> Result<Seq<Repo>, Seq<char>>
    decreases names.len(),
{
    if names.len() == 0 {
        Ok(Seq::empty())
    } else {
        match repo_index(rs, names[0]) {
            None => Err("unknown repo "@ + names[0]),
            Some(i) => match by_names(rs, names.drop_first()) {
                Ok(rest) => Ok(seq![rs[i]] + rest),
                Err(e) => Err(e),
            },
        }
    }
}

/// The known, taking-part repositories among a group's members, in order.
pub open spec fn group_members(rs: Seq<Repo>, members: Seq<Seq<char>>, include_external: bool) -> Seq<Repo>
    decreases members.len(),
{
    if members.len() == 0 {
        Seq::empty()
    } else {
        let rest = group_members(rs, members.drop_last(), include_external);
        match repo_index(rs, members.last()) {
            Some(i) => if spec_include(rs[i], include_external) {
                rest.push(rs[i])
            } else {
                rest
            },
            None => rest,
        }
    }
}

/// The taking-part repositories, in order.
pub open spec fn all_included(rs: Seq<Repo>, include_external: bool) -> Seq<Repo>
    decreases rs.len(),
{
    if rs.len() == 0 {
        Seq::empty()
    } else if spec_include(rs.last(), include_external) {
        all_included(rs.drop_last(), include_external).push(rs.last())
    } else {
        all_included(rs.drop_last(), include_external)
    }
}

/// The position of the first group named `name`.
pub open spec fn group_index(gs: Seq<(String, Vec<String>)>, name: Seq<char>) -> Option<int>
    decreases gs.len(),
{
    if gs.len() == 0 {
        None
    } else if gs[0].0@ == name {
        Some(0)
    } else {
        match group_index(gs.drop_first(), name) {
            Some(i) => Some(i + 1),
            None => None,
        }
    }
}

/// The members of the named group, or an error when there is no such group.
pub open spec fn by_group(rs: Seq<Repo>, groups: Option<GroupsConfig>, name: Seq<char>, include_external: bool) -> Result<
    Seq<Repo>,
    Seq<char>,
> {
    match groups {
        Some(gc) => match group_index(gc.groups@, name) {
            Some(j) => Ok(group_members(rs, views(gc.groups@[j].1@), include_external)),
            None => Err("unknown group "@ + name),
        },
        None => Err("unknown group "@ + name),
    }
}

/// The repositories a command acts on: the named ones; else a group's;
/// else all that take part (when asked for, or without a default group);
/// else the default group's.
pub open spec fn spec_select(
    rs: Seq<Repo>,
    groups: Option<GroupsConfig>,
    names: Seq<Seq<char>>,
    group: Option<Seq<char>>,
    all: bool,
    include_external: bool,
) -> Result<Seq<Repo>, Seq<char>> {
    if names.len() > 0 {
        by_names(rs, names)
    } else if group is Some {
        by_group(rs, groups, group->0, include_external)
    } else if all {
        Ok(all_included(rs, include_external))
    } else if groups matches Some(gc) && gc.default is Some {
        by_group(rs, groups, groups->0.default->0@, include_external)
    } else {
        Ok(all_included(rs, include_external))
    }
}

proof fn lemma_index_at<T>(rs: Seq<Repo>, name: Seq<char>, i: int)
    requires
        0 <= i <= rs.len(),
        forall|k: int| 0 <= k < i ==> #[trigger] rs[k].id@ != name,
        i == rs.len() || rs[i].id@ == name,
    ensures
        repo_index(rs, name) == (if i == rs.len() { None } else { Some(i) }),
    decreases i,
{
    if i > 0 {
        let t = rs.drop_first();
        assert forall|k: int| 0 <= k < i - 1 implies #[trigger] t[k].id@ != name by {
            assert(t[k] == rs[k + 1]);
        }
        if i < rs.len() {
            assert(t[i - 1] == rs[i]);
        }
        lemma_index_at::<T>(t, name, i - 1);
    }
}

/// Where `repo_index` finds a repository, it has that identifier.
pub proof fn lemma_repo_index_found(rs: Seq<Repo>, name: Seq<char>)
    ensures
        repo_index(rs, name) matches Some(k) ==> 0 <= k < rs.len() && rs[k].id@ == name,
    decreases rs.len(),
{
    if rs.len() > 0 && rs[0].id@ != name {
        lemma_repo_index_found(rs.drop_first(), name);
        if let Some(k) = repo_index(rs.drop_first(), name) {
            assert(rs.drop_first()[k] == rs[k + 1]);
        }
    }
}

/// The position of the first repository with identifier `name`.
pub(crate) fn find_repo(rs: &Vec<Repo>, name: &str) -> (r: Option<usize>)
    ensures
        match r {
            Some(i) => repo_index(rs@, name@) == Some(i as int) && i < rs@.len(),
            None => repo_index(rs@, name@) is None,
        },
{
    let mut i: usize = 0;
    while i < rs.len()
        invariant
            i <= rs@.len(),
            forall|k: int| 0 <= k < i ==> #[trigger] rs@[k].id@ != name@,
        decreases rs@.len() - i,
    {
        if str_eq(rs[i].id.as_str(), name) {
            proof {
                lemma_index_at::<()>(rs@, name@, i as int);
            }
            return Some(i);
        }
        i += 1;
    }
    proof {
        lemma_index_at::<()>(rs@, name@, rs@.len() as int);
    }
    None
}

/// The repositories referred to.
pub open spec fn derefs<'a>(v: Seq<&'a Repo>) -> Seq<Repo> {
    v.map_values(|r: &Repo| *r)
}

fn select_by_names<'a>(rs: &'a Vec<Repo>, names: &[String]) -> (r: Result<Vec<&'a Repo>, HarmoniaError>)
    ensures
        match by_names(rs@, views(names@)) {
            Ok(v) => r matches Ok(o) && derefs(o@) == v,
            Err(m) => r matches Err(HarmoniaError::Other(e)) && e@ == m,
        },
{
    let ghost nv = views(names@);
    let mut out: Vec<&'a Repo> = Vec::new();
    let mut k: usize = 0;
    proof {
        assert(nv.skip(0) =~= nv);
        assert(derefs(out@) =~= Seq::<Repo>::empty());
    }
    while k < names.len()
        invariant
            nv == views(names@),
            k <= names@.len(),
            match by_names(rs@, nv.skip(k as int)) {
                Ok(rest) => by_names(rs@, nv) == Ok::<Seq<Repo>, Seq<char>>(derefs(out@) + rest),
                Err(m) => by_names(rs@, nv) == Err::<Seq<Repo>, Seq<char>>(m),
            },
        decreases names@.len() - k,
    {
        let ghost rest = nv.skip(k as int);
        proof {
            assert(rest[0] == names@[k as int]@);
            assert(rest.drop_first() =~= nv.skip(k + 1));
        }
        match find_repo(rs, names[k].as_str()) {
            Some(i) => {
                let ghost before = derefs(out@);
                out.push(&rs[i]);
                proof {
                    assert(derefs(out@) =~= before.push(rs@[i as int]));
                    match by_names(rs@, nv.skip(k + 1)) {
                        Ok(r2) => {
                            assert(before + (seq![rs@[i as int]] + r2) =~= derefs(out@) + r2);
                        },
                        Err(_) => {},
                    }
                }
            },
            None => {
                return Err(HarmoniaError::Other(concat2("unknown repo ", names[k].as_str())));
            },
        }
        k += 1;
    }
    proof {
        assert(nv.skip(nv.len() as int) =~= Seq::<Seq<char>>::empty());
        assert(derefs(out@) + Seq::<Repo>::empty() =~= derefs(out@));
    }
    Ok(out)
}

fn select_group<'a>(rs: &'a Vec<Repo>, groups: &Option<GroupsConfig>, name: &str, include_external: bool) -> (r: Result<
    Vec<&'a Repo>,
    HarmoniaError,
>)
    ensures
        match by_group(rs@, *groups, name@, include_external) {
            Ok(v) => r matches Ok(o) && derefs(o@) == v,
            Err(m) => r matches Err(HarmoniaError::Other(e)) && e@ == m,
        },
{
    let gc = match groups {
        Some(gc) => gc,
        None => return Err(HarmoniaError::Other(concat2("unknown group ", name))),
    };
    let mut j: usize = 0;
    while j < gc.groups.len()
        invariant
            j <= gc.groups@.len(),
            forall|k: int| 0 <= k < j ==> #[trigger] gc.groups@[k].0@ != name@,
        ensures
            j <= gc.groups@.len(),
            forall|k: int| 0 <= k < j ==> #[trigger] gc.groups@[k].0@ != name@,
            j < gc.groups@.len() ==> gc.groups@[j as int].0@ == name@,
        decreases gc.groups@.len() - j,
    {
        if str_eq(gc.groups[j].0.as_str(), name) {
            break;
        }
        j += 1;
    }
    proof {
        let gs = gc.groups@;
        assert(group_index(gs, name@) == (if j == gs.len() { None } else { Some(j as int) })) by {
            crate::cli::select::lemma_group_index_at(gs, name@, j as int);
        }
    }
    if j == gc.groups.len() {
        return Err(HarmoniaError::Other(concat2("unknown group ", name)));
    }
    let members = &gc.groups[j].1;
    let ghost mv = views(members@);
    let mut out: Vec<&'a Repo> = Vec::new();
    let mut k: usize = 0;
    while k < members.len()
        invariant
            mv == views(members@),
            k <= members@.len(),
            derefs(out@) == group_members(rs@, mv.take(k as int), include_external),
        decreases members@.len() - k,
    {
        proof {
            assert(mv.take(k + 1).drop_last() =~= mv.take(k as int));
            assert(mv.take(k + 1).last() == members@[k as int]@);
        }
        match find_repo(rs, members[k].as_str()) {
            Some(i) => {
                if should_include_repo(&rs[i], include_external) {
                    let ghost before = derefs(out@);
                    out.push(&rs[i]);
                    proof {
                        assert(derefs(out@) =~= before.push(rs@[i as int]));
                    }
                }
            },
            None => {},
        }
        k += 1;
    }
    proof {
        assert(mv.take(mv.len() as int) =~= mv);
    }
    Ok(out)
}

/// The position of the first group named `name`.
pub proof fn lemma_group_index_at(gs: Seq<(String, Vec<String>)>, name: Seq<char>, i: int)
    requires
        0 <= i <= gs.len(),
        forall|k: int| 0 <= k < i ==> #[trigger] gs[k].0@ != name,
        i == gs.len() || gs[i].0@ == name,
    ensures
        group_index(gs, name) == (if i == gs.len() { None } else { Some(i) }),
    decreases i,
{
    if i > 0 {
        let t = gs.drop_first();
        assert forall|k: int| 0 <= k < i - 1 implies #[trigger] t[k].0@ != name by {
            assert(t[k] == gs[k + 1]);
        }
        if i < gs.len() {
            assert(t[i - 1] == gs[i]);
        }
        lemma_group_index_at(t, name, i - 1);
    }
}

fn select_all<'a>(rs: &'a Vec<Repo>, include_external: bool) -> (r: Vec<&'a Repo>)
    ensures
        derefs(r@) == all_included(rs@, include_external),
{
    let mut out: Vec<&'a Repo> = Vec::new();
    let mut k: usize = 0;
    while k < rs.len()
        invariant
            k <= rs@.len(),
            derefs(out@) == all_included(rs@.take(k as int), include_external),
        decreases rs@.len() - k,
    {
        proof {
            assert(rs@.take(k + 1).drop_last() =~= rs@.take(k as int));
            assert(rs@.take(k + 1).last() == rs@[k as int]);
        }
        if should_include_repo(&rs[k], include_external) {
            let ghost before = derefs(out@);
            out.push(&rs[k]);
            proof {
                assert(derefs(out@) =~= before.push(rs@[k as int]));
            }
        }
        k += 1;
    }
    proof {
        assert(rs@.take(rs@.len() as int) =~= rs@);
    }
    out
}

/// The repositories a command acts on.
pub fn select_repos<'a>(
    workspace: &'a Workspace,
    repos: &[String],
    group: Option<&str>,
    all: bool,
    include_external: bool,
) -> (r: Result<Vec<&'a Repo>, HarmoniaError>)
    ensures
        match spec_select(
            workspace.repos@,
            workspace.config.groups,
            views(repos@),
            crate::text::opt_str_view(group),
            all,
            include_external,
        ) {
            Ok(v) => r matches Ok(o) && derefs(o@) == v,
            Err(m) => r matches Err(HarmoniaError::Other(e)) && e@ == m,
        },
{
    if repos.len() > 0 {
        return select_by_names(&workspace.repos, repos);
    }
    match group {
        Some(g) => return select_group(&workspace.repos, &workspace.config.groups, g, include_external),
        None => {},
    }
    if all {
        return Ok(select_all(&workspace.repos, include_external));
    }
    match &workspace.config.groups {
        Some(gc) => match &gc.default {
            Some(d) => return select_group(&workspace.repos, &workspace.config.groups, d.as_str(), include_external),
            None => {},
        },
        None => {},
    }
    Ok(select_all(&workspace.repos, include_external))
}

} // verus!
