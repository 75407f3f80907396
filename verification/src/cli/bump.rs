//! The decisions of a version bump: the mode and level asked for, how each
//! repository is versioned, whether dependents follow, and the plan shown
//! before anything is written.
use vstd::prelude::*;
use crate::cli::args::VersionBumpArgs;
use crate::cli::deps::{DependencyUpdate, UpdateView, update_views};
use crate::error::HarmoniaError;
use crate::project::repo::{Repo, RepoId};
use crate::project::version::{
    BumpLevel, BumpMode, Version, VersionError, VersionKind, parse_bump_level, parse_bump_mode, parse_version_kind,
    spec_parse_bump_level, spec_parse_bump_mode, spec_parse_version_kind,
};
use crate::project::workspace::Workspace;
use crate::text::{concat3, opt_string_view, push_str, string_of};

verus! {

/// The mode given on the command line: none when absent, an error when it
/// names no mode.
pub open spec fn spec_mode_override(mode: Option<Seq<char>>) -> Result<Option<BumpMode>, Seq<char>> {
    match mode {
        None => Ok(None),
        Some(m) => match spec_parse_bump_mode(m) {
            Some(b) => Ok(Some(b)),
            None => Err("unknown bump mode '"@ + m + "'"@),
        },
    }
}

/// The mode given on the command line.
pub fn parse_mode_override(mode: &Option<String>) -> (r: Result<Option<BumpMode>, HarmoniaError>)
    ensures
        match (r, spec_mode_override(opt_string_view(*mode))) {
            (Ok(v), Ok(s)) => v == s,
            (Err(HarmoniaError::Other(m)), Err(e)) => m@ == e,
            _ => false,
        },
{
    match mode {
        None => Ok(None),
        Some(m) => match parse_bump_mode(m.as_str()) {
            Some(b) => Ok(Some(b)),
            None => Err(HarmoniaError::Other(concat3("unknown bump mode '", m.as_str(), "'"))),
        },
    }
}

/// The level given on the command line: none when absent, an error when it
/// names no level.
pub open spec fn spec_level_arg(level: Option<Seq<char>>) -> Result<Option<BumpLevel>, Seq<char>> {
    match level {
        None => Ok(None),
        Some(l) => match spec_parse_bump_level(l) {
            Some(b) => Ok(Some(b)),
            None => Err("unknown bump level '"@ + l + "'"@),
        },
    }
}

/// The level given on the command line.
pub fn parse_level_arg(level: &Option<String>) -> (r: Result<Option<BumpLevel>, HarmoniaError>)
    ensures
        match (r, spec_level_arg(opt_string_view(*level))) {
            (Ok(v), Ok(s)) => v == s,
            (Err(HarmoniaError::Other(m)), Err(e)) => m@ == e,
            _ => false,
        },
{
    match level {
        None => Ok(None),
        Some(l) => match parse_bump_level(l.as_str()) {
            Some(b) => Ok(Some(b)),
            None => Err(HarmoniaError::Other(concat3("unknown bump level '", l.as_str(), "'"))),
        },
    }
}

/// A versioning setting of the repository (`which` 0: strategy, 1: bump
/// mode), else of the workspace.
pub open spec fn versioning_setting(repo: Repo, w: Workspace, which: int) -> Option<Seq<char>> {
    let own = match repo.config {
        Some(c) => match c.versioning {
            Some(v) => opt_string_view(if which == 0 { v.strategy } else { v.bump_mode }),
            None => None,
        },
        None => None,
    };
    match own {
        Some(s) => Some(s),
        None => match w.config.versioning {
            Some(v) => opt_string_view(if which == 0 { v.strategy } else { v.bump_mode }),
            None => None,
        },
    }
}

/// A versioning setting of the repository, else of the workspace.
fn setting(repo: &Repo, workspace: &Workspace, which: u8) -> (r: Option<String>)
    requires
        which < 2,
    ensures
        opt_string_view(r) == versioning_setting(*repo, *workspace, which as int),
{
    let own: Option<String> = match &repo.config {
        Some(c) => match &c.versioning {
            Some(v) => {
                let s = if which == 0 { &v.strategy } else { &v.bump_mode };
                match s {
                    Some(x) => Some(string_of(x.as_str())),
                    None => None,
                }
            },
            None => None,
        },
        None => None,
    };
    match own {
        Some(s) => Some(s),
        None => match &workspace.config.versioning {
            Some(v) => {
                let s = if which == 0 { &v.strategy } else { &v.bump_mode };
                match s {
                    Some(x) => Some(string_of(x.as_str())),
                    None => None,
                }
            },
            None => None,
        },
    }
}

/// How a repository's version is read: the configured strategy (the
/// repository's, else the workspace's), semver when none; an error for an
/// unknown strategy.
pub open spec fn spec_version_kind(repo: Repo, w: Workspace) -> Result<VersionKind, Seq<char>> {
    match versioning_setting(repo, w, 0) {
        None => Ok(VersionKind::Semver),
        Some(s) => match spec_parse_version_kind(s) {
            Some(k) => Ok(k),
            None => Err("unknown versioning strategy '"@ + s + "'"@),
        },
    }
}

/// How a repository's version is read.
pub fn resolve_version_kind(repo: &Repo, workspace: &Workspace) -> (r: Result<VersionKind, HarmoniaError>)
    ensures
        match (r, spec_version_kind(*repo, *workspace)) {
            (Ok(v), Ok(s)) => v == s,
            (Err(HarmoniaError::Other(m)), Err(e)) => m@ == e,
            _ => false,
        },
{
    match setting(repo, workspace, 0) {
        None => Ok(VersionKind::Semver),
        Some(s) => match parse_version_kind(s.as_str()) {
            Some(k) => Ok(k),
            None => Err(HarmoniaError::Other(concat3("unknown versioning strategy '", s.as_str(), "'"))),
        },
    }
}

/// How a repository's version is bumped: the mode given on the command
/// line, else the configured one (the repository's, else the workspace's),
/// semver when none; an error for an unknown configured mode.
pub open spec fn spec_bump_mode(repo: Repo, w: Workspace, override_mode: Option<BumpMode>) -> Result<BumpMode, Seq<char>> {
    match override_mode {
        Some(m) => Ok(m),
        None => match versioning_setting(repo, w, 1) {
            None => Ok(BumpMode::Semver),
            Some(s) => match spec_parse_bump_mode(s) {
                Some(m) => Ok(m),
                None => Err("unknown bump mode '"@ + s + "'"@),
            },
        },
    }
}

/// How a repository's version is bumped.
pub fn resolve_bump_mode(repo: &Repo, workspace: &Workspace, override_mode: Option<BumpMode>) -> (r: Result<
    BumpMode,
    HarmoniaError,
>)
    ensures
        match (r, spec_bump_mode(*repo, *workspace, override_mode)) {
            (Ok(v), Ok(s)) => v == s,
            (Err(HarmoniaError::Other(m)), Err(e)) => m@ == e,
            _ => false,
        },
{
    match override_mode {
        Some(m) => Ok(m),
        None => match setting(repo, workspace, 1) {
            None => Ok(BumpMode::Semver),
            Some(s) => match parse_bump_mode(s.as_str()) {
                Some(m) => Ok(m),
                None => Err(HarmoniaError::Other(concat3("unknown bump mode '", s.as_str(), "'"))),
            },
        },
    }
}

/// Whether dependents are bumped too: asked on the command line or
/// configured.
pub open spec fn spec_cascade(args: VersionBumpArgs, w: Workspace) -> bool {
    args.cascade || match w.config.versioning {
        Some(v) => match v.cascade_bumps {
            Some(b) => b,
            None => false,
        },
        None => false,
    }
}

/// Whether dependents are bumped too.
pub fn cascade_enabled(args: &VersionBumpArgs, workspace: &Workspace) -> (r: bool)
    ensures
        r == spec_cascade(*args, *workspace),
{
    if args.cascade {
        return true;
    }
    match &workspace.config.versioning {
        Some(v) => match v.cascade_bumps {
            Some(b) => b,
            None => false,
        },
        None => false,
    }
}

/// Refuses a prerelease tag for a mode other than semver.
pub fn check_prerelease(pre: &Option<String>, mode: BumpMode) -> (r: Result<(), HarmoniaError>)
    ensures
        match r {
            Ok(()) => pre is None || mode == BumpMode::Semver,
            Err(HarmoniaError::Other(m)) => pre is Some && mode != BumpMode::Semver && m@
                == "prerelease tags are only supported with semver"@,
            Err(_) => false,
        },
{
    if pre.is_some() && mode != BumpMode::Semver {
        return Err(HarmoniaError::Other(string_of("prerelease tags are only supported with semver")));
    }
    Ok(())
}

/// The error a failed bump is reported with: its message.
pub fn bump_error(err: &VersionError) -> (r: HarmoniaError)
    ensures
        r matches HarmoniaError::Other(m) && m@ == err.spec_message(),
{
    HarmoniaError::Other(err.message())
}

/// One planned version, one line: `  <repo> -> <version>`.
pub open spec fn plan_line(id: Seq<char>, version: Seq<char>) -> Seq<char> {
    "  "@ + id + " -> "@ + version + "\n"@
}

/// The planned versions, one line each.
pub open spec fn plan_lines(p: Seq<(Seq<char>, Seq<char>)>) -> Seq<char>
    decreases p.len(),
{
    if p.len() == 0 {
        Seq::empty()
    } else {
        plan_lines(p.drop_last()) + plan_line(p.last().0, p.last().1)
    }
}

/// One update, one line: `  <repo>: <dependency> -> <requirement>`.
pub open spec fn update_line(u: UpdateView) -> Seq<char> {
    "  "@ + u.0 + ": "@ + u.1 + " -> "@ + u.2 + "\n"@
}

/// The updates, one line each.
pub open spec fn update_lines(u: Seq<UpdateView>) -> Seq<char>
    decreases u.len(),
{
    if u.len() == 0 {
        Seq::empty()
    } else {
        update_lines(u.drop_last()) + update_line(u.last())
    }
}

/// The planned versions as (repository, version text).
pub open spec fn planned_views(p: Seq<(RepoId, Version)>) -> Seq<(Seq<char>, Seq<char>)> {
    p.map_values(|e: (RepoId, Version)| (e.0@, e.1.raw@))
}

/// What a dry run of a bump shows: the planned versions in the order given,
/// then the requirement updates when there are any.
pub open spec fn spec_bump_plan_text(planned: Seq<(Seq<char>, Seq<char>)>, updates: Seq<UpdateView>) -> Seq<char> {
    "version bump plan:\n"@ + plan_lines(planned) + if updates.len() > 0 {
        "dependency updates:\n"@ + update_lines(updates)
    } else {
        Seq::empty()
    }
}

/// Appends the update lines.
fn push_update_lines(out: &mut String, updates: &Vec<DependencyUpdate>)
    ensures
        final(out)@ == old(out)@ + update_lines(update_views(updates@)),
{
    let ghost start = out@;
    let ghost uv = update_views(updates@);
    let mut i: usize = 0;
    while i < updates.len()
        invariant
            i <= updates@.len(),
            uv == update_views(updates@),
            out@ == start + update_lines(uv.take(i as int)),
        decreases updates@.len() - i,
    {
        proof {
            assert(uv.take(i + 1).drop_last() =~= uv.take(i as int));
            assert(uv.take(i + 1).last() == uv[i as int]);
        }
        let u = &updates[i];
        push_str(out, "  ");
        push_str(out, u.repo.as_str());
        push_str(out, ": ");
        push_str(out, u.dependency.as_str());
        push_str(out, " -> ");
        push_str(out, u.constraint.as_str());
        push_str(out, "\n");
        proof {
            assert(out@ =~= start + update_lines(uv.take(i as int)) + update_line(uv[i as int]));
        }
        i += 1;
    }
    proof {
        assert(uv.take(updates@.len() as int) =~= uv);
    }
}

/// What a dry run of a bump shows.
pub fn bump_plan_text(planned: &Vec<(RepoId, Version)>, updates: &Vec<DependencyUpdate>) -> (r: String)
    ensures
        r@ == spec_bump_plan_text(planned_views(planned@), update_views(updates@)),
{
    let ghost pv = planned_views(planned@);
    let mut out = string_of("version bump plan:\n");
    let ghost head = out@;
    let mut i: usize = 0;
    while i < planned.len()
        invariant
            i <= planned@.len(),
            pv == planned_views(planned@),
            out@ == head + plan_lines(pv.take(i as int)),
        decreases planned@.len() - i,
    {
        proof {
            assert(pv.take(i + 1).drop_last() =~= pv.take(i as int));
            assert(pv.take(i + 1).last() == pv[i as int]);
        }
        push_str(&mut out, "  ");
        push_str(&mut out, planned[i].0.as_str());
        push_str(&mut out, " -> ");
        push_str(&mut out, planned[i].1.raw.as_str());
        push_str(&mut out, "\n");
        proof {
            assert(out@ =~= head + plan_lines(pv.take(i as int)) + plan_line(pv[i as int].0, pv[i as int].1));
        }
        i += 1;
    }
    proof {
        assert(pv.take(planned@.len() as int) =~= pv);
    }
    if updates.len() > 0 {
        push_str(&mut out, "dependency updates:\n");
        push_update_lines(&mut out, updates);
    }
    proof {
        assert(out@ =~= spec_bump_plan_text(pv, update_views(updates@)));
    }
    out
}

/// What a dry run of a requirement update shows.
pub open spec fn spec_update_plan_text(updates: Seq<UpdateView>) -> Seq<char> {
    "dependency update plan:\n"@ + update_lines(updates)
}

/// What a dry run of a requirement update shows.
pub fn update_plan_text(updates: &Vec<DependencyUpdate>) -> (r: String)
    ensures
        r@ == spec_update_plan_text(update_views(updates@)),
{
    let mut out = string_of("dependency update plan:\n");
    push_update_lines(&mut out, updates);
    out
}

} // verus!
