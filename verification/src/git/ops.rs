//! How a repository is synchronised with its remote.
use vstd::prelude::*;
use crate::error::HarmoniaError;
use crate::numbers::{decimal, format_u64};
use crate::text::{concat2, concat3, push_str, string_of};

verus! {

/// What a synchronisation does.
#[derive(Debug, Clone, Copy)]
pub struct SyncOptions {
    pub fetch_only: bool,
    pub ff_only: bool,
    pub rebase: bool,
    pub autostash: bool,
    pub prune: bool,
}

/// What a synchronisation did.
#[derive(Debug, Default, Clone, Copy)]
pub struct SyncOutcome {
    pub fast_forwarded: bool,
    pub merged: bool,
    pub autostashed: bool,
    pub pruned: usize,
}

/// How the current branch stands to its upstream after fetching.
#[derive(Debug, Clone, Copy, PartialEq, Eq, Structural)]
pub enum BranchRelation {
    /// Both point at the same commit.
    Same,
    /// The upstream is contained in the branch.
    Ahead,
    /// The branch is contained in the upstream.
    Behind,
    /// Each has commits the other lacks.
    Diverged,
}

/// How the branch is brought up to date.
#[derive(Debug, Clone, Copy, PartialEq, Eq, Structural)]
pub enum SyncStep {
    /// It already holds the upstream.
    Nothing,
    /// It is moved forward to the upstream.
    FastForward,
    /// The upstream is merged into it with a merge commit (`--no-edit`).
    Merge,
}

/// The step after fetching (which pruned `pruned` references): done when
/// only fetching, an error when a rebase is asked for, otherwise `None`,
/// meaning the branch is to be brought up to date next.
pub fn after_fetch(options: SyncOptions, pruned: usize) -> (r: Result<Option<SyncOutcome>, HarmoniaError>)
    ensures
        options.fetch_only ==> (r matches Ok(Some(o)) && !o.fast_forwarded && !o.merged && !o.autostashed && o.pruned
            == pruned),
        !options.fetch_only && options.rebase ==> (r matches Err(HarmoniaError::Other(m)) && m@
            == "rebase is not implemented yet"@),
        !options.fetch_only && !options.rebase ==> r matches Ok(None),
{
    if options.fetch_only {
        return Ok(Some(SyncOutcome { fast_forwarded: false, merged: false, autostashed: false, pruned }));
    }
    if options.rebase {
        return Err(HarmoniaError::Other(string_of("rebase is not implemented yet")));
    }
    Ok(None)
}

/// The step that brings a branch up to date, and whether local changes are
/// stashed around it: nothing when the branch holds the upstream; else a
/// fast-forward, or a merge when the histories diverged (an error under
/// `ff_only`); a change needs a clean working tree, or `autostash`.
pub open spec fn spec_sync_step(relation: BranchRelation, clean: bool, options: SyncOptions) -> Result<
    (SyncStep, bool),
    Seq<char>,
> {
    if relation == BranchRelation::Same || relation == BranchRelation::Ahead {
        Ok((SyncStep::Nothing, false))
    } else if relation == BranchRelation::Diverged && options.ff_only {
        Err("fast-forward is not possible"@)
    } else if !clean && !options.autostash {
        Err("working tree has uncommitted changes"@)
    } else {
        Ok((
            if relation == BranchRelation::Behind {
                SyncStep::FastForward
            } else {
                SyncStep::Merge
            },
            !clean,
        ))
    }
}

/// The step that brings a branch up to date.
pub fn sync_step(relation: BranchRelation, clean: bool, options: SyncOptions) -> (r: Result<(SyncStep, bool), HarmoniaError>)
    ensures
        match spec_sync_step(relation, clean, options) {
            Ok(p) => r matches Ok(q) && q == p,
            Err(m) => r matches Err(HarmoniaError::Other(e)) && e@ == m,
        },
{
    if relation == BranchRelation::Same || relation == BranchRelation::Ahead {
        return Ok((SyncStep::Nothing, false));
    }
    if relation == BranchRelation::Diverged && options.ff_only {
        return Err(HarmoniaError::Other(string_of("fast-forward is not possible")));
    }
    if !clean && !options.autostash {
        return Err(HarmoniaError::Other(string_of("working tree has uncommitted changes")));
    }
    let step = if relation == BranchRelation::Behind {
        SyncStep::FastForward
    } else {
        SyncStep::Merge
    };
    Ok((step, !clean))
}

/// What the synchronisation did once `step` ran (stashing around it when
/// `stashed`) after a fetch that pruned `pruned` references.
pub fn sync_outcome(step: SyncStep, stashed: bool, pruned: usize) -> (r: SyncOutcome)
    ensures
        r.fast_forwarded == (step == SyncStep::FastForward),
        r.merged == (step == SyncStep::Merge),
        r.autostashed == stashed,
        r.pruned == pruned,
{
    SyncOutcome {
        fast_forwarded: step == SyncStep::FastForward,
        merged: step == SyncStep::Merge,
        autostashed: stashed,
        pruned,
    }
}

/// The line reported for a synchronised repository: fetched when only
/// fetching, else fast-forwarded, merged or already up to date.
pub open spec fn spec_sync_line(repo: Seq<char>, fetch_only: bool, outcome: SyncOutcome) -> Seq<char> {
    (if fetch_only {
        "fetched (repo "@
    } else if outcome.fast_forwarded {
        "fast-forward (repo "@
    } else if outcome.merged {
        "merge (repo "@
    } else {
        "up-to-date (repo "@
    }) + repo + ")"@
}

/// The line reported for a synchronised repository.
pub fn sync_report_line(repo: &str, fetch_only: bool, outcome: SyncOutcome) -> (r: String)
    ensures
        r@ == spec_sync_line(repo@, fetch_only, outcome),
{
    let head = if fetch_only {
        "fetched (repo "
    } else if outcome.fast_forwarded {
        "fast-forward (repo "
    } else if outcome.merged {
        "merge (repo "
    } else {
        "up-to-date (repo "
    };
    concat3(head, repo, ")")
}

/// The note on reapplied local changes, when they were stashed.
pub fn sync_autostash_note(repo: &str, outcome: SyncOutcome) -> (r: Option<String>)
    ensures
        match r {
            Some(m) => outcome.autostashed && m@ == "autostash reapplied local changes in "@ + repo@,
            None => !outcome.autostashed,
        },
{
    if outcome.autostashed {
        Some(concat2("autostash reapplied local changes in ", repo))
    } else {
        None
    }
}

/// The note on pruned references, when any were pruned.
pub fn sync_pruned_note(repo: &str, outcome: SyncOutcome) -> (r: Option<String>)
    ensures
        match r {
            Some(m) => outcome.pruned > 0 && m@ == "pruned "@ + decimal(outcome.pruned as nat) + " stale refs in "@ + repo@,
            None => outcome.pruned == 0,
        },
{
    if outcome.pruned == 0 {
        return None;
    }
    let mut m = string_of("pruned ");
    let n = format_u64(outcome.pruned as u64);
    push_str(&mut m, n.as_str());
    push_str(&mut m, " stale refs in ");
    push_str(&mut m, repo);
    Some(m)
}

/// The error that ends a synchronisation with failures.
pub fn sync_failure(failures: usize) -> (r: HarmoniaError)
    ensures
        r matches HarmoniaError::Other(m) && m@ == "sync failed in "@ + decimal(failures as nat) + " repositories"@,
{
    let n = format_u64(failures as u64);
    HarmoniaError::Other(concat3("sync failed in ", n.as_str(), " repositories"))
}

} // verus!
