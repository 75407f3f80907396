use harmonia::error::HarmoniaError;
use harmonia::git::ops::{after_fetch, sync_autostash_note, sync_outcome, sync_report_line, sync_step, BranchRelation, SyncOptions,
    SyncStep};

fn options(ff_only: bool, autostash: bool) -> SyncOptions {
    SyncOptions { fetch_only: false, ff_only, rebase: false, autostash, prune: false }
}

fn message(err: HarmoniaError) -> String {
    match err {
        HarmoniaError::Other(m) => m,
        _ => panic!("expected an Other error"),
    }
}

#[test]
fn sync_fast_forwards_or_merges_by_relation() {
    assert_eq!(sync_step(BranchRelation::Same, false, options(false, false)).unwrap(), (SyncStep::Nothing, false));
    assert_eq!(sync_step(BranchRelation::Ahead, true, options(false, false)).unwrap(), (SyncStep::Nothing, false));
    assert_eq!(sync_step(BranchRelation::Behind, true, options(false, false)).unwrap(), (SyncStep::FastForward, false));
    assert_eq!(sync_step(BranchRelation::Diverged, true, options(false, false)).unwrap(), (SyncStep::Merge, false));
    assert_eq!(
        message(sync_step(BranchRelation::Diverged, true, options(true, false)).unwrap_err()),
        "fast-forward is not possible"
    );
}

#[test]
fn sync_needs_a_clean_tree_unless_autostashing() {
    assert_eq!(
        message(sync_step(BranchRelation::Behind, false, options(false, false)).unwrap_err()),
        "working tree has uncommitted changes"
    );
    assert_eq!(sync_step(BranchRelation::Diverged, false, options(false, true)).unwrap(), (SyncStep::Merge, true));
    let outcome = sync_outcome(SyncStep::Merge, true, 2);
    assert_eq!(sync_report_line("app", false, outcome), "merge (repo app)");
    assert_eq!(sync_autostash_note("app", outcome).as_deref(), Some("autostash reapplied local changes in app"));
    assert_eq!(sync_autostash_note("app", sync_outcome(SyncStep::FastForward, false, 0)), None);
}

#[test]
fn fetch_only_stops_after_fetching() {
    let opts = SyncOptions { fetch_only: true, ff_only: false, rebase: false, autostash: false, prune: true };
    let outcome = after_fetch(opts, 3).unwrap().expect("done after fetch");
    assert_eq!(sync_report_line("core", true, outcome), "fetched (repo core)");
    assert_eq!(outcome.pruned, 3);
}
