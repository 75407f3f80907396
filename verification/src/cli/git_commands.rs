//! The git command lines the workspace commands run, and the hooks that run
//! before a commit or a push.
use vstd::prelude::*;
use crate::cli::args::{CommitArgs, DiffArgs, PushArgs};
use crate::numbers::{decimal, format_u64};
use crate::order::{insert_sorted_unique, strictly_sorted};
use crate::project::version::{ascii_lower, lower_equals, to_ascii_lower};
use crate::text::{lines, lines_spec, trim_spec, trim_str};
use crate::cli::quality::split_command;
use crate::error::HarmoniaError;
use crate::order::views;
use crate::project::repo::Repo;
use crate::project::workspace::Workspace;
use crate::text::{str_eq, string_of, words_spec};

verus! {

/// The trailer options, each as `--trailer` and the trailer.
pub open spec fn trailer_words(ts: Seq<Seq<char>>) -> Seq<Seq<char>>
    decreases ts.len(),
{
    if ts.len() == 0 {
        Seq::empty()
    } else {
        trailer_words(ts.drop_last()).push("--trailer"@).push(ts.last())
    }
}

/// `git commit` with the message, amend, empty-commit and trailer options
/// asked for.
pub open spec fn spec_commit_command(args: CommitArgs) -> Seq<Seq<char>> {
    seq!["git"@, "commit"@] + match args.message {
        Some(m) => seq!["-m"@, m@],
        None => Seq::empty(),
    } + (if args.amend {
        seq!["--amend"@]
    } else {
        Seq::empty()
    }) + (if args.allow_empty {
        seq!["--allow-empty"@]
    } else {
        Seq::empty()
    }) + trailer_words(views(args.trailers@))
}

/// The `git commit` command line.
pub fn commit_command(args: &CommitArgs) -> (r: Vec<String>)
    ensures
        views(r@) == spec_commit_command(*args),
{
    let mut cmd: Vec<String> = Vec::new();
    cmd.push(string_of("git"));
    cmd.push(string_of("commit"));
    match &args.message {
        Some(m) => {
            cmd.push(string_of("-m"));
            cmd.push(string_of(m.as_str()));
        },
        None => {},
    }
    if args.amend {
        cmd.push(string_of("--amend"));
    }
    if args.allow_empty {
        cmd.push(string_of("--allow-empty"));
    }
    let ghost head = views(cmd@);
    let ghost tv = views(args.trailers@);
    let mut i: usize = 0;
    while i < args.trailers.len()
        invariant
            i <= args.trailers@.len(),
            tv == views(args.trailers@),
            views(cmd@) == head + trailer_words(tv.take(i as int)),
        decreases args.trailers@.len() - i,
    {
        proof {
            assert(tv.take(i + 1).drop_last() =~= tv.take(i as int));
            assert(tv.take(i + 1).last() == tv[i as int]);
        }
        let ghost before = views(cmd@);
        cmd.push(string_of("--trailer"));
        cmd.push(string_of(args.trailers[i].as_str()));
        proof {
            assert(views(cmd@) =~= before.push("--trailer"@).push(tv[i as int]));
        }
        i += 1;
    }
    proof {
        assert(tv.take(args.trailers@.len() as int) =~= tv);
        assert(views(cmd@) =~= spec_commit_command(*args));
    }
    cmd
}

/// Forcing a push one way excludes the other.
pub fn check_push_args(args: &PushArgs) -> (r: Result<(), HarmoniaError>)
    ensures
        args.force && args.force_with_lease ==> (r matches Err(HarmoniaError::Other(m)) && m@
            == "--force and --force-with-lease cannot be used together"@),
        !(args.force && args.force_with_lease) ==> r is Ok,
{
    if args.force && args.force_with_lease {
        return Err(HarmoniaError::Other(string_of("--force and --force-with-lease cannot be used together")));
    }
    Ok(())
}

/// `git push` with the dry-run, force (with lease first) and upstream
/// options asked for.
pub open spec fn spec_push_command(args: PushArgs) -> Seq<Seq<char>> {
    seq!["git"@, "push"@] + (if args.dry_run {
        seq!["--dry-run"@]
    } else {
        Seq::empty()
    }) + (if args.force_with_lease {
        seq!["--force-with-lease"@]
    } else if args.force {
        seq!["--force"@]
    } else {
        Seq::empty()
    }) + (if args.set_upstream {
        seq!["-u"@]
    } else {
        Seq::empty()
    })
}

/// The `git push` command line.
pub fn push_command(args: &PushArgs) -> (r: Vec<String>)
    ensures
        views(r@) == spec_push_command(*args),
{
    let mut cmd: Vec<String> = Vec::new();
    cmd.push(string_of("git"));
    cmd.push(string_of("push"));
    if args.dry_run {
        cmd.push(string_of("--dry-run"));
    }
    if args.force_with_lease {
        cmd.push(string_of("--force-with-lease"));
    } else if args.force {
        cmd.push(string_of("--force"));
    }
    if args.set_upstream {
        cmd.push(string_of("-u"));
    }
    proof {
        assert(views(cmd@) =~= spec_push_command(*args));
    }
    cmd
}

/// A hook of the workspace or of a repository: `pre_commit` or `pre_push`.
#[derive(Debug, Clone, Copy, PartialEq, Eq, Structural)]
pub enum HookKind {
    PreCommit,
    PrePush,
}

/// The name of a hook as the configuration lists it.
pub open spec fn hook_name(k: HookKind) -> Seq<char> {
    match k {
        HookKind::PreCommit => "pre_commit"@,
        HookKind::PrePush => "pre_push"@,
    }
}

/// The command the workspace configures for a hook.
pub open spec fn workspace_hook(ws: Workspace, k: HookKind) -> Option<Seq<char>> {
    match ws.config.hooks {
        Some(h) => match k {
            HookKind::PreCommit => match h.pre_commit {
                Some(c) => Some(c@),
                None => None,
            },
            HookKind::PrePush => match h.pre_push {
                Some(c) => Some(c@),
                None => None,
            },
        },
        None => None,
    }
}

/// The command a repository configures for a hook.
pub open spec fn repo_hook(r: Repo, k: HookKind) -> Option<Seq<char>> {
    match r.config {
        Some(c) => match c.hooks {
            Some(h) => match k {
                HookKind::PreCommit => match h.pre_commit {
                    Some(c) => Some(c@),
                    None => None,
                },
                HookKind::PrePush => match h.pre_push {
                    Some(c) => Some(c@),
                    None => None,
                },
            },
            None => None,
        },
        None => None,
    }
}

/// A repository turns the workspace's hook of this name off.
pub open spec fn spec_disables_hook(r: Repo, name: Seq<char>) -> bool {
    match r.config {
        Some(c) => match c.hooks {
            Some(h) => match h.disable_workspace_hooks {
                Some(d) => views(d@).contains(name),
                None => false,
            },
            None => false,
        },
        None => false,
    }
}

/// Whether a repository turns the workspace's hook `hook_name` off.
pub fn repo_disables_hook(repo: &Repo, hook_name: &str) -> (r: bool)
    ensures
        r == spec_disables_hook(*repo, hook_name@),
{
    match &repo.config {
        Some(c) => match &c.hooks {
            Some(h) => match &h.disable_workspace_hooks {
                Some(d) => crate::order::contains_str(d, hook_name),
                None => false,
            },
            None => false,
        },
        None => false,
    }
}

/// A command to run, and the directory to run it in.
#[derive(Debug)]
pub struct HookRun {
    pub dir: String,
    pub command: Vec<String>,
}

/// The run of a hook command in a directory.
pub open spec fn hook_run_is(h: HookRun, dir: Seq<char>, command: Seq<char>) -> bool {
    h.dir@ == dir && views(h.command@) == words_spec(command)
}

/// The repositories, in order, that configure a hook.
pub open spec fn hooked_repos(rs: Seq<Repo>, k: HookKind) -> Seq<Repo>
    decreases rs.len(),
{
    if rs.len() == 0 {
        Seq::empty()
    } else if repo_hook(rs.last(), k) is Some {
        hooked_repos(rs.drop_last(), k).push(rs.last())
    } else {
        hooked_repos(rs.drop_last(), k)
    }
}

/// The workspace hook runs (in the workspace root) when configured and
/// some repository keeps it on.
pub open spec fn workspace_hook_runs(ws: Workspace, repos: Seq<Repo>, k: HookKind) -> bool {
    workspace_hook(ws, k) is Some && exists|i: int| 0 <= i < repos.len() && !spec_disables_hook(#[trigger] repos[i], hook_name(k))
}

/// The commands a hook runs before a commit or a push, in order: none when
/// hooks are skipped; else the workspace's, then each repository's own.
pub fn hook_runs(workspace: &Workspace, repos: &Vec<Repo>, kind: HookKind, skip: bool) -> (r: Vec<HookRun>)
    ensures
        skip ==> r@.len() == 0,
        !skip ==> {
            let own = hooked_repos(repos@, kind);
            let w: int = if workspace_hook_runs(*workspace, repos@, kind) { 1 } else { 0 };
            &&& r@.len() == w + own.len()
            &&& w == 1 ==> hook_run_is(r@[0], workspace.root@, workspace_hook(*workspace, kind)->0)
            &&& forall|j: int| 0 <= j < own.len() ==> hook_run_is(#[trigger] r@[w + j], own[j].path@, repo_hook(own[j], kind)->0)
        },
{
    let mut out: Vec<HookRun> = Vec::new();
    if skip {
        return out;
    }
    let name = match kind {
        HookKind::PreCommit => "pre_commit",
        HookKind::PrePush => "pre_push",
    };
    proof {
        reveal_strlit("pre_commit");
        reveal_strlit("pre_push");
    }
    assert(name@ == hook_name(kind));
    let mut keeps = false;
    let mut i: usize = 0;
    while i < repos.len()
        invariant
            i <= repos@.len(),
            name@ == hook_name(kind),
            keeps == exists|a: int| 0 <= a < i && !spec_disables_hook(#[trigger] repos@[a], hook_name(kind)),
        decreases repos@.len() - i,
    {
        if !repo_disables_hook(&repos[i], name) {
            keeps = true;
        }
        i += 1;
    }
    let command: Option<&String> = match &workspace.config.hooks {
        Some(h) => match kind {
            HookKind::PreCommit => h.pre_commit.as_ref(),
            HookKind::PrePush => h.pre_push.as_ref(),
        },
        None => None,
    };
    match command {
        Some(c) => {
            if keeps {
                out.push(HookRun { dir: string_of(workspace.root.as_str()), command: split_command(c.as_str()) });
            }
        },
        None => {},
    }
    let ghost w: int = out@.len() as int;
    assert(w == (if workspace_hook_runs(*workspace, repos@, kind) { 1int } else { 0int }));
    let mut k: usize = 0;
    while k < repos.len()
        invariant
            k <= repos@.len(),
            w == (if workspace_hook_runs(*workspace, repos@, kind) { 1int } else { 0int }),
            out@.len() == w + hooked_repos(repos@.take(k as int), kind).len(),
            w == 1 ==> hook_run_is(out@[0], workspace.root@, workspace_hook(*workspace, kind)->0),
            forall|j: int|
                0 <= j < hooked_repos(repos@.take(k as int), kind).len() ==> hook_run_is(
                    #[trigger] out@[w + j],
                    hooked_repos(repos@.take(k as int), kind)[j].path@,
                    repo_hook(hooked_repos(repos@.take(k as int), kind)[j], kind)->0,
                ),
        decreases repos@.len() - k,
    {
        proof {
            assert(repos@.take(k + 1).drop_last() =~= repos@.take(k as int));
            assert(repos@.take(k + 1).last() == repos@[k as int]);
        }
        let r = &repos[k];
        let own: Option<&String> = match &r.config {
            Some(c) => match &c.hooks {
                Some(h) => match kind {
                    HookKind::PreCommit => h.pre_commit.as_ref(),
                    HookKind::PrePush => h.pre_push.as_ref(),
                },
                None => None,
            },
            None => None,
        };
        let ghost before = out@;
        match own {
            Some(c) => {
                out.push(HookRun { dir: string_of(r.path.as_str()), command: split_command(c.as_str()) });
                proof {
                    let hs = hooked_repos(repos@.take(k as int), kind);
                    assert(hooked_repos(repos@.take(k + 1), kind) == hs.push(*r));
                    assert forall|j: int| 0 <= j < hs.push(*r).len() implies hook_run_is(
                        #[trigger] out@[w + j],
                        hs.push(*r)[j].path@,
                        repo_hook(hs.push(*r)[j], kind)->0,
                    ) by {
                        if j < hs.len() {
                            assert(out@[w + j] == before[w + j]);
                        }
                    }
                    if w == 1 {
                        assert(out@[0] == before[0]);
                    }
                }
            },
            None => {
                proof {
                    assert(hooked_repos(repos@.take(k + 1), kind) == hooked_repos(repos@.take(k as int), kind));
                }
            },
        }
        k += 1;
    }
    proof {
        assert(repos@.take(repos@.len() as int) =~= repos@);
    }
    out
}

/// The diff is asked for as JSON.
pub open spec fn diff_as_json(args: DiffArgs) -> bool {
    ascii_lower(args.format@) == "json"@
}

/// Only the names of the changed files are asked for.
pub open spec fn diff_names_only(args: DiffArgs) -> bool {
    args.name_only || ascii_lower(args.format@) == "name-only"@
}

/// `git diff` with the staged, statistics, names-only and context options
/// asked for.
pub open spec fn spec_diff_command(args: DiffArgs) -> Seq<Seq<char>> {
    seq!["git"@, "diff"@] + (if args.staged {
        seq!["--staged"@]
    } else {
        Seq::empty()
    }) + (if args.stat || ascii_lower(args.format@) == "stat"@ {
        seq!["--stat"@]
    } else {
        Seq::empty()
    }) + (if diff_names_only(args) {
        seq!["--name-only"@]
    } else {
        Seq::empty()
    }) + match args.unified {
        Some(n) => seq!["--unified="@ + decimal(n as nat)],
        None => Seq::empty(),
    }
}

/// Whether the diff is asked for as JSON.
pub fn diff_json_requested(args: &DiffArgs) -> (r: bool)
    ensures
        r == diff_as_json(*args),
{
    let f = to_ascii_lower(args.format.as_str());
    lower_equals(&f, "json")
}

/// Whether only the names of the changed files are asked for.
pub fn diff_names_requested(args: &DiffArgs) -> (r: bool)
    ensures
        r == diff_names_only(*args),
{
    let f = to_ascii_lower(args.format.as_str());
    args.name_only || lower_equals(&f, "name-only")
}

/// The `git diff` command line.
pub fn build_diff_command(args: &DiffArgs) -> (r: Vec<String>)
    ensures
        views(r@) == spec_diff_command(*args),
{
    let f = to_ascii_lower(args.format.as_str());
    let mut cmd: Vec<String> = Vec::new();
    cmd.push(string_of("git"));
    cmd.push(string_of("diff"));
    if args.staged {
        cmd.push(string_of("--staged"));
    }
    if args.stat || lower_equals(&f, "stat") {
        cmd.push(string_of("--stat"));
    }
    if diff_names_requested(args) {
        cmd.push(string_of("--name-only"));
    }
    match args.unified {
        Some(n) => {
            let mut o = string_of("--unified=");
            let d = format_u64(n as u64);
            crate::text::push_str(&mut o, d.as_str());
            cmd.push(o);
        },
        None => {},
    }
    proof {
        assert(views(cmd@) =~= spec_diff_command(*args));
    }
    cmd
}

/// The command that lists the changed files.
pub open spec fn spec_diff_files_command(staged: bool) -> Seq<Seq<char>> {
    seq!["git"@, "diff"@, "--name-only"@] + if staged {
        seq!["--staged"@]
    } else {
        Seq::empty()
    }
}

/// The command that lists the changed files.
pub fn diff_files_command(staged: bool) -> (r: Vec<String>)
    ensures
        views(r@) == spec_diff_files_command(staged),
{
    let mut cmd: Vec<String> = Vec::new();
    cmd.push(string_of("git"));
    cmd.push(string_of("diff"));
    cmd.push(string_of("--name-only"));
    if staged {
        cmd.push(string_of("--staged"));
    }
    proof {
        assert(views(cmd@) =~= spec_diff_files_command(staged));
    }
    cmd
}

/// Some line of `out`, trimmed, is `x`.
pub open spec fn listed_file(out: Seq<char>, x: Seq<char>) -> bool {
    exists|i: int| 0 <= i < lines_spec(out).len() && #[trigger] trim_spec(lines_spec(out)[i]) == x
}

/// Adds the trimmed, non-empty lines of `out` to the sorted set `acc`.
fn add_lines(acc: &mut Vec<String>, out: &str)
    requires
        strictly_sorted(views(old(acc)@)),
    ensures
        strictly_sorted(views(final(acc)@)),
        forall|x: Seq<char>| #[trigger] views(final(acc)@).contains(x) <==> views(old(acc)@).contains(x) || (x.len() > 0
            && listed_file(out@, x)),
{
    let ls = lines(out);
    let ghost start = views(acc@);
    let mut i: usize = 0;
    while i < ls.len()
        invariant
            views(ls@) == lines_spec(out@),
            i <= ls@.len(),
            strictly_sorted(views(acc@)),
            forall|x: Seq<char>| #[trigger] views(acc@).contains(x) <==> start.contains(x) || (x.len() > 0 && exists|j: int|
                0 <= j < i && #[trigger] trim_spec(lines_spec(out@)[j]) == x),
        decreases ls@.len() - i,
    {
        let ghost before = views(acc@);
        let t = trim_str(ls[i].as_str());
        proof {
            assert(lines_spec(out@)[i as int] == ls@[i as int]@);
        }
        if crate::text::to_chars(t.as_str()).len() > 0 {
            insert_sorted_unique(acc, t);
        }
        proof {
            assert forall|x: Seq<char>| #[trigger] views(acc@).contains(x) <==> start.contains(x) || (x.len() > 0
                && exists|j: int| 0 <= j < i + 1 && #[trigger] trim_spec(lines_spec(out@)[j]) == x) by {
                assert(views(acc@).to_set().contains(x) == views(acc@).contains(x));
                assert(before.to_set().contains(x) == before.contains(x));
                if x.len() > 0 && exists|j: int| 0 <= j < i + 1 && #[trigger] trim_spec(lines_spec(out@)[j]) == x {
                    let j = choose|j: int| 0 <= j < i + 1 && #[trigger] trim_spec(lines_spec(out@)[j]) == x;
                    if j < i {
                        assert(exists|j2: int| 0 <= j2 < i && #[trigger] trim_spec(lines_spec(out@)[j2]) == x);
                    }
                }
                if x.len() > 0 && exists|j: int| 0 <= j < i && #[trigger] trim_spec(lines_spec(out@)[j]) == x {
                    let j = choose|j: int| 0 <= j < i && #[trigger] trim_spec(lines_spec(out@)[j]) == x;
                    assert(0 <= j < i + 1 && trim_spec(lines_spec(out@)[j]) == x);
                }
            }
        }
        i += 1;
    }
}

/// The changed files of a repository, sorted and each once: the trimmed,
/// non-empty lines of `git diff --name-only` and, when given, of the list of
/// untracked files.
pub fn diff_file_list(diff_out: &str, untracked_out: Option<&str>) -> (r: Vec<String>)
    ensures
        strictly_sorted(views(r@)),
        forall|x: Seq<char>| #[trigger] views(r@).contains(x) <==> x.len() > 0 && (listed_file(diff_out@, x) || match untracked_out {
            Some(u) => listed_file(u@, x),
            None => false,
        }),
{
    let mut acc: Vec<String> = Vec::new();
    add_lines(&mut acc, diff_out);
    match untracked_out {
        Some(u) => add_lines(&mut acc, u),
        None => {},
    }
    acc
}

} // verus!
