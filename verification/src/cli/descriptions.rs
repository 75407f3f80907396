//! The texts of the merge requests and of the tracking issue of a
//! coordinated change: which template renders them, or the body written
//! when none is configured, and the rows a template lists.
use vstd::prelude::*;
use crate::cli::mr::{find_changed, plan_index};
use crate::cli::mr_status::{EntryView, StoredMrEntry, entry_views};
use crate::cli::graph_view::direct_dependents;
use crate::cli::plan::{PlanChangedRepo, PlanSummary, changed_ids};
use crate::graph::model::{dep_edge, dep_rel, internal_targets, lookup_package};
use crate::graph::ops::{map_get, package_map};
use crate::graph::{key_index, unique_keys};
use crate::numbers::{decimal, format_u64};
use crate::order::{contains_str, insert_sorted_unique, strictly_sorted, views};
use crate::project::repo::{Repo, RepoId, id_views};
use crate::project::workspace::Workspace;
use crate::text::{opt_str_view, opt_string_view, push_str, str_eq, string_of, to_chars, trim_spec, trim_str};

verus! {

/// Where the text of a merge request or of the tracking issue comes from.
#[derive(Debug)]
pub enum DescriptionSource {
    /// The template file at this path renders it.
    Template(String),
    /// The text itself.
    Body(String),
}

/// A path is absolute when it starts with `/`.
pub open spec fn is_absolute_path(p: Seq<char>) -> bool {
    p.len() > 0 && p[0] == '/'
}

/// A template path as configured, taken relative to the workspace root
/// unless it is absolute.
pub open spec fn spec_template_path(root: Seq<char>, path: Seq<char>) -> Seq<char> {
    if is_absolute_path(path) || root.len() == 0 {
        path
    } else if root.last() == '/' {
        root + path
    } else {
        root + "/"@ + path
    }
}

/// The path of a configured template.
pub fn resolve_template_path(root: &str, path: &str) -> (r: String)
    ensures
        r@ == spec_template_path(root@, path@),
{
    let p = to_chars(path);
    let rt = to_chars(root);
    if (p.len() > 0 && p[0] == '/') || rt.len() == 0 {
        return string_of(path);
    }
    let mut out = string_of(root);
    if rt[rt.len() - 1] != '/' {
        push_str(&mut out, "/");
    }
    push_str(&mut out, path);
    out
}

/// The merge order as numbered lines, from 1.
pub open spec fn order_lines(ids: Seq<Seq<char>>) -> Seq<char>
    decreases ids.len(),
{
    if ids.len() == 0 {
        Seq::empty()
    } else {
        order_lines(ids.drop_last()) + decimal(ids.len() as nat) + ". "@ + ids.last() + "\n"@
    }
}

/// The changeset summary of the first changed repository with identifier
/// `id`, if it has one.
pub open spec fn summary_for(plan: PlanSummary, id: Seq<char>) -> Option<Seq<char>> {
    match plan_index(plan.changed@, id) {
        Some(i) => opt_string_view(plan.changed@[i].changeset_summary),
        None => None,
    }
}

/// The given description, trimmed, followed by a blank line; nothing when it
/// is blank.
pub open spec fn lead(description: Seq<char>) -> Seq<char> {
    let d = trim_spec(description);
    if d.len() > 0 {
        d + "\n\n"@
    } else {
        Seq::empty()
    }
}

/// The text of a merge request when no template is configured: the
/// description, the merge order of the changeset and the summary of this
/// repository.
pub open spec fn spec_default_mr_body(description: Seq<char>, plan: PlanSummary, repo: Seq<char>) -> Seq<char> {
    lead(description) + "---\n\n"@ + "## Coordinated Changeset\n\n"@ + "Merge order:\n"@ + order_lines(
        id_views(plan.merge_order@),
    ) + match summary_for(plan, repo) {
        Some(s) => "\nRepo summary:\n"@ + s + "\n"@,
        None => Seq::empty(),
    }
}

/// The line of one opened merge request in the tracking issue.
pub open spec fn tracking_line(e: EntryView) -> Seq<char> {
    "- "@ + e.0 + ": !"@ + decimal(e.4 as nat) + " ("@ + e.5 + ")\n"@
}

/// The lines of all opened merge requests, in order.
pub open spec fn tracking_lines(es: Seq<EntryView>) -> Seq<char>
    decreases es.len(),
{
    if es.len() == 0 {
        Seq::empty()
    } else {
        tracking_lines(es.drop_last()) + tracking_line(es.last())
    }
}

/// The text of the tracking issue when no template is configured: the
/// description and one line per opened merge request.
pub open spec fn spec_default_issue_body(description: Option<Seq<char>>, created: Seq<EntryView>) -> Seq<char> {
    lead(
        match description {
            Some(d) => d,
            None => Seq::empty(),
        },
    ) + "This issue tracks coordinated merge requests:\n"@ + tracking_lines(created)
}

/// Appends the trimmed description and a blank line, unless it is blank.
fn push_lead(out: &mut String, description: &str)
    ensures
        final(out)@ == old(out)@ + lead(description@),
{
    let d = trim_str(description);
    if to_chars(d.as_str()).len() > 0 {
        push_str(out, d.as_str());
        push_str(out, "\n\n");
    }
}

/// The text of a merge request when no template is configured.
pub fn default_mr_body(description: &str, plan: &PlanSummary, repo: &RepoId) -> (r: String)
    ensures
        r@ == spec_default_mr_body(description@, *plan, repo@),
{
    let mut out = String::new();
    push_lead(&mut out, description);
    push_str(&mut out, "---\n\n");
    push_str(&mut out, "## Coordinated Changeset\n\n");
    push_str(&mut out, "Merge order:\n");
    let ghost head = out@;
    let ghost iv = id_views(plan.merge_order@);
    let mut i: usize = 0;
    while i < plan.merge_order.len()
        invariant
            i <= plan.merge_order@.len(),
            iv == id_views(plan.merge_order@),
            out@ == head + order_lines(iv.take(i as int)),
        decreases plan.merge_order@.len() - i,
    {
        proof {
            assert(iv.take(i + 1).drop_last() =~= iv.take(i as int));
            assert(iv.take(i + 1).last() == iv[i as int]);
        }
        let ghost before = out@;
        let n = format_u64((i + 1) as u64);
        push_str(&mut out, n.as_str());
        push_str(&mut out, ". ");
        push_str(&mut out, plan.merge_order[i].as_str());
        push_str(&mut out, "\n");
        proof {
            assert(out@ =~= before + decimal(iv.take(i + 1).len()) + ". "@ + iv[i as int] + "\n"@);
        }
        i += 1;
    }
    proof {
        assert(iv.take(plan.merge_order@.len() as int) =~= iv);
    }
    let ghost mid = out@;
    match find_changed(&plan.changed, repo.as_str()) {
        Some(k) => match &plan.changed[k].changeset_summary {
            Some(s) => {
                push_str(&mut out, "\nRepo summary:\n");
                push_str(&mut out, s.as_str());
                push_str(&mut out, "\n");
            },
            None => {},
        },
        None => {},
    }
    proof {
        assert(out@ =~= spec_default_mr_body(description@, *plan, repo@));
    }
    out
}

/// The text of the tracking issue when no template is configured.
pub fn default_issue_body(description: Option<&str>, created: &[StoredMrEntry]) -> (r: String)
    ensures
        r@ == spec_default_issue_body(opt_str_view(description), entry_views(created@)),
{
    let mut out = String::new();
    match description {
        Some(d) => push_lead(&mut out, d),
        None => {
            proof {
                reveal_strlit("");
            }
            push_lead(&mut out, "");
        },
    }
    push_str(&mut out, "This issue tracks coordinated merge requests:\n");
    let ghost head = out@;
    let ghost ev = entry_views(created@);
    let mut i: usize = 0;
    while i < created.len()
        invariant
            ev == entry_views(created@),
            i <= created@.len(),
            out@ == head + tracking_lines(ev.take(i as int)),
        decreases created@.len() - i,
    {
        proof {
            assert(ev.take(i + 1).drop_last() =~= ev.take(i as int));
            assert(ev.take(i + 1).last() == ev[i as int]);
        }
        let ghost before = out@;
        let e = &created[i];
        push_str(&mut out, "- ");
        push_str(&mut out, e.repo.as_str());
        push_str(&mut out, ": !");
        let n = format_u64(e.iid);
        push_str(&mut out, n.as_str());
        push_str(&mut out, " (");
        push_str(&mut out, e.url.as_str());
        push_str(&mut out, ")\n");
        proof {
            assert(out@ =~= before + tracking_line(ev[i as int]));
        }
        i += 1;
    }
    proof {
        assert(ev.take(created@.len() as int) =~= ev);
    }
    out
}

/// The configured template of the merge requests, if any.
pub open spec fn mr_template(ws: Workspace) -> Option<Seq<char>> {
    match ws.config.mr {
        Some(m) => opt_string_view(m.template),
        None => None,
    }
}

/// The configured template of the tracking issue, if any.
pub open spec fn issue_template(ws: Workspace) -> Option<Seq<char>> {
    match ws.config.mr {
        Some(m) => opt_string_view(m.issue_template),
        None => None,
    }
}

/// The text of the merge request of `repo`: the configured template, else
/// the default body built from `description`.
pub fn build_mr_description(workspace: &Workspace, plan: &PlanSummary, repo: &Repo, description: &str) -> (r:
    DescriptionSource)
    ensures
        match mr_template(*workspace) {
            Some(t) => r matches DescriptionSource::Template(p) && p@ == spec_template_path(workspace.root@, t),
            None => r matches DescriptionSource::Body(b) && b@ == spec_default_mr_body(description@, *plan, repo.id@),
        },
{
    match &workspace.config.mr {
        Some(m) => match &m.template {
            Some(t) => {
                return DescriptionSource::Template(resolve_template_path(workspace.root.as_str(), t.as_str()));
            },
            None => {},
        },
        None => {},
    }
    DescriptionSource::Body(default_mr_body(description, plan, &repo.id))
}

/// The text of the tracking issue: the configured template, else the default
/// body listing the opened merge requests.
pub fn build_tracking_issue_description(workspace: &Workspace, created: &[StoredMrEntry], description: Option<&str>) -> (r:
    DescriptionSource)
    ensures
        match issue_template(*workspace) {
            Some(t) => r matches DescriptionSource::Template(p) && p@ == spec_template_path(workspace.root@, t),
            None => r matches DescriptionSource::Body(b) && b@ == spec_default_issue_body(
                opt_str_view(description),
                entry_views(created@),
            ),
        },
{
    match &workspace.config.mr {
        Some(m) => match &m.issue_template {
            Some(t) => {
                return DescriptionSource::Template(resolve_template_path(workspace.root.as_str(), t.as_str()));
            },
            None => {},
        },
        None => {},
    }
    DescriptionSource::Body(default_issue_body(description, created))
}

/// One changed repository as a template lists it.
#[derive(Debug)]
pub struct TemplateRow {
    pub repo: String,
    /// `[!iid](url)` of its opened merge request, or `pending`.
    pub link: String,
    /// `open` or `pending`.
    pub status: String,
    pub status_emoji: String,
    /// Its place in the merge order, from 1; 0 when it has none.
    pub merge_order: usize,
    /// The changed repositories it depends on, sorted.
    pub dependencies: Vec<String>,
    /// The changed repositories that depend on it, sorted.
    pub dependents: Vec<String>,
    /// Its changeset summary, or nothing.
    pub summary: String,
}

/// The place of `id` in the merge order, from 1 (its last place when listed
/// twice); 0 when it is not listed.
pub open spec fn order_key(mo: Seq<Seq<char>>, id: Seq<char>) -> nat
    decreases mo.len(),
{
    if mo.len() == 0 {
        0
    } else if mo.last() == id {
        mo.len()
    } else {
        order_key(mo.drop_last(), id)
    }
}

/// The position of the last opened merge request of repository `repo`.
pub open spec fn last_repo_index(c: Seq<EntryView>, repo: Seq<char>) -> Option<int>
    decreases c.len(),
{
    if c.len() == 0 {
        None
    } else if c.last().0 == repo {
        Some(c.len() - 1)
    } else {
        last_repo_index(c.drop_last(), repo)
    }
}

/// The opened merge requests, none when not given.
pub open spec fn created_views(created: Option<&[StoredMrEntry]>) -> Seq<EntryView> {
    match created {
        Some(c) => entry_views(c@),
        None => Seq::empty(),
    }
}

/// What a template row says of changed repository `item`: its link and
/// status from the last merge request opened for it, its place in the merge
/// order, the changed repositories on either side of it in the dependency
/// graph, and its summary.
pub open spec fn row_fits(r: TemplateRow, ws: Workspace, plan: PlanSummary, created: Seq<EntryView>, item: PlanChangedRepo) -> bool {
    let rel = dep_rel(ws.graph.entries(), ws.repos@);
    let sel = changed_ids(plan.changed@);
    &&& r.repo@ == item.id@
    &&& match last_repo_index(created, item.id@) {
        Some(i) => r.link@ == "[!"@ + decimal(created[i].4 as nat) + "]("@ + created[i].5 + ")"@ && r.status@
            == "open"@ && r.status_emoji@ == "\u{1f7e2}"@,
        None => r.link@ == "pending"@ && r.status@ == "pending"@ && r.status_emoji@ == "\u{1f7e1}"@,
    }
    &&& r.merge_order == order_key(id_views(plan.merge_order@), item.id@)
    &&& strictly_sorted(views(r.dependencies@))
    &&& forall|x: Seq<char>| #[trigger] views(r.dependencies@).contains(x) <==> rel(item.id@, x) && sel.contains(x)
    &&& strictly_sorted(views(r.dependents@))
    &&& forall|x: Seq<char>| #[trigger] views(r.dependents@).contains(x) <==> rel(x, item.id@) && sel.contains(x)
    &&& r.summary@ == match item.changeset_summary {
        Some(s) => s@,
        None => Seq::empty(),
    }
}

/// The positions in `keys` that hold `k`, ascending.
pub open spec fn keyed_positions(keys: Seq<nat>, k: nat) -> Seq<int>
    decreases keys.len(),
{
    if keys.len() == 0 {
        Seq::empty()
    } else if keys.last() == k {
        keyed_positions(keys.drop_last(), k).push(keys.len() - 1)
    } else {
        keyed_positions(keys.drop_last(), k)
    }
}

/// The positions in `keys`, grouped by key from 0 to `m`, each group
/// ascending.
pub open spec fn positions_by_key(keys: Seq<nat>, m: nat) -> Seq<int>
    decreases m,
{
    if m == 0 {
        keyed_positions(keys, 0)
    } else {
        positions_by_key(keys, (m - 1) as nat) + keyed_positions(keys, m)
    }
}

/// The place in the merge order of each changed repository.
pub open spec fn row_keys(plan: PlanSummary) -> Seq<nat> {
    plan.changed@.map_values(|c: PlanChangedRepo| order_key(id_views(plan.merge_order@), c.id@))
}

/// The order of the rows: the changed repositories outside the merge order
/// first, then by their place in it, each group in plan order.
pub open spec fn row_order(plan: PlanSummary) -> Seq<int> {
    positions_by_key(row_keys(plan), plan.merge_order@.len())
}

/// The identifiers of the changed repositories.
fn changed_id_list(plan: &PlanSummary) -> (r: Vec<String>)
    ensures
        views(r@) == changed_ids(plan.changed@),
{
    let mut out: Vec<String> = Vec::new();
    let mut i: usize = 0;
    while i < plan.changed.len()
        invariant
            i <= plan.changed@.len(),
            views(out@) == changed_ids(plan.changed@).take(i as int),
        decreases plan.changed@.len() - i,
    {
        let ghost before = views(out@);
        let s = string_of(plan.changed[i].id.as_str());
        out.push(s);
        proof {
            assert(views(out@) =~= before.push(plan.changed@[i as int].id@));
            assert(changed_ids(plan.changed@).take(i + 1) =~= changed_ids(plan.changed@).take(i as int).push(
                plan.changed@[i as int].id@,
            ));
        }
        i += 1;
    }
    proof {
        assert(changed_ids(plan.changed@).take(plan.changed@.len() as int) =~= changed_ids(plan.changed@));
    }
    out
}

/// The changed repositories that `id` depends on, sorted.
fn row_dependencies(ws: &Workspace, sel: &Vec<String>, id: &RepoId) -> (r: Vec<String>)
    ensures
        strictly_sorted(views(r@)),
        forall|x: Seq<char>| #[trigger] views(r@).contains(x) <==> dep_edge(ws.graph.entries(), ws.repos@, id@, x)
            && views(sel@).contains(x),
{
    let ghost g = ws.graph.entries();
    let ghost rs = ws.repos@;
    ws.graph.assert_unique();
    let map = package_map(&ws.repos);
    let mut out: Vec<String> = Vec::new();
    match ws.graph.get(id) {
        None => {
            proof {
                assert forall|x: Seq<char>| !dep_edge(g, rs, id@, x) by {
                    if dep_edge(g, rs, id@, x) {
                        let j = choose|j: int| 0 <= j < g.len() && #[trigger] g[j].0@ == id@ && internal_targets(
                            rs,
                            g[j].1@,
                        ).contains(x);
                        assert(key_index(g, id@) is Some);
                    }
                }
            }
            out
        },
        Some(deps) => {
            let ghost i = key_index(g, id@)->0;
            let mut k: usize = 0;
            while k < deps.len()
                invariant
                    rs == ws.repos@,
                    k <= deps@.len(),
                    strictly_sorted(views(out@)),
                    forall|a: int| 0 <= a < map@.len() ==> lookup_package(rs, #[trigger] map@[a].0@) == Some(map@[a].1@),
                    forall|nm: Seq<char>| #[trigger] lookup_package(rs, nm) is Some ==> exists|a: int|
                        0 <= a < map@.len() && #[trigger] map@[a].0@ == nm,
                    forall|x: Seq<char>| #[trigger] views(out@).contains(x) <==> internal_targets(
                        rs,
                        deps@.take(k as int),
                    ).contains(x) && views(sel@).contains(x),
                decreases deps@.len() - k,
            {
                proof {
                    assert(deps@.take(k + 1).drop_last() =~= deps@.take(k as int));
                    assert(deps@.take(k + 1).last() == deps@[k as int]);
                }
                let ghost before = views(out@);
                let d = &deps[k];
                if d.is_internal {
                    match map_get(&map, Ghost(rs), d.name.as_str()) {
                        Some(t) => {
                            if contains_str(sel, t.as_str()) {
                                insert_sorted_unique(&mut out, string_of(t.as_str()));
                            }
                            proof {
                                assert forall|x: Seq<char>| #[trigger] views(out@).contains(x) <==> internal_targets(
                                    rs,
                                    deps@.take(k + 1),
                                ).contains(x) && views(sel@).contains(x) by {
                                    assert(views(out@).to_set().contains(x) == views(out@).contains(x));
                                    assert(before.to_set().contains(x) == before.contains(x));
                                    vstd::seq_lib::lemma_seq_contains_after_push(
                                        internal_targets(rs, deps@.take(k as int)),
                                        t@,
                                        x,
                                    );
                                }
                            }
                        },
                        None => {},
                    }
                }
                k += 1;
            }
            proof {
                assert(deps@.take(deps@.len() as int) =~= deps@);
                assert forall|x: Seq<char>| #[trigger] views(out@).contains(x) <==> dep_edge(g, rs, id@, x) && views(
                    sel@,
                ).contains(x) by {
                    if dep_edge(g, rs, id@, x) {
                        let j = choose|j: int| 0 <= j < g.len() && #[trigger] g[j].0@ == id@ && internal_targets(
                            rs,
                            g[j].1@,
                        ).contains(x);
                        assert(g[i].0@ == id@);
                        assert(j == i);
                    }
                    if views(out@).contains(x) {
                        assert(g[i].0@ == id@);
                        assert(internal_targets(rs, g[i].1@).contains(x));
                    }
                }
            }
            out
        },
    }
}

/// The changed repositories that depend on `id`, sorted.
fn row_dependents(ws: &Workspace, sel: &Vec<String>, id: &RepoId) -> (r: Vec<String>)
    ensures
        strictly_sorted(views(r@)),
        forall|x: Seq<char>| #[trigger] views(r@).contains(x) <==> dep_edge(ws.graph.entries(), ws.repos@, x, id@)
            && views(sel@).contains(x),
{
    let all = direct_dependents(&ws.graph, &ws.repos, id);
    let ghost rel = dep_rel(ws.graph.entries(), ws.repos@);
    let mut out: Vec<String> = Vec::new();
    let mut k: usize = 0;
    while k < all.len()
        invariant
            k <= all@.len(),
            rel == dep_rel(ws.graph.entries(), ws.repos@),
            forall|b: Seq<char>| id_views(all@).contains(b) <==> rel(b, id@),
            strictly_sorted(views(out@)),
            forall|x: Seq<char>| #[trigger] views(out@).contains(x) <==> id_views(all@).take(k as int).contains(x)
                && views(sel@).contains(x),
        decreases all@.len() - k,
    {
        let ghost before = views(out@);
        proof {
            assert(id_views(all@).take(k + 1) =~= id_views(all@).take(k as int).push(all@[k as int]@));
        }
        if contains_str(sel, all[k].as_str()) {
            insert_sorted_unique(&mut out, string_of(all[k].as_str()));
        }
        proof {
            assert forall|x: Seq<char>| #[trigger] views(out@).contains(x) <==> id_views(all@).take(k + 1).contains(x)
                && views(sel@).contains(x) by {
                assert(views(out@).to_set().contains(x) == views(out@).contains(x));
                assert(before.to_set().contains(x) == before.contains(x));
                vstd::seq_lib::lemma_seq_contains_after_push(id_views(all@).take(k as int), all@[k as int]@, x);
            }
        }
        k += 1;
    }
    proof {
        assert(id_views(all@).take(all@.len() as int) =~= id_views(all@));
    }
    out
}

/// The place of `id` in the merge order.
fn merge_position(mo: &Vec<RepoId>, id: &str) -> (r: usize)
    ensures
        r == order_key(id_views(mo@), id@),
{
    let ghost iv = id_views(mo@);
    let mut r: usize = 0;
    let mut i: usize = 0;
    while i < mo.len()
        invariant
            i <= mo@.len(),
            iv == id_views(mo@),
            r == order_key(iv.take(i as int), id@),
        decreases mo@.len() - i,
    {
        proof {
            assert(iv.take(i + 1).drop_last() =~= iv.take(i as int));
            assert(iv.take(i + 1).last() == iv[i as int]);
        }
        if str_eq(mo[i].as_str(), id) {
            r = i + 1;
        }
        i += 1;
    }
    proof {
        assert(iv.take(mo@.len() as int) =~= iv);
    }
    r
}

/// The position of the last opened merge request of repository `repo`.
fn last_created(created: &[StoredMrEntry], repo: &str) -> (r: Option<usize>)
    ensures
        match last_repo_index(entry_views(created@), repo@) {
            Some(i) => r == Some(i as usize) && 0 <= i < created@.len(),
            None => r is None,
        },
        r matches Some(i) ==> i < created@.len(),
{
    let ghost ev = entry_views(created@);
    let mut r: Option<usize> = None;
    let mut i: usize = 0;
    while i < created.len()
        invariant
            i <= created@.len(),
            ev == entry_views(created@),
            match last_repo_index(ev.take(i as int), repo@) {
                Some(a) => r == Some(a as usize) && 0 <= a < i,
                None => r is None,
            },
        decreases created@.len() - i,
    {
        proof {
            assert(ev.take(i + 1).drop_last() =~= ev.take(i as int));
            assert(ev.take(i + 1).last() == ev[i as int]);
        }
        if str_eq(created[i].repo.as_str(), repo) {
            r = Some(i);
        }
        i += 1;
    }
    proof {
        assert(ev.take(created@.len() as int) =~= ev);
    }
    r
}

/// The row of changed repository `item`.
fn template_row(ws: &Workspace, plan: &PlanSummary, created: &[StoredMrEntry], sel: &Vec<String>, item: &PlanChangedRepo) -> (r:
    TemplateRow)
    requires
        views(sel@) == changed_ids(plan.changed@),
    ensures
        row_fits(r, *ws, *plan, entry_views(created@), *item),
{
    let ghost ev = entry_views(created@);
    let (link, status, status_emoji) = match last_created(created, item.id.as_str()) {
        Some(i) => {
            let mut link = string_of("[!");
            let n = format_u64(created[i].iid);
            push_str(&mut link, n.as_str());
            push_str(&mut link, "](");
            push_str(&mut link, created[i].url.as_str());
            push_str(&mut link, ")");
            proof {
                assert(ev[i as int] == crate::cli::mr_status::entry_view(created@[i as int]));
            }
            (link, string_of("open"), string_of("\u{1f7e2}"))
        },
        None => (string_of("pending"), string_of("pending"), string_of("\u{1f7e1}")),
    };
    let summary = match &item.changeset_summary {
        Some(s) => string_of(s.as_str()),
        None => String::new(),
    };
    TemplateRow {
        repo: string_of(item.id.as_str()),
        link,
        status,
        status_emoji,
        merge_order: merge_position(&plan.merge_order, item.id.as_str()),
        dependencies: row_dependencies(ws, sel, &item.id),
        dependents: row_dependents(ws, sel, &item.id),
        summary,
    }
}

/// The rows a template lists: one per changed repository, those outside the
/// merge order first, then in merge order.
pub fn changeset_template_rows(workspace: &Workspace, plan: &PlanSummary, created: Option<&[StoredMrEntry]>) -> (r: Vec<
    TemplateRow,
>)
    ensures
        r@.len() == row_order(*plan).len(),
        forall|j: int|
            0 <= j < r@.len() ==> 0 <= #[trigger] row_order(*plan)[j] < plan.changed@.len() && row_fits(
                r@[j],
                *workspace,
                *plan,
                created_views(created),
                plan.changed@[row_order(*plan)[j]],
            ),
{
    let none: Vec<StoredMrEntry> = Vec::new();
    let cs: &[StoredMrEntry] = match created {
        Some(c) => c,
        None => none.as_slice(),
    };
    assert(entry_views(cs@) == created_views(created));
    let sel = changed_id_list(plan);
    let ghost keys = row_keys(*plan);
    let n = plan.changed.len();
    let mut kv: Vec<usize> = Vec::new();
    let mut i: usize = 0;
    while i < n
        invariant
            n == plan.changed@.len(),
            keys == row_keys(*plan),
            i <= n,
            kv@.len() == i,
            forall|a: int| 0 <= a < i ==> kv@[a] == keys[a],
        decreases n - i,
    {
        kv.push(merge_position(&plan.merge_order, plan.changed[i].id.as_str()));
        i += 1;
    }
    let m = plan.merge_order.len();
    let mut rows: Vec<TemplateRow> = Vec::new();
    let ghost mut ord: Seq<int> = Seq::empty();
    let mut key: usize = 0;
    loop
        invariant_except_break
            ord == (if key == 0 { Seq::<int>::empty() } else { positions_by_key(keys, (key - 1) as nat) }),
        invariant
            n == plan.changed@.len(),
            m == plan.merge_order@.len(),
            keys == row_keys(*plan),
            kv@.len() == n,
            forall|a: int| 0 <= a < n ==> kv@[a] == keys[a],
            views(sel@) == changed_ids(plan.changed@),
            entry_views(cs@) == created_views(created),
            key <= m,
            rows@.len() == ord.len(),
            forall|j: int|
                0 <= j < rows@.len() ==> 0 <= #[trigger] ord[j] < n && row_fits(
                    rows@[j],
                    *workspace,
                    *plan,
                    created_views(created),
                    plan.changed@[ord[j]],
                ),
        ensures
            key <= m,
            ord == positions_by_key(keys, m as nat),
            rows@.len() == ord.len(),
            forall|j: int|
                0 <= j < rows@.len() ==> 0 <= #[trigger] ord[j] < n && row_fits(
                    rows@[j],
                    *workspace,
                    *plan,
                    created_views(created),
                    plan.changed@[ord[j]],
                ),
        decreases m - key,
    {
        let ghost base = ord;
        let mut a: usize = 0;
        while a < n
            invariant
                n == plan.changed@.len(),
                keys == row_keys(*plan),
                kv@.len() == n,
                forall|b: int| 0 <= b < n ==> kv@[b] == keys[b],
                views(sel@) == changed_ids(plan.changed@),
                entry_views(cs@) == created_views(created),
                a <= n,
                ord == base + keyed_positions(keys.take(a as int), key as nat),
                rows@.len() == ord.len(),
                forall|j: int|
                    0 <= j < rows@.len() ==> 0 <= #[trigger] ord[j] < n && row_fits(
                        rows@[j],
                        *workspace,
                        *plan,
                        created_views(created),
                        plan.changed@[ord[j]],
                    ),
            decreases n - a,
        {
            proof {
                assert(keys.take(a + 1).drop_last() =~= keys.take(a as int));
                assert(keys.take(a + 1).last() == keys[a as int]);
            }
            if kv[a] == key {
                let row = template_row(workspace, plan, cs, &sel, &plan.changed[a]);
                rows.push(row);
                proof {
                    ord = ord.push(a as int);
                    assert(ord =~= base + keyed_positions(keys.take(a + 1), key as nat));
                }
            } else {
                proof {
                    assert(keyed_positions(keys.take(a + 1), key as nat) == keyed_positions(keys.take(a as int), key as nat));
                }
            }
            a += 1;
        }
        proof {
            assert(keys.take(n as int) =~= keys);
            if key == 0 {
                assert(ord =~= positions_by_key(keys, 0));
            } else {
                assert(ord =~= positions_by_key(keys, key as nat));
            }
        }
        if key == m {
            break;
        }
        key += 1;
    }
    rows
}

} // verus!
