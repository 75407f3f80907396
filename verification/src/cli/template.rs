//! Description templates: the values a merge request or tracking issue
//! template sees, written as JSON text, and the rendering by `tera`.
use vstd::prelude::*;
use crate::cli::descriptions::TemplateRow;
use crate::cli::plan::{PlanChangedRepo, PlanSummary};
use crate::error::HarmoniaError;
use crate::numbers::{decimal, format_u64};
use crate::order::views;
use crate::project::repo::{RepoId, id_views};
use crate::text::{push_char, push_str, to_chars, trim_spec, trim_str};

verus! {

// ------------------------------------------------------------ JSON text

/// A hexadecimal digit.
pub open spec fn hex_digit_of(d: u8) -> char {
    if d < 10 {
        (48 + d) as char
    } else {
        (55 + d) as char
    }
}

/// One character inside a JSON string: quote, backslash and control
/// characters escaped.
pub open spec fn json_char(c: char) -> Seq<char> {
    if c == '"' {
        seq!['\\', '"']
    } else if c == '\\' {
        seq!['\\', '\\']
    } else if c == '\n' {
        seq!['\\', 'n']
    } else if c == '\r' {
        seq!['\\', 'r']
    } else if c == '\t' {
        seq!['\\', 't']
    } else if (c as u32) < 32 {
        seq!['\\', 'u', '0', '0', hex_digit_of(((c as u32) / 16) as u8), hex_digit_of(((c as u32) % 16) as u8)]
    } else {
        seq![c]
    }
}

/// The characters of a text, each escaped for a JSON string.
pub open spec fn json_chars(s: Seq<char>) -> Seq<char>
    decreases s.len(),
{
    if s.len() == 0 {
        Seq::empty()
    } else {
        json_chars(s.drop_last()) + json_char(s.last())
    }
}

/// A JSON string.
pub open spec fn json_string(s: Seq<char>) -> Seq<char> {
    seq!['"'] + json_chars(s) + seq!['"']
}

/// Items separated by commas.
pub open spec fn joined(items: Seq<Seq<char>>) -> Seq<char>
    decreases items.len(),
{
    if items.len() == 0 {
        Seq::empty()
    } else if items.len() == 1 {
        items[0]
    } else {
        joined(items.drop_last()) + seq![','] + items.last()
    }
}

/// A JSON array of JSON texts.
pub open spec fn json_array(items: Seq<Seq<char>>) -> Seq<char> {
    seq!['['] + joined(items) + seq![']']
}

/// A JSON array of strings.
pub open spec fn json_string_list(v: Seq<Seq<char>>) -> Seq<char> {
    json_array(v.map_values(|s: Seq<char>| json_string(s)))
}

fn hex_char(d: u8) -> (c: char)
    requires
        d < 16,
    ensures
        c == hex_digit_of(d),
{
    if d < 10 {
        (48 + d) as char
    } else {
        (55 + d) as char
    }
}

/// Appends `s` as a JSON string.
pub fn push_json_string(out: &mut String, s: &str)
    ensures
        final(out)@ == old(out)@ + json_string(s@),
{
    let cs = to_chars(s);
    let ghost start = out@;
    push_char(out, '"');
    let mut i: usize = 0;
    proof {
        assert(cs@.take(0) =~= Seq::<char>::empty());
    }
    while i < cs.len()
        invariant
            cs@ == s@,
            i <= cs@.len(),
            out@ == start + seq!['"'] + json_chars(cs@.take(i as int)),
        decreases cs@.len() - i,
    {
        let c = cs[i];
        proof {
            assert(cs@.take(i + 1).drop_last() =~= cs@.take(i as int));
            assert(cs@.take(i + 1).last() == c);
        }
        let ghost before = out@;
        if c == '"' {
            push_char(out, '\\');
            push_char(out, '"');
        } else if c == '\\' {
            push_char(out, '\\');
            push_char(out, '\\');
        } else if c == '\n' {
            push_char(out, '\\');
            push_char(out, 'n');
        } else if c == '\r' {
            push_char(out, '\\');
            push_char(out, 'r');
        } else if c == '\t' {
            push_char(out, '\\');
            push_char(out, 't');
        } else if (c as u32) < 32 {
            let u: u32 = c as u32;
            push_char(out, '\\');
            push_char(out, 'u');
            push_char(out, '0');
            push_char(out, '0');
            push_char(out, hex_char((u / 16) as u8));
            push_char(out, hex_char((u % 16) as u8));
        } else {
            push_char(out, c);
        }
        proof {
            assert(out@ =~= before + json_char(c));
        }
        i += 1;
    }
    push_char(out, '"');
    proof {
        assert(cs@.take(cs@.len() as int) =~= cs@);
    }
}

/// Appends a JSON array of strings.
pub fn push_json_string_list(out: &mut String, v: &Vec<String>)
    ensures
        final(out)@ == old(out)@ + json_string_list(views(v@)),
{
    let ghost items = views(v@).map_values(|s: Seq<char>| json_string(s));
    let ghost start = out@;
    push_char(out, '[');
    let mut i: usize = 0;
    proof {
        assert(items.take(0) =~= Seq::<Seq<char>>::empty());
    }
    while i < v.len()
        invariant
            items == views(v@).map_values(|s: Seq<char>| json_string(s)),
            i <= v@.len(),
            out@ == start + seq!['['] + joined(items.take(i as int)),
        decreases v@.len() - i,
    {
        proof {
            assert(items.take(i + 1).drop_last() =~= items.take(i as int));
            assert(items.take(i + 1).last() == json_string(v@[i as int]@));
        }
        if i > 0 {
            push_char(out, ',');
        }
        push_json_string(out, v[i].as_str());
        proof {
            if i == 0 {
                assert(items.take(1).len() == 1);
            }
        }
        i += 1;
    }
    push_char(out, ']');
    proof {
        assert(items.take(v@.len() as int) =~= items);
    }
}

/// The texts of identifiers.
fn id_strings(ids: &Vec<RepoId>) -> (r: Vec<String>)
    ensures
        views(r@) == id_views(ids@),
{
    let mut out: Vec<String> = Vec::new();
    let mut i: usize = 0;
    while i < ids.len()
        invariant
            i <= ids@.len(),
            views(out@) == id_views(ids@).take(i as int),
        decreases ids@.len() - i,
    {
        let ghost before = views(out@);
        let x = crate::text::string_of(ids[i].as_str());
        out.push(x);
        proof {
            assert(views(out@) =~= before.push(ids@[i as int]@));
            assert(id_views(ids@).take(i + 1) =~= id_views(ids@).take(i as int).push(id_views(ids@)[i as int]));
        }
        i += 1;
    }
    proof {
        assert(id_views(ids@).take(ids@.len() as int) =~= id_views(ids@));
    }
    out
}

// ------------------------------------------------------------ template values

/// One changeset row as a JSON object.
pub open spec fn row_json(r: TemplateRow) -> Seq<char> {
    "{\"repo\":"@ + json_string(r.repo@) + ",\"link\":"@ + json_string(r.link@) + ",\"status\":"@ + json_string(
        r.status@,
    ) + ",\"status_emoji\":"@ + json_string(r.status_emoji@) + ",\"merge_order\":"@ + decimal(r.merge_order as nat)
        + ",\"dependencies\":"@ + json_string_list(views(r.dependencies@)) + ",\"dependents\":"@ + json_string_list(
        views(r.dependents@),
    ) + ",\"summary\":"@ + json_string(r.summary@) + "}"@
}

/// The changeset rows as a JSON array.
pub open spec fn rows_json(rows: Seq<TemplateRow>) -> Seq<char> {
    json_array(rows.map_values(|r: TemplateRow| row_json(r)))
}

fn push_row(out: &mut String, r: &TemplateRow)
    ensures
        final(out)@ == old(out)@ + row_json(*r),
{
    let ghost start = out@;
    push_str(out, "{\"repo\":");
    push_json_string(out, r.repo.as_str());
    push_str(out, ",\"link\":");
    push_json_string(out, r.link.as_str());
    push_str(out, ",\"status\":");
    push_json_string(out, r.status.as_str());
    push_str(out, ",\"status_emoji\":");
    push_json_string(out, r.status_emoji.as_str());
    push_str(out, ",\"merge_order\":");
    let n = format_u64(r.merge_order as u64);
    push_str(out, n.as_str());
    push_str(out, ",\"dependencies\":");
    push_json_string_list(out, &r.dependencies);
    push_str(out, ",\"dependents\":");
    push_json_string_list(out, &r.dependents);
    push_str(out, ",\"summary\":");
    push_json_string(out, r.summary.as_str());
    push_str(out, "}");
    proof {
        assert(out@ =~= start + row_json(*r));
    }
}

fn push_rows(out: &mut String, rows: &Vec<TemplateRow>)
    ensures
        final(out)@ == old(out)@ + rows_json(rows@),
{
    let ghost items = rows@.map_values(|r: TemplateRow| row_json(r));
    let ghost start = out@;
    push_char(out, '[');
    let mut i: usize = 0;
    proof {
        assert(items.take(0) =~= Seq::<Seq<char>>::empty());
    }
    while i < rows.len()
        invariant
            items == rows@.map_values(|r: TemplateRow| row_json(r)),
            i <= rows@.len(),
            out@ == start + seq!['['] + joined(items.take(i as int)),
        decreases rows@.len() - i,
    {
        proof {
            assert(items.take(i + 1).drop_last() =~= items.take(i as int));
            assert(items.take(i + 1).last() == row_json(rows@[i as int]));
        }
        if i > 0 {
            push_char(out, ',');
        }
        push_row(out, &rows[i]);
        proof {
            if i == 0 {
                assert(items.take(1).len() == 1);
            }
        }
        i += 1;
    }
    push_char(out, ']');
    proof {
        assert(items.take(rows@.len() as int) =~= items);
    }
}

/// The changeset summary of the first changed repository with identifier
/// `id`; empty when there is none.
pub open spec fn summary_for(changed: Seq<PlanChangedRepo>, id: Seq<char>) -> Seq<char>
    decreases changed.len(),
{
    if changed.len() == 0 {
        Seq::empty()
    } else if changed[0].id@ == id {
        match changed[0].changeset_summary {
            Some(s) => s@,
            None => Seq::empty(),
        }
    } else {
        summary_for(changed.drop_first(), id)
    }
}

/// The changeset's identifier, title or branch; empty without a changeset.
pub open spec fn changeset_field(plan: PlanSummary, which: int) -> Seq<char> {
    match plan.changeset {
        Some(c) => if which == 0 {
            c.id@
        } else if which == 1 {
            c.title@
        } else {
            c.branch@
        },
        None => Seq::empty(),
    }
}

/// What a merge request template sees: the repository, the trimmed
/// description, the changeset's title, and the changeset with its
/// repositories, merge order, rows and this repository's summary.
pub open spec fn mr_context_json(plan: PlanSummary, repo: Seq<char>, description: Seq<char>, rows: Seq<TemplateRow>) -> Seq<
    char,
> {
    "{\"repo\":"@ + json_string(repo) + ",\"description\":"@ + json_string(trim_spec(description)) + ",\"title\":"@
        + json_string(changeset_field(plan, 1)) + ",\"changeset\":{\"id\":"@ + json_string(changeset_field(plan, 0))
        + ",\"branch\":"@ + json_string(changeset_field(plan, 2)) + ",\"repos\":"@ + json_string_list(
        crate::cli::plan::changed_ids(plan.changed@),
    ) + ",\"merge_order\":"@ + json_string_list(id_views(plan.merge_order@)) + ",\"mrs\":"@ + rows_json(rows)
        + ",\"repo_summary\":"@ + json_string(summary_for(plan.changed@, repo)) + "}}"@
}

/// What a tracking issue template sees: the changeset's title, the trimmed
/// description, the time of rendering, and the changeset with its rows.
pub open spec fn issue_context_json(plan: PlanSummary, description: Seq<char>, now: Seq<char>, rows: Seq<TemplateRow>) -> Seq<
    char,
> {
    "{\"title\":"@ + json_string(changeset_field(plan, 1)) + ",\"description\":"@ + json_string(trim_spec(description))
        + ",\"now\":"@ + json_string(now) + ",\"changeset\":{\"id\":"@ + json_string(changeset_field(plan, 0))
        + ",\"branch\":"@ + json_string(changeset_field(plan, 2)) + ",\"mrs\":"@ + rows_json(rows) + "}}"@
}

fn changed_summary(changed: &Vec<PlanChangedRepo>, id: &str) -> (r: String)
    ensures
        r@ == summary_for(changed@, id@),
{
    let mut i: usize = 0;
    proof {
        assert(changed@.skip(0) =~= changed@);
    }
    while i < changed.len()
        invariant
            i <= changed@.len(),
            summary_for(changed@.skip(i as int), id@) == summary_for(changed@, id@),
        decreases changed@.len() - i,
    {
        proof {
            assert(changed@.skip(i as int)[0] == changed@[i as int]);
            assert(changed@.skip(i as int).drop_first() =~= changed@.skip(i + 1));
        }
        if crate::text::str_eq(changed[i].id.as_str(), id) {
            return match &changed[i].changeset_summary {
                Some(s) => crate::text::string_of(s.as_str()),
                None => String::new(),
            };
        }
        i += 1;
    }
    String::new()
}

fn push_changeset_field(out: &mut String, plan: &PlanSummary, which: usize)
    ensures
        final(out)@ == old(out)@ + json_string(changeset_field(*plan, which as int)),
{
    match &plan.changeset {
        Some(c) => {
            if which == 0 {
                push_json_string(out, c.id.as_str());
            } else if which == 1 {
                push_json_string(out, c.title.as_str());
            } else {
                push_json_string(out, c.branch.as_str());
            }
        },
        None => {
            proof {
                reveal_strlit("");
            }
            push_json_string(out, "");
        },
    }
}

/// The JSON text a merge request template is rendered with.
pub fn mr_template_context(plan: &PlanSummary, repo: &str, description: &str, rows: &Vec<TemplateRow>) -> (r: String)
    ensures
        r@ == mr_context_json(*plan, repo@, description@, rows@),
{
    let mut out = String::new();
    push_str(&mut out, "{\"repo\":");
    push_json_string(&mut out, repo);
    push_str(&mut out, ",\"description\":");
    let d = trim_str(description);
    push_json_string(&mut out, d.as_str());
    push_str(&mut out, ",\"title\":");
    push_changeset_field(&mut out, plan, 1);
    push_str(&mut out, ",\"changeset\":{\"id\":");
    push_changeset_field(&mut out, plan, 0);
    push_str(&mut out, ",\"branch\":");
    push_changeset_field(&mut out, plan, 2);
    push_str(&mut out, ",\"repos\":");
    let mut ids: Vec<RepoId> = Vec::new();
    let mut i: usize = 0;
    while i < plan.changed.len()
        invariant
            i <= plan.changed@.len(),
            id_views(ids@) == crate::cli::plan::changed_ids(plan.changed@).take(i as int),
        decreases plan.changed@.len() - i,
    {
        let ghost before = id_views(ids@);
        ids.push(plan.changed[i].id.duplicate());
        proof {
            assert(id_views(ids@) =~= before.push(plan.changed@[i as int].id@));
            assert(crate::cli::plan::changed_ids(plan.changed@).take(i + 1) =~= crate::cli::plan::changed_ids(
                plan.changed@,
            ).take(i as int).push(plan.changed@[i as int].id@));
        }
        i += 1;
    }
    proof {
        assert(crate::cli::plan::changed_ids(plan.changed@).take(plan.changed@.len() as int) =~= crate::cli::plan::changed_ids(
            plan.changed@,
        ));
    }
    push_json_string_list(&mut out, &id_strings(&ids));
    push_str(&mut out, ",\"merge_order\":");
    push_json_string_list(&mut out, &id_strings(&plan.merge_order));
    push_str(&mut out, ",\"mrs\":");
    push_rows(&mut out, rows);
    push_str(&mut out, ",\"repo_summary\":");
    let s = changed_summary(&plan.changed, repo);
    push_json_string(&mut out, s.as_str());
    push_str(&mut out, "}}");
    proof {
        assert(out@ =~= mr_context_json(*plan, repo@, description@, rows@));
    }
    out
}

/// The JSON text a tracking issue template is rendered with.
pub fn issue_template_context(plan: &PlanSummary, description: Option<&str>, now: &str, rows: &Vec<TemplateRow>) -> (r:
    String)
    ensures
        r@ == issue_context_json(
            *plan,
            match description {
                Some(d) => d@,
                None => Seq::empty(),
            },
            now@,
            rows@,
        ),
{
    let mut out = String::new();
    push_str(&mut out, "{\"title\":");
    push_changeset_field(&mut out, plan, 1);
    push_str(&mut out, ",\"description\":");
    let d = match description {
        Some(d) => trim_str(d),
        None => trim_str(""),
    };
    push_json_string(&mut out, d.as_str());
    push_str(&mut out, ",\"now\":");
    push_json_string(&mut out, now);
    push_str(&mut out, ",\"changeset\":{\"id\":");
    push_changeset_field(&mut out, plan, 0);
    push_str(&mut out, ",\"branch\":");
    push_changeset_field(&mut out, plan, 2);
    push_str(&mut out, ",\"mrs\":");
    push_rows(&mut out, rows);
    push_str(&mut out, "}}");
    proof {
        reveal_strlit("");
        assert(out@ =~= issue_context_json(
            *plan,
            match description {
                Some(d) => d@,
                None => Seq::empty(),
            },
            now@,
            rows@,
        ));
    }
    out
}

// ------------------------------------------------------------ rendering

/// Parses `context_json` with `serde_json::from_str`, makes a
/// `tera::Context` of it with `Context::from_value`, and renders `template`
/// with `Tera::one_off`, HTML escaping on. Nothing is stated of the result:
/// a template may read the environment through tera's `get_env`.
#[verifier::external_body]
fn tera_render(template: &str, context_json: &str) -> (r: Result<String, String>) {
    let value: serde_json::Value = serde_json::from_str(context_json).map_err(|e| e.to_string())?;
    let context = tera::Context::from_value(value).map_err(|e| e.to_string())?;
    tera::Tera::one_off(template, &context, true).map_err(|e| e.to_string())
}

/// Renders a description template with the values in `context_json`; a
/// failure of tera comes back as an error with its text.
pub fn render_template(template: &str, context_json: &str) -> (r: Result<String, HarmoniaError>)
{
    match tera_render(template, context_json) {
        Ok(s) => Ok(s),
        Err(e) => Err(HarmoniaError::Other(e)),
    }
}

} // verus!
