//! Reading what git reports about a repository's position relative to its
//! upstream.
use vstd::prelude::*;
use crate::forge::github::{parse_u64_text, spec_parse_u64_text};
use crate::cli::plan::spec_status_line;
use crate::git::status::StatusSummary;
use crate::numbers::{decimal, format_u64};
use crate::text::{file_name, file_name_spec, push_char, push_str, split_whitespace, string_of, words_spec};
use vstd::utf8::encode_utf8;

verus! {

/// What `usize::from_str` accepts.
pub open spec fn spec_parse_usize_text(s: Seq<char>) -> Option<nat> {
    match spec_parse_u64_text(s) {
        Some(v) => if v <= usize::MAX {
            Some(v)
        } else {
            None
        },
        None => None,
    }
}

/// Parses a count as `usize::from_str` does.
pub fn parse_usize_text(s: &str) -> (r: Option<usize>)
    ensures
        match r {
            Some(v) => spec_parse_usize_text(s@) == Some(v as nat),
            None => spec_parse_usize_text(s@) is None,
        },
{
    match parse_u64_text(s) {
        Some(v) => {
            if v <= usize::MAX as u64 {
                Some(v as usize)
            } else {
                None
            }
        },
        None => None,
    }
}

/// The counts of `git rev-list --left-right --count`, behind first, read
/// from the first two words of its output: `(ahead, behind)`; none when a
/// word is missing or not a count.
pub open spec fn spec_ahead_behind(output: Seq<char>) -> Option<(nat, nat)> {
    let w = words_spec(output);
    if w.len() < 2 {
        None
    } else {
        match (spec_parse_usize_text(w[0]), spec_parse_usize_text(w[1])) {
            (Some(behind), Some(ahead)) => Some((ahead, behind)),
            _ => None,
        }
    }
}

/// How far a branch is ahead of and behind its upstream.
pub fn parse_ahead_behind_counts(output: &str) -> (r: Option<(usize, usize)>)
    ensures
        match r {
            Some((a, b)) => spec_ahead_behind(output@) == Some((a as nat, b as nat)),
            None => spec_ahead_behind(output@) is None,
        },
{
    let words = split_whitespace(output);
    proof {
        if words@.len() >= 2 {
            assert(crate::order::views(words@)[0] == words@[0]@);
            assert(crate::order::views(words@)[1] == words@[1]@);
        }
    }
    if words.len() < 2 {
        return None;
    }
    let behind = match parse_usize_text(words[0].as_str()) {
        Some(v) => v,
        None => return None,
    };
    let ahead = match parse_usize_text(words[1].as_str()) {
        Some(v) => v,
        None => return None,
    };
    Some((ahead, behind))
}

/// One repository's line of `harmonia status`.
#[derive(Debug)]
pub struct StatusRow {
    pub repo: String,
    pub path: String,
    pub branch: String,
    pub ahead: usize,
    pub behind: usize,
    pub status: StatusSummary,
}

/// `clean`, or the counts of staged, modified, untracked and conflicted
/// files.
pub open spec fn spec_row_summary(s: StatusSummary) -> Seq<char> {
    if s.staged@.len() == 0 && s.modified@.len() == 0 && s.untracked@.len() == 0 && s.conflicts@.len() == 0 {
        "clean"@
    } else {
        spec_status_line(s)
    }
}

/// The state of a row's working tree in a few words.
pub fn status_summary(row: &StatusRow) -> (r: String)
    ensures
        r@ == spec_row_summary(row.status),
{
    if row.status.is_clean() {
        string_of("clean")
    } else {
        crate::cli::plan::plan_status_summary(&row.status)
    }
}

/// The name shown for the workspace: its configured name, else the last
/// component of its root, else `workspace`.
pub open spec fn spec_workspace_display_name(name: Seq<char>, root: Seq<char>) -> Seq<char> {
    if name.len() > 0 {
        name
    } else {
        match file_name_spec(root) {
            Some(n) => n,
            None => "workspace"@,
        }
    }
}

/// The name shown for the workspace.
pub fn workspace_display_name(name: &str, root: &str) -> (r: String)
    ensures
        r@ == spec_workspace_display_name(name@, root@),
{
    if crate::text::to_chars(name).len() > 0 {
        return string_of(name);
    }
    match file_name(root) {
        Some(n) => n,
        None => string_of("workspace"),
    }
}

/// `n` spaces.
pub open spec fn spaces(n: nat) -> Seq<char> {
    Seq::new(n, |i: int| ' ')
}

/// `s` padded with spaces on the right to `w` characters.
pub open spec fn pad_right(s: Seq<char>, w: nat) -> Seq<char> {
    if s.len() < w {
        s + spaces((w - s.len()) as nat)
    } else {
        s
    }
}

/// `s` padded with spaces on the left to `w` characters.
pub open spec fn pad_left(s: Seq<char>, w: nat) -> Seq<char> {
    if s.len() < w {
        spaces((w - s.len()) as nat) + s
    } else {
        s
    }
}

/// Appends `n` spaces.
fn push_spaces(out: &mut String, n: usize)
    ensures
        final(out)@ == old(out)@ + spaces(n as nat),
{
    let ghost start = out@;
    let mut i: usize = 0;
    while i < n
        invariant
            i <= n,
            out@ == start + spaces(i as nat),
        decreases n - i,
    {
        push_char(out, ' ');
        proof {
            assert(spaces((i + 1) as nat) =~= spaces(i as nat).push(' '));
        }
        i += 1;
    }
}

/// Appends `s` padded on the right to `w` characters.
pub(crate) fn push_padded_right(out: &mut String, s: &str, w: usize)
    ensures
        final(out)@ == old(out)@ + pad_right(s@, w as nat),
{
    let n = crate::text::to_chars(s).len();
    push_str(out, s);
    if n < w {
        push_spaces(out, w - n);
    }
}

/// Appends `s` padded on the left to `w` characters.
fn push_padded_left(out: &mut String, s: &str, w: usize)
    ensures
        final(out)@ == old(out)@ + pad_left(s@, w as nat),
{
    let n = crate::text::to_chars(s).len();
    if n < w {
        push_spaces(out, w - n);
    }
    push_str(out, s);
}

/// The number of UTF-8 bytes of a text.
pub open spec fn byte_len(s: Seq<char>) -> nat {
    encode_utf8(s).len()
}

/// The widest of `minimum` and the byte lengths of the texts `pick` takes
/// from the rows.
pub open spec fn column_width(rows: Seq<StatusRow>, minimum: nat, branch: bool) -> nat
    decreases rows.len(),
{
    if rows.len() == 0 {
        minimum
    } else {
        let w = byte_len(if branch { rows.last().branch@ } else { rows.last().repo@ });
        let rest = column_width(rows.drop_last(), minimum, branch);
        if w > rest {
            w
        } else {
            rest
        }
    }
}

/// The width of a column of the table.
fn width_of(rows: &[StatusRow], minimum: usize, branch: bool) -> (r: usize)
    ensures
        r as nat == column_width(rows@, minimum as nat, branch),
{
    let mut w = minimum;
    let mut i: usize = 0;
    while i < rows.len()
        invariant
            i <= rows@.len(),
            w as nat == column_width(rows@.take(i as int), minimum as nat, branch),
        decreases rows@.len() - i,
    {
        proof {
            assert(rows@.take(i + 1).drop_last() =~= rows@.take(i as int));
            assert(rows@.take(i + 1).last() == rows@[i as int]);
        }
        let l = if branch {
            rows[i].branch.as_str().as_bytes().len()
        } else {
            rows[i].repo.as_str().as_bytes().len()
        };
        if l > w {
            w = l;
        }
        i += 1;
    }
    proof {
        assert(rows@.take(rows@.len() as int) =~= rows@);
    }
    w
}

/// The header line of the table.
pub open spec fn table_header(rw: nat, bw: nat) -> Seq<char> {
    pad_right("Repo"@, rw) + " "@ + pad_right("Branch"@, bw) + " "@ + pad_left("\u{2191}"@, 4) + " "@ + pad_left(
        "\u{2193}"@,
        4,
    ) + " "@ + pad_right("Status"@, 5)
}

/// One row of the table.
pub open spec fn table_row(r: StatusRow, rw: nat, bw: nat) -> Seq<char> {
    pad_right(r.repo@, rw) + " "@ + pad_right(r.branch@, bw) + " "@ + pad_left(decimal(r.ahead as nat), 4) + " "@
        + pad_left(decimal(r.behind as nat), 4) + " "@ + spec_row_summary(r.status) + "\n"@
}

/// The rows of the table.
pub open spec fn table_rows(rows: Seq<StatusRow>, rw: nat, bw: nat) -> Seq<char>
    decreases rows.len(),
{
    if rows.len() == 0 {
        Seq::empty()
    } else {
        table_rows(rows.drop_last(), rw, bw) + table_row(rows.last(), rw, bw)
    }
}

/// One row in the compact form: tab-separated repository, branch, `+`
/// ahead, `-` behind and summary.
pub open spec fn short_row(r: StatusRow) -> Seq<char> {
    r.repo@ + "\t"@ + r.branch@ + "\t+"@ + decimal(r.ahead as nat) + "\t-"@ + decimal(r.behind as nat) + "\t"@
        + spec_row_summary(r.status) + "\n"@
}

/// The rows in the compact form.
pub open spec fn short_rows(rows: Seq<StatusRow>) -> Seq<char>
    decreases rows.len(),
{
    if rows.len() == 0 {
        Seq::empty()
    } else {
        short_rows(rows.drop_last()) + short_row(rows.last())
    }
}

/// What `harmonia status` prints as a table: a title with the workspace's
/// name and the number of repositories, the header, a rule as long as the
/// header's UTF-8 bytes, and one line per repository; in the compact form,
/// one tab-separated line per repository only.
pub open spec fn spec_status_table(name: Seq<char>, rows: Seq<StatusRow>, short: bool) -> Seq<char> {
    if short {
        short_rows(rows)
    } else {
        let rw = column_width(rows, 4, false);
        let bw = column_width(rows, 6, true);
        "Workspace: "@ + name + " ("@ + decimal(rows.len()) + " repos)\n\n"@ + table_header(rw, bw) + "\n"@
            + Seq::new(byte_len(table_header(rw, bw)), |i: int| '-') + "\n"@ + table_rows(rows, rw, bw)
    }
}

/// Appends `n` dashes.
fn push_dashes(out: &mut String, n: usize)
    ensures
        final(out)@ == old(out)@ + Seq::new(n as nat, |i: int| '-'),
{
    let ghost start = out@;
    let mut i: usize = 0;
    while i < n
        invariant
            i <= n,
            out@ == start + Seq::new(i as nat, |k: int| '-'),
        decreases n - i,
    {
        push_char(out, '-');
        proof {
            assert(Seq::new((i + 1) as nat, |k: int| '-') =~= Seq::new(i as nat, |k: int| '-').push('-'));
        }
        i += 1;
    }
}

/// Appends one row of the table.
fn push_table_row(out: &mut String, row: &StatusRow, rw: usize, bw: usize)
    ensures
        final(out)@ == old(out)@ + table_row(*row, rw as nat, bw as nat),
{
    let ghost before = out@;
    push_padded_right(out, row.repo.as_str(), rw);
    push_str(out, " ");
    push_padded_right(out, row.branch.as_str(), bw);
    push_str(out, " ");
    let a = format_u64(row.ahead as u64);
    push_padded_left(out, a.as_str(), 4);
    push_str(out, " ");
    let b = format_u64(row.behind as u64);
    push_padded_left(out, b.as_str(), 4);
    push_str(out, " ");
    let s = status_summary(row);
    push_str(out, s.as_str());
    push_str(out, "\n");
    proof {
        assert(out@ =~= before + table_row(*row, rw as nat, bw as nat));
    }
}

/// What `harmonia status` prints as a table.
pub fn status_table(name: &str, rows: &[StatusRow], short: bool) -> (r: String)
    ensures
        r@ == spec_status_table(name@, rows@, short),
{
    let mut out = String::new();
    if short {
        let mut i: usize = 0;
        while i < rows.len()
            invariant
                i <= rows@.len(),
                out@ == short_rows(rows@.take(i as int)),
            decreases rows@.len() - i,
        {
            proof {
                assert(rows@.take(i + 1).drop_last() =~= rows@.take(i as int));
                assert(rows@.take(i + 1).last() == rows@[i as int]);
            }
            let ghost before = out@;
            let row = &rows[i];
            push_str(&mut out, row.repo.as_str());
            push_str(&mut out, "\t");
            push_str(&mut out, row.branch.as_str());
            push_str(&mut out, "\t+");
            let a = format_u64(row.ahead as u64);
            push_str(&mut out, a.as_str());
            push_str(&mut out, "\t-");
            let b = format_u64(row.behind as u64);
            push_str(&mut out, b.as_str());
            push_str(&mut out, "\t");
            let s = status_summary(row);
            push_str(&mut out, s.as_str());
            push_str(&mut out, "\n");
            proof {
                assert(out@ =~= before + short_row(rows@[i as int]));
            }
            i += 1;
        }
        proof {
            assert(rows@.take(rows@.len() as int) =~= rows@);
        }
        return out;
    }
    let rw = width_of(rows, 4, false);
    let bw = width_of(rows, 6, true);
    push_str(&mut out, "Workspace: ");
    push_str(&mut out, name);
    push_str(&mut out, " (");
    let n = format_u64(rows.len() as u64);
    push_str(&mut out, n.as_str());
    push_str(&mut out, " repos)\n\n");
    let mut header = String::new();
    push_padded_right(&mut header, "Repo", rw);
    push_str(&mut header, " ");
    push_padded_right(&mut header, "Branch", bw);
    push_str(&mut header, " ");
    push_padded_left(&mut header, "\u{2191}", 4);
    push_str(&mut header, " ");
    push_padded_left(&mut header, "\u{2193}", 4);
    push_str(&mut header, " ");
    push_padded_right(&mut header, "Status", 5);
    proof {
        assert(header@ =~= table_header(rw as nat, bw as nat));
    }
    push_str(&mut out, header.as_str());
    push_str(&mut out, "\n");
    let hl = header.as_str().as_bytes().len();
    push_dashes(&mut out, hl);
    push_str(&mut out, "\n");
    let ghost head = out@;
    let mut i: usize = 0;
    while i < rows.len()
        invariant
            i <= rows@.len(),
            rw as nat == column_width(rows@, 4, false),
            bw as nat == column_width(rows@, 6, true),
            out@ == head + table_rows(rows@.take(i as int), rw as nat, bw as nat),
        decreases rows@.len() - i,
    {
        proof {
            assert(rows@.take(i + 1).drop_last() =~= rows@.take(i as int));
            assert(rows@.take(i + 1).last() == rows@[i as int]);
        }
        push_table_row(&mut out, &rows[i], rw, bw);
        i += 1;
    }
    proof {
        assert(rows@.take(rows@.len() as int) =~= rows@);
        assert(out@ =~= spec_status_table(name@, rows@, short));
    }
    out
}

/// One row in the porcelain form: tab-separated repository, branch, ahead,
/// behind and the four counts.
pub open spec fn porcelain_row(r: StatusRow) -> Seq<char> {
    r.repo@ + "\t"@ + r.branch@ + "\t"@ + decimal(r.ahead as nat) + "\t"@ + decimal(r.behind as nat) + "\t"@
        + decimal(r.status.staged@.len()) + "\t"@ + decimal(r.status.modified@.len()) + "\t"@ + decimal(
        r.status.untracked@.len(),
    ) + "\t"@ + decimal(r.status.conflicts@.len()) + "\n"@
}

/// The rows in the porcelain form.
pub open spec fn porcelain_rows(rows: Seq<StatusRow>) -> Seq<char>
    decreases rows.len(),
{
    if rows.len() == 0 {
        Seq::empty()
    } else {
        porcelain_rows(rows.drop_last()) + porcelain_row(rows.last())
    }
}

/// Appends a tab and a count.
fn push_count(out: &mut String, n: usize)
    ensures
        final(out)@ == old(out)@ + "\t"@ + decimal(n as nat),
{
    push_str(out, "\t");
    let t = format_u64(n as u64);
    push_str(out, t.as_str());
}

/// What `harmonia status --porcelain` prints.
pub fn status_porcelain(rows: &[StatusRow]) -> (r: String)
    ensures
        r@ == porcelain_rows(rows@),
{
    let mut out = String::new();
    let mut i: usize = 0;
    while i < rows.len()
        invariant
            i <= rows@.len(),
            out@ == porcelain_rows(rows@.take(i as int)),
        decreases rows@.len() - i,
    {
        proof {
            assert(rows@.take(i + 1).drop_last() =~= rows@.take(i as int));
            assert(rows@.take(i + 1).last() == rows@[i as int]);
        }
        let ghost before = out@;
        let row = &rows[i];
        push_str(&mut out, row.repo.as_str());
        push_str(&mut out, "\t");
        push_str(&mut out, row.branch.as_str());
        push_count(&mut out, row.ahead);
        push_count(&mut out, row.behind);
        push_count(&mut out, row.status.staged.len());
        push_count(&mut out, row.status.modified.len());
        push_count(&mut out, row.status.untracked.len());
        push_count(&mut out, row.status.conflicts.len());
        push_str(&mut out, "\n");
        proof {
            assert(out@ =~= before + porcelain_row(rows@[i as int]));
        }
        i += 1;
    }
    proof {
        assert(rows@.take(rows@.len() as int) =~= rows@);
    }
    out
}

} // verus!
