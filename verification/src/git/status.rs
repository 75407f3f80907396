//! The working-tree state of a repository.
use vstd::prelude::*;
use crate::order::views;
use crate::text::{lines, lines_spec, to_chars, from_chars};

verus! {

/// Paths by kind of change.
#[derive(Debug, Default, Clone)]
pub struct StatusSummary {
    pub staged: Vec<String>,
    pub modified: Vec<String>,
    pub untracked: Vec<String>,
    pub conflicts: Vec<String>,
}

impl StatusSummary {
    /// Nothing staged, modified, untracked or conflicted.
    pub fn is_clean(&self) -> (r: bool)
        ensures
            r == (self.staged@.len() == 0 && self.modified@.len() == 0 && self.untracked@.len() == 0
                && self.conflicts@.len() == 0),
    {
        self.staged.len() == 0 && self.modified.len() == 0 && self.untracked.len() == 0 && self.conflicts.len()
            == 0
    }
}

/// The kind of change a line of `git status --porcelain` reports, by its
/// two status letters: 0 untracked, 1 conflicted, 2 staged, 3 modified,
/// 4 staged and modified, 5 none (a line too short to hold a path).
pub open spec fn line_kind(l: Seq<char>) -> int {
    if l.len() < 4 {
        5
    } else if l[0] == '?' && l[1] == '?' {
        0
    } else if l[0] == 'U' || l[1] == 'U' || (l[0] == 'A' && l[1] == 'A') || (l[0] == 'D' && l[1] == 'D') {
        1
    } else if l[0] != ' ' && l[1] != ' ' {
        4
    } else if l[0] != ' ' {
        2
    } else if l[1] != ' ' {
        3
    } else {
        5
    }
}

/// The paths of the lines of kind `k` (staged and modified lines count for
/// both), in order.
pub open spec fn paths_of(ls: Seq<Seq<char>>, k: int) -> Seq<Seq<char>>
    decreases ls.len(),
{
    if ls.len() == 0 {
        Seq::empty()
    } else {
        let l = ls.last();
        let kind = line_kind(l);
        let hit = kind == k || (kind == 4 && (k == 2 || k == 3));
        if hit {
            paths_of(ls.drop_last(), k).push(l.skip(3))
        } else {
            paths_of(ls.drop_last(), k)
        }
    }
}

/// The working-tree state that `git status --porcelain` reports.
pub open spec fn spec_status_from_porcelain(out: Seq<char>) -> (Seq<Seq<char>>, Seq<Seq<char>>, Seq<Seq<char>>, Seq<Seq<char>>) {
    let ls = lines_spec(out);
    (paths_of(ls, 2), paths_of(ls, 3), paths_of(ls, 0), paths_of(ls, 1))
}

/// The summary as plain values: staged, modified, untracked, conflicted.
pub open spec fn summary_view(s: StatusSummary) -> (Seq<Seq<char>>, Seq<Seq<char>>, Seq<Seq<char>>, Seq<Seq<char>>) {
    (views(s.staged@), views(s.modified@), views(s.untracked@), views(s.conflicts@))
}

/// The kind of a line.
fn kind_of(l: &Vec<char>) -> (r: u8)
    ensures
        r as int == line_kind(l@),
{
    if l.len() < 4 {
        5
    } else if l[0] == '?' && l[1] == '?' {
        0
    } else if l[0] == 'U' || l[1] == 'U' || (l[0] == 'A' && l[1] == 'A') || (l[0] == 'D' && l[1] == 'D') {
        1
    } else if l[0] != ' ' && l[1] != ' ' {
        4
    } else if l[0] != ' ' {
        2
    } else if l[1] != ' ' {
        3
    } else {
        5
    }
}

/// The working-tree state that `git status --porcelain` reports.
pub fn status_from_porcelain(out: &str) -> (r: StatusSummary)
    ensures
        summary_view(r) == spec_status_from_porcelain(out@),
{
    let ls = lines(out);
    let ghost lv = views(ls@);
    let mut s = StatusSummary { staged: Vec::new(), modified: Vec::new(), untracked: Vec::new(), conflicts: Vec::new() };
    let mut i: usize = 0;
    while i < ls.len()
        invariant
            i <= ls@.len(),
            lv == views(ls@),
            lv == lines_spec(out@),
            views(s.staged@) == paths_of(lv.take(i as int), 2),
            views(s.modified@) == paths_of(lv.take(i as int), 3),
            views(s.untracked@) == paths_of(lv.take(i as int), 0),
            views(s.conflicts@) == paths_of(lv.take(i as int), 1),
        decreases ls@.len() - i,
    {
        proof {
            assert(lv.take(i + 1).drop_last() =~= lv.take(i as int));
            assert(lv.take(i + 1).last() == ls@[i as int]@);
        }
        let cs = to_chars(ls[i].as_str());
        let kind = kind_of(&cs);
        if kind != 5 {
            let rest = crate::numbers::slice_from(&cs, 3);
            let path = from_chars(&rest);
            proof {
                assert(rest@ =~= ls@[i as int]@.skip(3));
            }
            let ghost pv = path@;
            if kind == 0 {
                let ghost b = views(s.untracked@);
                s.untracked.push(path);
                proof { assert(views(s.untracked@) =~= b.push(pv)); }
            } else if kind == 1 {
                let ghost b = views(s.conflicts@);
                s.conflicts.push(path);
                proof { assert(views(s.conflicts@) =~= b.push(pv)); }
            } else if kind == 2 {
                let ghost b = views(s.staged@);
                s.staged.push(path);
                proof { assert(views(s.staged@) =~= b.push(pv)); }
            } else if kind == 3 {
                let ghost b = views(s.modified@);
                s.modified.push(path);
                proof { assert(views(s.modified@) =~= b.push(pv)); }
            } else {
                let second = from_chars(&rest);
                let ghost b1 = views(s.staged@);
                let ghost b2 = views(s.modified@);
                s.staged.push(path);
                s.modified.push(second);
                proof {
                    assert(views(s.staged@) =~= b1.push(pv));
                    assert(views(s.modified@) =~= b2.push(pv));
                }
            }
        }
        i += 1;
    }
    proof {
        assert(lv.take(ls@.len() as int) =~= lv);
    }
    s
}

} // verus!
