//! The order of strings (lexicographic by code point, as `str`'s `Ord`) and
//! sorted, duplicate-free lists of names.
use vstd::prelude::*;
use crate::text::{to_chars, str_eq};

verus! {

/// `a` sorts strictly before `b`.
pub open spec fn seq_lt(a: Seq<char>, b: Seq<char>) -> bool
    decreases a.len(),
{
    if a.len() == 0 {
        b.len() > 0
    } else if b.len() == 0 {
        false
    } else if a[0] != b[0] {
        a[0] < b[0]
    } else {
        seq_lt(a.drop_first(), b.drop_first())
    }
}

pub proof fn lemma_lt_irrefl(a: Seq<char>)
    ensures
        !seq_lt(a, a),
    decreases a.len(),
{
    if a.len() > 0 {
        lemma_lt_irrefl(a.drop_first());
    }
}

pub proof fn lemma_lt_trans(a: Seq<char>, b: Seq<char>, c: Seq<char>)
    requires
        seq_lt(a, b),
        seq_lt(b, c),
    ensures
        seq_lt(a, c),
    decreases a.len(),
{
    if a.len() > 0 && b.len() > 0 && c.len() > 0 {
        if a[0] == b[0] && b[0] == c[0] {
            lemma_lt_trans(a.drop_first(), b.drop_first(), c.drop_first());
        }
    }
}

pub proof fn lemma_lt_total(a: Seq<char>, b: Seq<char>)
    ensures
        a == b || seq_lt(a, b) || seq_lt(b, a),
    decreases a.len(),
{
    if a.len() > 0 && b.len() > 0 {
        if a[0] == b[0] {
            lemma_lt_total(a.drop_first(), b.drop_first());
            if a.drop_first() == b.drop_first() {
                assert(a =~= seq![a[0]] + a.drop_first());
                assert(b =~= seq![b[0]] + b.drop_first());
            }
        }
    } else if a.len() == 0 && b.len() == 0 {
        assert(a =~= b);
    }
}

pub proof fn lemma_lt_asym(a: Seq<char>, b: Seq<char>)
    requires
        seq_lt(a, b),
    ensures
        !seq_lt(b, a),
{
    if seq_lt(b, a) {
        lemma_lt_trans(a, b, a);
        lemma_lt_irrefl(a);
    }
}

/// Compares two character sequences: -1, 0 or 1.
pub fn compare_chars(a: &[char], b: &[char]) -> (r: i8)
    ensures
        r == 0 <==> a@ == b@,
        r < 0 <==> seq_lt(a@, b@),
        r > 0 <==> seq_lt(b@, a@),
{
    let mut i: usize = 0;
    proof {
        assert(a@.subrange(0, a@.len() as int) =~= a@);
        assert(b@.subrange(0, b@.len() as int) =~= b@);
    }
    while i < a.len() && i < b.len() && a[i] == b[i]
        invariant
            i <= a@.len(),
            i <= b@.len(),
            a@.subrange(0, i as int) == b@.subrange(0, i as int),
            seq_lt(a@, b@) == seq_lt(a@.subrange(i as int, a@.len() as int), b@.subrange(i as int, b@.len() as int)),
            seq_lt(b@, a@) == seq_lt(b@.subrange(i as int, b@.len() as int), a@.subrange(i as int, a@.len() as int)),
        decreases a@.len() - i,
    {
        proof {
            let ra = a@.subrange(i as int, a@.len() as int);
            let rb = b@.subrange(i as int, b@.len() as int);
            assert(ra.drop_first() =~= a@.subrange(i + 1, a@.len() as int));
            assert(rb.drop_first() =~= b@.subrange(i + 1, b@.len() as int));
            assert(a@.subrange(0, i + 1) =~= a@.subrange(0, i as int).push(a@[i as int]));
            assert(b@.subrange(0, i + 1) =~= b@.subrange(0, i as int).push(b@[i as int]));
        }
        i += 1;
    }
    proof {
        lemma_lt_irrefl(a@);
        assert(a@.subrange(0, a@.len() as int) =~= a@);
        assert(b@.subrange(0, b@.len() as int) =~= b@);
    }
    if i < a.len() && i < b.len() {
        proof {
            if a@ == b@ {
                assert(a@[i as int] == b@[i as int]);
            }
        }
        if a[i] < b[i] {
            proof {
                lemma_lt_asym(a@, b@);
            }
            -1
        } else {
            proof {
                lemma_lt_asym(b@, a@);
            }
            1
        }
    } else if i < a.len() {
        proof {
            assert(a@.len() != b@.len());
        }
        1
    } else if i < b.len() {
        proof {
            assert(a@.len() != b@.len());
        }
        -1
    } else {
        proof {
            assert(a@ =~= b@);
        }
        0
    }
}

/// Compares two strings: -1, 0 or 1.
pub fn compare_str(a: &str, b: &str) -> (r: i8)
    ensures
        r == 0 <==> a@ == b@,
        r < 0 <==> seq_lt(a@, b@),
        r > 0 <==> seq_lt(b@, a@),
{
    let x = to_chars(a);
    let y = to_chars(b);
    compare_chars(&x, &y)
}

/// Strictly increasing: sorted and without duplicates.
pub open spec fn strictly_sorted(s: Seq<Seq<char>>) -> bool {
    forall|i: int, j: int| 0 <= i < j < s.len() ==> seq_lt(#[trigger] s[i], #[trigger] s[j])
}

/// The views of a list of strings.
pub open spec fn views(v: Seq<String>) -> Seq<Seq<char>> {
    v.map_values(|s: String| s@)
}

/// Inserts `x` into a strictly sorted list, unless it is already there.
pub fn insert_sorted_unique(v: &mut Vec<String>, x: String) -> (inserted: bool)
    requires
        strictly_sorted(views(old(v)@)),
    ensures
        strictly_sorted(views(final(v)@)),
        views(final(v)@).to_set() == views(old(v)@).to_set().insert(x@),
        inserted == !views(old(v)@).contains(x@),
        !inserted ==> final(v)@ == old(v)@,
        inserted ==> final(v)@.len() == old(v)@.len() + 1,
{
    let mut i: usize = 0;
    while i < v.len() && compare_str(v[i].as_str(), x.as_str()) < 0
        invariant
            i <= v@.len(),
            forall|j: int| 0 <= j < i ==> seq_lt(#[trigger] views(v@)[j], x@),
        decreases v@.len() - i,
    {
        i += 1;
    }
    let ghost old_views = views(v@);
    if i < v.len() && compare_str(v[i].as_str(), x.as_str()) == 0 {
        proof {
            assert(old_views[i as int] == x@);
            assert(old_views.to_set().insert(x@) =~= old_views.to_set()) by {
                assert(old_views.contains(x@));
            }
        }
        return false;
    }
    proof {
        if i < v@.len() {
            assert(seq_lt(x@, old_views[i as int])) by {
                lemma_lt_total(x@, old_views[i as int]);
            }
            assert forall|j: int| i <= j < old_views.len() implies seq_lt(x@, #[trigger] old_views[j]) by {
                if j > i {
                    lemma_lt_trans(x@, old_views[i as int], old_views[j]);
                }
            }
        }
        assert(!old_views.contains(x@)) by {
            if old_views.contains(x@) {
                let k = choose|k: int| 0 <= k < old_views.len() && old_views[k] == x@;
                if k < i {
                    lemma_lt_irrefl(x@);
                } else {
                    lemma_lt_irrefl(x@);
                }
            }
        }
    }
    let ghost xv = x@;
    v.insert(i, x);
    proof {
        let nv = views(v@);
        assert(nv =~= old_views.insert(i as int, xv));
        assert forall|a: int, b: int| 0 <= a < b < nv.len() implies seq_lt(#[trigger] nv[a], #[trigger] nv[b]) by {
            if b < i {
            } else if a < i && b == i {
            } else if a < i && b > i {
                assert(nv[b] == old_views[b - 1]);
                lemma_lt_trans(nv[a], xv, nv[b]);
            } else if a == i {
                assert(nv[b] == old_views[b - 1]);
            } else {
                assert(nv[a] == old_views[a - 1]);
                assert(nv[b] == old_views[b - 1]);
            }
        }
        assert(nv.to_set() =~= old_views.to_set().insert(xv)) by {
            assert forall|e: Seq<char>| nv.to_set().contains(e) <==> old_views.to_set().insert(xv).contains(e) by {
                if nv.contains(e) {
                    let k = choose|k: int| 0 <= k < nv.len() && nv[k] == e;
                    if k < i {
                        assert(old_views[k] == e);
                    } else if k > i {
                        assert(old_views[k - 1] == e);
                    }
                }
                if old_views.contains(e) {
                    let k = choose|k: int| 0 <= k < old_views.len() && old_views[k] == e;
                    if k < i {
                        assert(nv[k] == e);
                    } else {
                        assert(nv[k + 1] == e);
                    }
                }
                if e == xv {
                    assert(nv[i as int] == e);
                }
            }
        }
    }
    true
}


/// A strictly sorted list has no duplicates.
pub proof fn lemma_sorted_distinct(s: Seq<Seq<char>>)
    requires
        strictly_sorted(s),
    ensures
        s.no_duplicates(),
{
    assert forall|i: int, j: int| 0 <= i < s.len() && 0 <= j < s.len() && i != j implies s[i] != s[j] by {
        if i < j {
            assert(seq_lt(s[i], s[j]));
            if s[i] == s[j] {
                lemma_lt_irrefl(s[i]);
            }
        } else {
            assert(seq_lt(s[j], s[i]));
            if s[i] == s[j] {
                lemma_lt_irrefl(s[i]);
            }
        }
    }
}

/// A duplicate-free list whose members all occur in `u` is no longer than `u`.
pub proof fn lemma_distinct_len_le(s: Seq<Seq<char>>, u: Seq<Seq<char>>)
    requires
        s.no_duplicates(),
        forall|k: int| 0 <= k < s.len() ==> u.contains(#[trigger] s[k]),
    ensures
        s.len() <= u.len(),
{
    s.unique_seq_to_set();
    assert(s.to_set().subset_of(u.to_set())) by {
        assert forall|x: Seq<char>| s.to_set().contains(x) implies u.to_set().contains(x) by {
            let k = choose|k: int| 0 <= k < s.len() && s[k] == x;
            assert(u.contains(s[k]));
        }
    }
    vstd::seq_lib::seq_to_set_is_finite(u);
    vstd::set_lib::lemma_len_subset(s.to_set(), u.to_set());
    u.lemma_cardinality_of_set();
}

/// Whether `x` occurs in the list.
pub fn contains_str(v: &Vec<String>, x: &str) -> (r: bool)
    ensures
        r == views(v@).contains(x@),
{
    let mut i: usize = 0;
    while i < v.len()
        invariant
            i <= v@.len(),
            forall|j: int| 0 <= j < i ==> #[trigger] views(v@)[j] != x@,
        decreases v@.len() - i,
    {
        if str_eq(v[i].as_str(), x) {
            proof {
                assert(views(v@)[i as int] == x@);
            }
            return true;
        }
        i += 1;
    }
    false
}

/// The position before which `x` goes in a sorted list: the first element
/// that sorts strictly after it, else the end.
pub open spec fn first_greater(s: Seq<Seq<char>>, x: Seq<char>) -> int
    decreases s.len(),
{
    if s.len() == 0 {
        0
    } else if seq_lt(x, s[0]) {
        0
    } else {
        1 + first_greater(s.drop_first(), x)
    }
}

/// `x` inserted into a sorted list after every element that does not sort
/// after it.
pub open spec fn insert_name(s: Seq<Seq<char>>, x: Seq<char>) -> Seq<Seq<char>> {
    s.take(first_greater(s, x)).push(x) + s.skip(first_greater(s, x))
}

/// The names sorted (stably) by the string order.
pub open spec fn sort_names(s: Seq<Seq<char>>) -> Seq<Seq<char>>
    decreases s.len(),
{
    if s.len() == 0 {
        Seq::empty()
    } else {
        insert_name(sort_names(s.drop_last()), s.last())
    }
}

/// The names joined with `sep` between consecutive ones.
pub open spec fn join_names(s: Seq<Seq<char>>, sep: Seq<char>) -> Seq<char>
    decreases s.len(),
{
    if s.len() == 0 {
        Seq::empty()
    } else if s.len() == 1 {
        s[0]
    } else {
        join_names(s.drop_last(), sep) + sep + s.last()
    }
}

pub proof fn lemma_first_greater_at(s: Seq<Seq<char>>, x: Seq<char>, i: int)
    requires
        0 <= i <= s.len(),
        forall|k: int| 0 <= k < i ==> !seq_lt(x, #[trigger] s[k]),
        i == s.len() || seq_lt(x, s[i]),
    ensures
        first_greater(s, x) == i,
    decreases i,
{
    if i > 0 {
        assert(!seq_lt(x, s[0]));
        let t = s.drop_first();
        assert forall|k: int| 0 <= k < i - 1 implies !seq_lt(x, #[trigger] t[k]) by {
            assert(t[k] == s[k + 1]);
        }
        if i < s.len() {
            assert(t[i - 1] == s[i]);
        }
        lemma_first_greater_at(t, x, i - 1);
    }
}

/// Inserts `x` into `v` at the place `insert_name` gives.
pub fn insert_name_into(v: &mut Vec<String>, x: String)
    ensures
        views(final(v)@) == insert_name(views(old(v)@), x@),
{
    let ghost s = views(v@);
    let mut i: usize = 0;
    while i < v.len() && compare_str(v[i].as_str(), x.as_str()) <= 0
        invariant
            s == views(v@),
            i <= v@.len(),
            forall|k: int| 0 <= k < i ==> !seq_lt(x@, #[trigger] s[k]),
        decreases v@.len() - i,
    {
        proof {
            if seq_lt(x@, s[i as int]) {
                lemma_lt_asym(x@, s[i as int]);
            }
        }
        i += 1;
    }
    proof {
        if i < v@.len() {
            assert(seq_lt(x@, s[i as int]));
        }
        lemma_first_greater_at(s, x@, i as int);
    }
    let ghost xv = x@;
    v.insert(i, x);
    proof {
        assert(views(v@) =~= s.take(i as int).push(xv) + s.skip(i as int));
    }
}

/// The names sorted stably by the string order.
pub fn sort_strings(v: &Vec<String>) -> (r: Vec<String>)
    ensures
        views(r@) == sort_names(views(v@)),
{
    let ghost s = views(v@);
    let mut out: Vec<String> = Vec::new();
    let mut i: usize = 0;
    while i < v.len()
        invariant
            s == views(v@),
            i <= v@.len(),
            views(out@) == sort_names(s.take(i as int)),
        decreases v@.len() - i,
    {
        proof {
            assert(s.take(i + 1).drop_last() =~= s.take(i as int));
            assert(s.take(i + 1).last() == s[i as int]);
        }
        insert_name_into(&mut out, v[i].clone());
        i += 1;
    }
    proof {
        assert(s.take(s.len() as int) =~= s);
    }
    out
}

/// The names joined with `sep`.
pub fn join_strings(v: &Vec<String>, sep: &str) -> (r: String)
    ensures
        r@ == join_names(views(v@), sep@),
{
    let ghost s = views(v@);
    let mut out = String::new();
    let mut i: usize = 0;
    while i < v.len()
        invariant
            s == views(v@),
            i <= v@.len(),
            out@ == join_names(s.take(i as int), sep@),
        decreases v@.len() - i,
    {
        proof {
            assert(s.take(i + 1).drop_last() =~= s.take(i as int));
            assert(s.take(i + 1).last() == s[i as int]);
        }
        if i > 0 {
            crate::text::push_str(&mut out, sep);
        } else {
            proof {
                assert(s.take(1)[0] == s[0]);
            }
        }
        crate::text::push_str(&mut out, v[i].as_str());
        proof {
            if i == 0 {
                assert(out@ =~= s[0]);
            }
        }
        i += 1;
    }
    proof {
        assert(s.take(s.len() as int) =~= s);
    }
    out
}

} // verus!
