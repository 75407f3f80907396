//! Character-sequence helpers with exact specifications.
//!
//! Strings are modelled by their view, a `Seq<char>`.
use vstd::prelude::*;
use vstd::string::*;

verus! {

/// Appends one character to a `String` (calls `String::push`).
#[verifier::external_body]
pub fn push_char(s: &mut String, c: char)
    ensures
        final(s)@ == old(s)@.push(c),
{
    s.push(c);
}

/// The characters of a string slice, in order.
pub fn to_chars(s: &str) -> (r: Vec<char>)
    ensures
        r@ == s@,
{
    let n = s.unicode_len();
    let mut out: Vec<char> = Vec::new();
    let mut i: usize = 0;
    while i < n
        invariant
            n == s@.len(),
            i <= n,
            out@ == s@.subrange(0, i as int),
        decreases n - i,
    {
        let c = s.get_char(i);
        out.push(c);
        i += 1;
    }
    proof {
        assert(s@.subrange(0, n as int) =~= s@);
    }
    out
}

/// Builds a `String` holding exactly the given characters.
pub fn from_chars(v: &[char]) -> (r: String)
    ensures
        r@ == v@,
{
    let mut out = String::new();
    let mut i: usize = 0;
    while i < v.len()
        invariant
            i <= v@.len(),
            out@ == v@.subrange(0, i as int),
        decreases v@.len() - i,
    {
        push_char(&mut out, v[i]);
        proof {
            assert(v@.subrange(0, i + 1) =~= v@.subrange(0, i as int).push(v@[i as int]));
        }
        i += 1;
    }
    proof {
        assert(v@.subrange(0, v@.len() as int) =~= v@);
    }
    out
}

/// Appends the characters of `tail` to `s`.
pub fn push_chars(s: &mut String, tail: &[char])
    ensures
        final(s)@ == old(s)@ + tail@,
{
    let mut i: usize = 0;
    while i < tail.len()
        invariant
            i <= tail@.len(),
            s@ == old(s)@ + tail@.subrange(0, i as int),
        decreases tail@.len() - i,
    {
        push_char(s, tail[i]);
        proof {
            assert(tail@.subrange(0, i + 1) =~= tail@.subrange(0, i as int).push(tail@[i as int]));
        }
        i += 1;
    }
    proof {
        assert(tail@.subrange(0, tail@.len() as int) =~= tail@);
    }
}

/// Appends a string slice to `s`.
pub fn push_str(s: &mut String, tail: &str)
    ensures
        final(s)@ == old(s)@ + tail@,
{
    s.append(tail);
}

/// A fresh `String` with the characters of `s`.
pub fn string_of(s: &str) -> (r: String)
    ensures
        r@ == s@,
{
    String::from_str(s)
}

/// A copy of a `String`.
pub fn copy_string(s: &String) -> (r: String)
    ensures
        r@ == s@,
{
    s.clone()
}

/// Concatenation of two strings.
pub fn concat2(a: &str, b: &str) -> (r: String)
    ensures
        r@ == a@ + b@,
{
    let mut out = String::from_str(a);
    out.append(b);
    out
}

/// Concatenation of three strings.
pub fn concat3(a: &str, b: &str, c: &str) -> (r: String)
    ensures
        r@ == a@ + b@ + c@,
{
    let mut out = String::from_str(a);
    out.append(b);
    out.append(c);
    out
}

/// Equality of two string slices.
pub fn str_eq(a: &str, b: &str) -> (r: bool)
    ensures
        r == (a@ == b@),
{
    let x = to_chars(a);
    let y = to_chars(b);
    chars_eq(&x, &y)
}

/// Equality of two character sequences.
pub fn chars_eq(a: &[char], b: &[char]) -> (r: bool)
    ensures
        r == (a@ == b@),
{
    if a.len() != b.len() {
        return false;
    }
    let mut i: usize = 0;
    while i < a.len()
        invariant
            a@.len() == b@.len(),
            i <= a@.len(),
            forall|j: int| 0 <= j < i ==> a@[j] == b@[j],
        decreases a@.len() - i,
    {
        if a[i] != b[i] {
            return false;
        }
        i += 1;
    }
    proof {
        assert(a@ =~= b@);
    }
    true
}

// ---------------------------------------------------------------- classes

/// ASCII decimal digit.
pub open spec fn is_digit(c: char) -> bool {
    '0' <= c && c <= '9'
}

/// ASCII letter or digit.
pub open spec fn is_alnum(c: char) -> bool {
    ('0' <= c && c <= '9') || ('a' <= c && c <= 'z') || ('A' <= c && c <= 'Z')
}

/// The Unicode `White_Space` property, which `str::trim` and
/// `str::split_whitespace` use.
pub open spec fn is_ws(c: char) -> bool {
    let u = c as u32;
    (0x09 <= u && u <= 0x0D) || u == 0x20 || u == 0x85 || u == 0xA0 || u == 0x1680 || (0x2000
        <= u && u <= 0x200A) || u == 0x2028 || u == 0x2029 || u == 0x202F || u == 0x205F || u
        == 0x3000
}

/// Executable `is_digit`.
pub fn char_is_digit(c: char) -> (r: bool)
    ensures
        r == is_digit(c),
{
    '0' <= c && c <= '9'
}

/// Executable `is_alnum`.
pub fn char_is_alnum(c: char) -> (r: bool)
    ensures
        r == is_alnum(c),
{
    ('0' <= c && c <= '9') || ('a' <= c && c <= 'z') || ('A' <= c && c <= 'Z')
}

/// Executable `is_ws`.
pub fn char_is_ws(c: char) -> (r: bool)
    ensures
        r == is_ws(c),
{
    let u = c as u32;
    (0x09 <= u && u <= 0x0D) || u == 0x20 || u == 0x85 || u == 0xA0 || u == 0x1680 || (0x2000
        <= u && u <= 0x200A) || u == 0x2028 || u == 0x2029 || u == 0x202F || u == 0x205F || u
        == 0x3000
}

} // verus!

verus! {

/// `s` begins with `p`.
pub open spec fn starts(s: Seq<char>, p: Seq<char>) -> bool {
    p.len() <= s.len() && s.subrange(0, p.len() as int) == p
}

/// `s` ends with `p`.
pub open spec fn ends(s: Seq<char>, p: Seq<char>) -> bool {
    p.len() <= s.len() && s.subrange(s.len() - p.len(), s.len() as int) == p
}

/// `lit` occurs in `s` at position `idx`.
pub fn has_at(s: &[char], idx: usize, lit: &[char]) -> (r: bool)
    ensures
        r == (idx + lit@.len() <= s@.len() && s@.subrange(idx as int, idx + lit@.len()) == lit@),
{
    if idx > s.len() || lit.len() > s.len() - idx {
        return false;
    }
    let n = s.len();
    let mut k: usize = 0;
    while k < lit.len()
        invariant
            n == s@.len(),
            idx + lit@.len() <= s@.len(),
            idx <= s@.len(),
            k <= lit@.len(),
            forall|j: int| 0 <= j < k ==> s@[idx + j] == lit@[j],
        decreases lit@.len() - k,
    {
        if s[idx + k] != lit[k] {
            proof {
                assert(s@.subrange(idx as int, idx + lit@.len())[k as int] == s@[idx + k]);
            }
            return false;
        }
        k += 1;
    }
    proof {
        assert(s@.subrange(idx as int, idx + lit@.len()) =~= lit@);
    }
    true
}

/// Executable `starts`.
pub fn starts_with_chars(s: &[char], p: &[char]) -> (r: bool)
    ensures
        r == starts(s@, p@),
{
    has_at(s, 0, p)
}

/// Executable `ends`.
pub fn ends_with_chars(s: &[char], p: &[char]) -> (r: bool)
    ensures
        r == ends(s@, p@),
{
    if p.len() > s.len() {
        return false;
    }
    has_at(s, s.len() - p.len(), p)
}

/// First position at which `p` occurs in `s`.
pub open spec fn find_sub(s: Seq<char>, p: Seq<char>) -> Option<int>
    decreases s.len(),
{
    if s.len() < p.len() {
        None
    } else if s.subrange(0, p.len() as int) == p {
        Some(0)
    } else if s.len() == 0 {
        None
    } else {
        match find_sub(s.drop_first(), p) {
            Some(i) => Some(i + 1),
            None => None,
        }
    }
}

pub proof fn lemma_find_sub_skip(s: Seq<char>, p: Seq<char>, k: int)
    requires
        0 <= k <= s.len(),
        forall|j: int| 0 <= j < k ==> !(j + p.len() <= s.len() && #[trigger] s.subrange(j, j + p.len()) == p),
    ensures
        find_sub(s, p) == (match find_sub(s.subrange(k, s.len() as int), p) {
            Some(i) => Some(i + k),
            None => None::<int>,
        }),
    decreases k,
{
    if k > 0 {
        assert(s.subrange(1, s.len() as int) =~= s.drop_first());
        assert forall|j: int| 0 <= j < k - 1 implies !(j + p.len() <= s.drop_first().len()
            && #[trigger] s.drop_first().subrange(j, j + p.len()) == p) by {
            if j + p.len() <= s.drop_first().len() {
                assert(s.drop_first().subrange(j, j + p.len()) =~= s.subrange(j + 1, j + 1 + p.len()));
            }
        }
        lemma_find_sub_skip(s.drop_first(), p, k - 1);
        assert(s.drop_first().subrange(k - 1, s.drop_first().len() as int) =~= s.subrange(
            k,
            s.len() as int,
        ));
        if s.len() >= p.len() {
            assert(!(0 + p.len() <= s.len() && s.subrange(0, 0 + p.len() as int) == p));
        }
    } else {
        assert(s.subrange(0, s.len() as int) =~= s);
    }
}

/// `find_sub` finds the first occurrence: none before it, and none at all
/// when it finds nothing.
pub proof fn lemma_find_sub_first(s: Seq<char>, p: Seq<char>)
    ensures
        forall|j: int|
            0 <= j && j + p.len() <= s.len() && (match find_sub(s, p) {
                Some(i) => j < i,
                None => true,
            }) ==> #[trigger] s.subrange(j, j + p.len()) != p,
    decreases s.len(),
{
    if s.len() >= p.len() && s.subrange(0, p.len() as int) != p && s.len() > 0 {
        let t = s.drop_first();
        lemma_find_sub_first(t, p);
        assert forall|j: int|
            0 <= j && j + p.len() <= s.len() && (match find_sub(s, p) {
                Some(i) => j < i,
                None => true,
            }) implies #[trigger] s.subrange(j, j + p.len()) != p by {
            if j > 0 {
                assert(s.subrange(j, j + p.len()) =~= t.subrange(j - 1, j - 1 + p.len()));
            }
        }
    }
}

/// Executable `find_sub`.
pub fn find_chars(s: &[char], p: &[char]) -> (r: Option<usize>)
    ensures
        match find_sub(s@, p@) {
            Some(i) => r == Some(i as usize),
            None => r is None,
        },
{
    let mut i: usize = 0;
    while i < s.len()
        invariant
            i <= s@.len(),
            forall|j: int| 0 <= j < i ==> !(j + p@.len() <= s@.len() && #[trigger] s@.subrange(j, j + p@.len()) == p@),
        decreases s@.len() - i,
    {
        if has_at(s, i, p) {
            proof {
                lemma_find_sub_skip(s@, p@, i as int);
                assert(s@.subrange(i as int, s@.len() as int).subrange(0, p@.len() as int)
                    =~= s@.subrange(i as int, i + p@.len()));
            }
            return Some(i);
        }
        i += 1;
    }
    proof {
        lemma_find_sub_skip(s@, p@, s@.len() as int);
    }
    if has_at(s, s.len(), p) {
        proof {
            assert(s@.subrange(s@.len() as int, s@.len() as int).subrange(0, p@.len() as int)
                =~= s@.subrange(s@.len() as int, (s@.len() + p@.len()) as int));
        }
        return Some(s.len());
    }
    proof {
        if p@.len() == 0 {
            assert(s@.subrange(s@.len() as int, s@.len() as int) =~= p@);
        }
    }
    None
}

} // verus!

verus! {

/// Where `find_sub` finds `p`, `p` occurs.
pub proof fn lemma_find_sub_bounds(s: Seq<char>, p: Seq<char>)
    ensures
        find_sub(s, p) matches Some(i) ==> 0 <= i && i + p.len() <= s.len() && s.subrange(
            i,
            i + p.len(),
        ) == p,
    decreases s.len(),
{
    if s.len() >= p.len() && s.subrange(0, p.len() as int) != p && s.len() > 0 {
        lemma_find_sub_bounds(s.drop_first(), p);
        if let Some(i) = find_sub(s.drop_first(), p) {
            assert(s.drop_first().subrange(i, i + p.len()) =~= s.subrange(i + 1, i + 1 + p.len()));
        }
    }
}

} // verus!

verus! {

/// The view of an optional string slice.
pub open spec fn opt_str_view(o: Option<&str>) -> Option<Seq<char>> {
    match o {
        Some(s) => Some(s@),
        None => None,
    }
}

} // verus!

verus! {

/// `s` without its leading white space.
pub open spec fn trim_start_spec(s: Seq<char>) -> Seq<char>
    decreases s.len(),
{
    if s.len() > 0 && is_ws(s[0]) {
        trim_start_spec(s.drop_first())
    } else {
        s
    }
}

/// `s` without its trailing white space.
pub open spec fn trim_end_spec(s: Seq<char>) -> Seq<char>
    decreases s.len(),
{
    if s.len() > 0 && is_ws(s.last()) {
        trim_end_spec(s.drop_last())
    } else {
        s
    }
}

/// `s` without leading and trailing white space, as `str::trim`.
pub open spec fn trim_spec(s: Seq<char>) -> Seq<char> {
    trim_end_spec(trim_start_spec(s))
}

proof fn lemma_trim_start_from(s: Seq<char>, i: int)
    requires
        0 <= i <= s.len(),
        forall|k: int| 0 <= k < i ==> is_ws(#[trigger] s[k]),
    ensures
        trim_start_spec(s) == trim_start_spec(s.subrange(i, s.len() as int)),
    decreases i,
{
    if i > 0 {
        assert(is_ws(s[0]));
        let t = s.drop_first();
        assert forall|k: int| 0 <= k < i - 1 implies is_ws(#[trigger] t[k]) by {
            assert(t[k] == s[k + 1]);
        }
        lemma_trim_start_from(t, i - 1);
        assert(t.subrange(i - 1, t.len() as int) =~= s.subrange(i, s.len() as int));
    } else {
        assert(s.subrange(0, s.len() as int) =~= s);
    }
}

/// Trailing white space removed: a prefix that is empty or ends in another
/// character, and removing again changes nothing.
pub proof fn lemma_trim_end_shape(s: Seq<char>)
    ensures
        trim_end_spec(s).len() <= s.len(),
        trim_end_spec(s) == s.take(trim_end_spec(s).len() as int),
        trim_end_spec(s).len() == 0 || !is_ws(trim_end_spec(s).last()),
        trim_end_spec(trim_end_spec(s)) == trim_end_spec(s),
    decreases s.len(),
{
    if s.len() > 0 && is_ws(s.last()) {
        lemma_trim_end_shape(s.drop_last());
        let t = trim_end_spec(s.drop_last());
        assert(s.drop_last().take(t.len() as int) =~= s.take(t.len() as int));
    } else {
        assert(s.take(s.len() as int) =~= s);
    }
}

pub proof fn lemma_trim_end_to(s: Seq<char>, j: int)
    requires
        0 <= j <= s.len(),
        forall|k: int| j <= k < s.len() ==> is_ws(#[trigger] s[k]),
    ensures
        trim_end_spec(s) == trim_end_spec(s.subrange(0, j)),
    decreases s.len() - j,
{
    if j < s.len() {
        assert(is_ws(s[s.len() - 1]));
        let t = s.drop_last();
        assert forall|k: int| j <= k < t.len() implies is_ws(#[trigger] t[k]) by {
            assert(t[k] == s[k]);
        }
        lemma_trim_end_to(t, j);
        assert(t.subrange(0, j) =~= s.subrange(0, j));
    } else {
        assert(s.subrange(0, j) =~= s);
    }
}

/// `s` without leading and trailing white space.
pub fn trim_chars(s: &[char]) -> (r: Vec<char>)
    ensures
        r@ == trim_spec(s@),
{
    let n = s.len();
    let mut i: usize = 0;
    while i < n && char_is_ws(s[i])
        invariant
            n == s@.len(),
            i <= n,
            forall|k: int| 0 <= k < i ==> is_ws(#[trigger] s@[k]),
        decreases n - i,
    {
        i += 1;
    }
    proof {
        lemma_trim_start_from(s@, i as int);
    }
    let ghost rest = s@.subrange(i as int, n as int);
    proof {
        if rest.len() > 0 {
            assert(rest[0] == s@[i as int]);
        }
        assert(trim_start_spec(rest) == rest);
    }
    let mut j: usize = n;
    while j > i && char_is_ws(s[j - 1])
        invariant
            n == s@.len(),
            i <= j <= n,
            forall|k: int| j <= k < n ==> is_ws(#[trigger] s@[k]),
        decreases j,
    {
        j -= 1;
    }
    proof {
        assert forall|k: int| j - i <= k < rest.len() implies is_ws(#[trigger] rest[k]) by {
            assert(rest[k] == s@[i + k]);
        }
        lemma_trim_end_to(rest, j - i);
        let core = rest.subrange(0, j - i);
        if core.len() > 0 {
            assert(core.last() == s@[j - 1]);
        }
        assert(trim_end_spec(core) == core);
        assert(core =~= s@.subrange(i as int, j as int));
    }
    let mut out: Vec<char> = Vec::new();
    let mut k: usize = i;
    while k < j
        invariant
            i <= k <= j <= n,
            n == s@.len(),
            out@ =~= s@.subrange(i as int, k as int),
        decreases j - k,
    {
        out.push(s[k]);
        k += 1;
    }
    out
}

/// `s` without its trailing white space.
pub fn trim_end_str(s: &str) -> (r: String)
    ensures
        r@ == trim_end_spec(s@),
{
    let cs = to_chars(s);
    let n = cs.len();
    let mut j: usize = n;
    while j > 0 && char_is_ws(cs[j - 1])
        invariant
            n == cs@.len(),
            j <= n,
            forall|k: int| j <= k < n ==> is_ws(#[trigger] cs@[k]),
        decreases j,
    {
        j -= 1;
    }
    proof {
        lemma_trim_end_to(cs@, j as int);
        let core = cs@.subrange(0, j as int);
        if core.len() > 0 {
            assert(core.last() == cs@[j - 1]);
        }
        assert(trim_end_spec(core) == core);
    }
    let head = crate::numbers::slice_range(&cs, 0, j);
    proof {
        assert(head@ =~= cs@.subrange(0, j as int));
    }
    from_chars(&head)
}

/// `s` without leading and trailing white space.
pub fn trim_str(s: &str) -> (r: String)
    ensures
        r@ == trim_spec(s@),
{
    let cs = to_chars(s);
    let t = trim_chars(&cs);
    from_chars(&t)
}

} // verus!

verus! {

/// `s` without leading copies of `c`.
pub open spec fn strip_start_char(s: Seq<char>, c: char) -> Seq<char>
    decreases s.len(),
{
    if s.len() > 0 && s[0] == c {
        strip_start_char(s.drop_first(), c)
    } else {
        s
    }
}

/// `s` without trailing copies of `c`.
pub open spec fn strip_end_char(s: Seq<char>, c: char) -> Seq<char>
    decreases s.len(),
{
    if s.len() > 0 && s.last() == c {
        strip_end_char(s.drop_last(), c)
    } else {
        s
    }
}

/// `s` without leading and trailing copies of `c`, as `str::trim_matches`.
pub open spec fn trim_matches_spec(s: Seq<char>, c: char) -> Seq<char> {
    strip_end_char(strip_start_char(s, c), c)
}

proof fn lemma_strip_start_from(s: Seq<char>, c: char, i: int)
    requires
        0 <= i <= s.len(),
        forall|k: int| 0 <= k < i ==> #[trigger] s[k] == c,
    ensures
        strip_start_char(s, c) == strip_start_char(s.subrange(i, s.len() as int), c),
    decreases i,
{
    if i > 0 {
        let t = s.drop_first();
        assert forall|k: int| 0 <= k < i - 1 implies #[trigger] t[k] == c by {
            assert(t[k] == s[k + 1]);
        }
        lemma_strip_start_from(t, c, i - 1);
        assert(t.subrange(i - 1, t.len() as int) =~= s.subrange(i, s.len() as int));
    } else {
        assert(s.subrange(0, s.len() as int) =~= s);
    }
}

proof fn lemma_strip_end_to(s: Seq<char>, c: char, j: int)
    requires
        0 <= j <= s.len(),
        forall|k: int| j <= k < s.len() ==> #[trigger] s[k] == c,
    ensures
        strip_end_char(s, c) == strip_end_char(s.subrange(0, j), c),
    decreases s.len() - j,
{
    if j < s.len() {
        let t = s.drop_last();
        assert forall|k: int| j <= k < t.len() implies #[trigger] t[k] == c by {
            assert(t[k] == s[k]);
        }
        lemma_strip_end_to(t, c, j);
        assert(t.subrange(0, j) =~= s.subrange(0, j));
    } else {
        assert(s.subrange(0, j) =~= s);
    }
}

/// `s` without leading copies of `c`.
pub fn strip_start_str(s: &str, c: char) -> (r: String)
    ensures
        r@ == strip_start_char(s@, c),
{
    let cs = to_chars(s);
    let n = cs.len();
    let mut i: usize = 0;
    while i < n && cs[i] == c
        invariant
            n == cs@.len(),
            i <= n,
            forall|k: int| 0 <= k < i ==> #[trigger] cs@[k] == c,
        decreases n - i,
    {
        i += 1;
    }
    proof {
        lemma_strip_start_from(cs@, c, i as int);
        let rest = cs@.subrange(i as int, n as int);
        if rest.len() > 0 {
            assert(rest[0] == cs@[i as int]);
        }
        assert(strip_start_char(rest, c) == rest);
    }
    let mut out: Vec<char> = Vec::new();
    let mut k: usize = i;
    while k < n
        invariant
            i <= k <= n,
            n == cs@.len(),
            out@ =~= cs@.subrange(i as int, k as int),
        decreases n - k,
    {
        out.push(cs[k]);
        k += 1;
    }
    from_chars(&out)
}

/// `s` without trailing copies of `c`.
pub fn strip_end_str(s: &str, c: char) -> (r: String)
    ensures
        r@ == strip_end_char(s@, c),
{
    let cs = to_chars(s);
    let n = cs.len();
    let mut j: usize = n;
    while j > 0 && cs[j - 1] == c
        invariant
            n == cs@.len(),
            j <= n,
            forall|k: int| j <= k < n ==> #[trigger] cs@[k] == c,
        decreases j,
    {
        j -= 1;
    }
    proof {
        lemma_strip_end_to(cs@, c, j as int);
        let core = cs@.subrange(0, j as int);
        if core.len() > 0 {
            assert(core.last() == cs@[j - 1]);
        }
        assert(strip_end_char(core, c) == core);
    }
    let mut out: Vec<char> = Vec::new();
    let mut k: usize = 0;
    while k < j
        invariant
            k <= j <= n,
            n == cs@.len(),
            out@ =~= cs@.subrange(0, k as int),
        decreases j - k,
    {
        out.push(cs[k]);
        k += 1;
    }
    from_chars(&out)
}

/// `s` without leading and trailing copies of `c`.
pub fn trim_matches_str(s: &str, c: char) -> (r: String)
    ensures
        r@ == trim_matches_spec(s@, c),
{
    let a = strip_start_str(s, c);
    strip_end_str(a.as_str(), c)
}

} // verus!

verus! {

/// The view of an optional string.
pub open spec fn opt_string_view(o: Option<String>) -> Option<Seq<char>> {
    match o {
        Some(s) => Some(s@),
        None => None,
    }
}

} // verus!

verus! {

/// `l` without one trailing carriage return.
pub open spec fn strip_cr(l: Seq<char>) -> Seq<char> {
    if l.len() > 0 && l.last() == '\r' {
        l.drop_last()
    } else {
        l
    }
}

/// The lines of `s` after a line that has read `cur` so far, as
/// `str::lines`: split at `\n`, a `\r` before it dropped, no empty last line.
pub open spec fn lines_acc(s: Seq<char>, cur: Seq<char>) -> Seq<Seq<char>>
    decreases s.len(),
{
    if s.len() == 0 {
        if cur.len() == 0 {
            Seq::empty()
        } else {
            seq![cur]
        }
    } else if s[0] == '\n' {
        seq![strip_cr(cur)] + lines_acc(s.drop_first(), Seq::empty())
    } else {
        lines_acc(s.drop_first(), cur.push(s[0]))
    }
}

/// The lines of `s`, as `str::lines`.
pub open spec fn lines_spec(s: Seq<char>) -> Seq<Seq<char>> {
    lines_acc(s, Seq::empty())
}

/// The words of `s` after a word that has read `cur` so far, as
/// `str::split_whitespace`.
pub open spec fn words_acc(s: Seq<char>, cur: Seq<char>) -> Seq<Seq<char>>
    decreases s.len(),
{
    if s.len() == 0 {
        if cur.len() == 0 {
            Seq::empty()
        } else {
            seq![cur]
        }
    } else if is_ws(s[0]) {
        (if cur.len() == 0 {
            Seq::empty()
        } else {
            seq![cur]
        }) + words_acc(s.drop_first(), Seq::empty())
    } else {
        words_acc(s.drop_first(), cur.push(s[0]))
    }
}

/// The words of `s`, as `str::split_whitespace`.
pub open spec fn words_spec(s: Seq<char>) -> Seq<Seq<char>> {
    words_acc(s, Seq::empty())
}

/// The lines of `s`.
pub fn lines(s: &str) -> (r: Vec<String>)
    ensures
        crate::order::views(r@) == lines_spec(s@),
{
    let cs = to_chars(s);
    let mut out: Vec<String> = Vec::new();
    let mut cur: Vec<char> = Vec::new();
    let mut i: usize = 0;
    proof {
        assert(cs@.skip(0) =~= cs@);
        assert(crate::order::views(out@) + lines_acc(cs@, cur@) =~= lines_acc(cs@, cur@));
        assert(cur@ =~= Seq::<char>::empty());
    }
    while i < cs.len()
        invariant
            cs@ == s@,
            i <= cs@.len(),
            crate::order::views(out@) + lines_acc(cs@.skip(i as int), cur@) == lines_spec(s@),
        decreases cs@.len() - i,
    {
        let ghost rest = cs@.skip(i as int);
        proof {
            assert(rest.drop_first() =~= cs@.skip(i + 1));
            assert(rest[0] == cs@[i as int]);
        }
        if cs[i] == '\n' {
            let ghost oc = cur@;
            let mut line = cur;
            if line.len() > 0 && line[line.len() - 1] == '\r' {
                let _ = line.pop();
            }
            let ghost before = crate::order::views(out@);
            let ghost lv = line@;
            proof {
                assert(lv =~= strip_cr(oc));
            }
            out.push(from_chars(&line));
            cur = Vec::new();
            proof {
                assert(crate::order::views(out@) =~= before.push(lv));
                assert(lines_acc(rest, oc) == seq![lv] + lines_acc(cs@.skip(i + 1), Seq::empty()));
                assert(cur@ =~= Seq::<char>::empty());
                assert(before.push(lv) + lines_acc(cs@.skip(i + 1), cur@) =~= before + (seq![lv] + lines_acc(
                    cs@.skip(i + 1),
                    cur@,
                )));
            }
        } else {
            cur.push(cs[i]);
        }
        i += 1;
    }
    proof {
        assert(cs@.skip(cs@.len() as int) =~= Seq::<char>::empty());
    }
    if cur.len() > 0 {
        let ghost before = crate::order::views(out@);
        let ghost cv = cur@;
        out.push(from_chars(&cur));
        proof {
            assert(crate::order::views(out@) =~= before + seq![cv]);
        }
    } else {
        proof {
            assert(crate::order::views(out@) + Seq::<Seq<char>>::empty() =~= crate::order::views(out@));
        }
    }
    out
}

/// The words of `s`.
pub fn split_whitespace(s: &str) -> (r: Vec<String>)
    ensures
        crate::order::views(r@) == words_spec(s@),
{
    let cs = to_chars(s);
    let mut out: Vec<String> = Vec::new();
    let mut cur: Vec<char> = Vec::new();
    let mut i: usize = 0;
    proof {
        assert(cs@.skip(0) =~= cs@);
        assert(crate::order::views(out@) + words_acc(cs@, cur@) =~= words_acc(cs@, cur@));
        assert(cur@ =~= Seq::<char>::empty());
    }
    while i < cs.len()
        invariant
            cs@ == s@,
            i <= cs@.len(),
            crate::order::views(out@) + words_acc(cs@.skip(i as int), cur@) == words_spec(s@),
        decreases cs@.len() - i,
    {
        let ghost rest = cs@.skip(i as int);
        proof {
            assert(rest.drop_first() =~= cs@.skip(i + 1));
            assert(rest[0] == cs@[i as int]);
        }
        if char_is_ws(cs[i]) {
            let ghost before = crate::order::views(out@);
            let ghost cv = cur@;
            if cur.len() > 0 {
                out.push(from_chars(&cur));
                proof {
                    assert(crate::order::views(out@) =~= before + seq![cv]);
                }
            } else {
                proof {
                    assert(crate::order::views(out@) =~= before + Seq::<Seq<char>>::empty());
                }
            }
            cur = Vec::new();
            proof {
                let head: Seq<Seq<char>> = if cv.len() == 0 {
                    Seq::empty()
                } else {
                    seq![cv]
                };
                assert(crate::order::views(out@) =~= before + head);
                assert(before + head + words_acc(cs@.skip(i + 1), Seq::empty()) =~= before + (head
                    + words_acc(cs@.skip(i + 1), Seq::empty())));
                assert(cur@ =~= Seq::<char>::empty());
            }
        } else {
            cur.push(cs[i]);
        }
        i += 1;
    }
    proof {
        assert(cs@.skip(cs@.len() as int) =~= Seq::<char>::empty());
    }
    if cur.len() > 0 {
        let ghost before = crate::order::views(out@);
        let ghost cv = cur@;
        out.push(from_chars(&cur));
        proof {
            assert(crate::order::views(out@) =~= before + seq![cv]);
        }
    } else {
        proof {
            assert(crate::order::views(out@) + Seq::<Seq<char>>::empty() =~= crate::order::views(out@));
        }
    }
    out
}

} // verus!

verus! {

/// A path segment kept as a component: not empty and not `.`.
pub open spec fn keep_segment(cur: Seq<char>) -> Seq<Seq<char>> {
    if cur.len() == 0 || cur == seq!['.'] {
        Seq::empty()
    } else {
        seq![cur]
    }
}

/// The components of a `/`-separated path after one that has read `cur`.
pub open spec fn segments_acc(s: Seq<char>, cur: Seq<char>) -> Seq<Seq<char>>
    decreases s.len(),
{
    if s.len() == 0 {
        keep_segment(cur)
    } else if s[0] == '/' {
        keep_segment(cur) + segments_acc(s.drop_first(), Seq::empty())
    } else {
        segments_acc(s.drop_first(), cur.push(s[0]))
    }
}

/// The last component of a path, as `Path::file_name`: none when the path
/// has no component or ends in `..`.
pub open spec fn file_name_spec(p: Seq<char>) -> Option<Seq<char>> {
    let segs = segments_acc(p, Seq::empty());
    if segs.len() == 0 || segs.last() == seq!['.', '.'] {
        None
    } else {
        Some(segs.last())
    }
}

/// The last component of a path.
pub fn file_name(path: &str) -> (r: Option<String>)
    ensures
        opt_string_view(r) == file_name_spec(path@),
{
    let cs = to_chars(path);
    let mut segs: Vec<Vec<char>> = Vec::new();
    let mut cur: Vec<char> = Vec::new();
    let mut i: usize = 0;
    proof {
        assert(cs@.skip(0) =~= cs@);
        assert(segs@.map_values(|v: Vec<char>| v@) + segments_acc(cs@, cur@) =~= segments_acc(cs@, cur@));
        assert(cur@ =~= Seq::<char>::empty());
    }
    while i < cs.len()
        invariant
            cs@ == path@,
            i <= cs@.len(),
            segs@.map_values(|v: Vec<char>| v@) + segments_acc(cs@.skip(i as int), cur@) == segments_acc(
                path@,
                Seq::empty(),
            ),
        decreases cs@.len() - i,
    {
        let ghost rest = cs@.skip(i as int);
        proof {
            assert(rest.drop_first() =~= cs@.skip(i + 1));
            assert(rest[0] == cs@[i as int]);
        }
        if cs[i] == '/' {
            let ghost before = segs@.map_values(|v: Vec<char>| v@);
            let ghost cv = cur@;
            let keep = !(cur.len() == 0 || (cur.len() == 1 && cur[0] == '.'));
            proof {
                assert(keep == (keep_segment(cv).len() == 1)) by {
                    if cv.len() == 1 && cv[0] == '.' {
                        assert(cv =~= seq!['.']);
                    }
                }
            }
            if keep {
                segs.push(cur);
                proof {
                    assert(segs@.map_values(|v: Vec<char>| v@) =~= before + keep_segment(cv));
                }
            } else {
                proof {
                    assert(segs@.map_values(|v: Vec<char>| v@) =~= before + keep_segment(cv));
                }
            }
            cur = Vec::new();
            proof {
                assert(cur@ =~= Seq::<char>::empty());
                assert(before + keep_segment(cv) + segments_acc(cs@.skip(i + 1), cur@) =~= before + (
                keep_segment(cv) + segments_acc(cs@.skip(i + 1), cur@)));
            }
        } else {
            cur.push(cs[i]);
        }
        i += 1;
    }
    proof {
        assert(cs@.skip(cs@.len() as int) =~= Seq::<char>::empty());
    }
    let ghost before = segs@.map_values(|v: Vec<char>| v@);
    let ghost cv = cur@;
    let keep = !(cur.len() == 0 || (cur.len() == 1 && cur[0] == '.'));
    proof {
        assert(keep == (keep_segment(cv).len() == 1)) by {
            if cv.len() == 1 && cv[0] == '.' {
                assert(cv =~= seq!['.']);
            }
        }
    }
    if keep {
        segs.push(cur);
    }
    proof {
        assert(segs@.map_values(|v: Vec<char>| v@) =~= before + keep_segment(cv));
    }
    let n = segs.len();
    if n == 0 {
        return None;
    }
    let last = &segs[n - 1];
    if last.len() == 2 && last[0] == '.' && last[1] == '.' {
        proof {
            assert(last@ =~= seq!['.', '.']);
        }
        return None;
    }
    proof {
        let sv = segs@.map_values(|v: Vec<char>| v@);
        assert(sv.last() == last@);
        if last@ == seq!['.', '.'] {
            assert(last@.len() == 2 && last@[0] == '.' && last@[1] == '.');
        }
    }
    Some(from_chars(last))
}

} // verus!

verus! {

/// The first position of a character satisfying `p`.
pub open spec fn first_where(s: Seq<char>, p: spec_fn(char) -> bool) -> Option<int>
    decreases s.len(),
{
    if s.len() == 0 {
        None
    } else if p(s[0]) {
        Some(0)
    } else {
        match first_where(s.drop_first(), p) {
            Some(i) => Some(i + 1),
            None => None,
        }
    }
}

/// The first position of `c`.
pub open spec fn index_of_char(s: Seq<char>, c: char) -> Option<int>
    decreases s.len(),
{
    if s.len() == 0 {
        None
    } else if s[0] == c {
        Some(0)
    } else {
        match index_of_char(s.drop_first(), c) {
            Some(i) => Some(i + 1),
            None => None,
        }
    }
}

/// `index_of_char` gives the first position of `c`.
pub proof fn lemma_index_of_char_at(s: Seq<char>, c: char, i: int)
    requires
        0 <= i <= s.len(),
        forall|k: int| 0 <= k < i ==> #[trigger] s[k] != c,
        i == s.len() || s[i] == c,
    ensures
        index_of_char(s, c) == (if i == s.len() { None } else { Some(i) }),
    decreases i,
{
    if i > 0 {
        let t = s.drop_first();
        assert forall|k: int| 0 <= k < i - 1 implies #[trigger] t[k] != c by {
            assert(t[k] == s[k + 1]);
        }
        if i < s.len() {
            assert(t[i - 1] == s[i]);
        }
        lemma_index_of_char_at(t, c, i - 1);
    }
}

/// `s` split around the first `c`, as `str::split_once`.
pub open spec fn split_once_spec(s: Seq<char>, c: char) -> Option<(Seq<char>, Seq<char>)> {
    match index_of_char(s, c) {
        Some(i) => Some((s.take(i), s.skip(i + 1))),
        None => None,
    }
}

/// `first_where` gives the first position: none before it satisfies `p`.
pub proof fn lemma_first_where_at(s: Seq<char>, p: spec_fn(char) -> bool, i: int)
    requires
        0 <= i <= s.len(),
        forall|k: int| 0 <= k < i ==> !p(#[trigger] s[k]),
        i == s.len() || p(s[i]),
    ensures
        first_where(s, p) == (if i == s.len() { None } else { Some(i) }),
    decreases i,
{
    if i > 0 {
        let t = s.drop_first();
        assert(!p(s[0]));
        assert forall|k: int| 0 <= k < i - 1 implies !p(#[trigger] t[k]) by {
            assert(t[k] == s[k + 1]);
        }
        if i < s.len() {
            assert(t[i - 1] == s[i]);
        }
        lemma_first_where_at(t, p, i - 1);
    }
}

/// The first position of `c` in `s`.
pub fn find_char(s: &[char], c: char) -> (r: Option<usize>)
    ensures
        r matches Some(i) ==> index_of_char(s@, c) == Some(i as int) && i < s@.len(),
        r is None <==> index_of_char(s@, c) is None,
{
    let mut i: usize = 0;
    while i < s.len()
        invariant
            i <= s@.len(),
            forall|k: int| 0 <= k < i ==> #[trigger] s@[k] != c,
        decreases s@.len() - i,
    {
        if s[i] == c {
            proof {
                lemma_index_of_char_at(s@, c, i as int);
            }
            return Some(i);
        }
        i += 1;
    }
    proof {
        lemma_index_of_char_at(s@, c, s@.len() as int);
    }
    None
}

/// `s` split around the first `c`.
pub fn split_once_char(s: &str, c: char) -> (r: Option<(String, String)>)
    ensures
        match r {
            Some((a, b)) => split_once_spec(s@, c) == Some((a@, b@)),
            None => split_once_spec(s@, c) is None,
        },
{
    let cs = to_chars(s);
    let n = cs.len();
    match find_char(&cs, c) {
        Some(i) => {
            assert(i < n);
            let a = crate::numbers::slice_range(&cs, 0, i);
            let b = crate::numbers::slice_from(&cs, i + 1);
            proof {
                assert(a@ =~= s@.take(i as int));
                assert(b@ =~= s@.skip(i + 1));
            }
            Some((from_chars(&a), from_chars(&b)))
        },
        None => None,
    }
}

} // verus!

verus! {

/// Whether `s` begins with `p`.
pub fn str_starts(s: &str, p: &str) -> (r: bool)
    ensures
        r == starts(s@, p@),
{
    let a = to_chars(s);
    let b = to_chars(p);
    starts_with_chars(&a, &b)
}

/// Whether `s` ends with `p`.
pub fn str_ends(s: &str, p: &str) -> (r: bool)
    ensures
        r == ends(s@, p@),
{
    let a = to_chars(s);
    let b = to_chars(p);
    ends_with_chars(&a, &b)
}

/// Whether `p` occurs in `s`.
pub fn str_contains(s: &str, p: &str) -> (r: bool)
    ensures
        r == (find_sub(s@, p@) is Some),
{
    let a = to_chars(s);
    let b = to_chars(p);
    find_chars(&a, &b).is_some()
}

/// `s` without the prefix `p`, when it has it.
pub fn strip_prefix_str(s: &str, p: &str) -> (r: Option<String>)
    ensures
        match r {
            Some(t) => starts(s@, p@) && t@ == s@.skip(p@.len() as int),
            None => !starts(s@, p@),
        },
{
    let a = to_chars(s);
    let b = to_chars(p);
    if starts_with_chars(&a, &b) {
        let rest = crate::numbers::slice_from(&a, b.len());
        proof {
            assert(rest@ =~= s@.skip(p@.len() as int));
        }
        Some(from_chars(&rest))
    } else {
        None
    }
}

/// `s` without the suffix `p`, when it has it.
pub fn strip_suffix_str(s: &str, p: &str) -> (r: Option<String>)
    ensures
        match r {
            Some(t) => ends(s@, p@) && t@ == s@.take(s@.len() - p@.len()),
            None => !ends(s@, p@),
        },
{
    let a = to_chars(s);
    let b = to_chars(p);
    if ends_with_chars(&a, &b) {
        let rest = crate::numbers::slice_range(&a, 0, a.len() - b.len());
        proof {
            assert(rest@ =~= s@.take(s@.len() - p@.len()));
        }
        Some(from_chars(&rest))
    } else {
        None
    }
}

/// `s` without trailing copies of the non-empty text `p`, as
/// `str::trim_end_matches` with a text pattern.
pub open spec fn strip_end_text(s: Seq<char>, p: Seq<char>) -> Seq<char>
    decreases s.len(),
{
    if p.len() > 0 && ends(s, p) {
        strip_end_text(s.take(s.len() - p.len()), p)
    } else {
        s
    }
}

/// `s` without trailing copies of the non-empty text `p`.
pub fn strip_end_text_str(s: &str, p: &str) -> (r: String)
    ensures
        r@ == strip_end_text(s@, p@),
{
    let b = to_chars(p);
    let mut cur = string_of(s);
    if b.len() == 0 {
        return cur;
    }
    loop
        invariant
            b@ == p@,
            p@.len() > 0,
            strip_end_text(cur@, p@) == strip_end_text(s@, p@),
        decreases cur@.len(),
    {
        match strip_suffix_str(cur.as_str(), p) {
            Some(t) => {
                cur = t;
            },
            None => {
                return cur;
            },
        }
    }
}

} // verus!

verus! {

/// `s` without its leading white space.
pub fn trim_start_str(s: &str) -> (r: String)
    ensures
        r@ == trim_start_spec(s@),
{
    let cs = to_chars(s);
    let n = cs.len();
    let mut i: usize = 0;
    while i < n && char_is_ws(cs[i])
        invariant
            n == cs@.len(),
            i <= n,
            forall|k: int| 0 <= k < i ==> is_ws(#[trigger] cs@[k]),
        decreases n - i,
    {
        i += 1;
    }
    proof {
        lemma_trim_start_from(cs@, i as int);
        let rest = cs@.subrange(i as int, n as int);
        if rest.len() > 0 {
            assert(rest[0] == cs@[i as int]);
        }
        assert(trim_start_spec(rest) == rest);
    }
    let rest = crate::numbers::slice_from(&cs, i);
    from_chars(&rest)
}

} // verus!
