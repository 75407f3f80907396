//! Versions and version bumps: semantic versions (through `semver`), calendar
//! versions and "tiny increments" of the rightmost number in a version text.
use vstd::prelude::*;
use crate::project::semver_bridge::{
    prerelease_parse, req_parse, semver_parse, spec_prerelease_parse, spec_req_parse, valid_prerelease,
    spec_semver_parse, ReqParts, SemverParts,
};
use crate::numbers::{
    all_digits, decimal, decimal_chars, digit_char, digits_value, format_u64_padded, parse_digits_u128,
    zero_pad,
};
use crate::text::{
    char_is_digit, chars_eq, from_chars, is_digit, push_chars, push_str, string_of, to_chars,
};

verus! {

/// How a repository's version text is interpreted.
#[derive(Clone, Copy, Debug, PartialEq, Eq, Structural)]
pub enum VersionKind {
    Semver,
    Calver,
    Raw,
}

/// How a version is bumped.
#[derive(Clone, Copy, Debug, PartialEq, Eq, Structural)]
pub enum BumpMode {
    Semver,
    Calver,
    TinyInc,
}

/// Which semantic-version component is bumped.
#[derive(Clone, Copy, Debug, PartialEq, Eq, Structural)]
pub enum BumpLevel {
    Major,
    Minor,
    Patch,
}

/// Why a bump failed.
#[derive(Debug)]
pub enum VersionError {
    InvalidSemver(String),
    InvalidPrerelease(String),
    NoNumericSegment,
}

/// The kind of a [`VersionError`], without its text.
pub enum VersionErrorKind {
    InvalidSemver,
    InvalidPrerelease,
    NoNumericSegment,
}

impl VersionError {
    /// The error's kind and the text it carries.
    pub open spec fn spec_view(&self) -> (VersionErrorKind, Seq<char>) {
        match self {
            VersionError::InvalidSemver(s) => (VersionErrorKind::InvalidSemver, s@),
            VersionError::InvalidPrerelease(s) => (VersionErrorKind::InvalidPrerelease, s@),
            VersionError::NoNumericSegment => (VersionErrorKind::NoNumericSegment, Seq::empty()),
        }
    }

    /// The human-readable message.
    pub open spec fn spec_message(&self) -> Seq<char> {
        match self {
            VersionError::InvalidSemver(s) => "invalid semver version '"@ + s@ + "'"@,
            VersionError::InvalidPrerelease(s) => "invalid prerelease tag '"@ + s@ + "'"@,
            VersionError::NoNumericSegment => "missing numeric segment to bump"@,
        }
    }

    /// The human-readable message.
    pub fn message(&self) -> (r: String)
        ensures
            r@ == self.spec_message(),
    {
        match self {
            VersionError::InvalidSemver(s) => {
                let mut out = string_of("invalid semver version '");
                push_str(&mut out, s.as_str());
                push_str(&mut out, "'");
                out
            },
            VersionError::InvalidPrerelease(s) => {
                let mut out = string_of("invalid prerelease tag '");
                push_str(&mut out, s.as_str());
                push_str(&mut out, "'");
                out
            },
            VersionError::NoNumericSegment => string_of("missing numeric segment to bump"),
        }
    }
}

/// A version: its text, how it is interpreted, and the semantic version that
/// `semver` parses from the text when it is interpreted as one.
#[derive(Debug)]
pub struct Version {
    pub raw: String,
    pub kind: VersionKind,
    pub semver: Option<SemverParts>,
}

/// A version requirement: its text and the requirement `semver` parses from it.
#[derive(Debug)]
pub struct VersionReq {
    pub raw: String,
    pub semver: Option<ReqParts>,
}

impl Version {
    /// A version of the given kind; the semantic version is parsed only for
    /// the semver kind.
    pub fn new(raw: &str, kind: VersionKind) -> (r: Self)
        ensures
            r.raw@ == raw@,
            r.parsed(),
            r.kind == kind,
            kind == VersionKind::Semver ==> (match r.semver {
                Some(p) => spec_semver_parse(raw@) == Some(p.fields()) && p.source() == raw@,
                None => spec_semver_parse(raw@) is None,
            }),
            kind != VersionKind::Semver ==> r.semver is None,
    {
        let semver = match kind {
            VersionKind::Semver => semver_parse(raw),
            _ => None,
        };
        Version { raw: string_of(raw), kind, semver }
    }

    /// For a semantic version, `semver` holds what the `semver` crate parses
    /// from the text; for another kind it is empty.
    pub open spec fn parsed(&self) -> bool {
        if self.kind == VersionKind::Semver {
            match self.semver {
                Some(p) => spec_semver_parse(self.raw@) == Some(p.fields()) && p.source() == self.raw@,
                None => spec_semver_parse(self.raw@) is None,
            }
        } else {
            self.semver is None
        }
    }

    /// A copy.
    pub fn duplicate(&self) -> (r: Self)
        ensures
            r.raw@ == self.raw@,
            r.kind == self.kind,
            r.semver is Some <==> self.semver is Some,
            r.semver matches Some(p) ==> p.fields() == self.semver->0.fields() && p.source()
                == self.semver->0.source(),
    {
        let semver = match &self.semver {
            Some(p) => Some(p.duplicate()),
            None => None,
        };
        Version { raw: self.raw.clone(), kind: self.kind, semver }
    }
}

impl VersionReq {
    /// `semver` holds what the `semver` crate parses from the text.
    pub open spec fn parsed(&self) -> bool {
        match self.semver {
            Some(p) => spec_req_parse(self.raw@) == Some(p.comparator_views()) && p.source() == self.raw@,
            None => spec_req_parse(self.raw@) is None,
        }
    }

    /// A requirement; `semver` parses it.
    pub fn new(raw: &str) -> (r: Self)
        ensures
            r.raw@ == raw@,
            r.parsed(),
            match r.semver {
                Some(p) => spec_req_parse(raw@) == Some(p.comparator_views()) && p.source() == raw@,
                None => spec_req_parse(raw@) is None,
            },
    {
        VersionReq { raw: string_of(raw), semver: req_parse(raw) }
    }

    /// A copy.
    pub fn duplicate(&self) -> (r: Self)
        ensures
            r.raw@ == self.raw@,
            r.semver is Some <==> self.semver is Some,
            r.semver matches Some(p) ==> p.comparator_views() == self.semver->0.comparator_views()
                && p.source() == self.semver->0.source(),
    {
        let semver = match &self.semver {
            Some(p) => Some(p.duplicate()),
            None => None,
        };
        VersionReq { raw: self.raw.clone(), semver }
    }
}

// ------------------------------------------------------------ name parsing

/// ASCII lower-casing of one character.
pub open spec fn ascii_lower_char(c: char) -> char {
    if 'A' <= c && c <= 'Z' {
        ((c as u32) + 32) as char
    } else {
        c
    }
}

/// ASCII lower-casing (`str::to_ascii_lowercase`).
pub open spec fn ascii_lower(s: Seq<char>) -> Seq<char> {
    s.map_values(|c: char| ascii_lower_char(c))
}

/// `str::to_ascii_lowercase` as characters.
pub fn to_ascii_lower(s: &str) -> (r: Vec<char>)
    ensures
        r@ == ascii_lower(s@),
{
    let cs = to_chars(s);
    let mut out: Vec<char> = Vec::new();
    let mut i: usize = 0;
    while i < cs.len()
        invariant
            i <= cs@.len(),
            cs@ == s@,
            out@ == ascii_lower(cs@.subrange(0, i as int)),
        decreases cs@.len() - i,
    {
        let c = cs[i];
        let l = if 'A' <= c && c <= 'Z' {
            ((c as u32) + 32) as u8 as char
        } else {
            c
        };
        out.push(l);
        proof {
            assert(ascii_lower(cs@.subrange(0, i + 1)) =~= ascii_lower(cs@.subrange(0, i as int)).push(
                ascii_lower_char(c),
            ));
        }
        i += 1;
    }
    proof {
        assert(cs@.subrange(0, cs@.len() as int) =~= cs@);
    }
    out
}

/// Case-insensitive (ASCII) comparison with a lower-case word.
pub fn lower_equals(lowered: &[char], word: &str) -> (r: bool)
    ensures
        r == (lowered@ == word@),
{
    let w = to_chars(word);
    chars_eq(lowered, &w)
}

/// Bump level from its name, ignoring ASCII case.
pub open spec fn spec_parse_bump_level(input: Seq<char>) -> Option<BumpLevel> {
    let l = ascii_lower(input);
    if l == "major"@ {
        Some(BumpLevel::Major)
    } else if l == "minor"@ {
        Some(BumpLevel::Minor)
    } else if l == "patch"@ {
        Some(BumpLevel::Patch)
    } else {
        None
    }
}

/// Bump mode from its name, ignoring ASCII case.
pub open spec fn spec_parse_bump_mode(input: Seq<char>) -> Option<BumpMode> {
    let l = ascii_lower(input);
    if l == "semver"@ {
        Some(BumpMode::Semver)
    } else if l == "calver"@ {
        Some(BumpMode::Calver)
    } else if l == "tinyinc"@ {
        Some(BumpMode::TinyInc)
    } else {
        None
    }
}

/// Version kind from its name, ignoring ASCII case; `none` means raw.
pub open spec fn spec_parse_version_kind(input: Seq<char>) -> Option<VersionKind> {
    let l = ascii_lower(input);
    if l == "semver"@ {
        Some(VersionKind::Semver)
    } else if l == "calver"@ {
        Some(VersionKind::Calver)
    } else if l == "raw"@ || l == "none"@ {
        Some(VersionKind::Raw)
    } else {
        None
    }
}

pub fn parse_bump_level(input: &str) -> (r: Option<BumpLevel>)
    ensures
        r == spec_parse_bump_level(input@),
{
    let l = to_ascii_lower(input);
    if lower_equals(&l, "major") {
        Some(BumpLevel::Major)
    } else if lower_equals(&l, "minor") {
        Some(BumpLevel::Minor)
    } else if lower_equals(&l, "patch") {
        Some(BumpLevel::Patch)
    } else {
        None
    }
}

pub fn parse_bump_mode(input: &str) -> (r: Option<BumpMode>)
    ensures
        r == spec_parse_bump_mode(input@),
{
    let l = to_ascii_lower(input);
    if lower_equals(&l, "semver") {
        Some(BumpMode::Semver)
    } else if lower_equals(&l, "calver") {
        Some(BumpMode::Calver)
    } else if lower_equals(&l, "tinyinc") {
        Some(BumpMode::TinyInc)
    } else {
        None
    }
}

pub fn parse_version_kind(input: &str) -> (r: Option<VersionKind>)
    ensures
        r == spec_parse_version_kind(input@),
{
    let l = to_ascii_lower(input);
    if lower_equals(&l, "semver") {
        Some(VersionKind::Semver)
    } else if lower_equals(&l, "calver") {
        Some(VersionKind::Calver)
    } else if lower_equals(&l, "raw") || lower_equals(&l, "none") {
        Some(VersionKind::Raw)
    } else {
        None
    }
}

} // verus!

verus! {

// ------------------------------------------------------- tiny increments

/// Index of the last ASCII digit.
pub open spec fn last_digit_index(s: Seq<char>) -> Option<int>
    decreases s.len(),
{
    if s.len() == 0 {
        None
    } else if is_digit(s.last()) {
        Some(s.len() - 1)
    } else {
        last_digit_index(s.drop_last())
    }
}

/// Start of the run of digits that ends at `end`.
pub open spec fn digit_run_start(s: Seq<char>, end: int) -> int
    decreases end,
{
    if end > 0 && is_digit(s[end - 1]) {
        digit_run_start(s, end - 1)
    } else {
        end
    }
}

/// The rightmost run of digits: its start, its end (inclusive) and its value.
pub open spec fn rightmost_number(raw: Seq<char>) -> Option<(int, int, nat)> {
    match last_digit_index(raw) {
        None => None,
        Some(end) => {
            let start = digit_run_start(raw, end);
            Some((start, end, digits_value(raw.subrange(start, end + 1))))
        },
    }
}

/// The text with its rightmost number incremented, keeping zero padding; `None`
/// when there is no number or it does not fit in a `u64`.
pub open spec fn spec_bump_rightmost(raw: Seq<char>) -> Option<Seq<char>> {
    match rightmost_number(raw) {
        None => None,
        Some((start, end, v)) => {
            if v > u64::MAX {
                None
            } else {
                let num = raw.subrange(start, end + 1);
                let next = (v + 1) as nat;
                let rep = if num[0] == '0' && num.len() > 1 {
                    zero_pad(decimal(next), num.len())
                } else {
                    decimal(next)
                };
                Some(raw.subrange(0, start) + rep + raw.subrange(end + 1, raw.len() as int))
            }
        },
    }
}

proof fn lemma_last_digit_index(s: Seq<char>)
    ensures
        match last_digit_index(s) {
            Some(e) => 0 <= e < s.len() && is_digit(s[e]) && forall|j: int|
                e < j < s.len() ==> !is_digit(#[trigger] s[j]),
            None => forall|j: int| 0 <= j < s.len() ==> !is_digit(#[trigger] s[j]),
        },
    decreases s.len(),
{
    if s.len() > 0 && !is_digit(s.last()) {
        lemma_last_digit_index(s.drop_last());
        assert forall|j: int| 0 <= j < s.len() - 1 implies s.drop_last()[j] == s[j] by {}
    }
}

proof fn lemma_digit_run_start(s: Seq<char>, end: int)
    requires
        0 <= end < s.len(),
        is_digit(s[end]),
    ensures
        0 <= digit_run_start(s, end) <= end,
        digit_run_start(s, end) == 0 || !is_digit(s[digit_run_start(s, end) - 1]),
        forall|j: int| digit_run_start(s, end) <= j <= end ==> is_digit(#[trigger] s[j]),
    decreases end,
{
    if end > 0 && is_digit(s[end - 1]) {
        lemma_digit_run_start(s, end - 1);
    }
}

proof fn lemma_digit_run_start_step(s: Seq<char>, k: int, end: int)
    requires
        0 <= k <= end < s.len(),
        forall|j: int| k <= j <= end ==> is_digit(#[trigger] s[j]),
    ensures
        digit_run_start(s, end) == digit_run_start(s, k),
    decreases end - k,
{
    if k < end {
        assert(is_digit(s[end - 1]));
        lemma_digit_run_start_step(s, k, end - 1);
    }
}

/// The bounds of the rightmost run of digits: its first and last positions.
fn rightmost_digit_run(cs: &Vec<char>) -> (r: Option<(usize, usize)>)
    ensures
        match r {
            None => last_digit_index(cs@) is None,
            Some((start, end)) => last_digit_index(cs@) == Some(end as int) && digit_run_start(cs@, end as int)
                == start as int && start <= end < cs@.len() && forall|j: int|
                start <= j <= end ==> is_digit(#[trigger] cs@[j]),
        },
{
    proof {
        lemma_last_digit_index(cs@);
    }
    let mut idx = cs.len();
    while idx > 0 && !char_is_digit(cs[idx - 1])
        invariant
            idx <= cs@.len(),
            forall|j: int| idx <= j < cs@.len() ==> !is_digit(#[trigger] cs@[j]),
        decreases idx,
    {
        idx -= 1;
    }
    if idx == 0 {
        proof {
            assert(last_digit_index(cs@) is None) by {
                if last_digit_index(cs@) is Some {
                    let e = last_digit_index(cs@)->0;
                    assert(!is_digit(cs@[e]));
                }
            }
        }
        return None;
    }
    let end = idx - 1;
    proof {
        assert(last_digit_index(cs@) == Some(end as int)) by {
            let e = last_digit_index(cs@)->0;
            if e < end {
                assert(!is_digit(cs@[end as int]));
            }
            if e > end {
                assert(!is_digit(cs@[e]));
            }
        }
        lemma_digit_run_start(cs@, end as int);
    }
    let mut start = end;
    while start > 0 && char_is_digit(cs[start - 1])
        invariant
            start <= end < cs@.len(),
            forall|j: int| start <= j <= end ==> is_digit(#[trigger] cs@[j]),
            digit_run_start(cs@, end as int) == digit_run_start(cs@, start as int),
        decreases start,
    {
        proof {
            lemma_digit_run_start_step(cs@, start - 1, end as int);
        }
        start -= 1;
    }
    proof {
        assert(digit_run_start(cs@, start as int) == start);
    }
    Some((start, end))
}

/// Whether the rightmost number of `raw`, if any, is below `u64::MAX`, so
/// that `bump_rightmost_numeric` can increment it.
pub fn rightmost_number_fits(raw: &str) -> (r: bool)
    ensures
        r == (rightmost_number(raw@) matches Some((_, _, v)) ==> v != u64::MAX),
{
    let cs = to_chars(raw);
    let n = cs.len();
    let run = rightmost_digit_run(&cs);
    match run {
        None => true,
        Some((start, end)) => {
            proof {
                assert(run == Some((start, end)));
                assert(end < n);
            }
            let num = crate::numbers::slice_range(&cs, start, end + 1);
            proof {
                assert(all_digits(num@)) by {
                    assert forall|j: int| 0 <= j < num@.len() implies is_digit(#[trigger] num@[j]) by {
                        assert(num@[j] == cs@[start + j]);
                    }
                }
                assert(num@ =~= cs@.subrange(start as int, end + 1));
            }
            match parse_digits_u128(&num) {
                Some(v) => v != u64::MAX as u128,
                None => true,
            }
        },
    }
}

/// Increments the rightmost run of digits, keeping its zero padding.
pub fn bump_rightmost_numeric(raw: &str) -> (r: Result<String, VersionError>)
    requires
        rightmost_number(raw@) matches Some((_, _, v)) ==> v != u64::MAX,
    ensures
        match spec_bump_rightmost(raw@) {
            Some(out) => r matches Ok(s) && s@ == out,
            None => r matches Err(e) && e is NoNumericSegment,
        },
{
    let cs = to_chars(raw);
    let run = rightmost_digit_run(&cs);
    if run.is_none() {
        return Err(VersionError::NoNumericSegment);
    }
    let (start, end) = run.unwrap();
    proof {
        assert(run == Some((start, end)));
        assert(end < cs@.len());
    }
    let num = crate::numbers::slice_range(&cs, start, end + 1);
    proof {
        assert(all_digits(num@)) by {
            assert forall|j: int| 0 <= j < num@.len() implies is_digit(#[trigger] num@[j]) by {
                assert(num@[j] == cs@[start + j]);
            }
        }
    }
    let value = match parse_digits_u128(&num) {
        Some(v) => v as u64,
        None => {
            return Err(VersionError::NoNumericSegment);
        },
    };
    let next = value + 1;
    let rep = if num[0] == '0' && num.len() > 1 {
        format_u64_padded(next, num.len())
    } else {
        decimal_chars(next)
    };
    let prefix = crate::numbers::slice_range(&cs, 0, start);
    let suffix = crate::numbers::slice_range(&cs, end + 1, cs.len());
    let mut out = from_chars(&prefix);
    push_chars(&mut out, &rep);
    push_chars(&mut out, &suffix);
    proof {
        if num@[0] == '0' && num@.len() > 1 {
            assert(rep@ == zero_pad(decimal((value + 1) as nat), num@.len()));
        }
    }
    Ok(out)
}

} // verus!

verus! {

// ------------------------------------------------------------ semver bump

/// The text `semver` displays for a version without build metadata.
pub open spec fn semver_text(major: nat, minor: nat, patch: nat, pre: Seq<char>) -> Seq<char> {
    decimal(major) + seq!['.'] + decimal(minor) + seq!['.'] + decimal(patch) + (if pre.len() > 0 {
        seq!['-'] + pre
    } else {
        Seq::empty()
    })
}

/// Major, minor and patch after a bump at `level`.
pub open spec fn bumped_numbers(base: (u64, u64, u64, Seq<char>, Seq<char>), level: BumpLevel) -> (
    nat,
    nat,
    nat,
) {
    match level {
        BumpLevel::Major => ((base.0 + 1) as nat, 0, 0),
        BumpLevel::Minor => (base.0 as nat, (base.1 + 1) as nat, 0),
        BumpLevel::Patch => (base.0 as nat, base.1 as nat, (base.2 + 1) as nat),
    }
}

/// The bumped component still fits in a `u64`.
pub open spec fn bump_fits(base: (u64, u64, u64, Seq<char>, Seq<char>), level: BumpLevel) -> bool {
    match level {
        BumpLevel::Major => base.0 < u64::MAX,
        BumpLevel::Minor => base.1 < u64::MAX,
        BumpLevel::Patch => base.2 < u64::MAX,
    }
}

/// The semantic version a bump starts from: the parsed one, else what
/// `semver` parses from the text.
pub open spec fn semver_base(current: &Version) -> Option<(u64, u64, u64, Seq<char>, Seq<char>)> {
    match current.semver {
        Some(p) => Some(p.fields()),
        None => spec_semver_parse(current.raw@),
    }
}

/// Outcome of a semantic-version bump: the new text, or the error's kind and text.
pub open spec fn spec_bump_semver(
    current: &Version,
    level: BumpLevel,
    pre: Option<Seq<char>>,
) -> Result<Seq<char>, (VersionErrorKind, Seq<char>)> {
    match semver_base(current) {
        None => Err((VersionErrorKind::InvalidSemver, current.raw@)),
        Some(base) => {
            let pre_text = match pre {
                None => Some(Seq::<char>::empty()),
                Some(tag) => spec_prerelease_parse(tag),
            };
            match pre_text {
                None => Err((VersionErrorKind::InvalidPrerelease, pre->0)),
                Some(t) => {
                    let n = bumped_numbers(base, level);
                    Ok(semver_text(n.0, n.1, n.2, t))
                },
            }
        },
    }
}

/// Characters of `semver_text`.
fn semver_text_chars(major: u64, minor: u64, patch: u64, pre: &String) -> (r: String)
    ensures
        r@ == semver_text(major as nat, minor as nat, patch as nat, pre@),
{
    let mut out = from_chars(&decimal_chars(major));
    crate::text::push_char(&mut out, '.');
    push_chars(&mut out, &decimal_chars(minor));
    crate::text::push_char(&mut out, '.');
    push_chars(&mut out, &decimal_chars(patch));
    let ghost head = out@;
    if pre.unicode_len() > 0 {
        crate::text::push_char(&mut out, '-');
        push_str(&mut out, pre.as_str());
        proof {
            assert(out@ =~= head + (seq!['-'] + pre@));
        }
    } else {
        proof {
            assert(out@ =~= head + Seq::<char>::empty());
        }
    }
    out
}

/// Whether a semantic-version bump at `level` can increment its number:
/// it is below `u64::MAX` (or there is no semantic version to bump).
pub fn semver_bump_fits(current: &Version, level: BumpLevel) -> (r: bool)
    ensures
        r == (semver_base(current) matches Some(b) ==> bump_fits(b, level)),
{
    let base = match &current.semver {
        Some(p) => p.duplicate(),
        None => match semver_parse(current.raw.as_str()) {
            Some(p) => p,
            None => {
                return true;
            },
        },
    };
    match level {
        BumpLevel::Major => base.major() < u64::MAX,
        BumpLevel::Minor => base.minor() < u64::MAX,
        BumpLevel::Patch => base.patch() < u64::MAX,
    }
}

/// Bumps a semantic version at `level`, optionally with a prerelease tag;
/// build metadata is dropped.
pub fn bump_semver(current: &Version, level: BumpLevel, pre: Option<&str>) -> (r: Result<
    Version,
    VersionError,
>)
    requires
        semver_base(current) matches Some(b) ==> bump_fits(b, level),
    ensures
        match spec_bump_semver(current, level, match pre {
            Some(t) => Some(t@),
            None => None,
        }) {
            Ok(text) => r matches Ok(v) && v.raw@ == text && v.kind == VersionKind::Semver && (
            match v.semver {
                Some(p) => spec_semver_parse(text) == Some(p.fields()) && p.source() == text,
                None => spec_semver_parse(text) is None,
            }),
            Err((kind, text)) => r matches Err(e) && e.spec_view() == (kind, text),
        },
{
    let base = match &current.semver {
        Some(p) => p.duplicate(),
        None => match semver_parse(current.raw.as_str()) {
            Some(p) => p,
            None => {
                return Err(VersionError::InvalidSemver(current.raw.clone()));
            },
        },
    };
    let (major, minor, patch) = match level {
        BumpLevel::Major => (base.major() + 1, 0, 0),
        BumpLevel::Minor => (base.major(), base.minor() + 1, 0),
        BumpLevel::Patch => (base.major(), base.minor(), base.patch() + 1),
    };
    let pre_text = match pre {
        Some(tag) => match prerelease_parse(tag) {
            Some(t) => t,
            None => {
                return Err(VersionError::InvalidPrerelease(string_of(tag)));
            },
        },
        None => String::new(),
    };
    let raw = semver_text_chars(major, minor, patch, &pre_text);
    Ok(Version::new(raw.as_str(), VersionKind::Semver))
}

} // verus!

verus! {

// ----------------------------------------------------------------- calver

/// A calendar date.
#[derive(Clone, Copy, Debug, PartialEq, Eq, Structural)]
pub struct CalverDate {
    pub year: i32,
    pub month: u32,
    pub day: u32,
}

/// Reads the system clock: whole seconds since the Unix epoch, 0 when the
/// clock is before the epoch.
#[verifier::external_body]
fn unix_now_secs() -> u64 {
    match std::time::SystemTime::now().duration_since(std::time::UNIX_EPOCH) {
        Ok(d) => d.as_secs(),
        Err(_) => 0,
    }
}

/// Integer division rounding toward zero, as Rust's `/` on signed integers.
pub open spec fn tdiv(a: int, b: int) -> int {
    if a >= 0 {
        a / b
    } else {
        -((-a) / b)
    }
}

/// Remainder with the sign of the dividend, as Rust's `%` on signed integers.
pub open spec fn trem(a: int, b: int) -> int {
    a - b * tdiv(a, b)
}

/// Proleptic Gregorian date of the day `days` after 1970-01-01, by the
/// era-based civil-from-days algorithm with Rust's integer division; the
/// year is truncated to `i32`.
pub open spec fn spec_civil_from_days(days: int) -> (i32, u32, u32) {
    let z = days + 719468;
    let era = tdiv(
        if z >= 0 {
            z
        } else {
            z - 146096
        },
        146097,
    );
    let doe = z - era * 146097;
    let yoe = tdiv(doe - tdiv(doe, 1460) + tdiv(doe, 36524) - tdiv(doe, 146096), 365);
    let y = yoe + era * 400;
    let doy = doe - (365 * yoe + tdiv(yoe, 4) - tdiv(yoe, 100));
    let mp = tdiv(5 * doy + 2, 153);
    let d = doy - tdiv(153 * mp + 2, 5) + 1;
    let m = mp + if mp < 10 {
        3int
    } else {
        -9int
    };
    let year = y + if m <= 2 {
        1int
    } else {
        0int
    };
    (year as i32, m as u32, d as u32)
}

proof fn lemma_era_day(z: int, era: int)
    requires
        era == tdiv(
            if z >= 0 {
                z
            } else {
                z - 146096
            },
            146097,
        ),
    ensures
        0 <= z - era * 146097 < 146097,
{
    if z >= 0 {
        vstd::arithmetic::div_mod::lemma_fundamental_div_mod(z, 146097);
        vstd::arithmetic::div_mod::lemma_mod_pos_bound(z, 146097);
    } else {
        let w = -z + 146096;
        vstd::arithmetic::div_mod::lemma_fundamental_div_mod(w, 146097);
        vstd::arithmetic::div_mod::lemma_mod_pos_bound(w, 146097);
        assert(era == -(w / 146097));
    }
}

proof fn lemma_small_steps(doe: int)
    requires
        0 <= doe < 146097,
    ensures
        ({
            let yoe = tdiv(doe - tdiv(doe, 1460) + tdiv(doe, 36524) - tdiv(doe, 146096), 365);
            let doy = doe - (365 * yoe + tdiv(yoe, 4) - tdiv(yoe, 100));
            let mp = tdiv(5 * doy + 2, 153);
            &&& 0 <= yoe <= 401
            &&& -200000 <= doy <= 200000
            &&& -10000 <= mp <= 10000
        }),
{
    let a = tdiv(doe, 1460);
    let b = tdiv(doe, 36524);
    let c = tdiv(doe, 146096);
    assert(0 <= a <= doe) by (nonlinear_arith)
        requires
            0 <= doe,
            a == doe / 1460,
    ;
    assert(0 <= b <= 4) by (nonlinear_arith)
        requires
            0 <= doe < 146097,
            b == doe / 36524,
    ;
    assert(0 <= c <= 1) by (nonlinear_arith)
        requires
            0 <= doe < 146097,
            c == doe / 146096,
    ;
    let num = doe - a + b - c;
    assert(0 <= num <= 146101);
    let yoe = tdiv(num, 365);
    assert(0 <= yoe <= 401) by (nonlinear_arith)
        requires
            0 <= num <= 146101,
            yoe == num / 365,
    ;
    let e = tdiv(yoe, 4);
    let f = tdiv(yoe, 100);
    assert(0 <= e <= 101) by (nonlinear_arith)
        requires
            0 <= yoe <= 401,
            e == yoe / 4,
    ;
    assert(0 <= f <= 5) by (nonlinear_arith)
        requires
            0 <= yoe <= 401,
            f == yoe / 100,
    ;
    let doy = doe - (365 * yoe + e - f);
    assert(-200000 <= doy <= 200000) by (nonlinear_arith)
        requires
            0 <= doe < 146097,
            0 <= yoe <= 401,
            0 <= e <= 101,
            0 <= f <= 5,
            doy == doe - (365 * yoe + e - f),
    ;
    let t = 5 * doy + 2;
    let mp = tdiv(t, 153);
    if t >= 0 {
        assert(0 <= mp <= 10000) by (nonlinear_arith)
            requires
                0 <= t <= 1000002,
                mp == t / 153,
        ;
    } else {
        let u = -t;
        assert(0 <= u / 153 <= 10000) by (nonlinear_arith)
            requires
                0 < u <= 1000002,
        ;
    }
}

/// Calendar date of a day number, counted from 1970-01-01.
pub fn civil_from_days(days: i64) -> (r: (i32, u32, u32))
    requires
        -1125899906842624 <= days <= 1125899906842624,
    ensures
        r == spec_civil_from_days(days as int),
{
    let z: i64 = days + 719468;
    let base: i64 = if z >= 0 {
        z
    } else {
        z - 146096
    };
    let era: i64 = base / 146097;
    proof {
        assert(era == tdiv(base as int, 146097));
        lemma_era_day(z as int, era as int);
        if base >= 0 {
            assert(0 <= (base as int) / 146097 <= base) by (nonlinear_arith)
                requires
                    base >= 0,
            ;
        } else {
            assert(0 <= (-(base as int)) / 146097 <= -base) by (nonlinear_arith)
                requires
                    base < 0,
            ;
        }
    }
    let doe: i64 = z - era * 146097;
    proof {
        lemma_small_steps(doe as int);
    }
    let yoe: i64 = (doe - doe / 1460 + doe / 36524 - doe / 146096) / 365;
    let y: i64 = yoe + era * 400;
    let doy: i64 = doe - (365 * yoe + yoe / 4 - yoe / 100);
    let mp: i64 = (5 * doy + 2) / 153;
    let d: i64 = doy - (153 * mp + 2) / 5 + 1;
    let m: i64 = mp + if mp < 10 {
        3
    } else {
        -9
    };
    let year: i64 = y + if m <= 2 {
        1
    } else {
        0
    };
    (year as i32, m as u32, d as u32)
}

} // verus!

verus! {

/// The date of a clock reading in seconds since the epoch (read as `i64`).
pub open spec fn spec_date_of_secs(secs: u64) -> CalverDate {
    let days = tdiv((secs as i64) as int, 86400);
    let t = spec_civil_from_days(days);
    CalverDate { year: t.0, month: t.1, day: t.2 }
}

/// The date of a clock reading in seconds since the epoch.
pub fn date_of_secs(secs: u64) -> (r: CalverDate)
    ensures
        r == spec_date_of_secs(secs),
{
    let s = secs as i64;
    let days: i64 = s / 86400;
    proof {
        if s >= 0 {
            assert(0 <= (s as int) / 86400 <= 1125899906842624) by (nonlinear_arith)
                requires
                    0 <= s <= 9223372036854775807int,
            ;
        } else {
            assert(0 <= (-(s as int)) / 86400 <= 1125899906842624) by (nonlinear_arith)
                requires
                    -9223372036854775808int <= s < 0,
            ;
        }
    }
    let (year, month, day) = civil_from_days(days);
    CalverDate { year, month, day }
}

/// Today's date from the system clock.
pub fn current_date() -> (r: CalverDate)
    ensures
        exists|secs: u64| r == spec_date_of_secs(secs),
{
    let secs = unix_now_secs();
    date_of_secs(secs)
}

/// `format!("{:0w$}", n)` for a signed number: the sign counts toward the width.
pub open spec fn signed_pad(n: int, width: nat) -> Seq<char> {
    if n < 0 {
        seq!['-'] + zero_pad(decimal((-n) as nat), if width > 0 { (width - 1) as nat } else { 0 })
    } else {
        zero_pad(decimal(n as nat), width)
    }
}

/// Executable `signed_pad`.
pub fn format_i64_padded(n: i64, width: usize) -> (r: Vec<char>)
    requires
        n > i64::MIN,
    ensures
        r@ == signed_pad(n as int, width as nat),
{
    if n < 0 {
        let mag = (-n) as u64;
        let w = if width > 0 { width - 1 } else { 0 };
        let digits = format_u64_padded(mag, w);
        let mut out: Vec<char> = Vec::new();
        out.push('-');
        let mut i: usize = 0;
        while i < digits.len()
            invariant
                i <= digits@.len(),
                out@ == seq!['-'] + digits@.subrange(0, i as int),
            decreases digits@.len() - i,
        {
            out.push(digits[i]);
            proof {
                assert(digits@.subrange(0, i + 1) =~= digits@.subrange(0, i as int).push(
                    digits@[i as int],
                ));
            }
            i += 1;
        }
        proof {
            assert(digits@.subrange(0, digits@.len() as int) =~= digits@);
        }
        out
    } else {
        format_u64_padded(n as u64, width)
    }
}

/// The calver template of a format on a date: `YYYY`, `YY`, `0M`/`MM`,
/// `0D`/`DD` become the date's parts, `MICRO` becomes the placeholder
/// `{MICRO}`, anything else is copied.
pub open spec fn calver_expand(f: Seq<char>, date: CalverDate) -> Seq<char>
    decreases f.len(),
{
    if f.len() == 0 {
        Seq::empty()
    } else if crate::text::starts(f, seq!['Y', 'Y', 'Y', 'Y']) {
        signed_pad(date.year as int, 4) + calver_expand(f.subrange(4, f.len() as int), date)
    } else if crate::text::starts(f, seq!['Y', 'Y']) {
        signed_pad(trem(date.year as int, 100), 2) + calver_expand(f.subrange(2, f.len() as int), date)
    } else if crate::text::starts(f, seq!['0', 'M']) || crate::text::starts(f, seq!['M', 'M']) {
        zero_pad(decimal(date.month as nat), 2) + calver_expand(f.subrange(2, f.len() as int), date)
    } else if crate::text::starts(f, seq!['0', 'D']) || crate::text::starts(f, seq!['D', 'D']) {
        zero_pad(decimal(date.day as nat), 2) + calver_expand(f.subrange(2, f.len() as int), date)
    } else if crate::text::starts(f, seq!['M', 'I', 'C', 'R', 'O']) {
        micro_placeholder() + calver_expand(f.subrange(5, f.len() as int), date)
    } else {
        seq![f[0]] + calver_expand(f.subrange(1, f.len() as int), date)
    }
}

/// The placeholder `{MICRO}`.
pub open spec fn micro_placeholder() -> Seq<char> {
    seq!['{', 'M', 'I', 'C', 'R', 'O', '}']
}

fn micro_placeholder_chars() -> (r: Vec<char>)
    ensures
        r@ == micro_placeholder(),
{
    let r = vec!['{', 'M', 'I', 'C', 'R', 'O', '}'];
    proof {
        assert(r@ =~= micro_placeholder());
    }
    r
}

fn append_all(out: &mut Vec<char>, tail: &[char])
    ensures
        final(out)@ == old(out)@ + tail@,
{
    let mut i: usize = 0;
    while i < tail.len()
        invariant
            i <= tail@.len(),
            out@ == old(out)@ + tail@.subrange(0, i as int),
        decreases tail@.len() - i,
    {
        out.push(tail[i]);
        proof {
            assert(tail@.subrange(0, i + 1) =~= tail@.subrange(0, i as int).push(tail@[i as int]));
        }
        i += 1;
    }
    proof {
        assert(tail@.subrange(0, tail@.len() as int) =~= tail@);
    }
}

proof fn lemma_starts_at(f: Seq<char>, idx: int, lit: Seq<char>)
    requires
        0 <= idx <= f.len(),
    ensures
        crate::text::starts(f.subrange(idx, f.len() as int), lit) == (idx + lit.len() <= f.len()
            && f.subrange(idx, idx + lit.len()) == lit),
{
    if idx + lit.len() <= f.len() {
        assert(f.subrange(idx, f.len() as int).subrange(0, lit.len() as int) =~= f.subrange(
            idx,
            idx + lit.len(),
        ));
    }
}

/// Expands a calver format on a date.
pub fn apply_calver_format(format: &str, date: CalverDate) -> (r: String)
    ensures
        r@ == calver_expand(format@, date),
{
    let f = to_chars(format);
    let yyyy = vec!['Y', 'Y', 'Y', 'Y'];
    let yy = vec!['Y', 'Y'];
    let zm = vec!['0', 'M'];
    let mm = vec!['M', 'M'];
    let zd = vec!['0', 'D'];
    let dd = vec!['D', 'D'];
    let micro = vec!['M', 'I', 'C', 'R', 'O'];
    proof {
        assert(yyyy@ =~= seq!['Y', 'Y', 'Y', 'Y']);
        assert(yy@ =~= seq!['Y', 'Y']);
        assert(zm@ =~= seq!['0', 'M']);
        assert(mm@ =~= seq!['M', 'M']);
        assert(zd@ =~= seq!['0', 'D']);
        assert(dd@ =~= seq!['D', 'D']);
        assert(micro@ =~= seq!['M', 'I', 'C', 'R', 'O']);
    }
    let mut out: Vec<char> = Vec::new();
    let mut idx: usize = 0;
    proof {
        assert(f@.subrange(0, f@.len() as int) =~= f@);
        assert(out@ + calver_expand(f@, date) =~= calver_expand(f@, date));
    }
    while idx < f.len()
        invariant
            f@ == format@,
            idx <= f@.len(),
            yyyy@ == seq!['Y', 'Y', 'Y', 'Y'],
            yy@ == seq!['Y', 'Y'],
            zm@ == seq!['0', 'M'],
            mm@ == seq!['M', 'M'],
            zd@ == seq!['0', 'D'],
            dd@ == seq!['D', 'D'],
            micro@ == seq!['M', 'I', 'C', 'R', 'O'],
            out@ + calver_expand(f@.subrange(idx as int, f@.len() as int), date) == calver_expand(
                f@,
                date,
            ),
        decreases f@.len() - idx,
    {
        let ghost rest = f@.subrange(idx as int, f@.len() as int);
        proof {
            lemma_starts_at(f@, idx as int, yyyy@);
            lemma_starts_at(f@, idx as int, yy@);
            lemma_starts_at(f@, idx as int, zm@);
            lemma_starts_at(f@, idx as int, mm@);
            lemma_starts_at(f@, idx as int, zd@);
            lemma_starts_at(f@, idx as int, dd@);
            lemma_starts_at(f@, idx as int, micro@);
        }
        let ghost before = out@;
        let step: usize;
        if has_at_chars(&f, idx, &yyyy) {
            let part = format_i64_padded(date.year as i64, 4);
            append_all(&mut out, &part);
            step = 4;
        } else if has_at_chars(&f, idx, &yy) {
            let y = date.year as i64;
            let rem = y % 100;
            proof {
                assert(rem == trem(date.year as int, 100));
            }
            let part = format_i64_padded(rem, 2);
            append_all(&mut out, &part);
            step = 2;
        } else if has_at_chars(&f, idx, &zm) || has_at_chars(&f, idx, &mm) {
            let part = format_u64_padded(date.month as u64, 2);
            append_all(&mut out, &part);
            step = 2;
        } else if has_at_chars(&f, idx, &zd) || has_at_chars(&f, idx, &dd) {
            let part = format_u64_padded(date.day as u64, 2);
            append_all(&mut out, &part);
            step = 2;
        } else if has_at_chars(&f, idx, &micro) {
            let part = micro_placeholder_chars();
            append_all(&mut out, &part);
            step = 5;
        } else {
            out.push(f[idx]);
            proof {
                assert(out@ =~= before + seq![f@[idx as int]]);
            }
            step = 1;
        }
        proof {
            assert(f@.subrange(idx as int, f@.len() as int).subrange(step as int, rest.len() as int)
                =~= f@.subrange(idx + step, f@.len() as int));
            assert(rest[0] == f@[idx as int]);
        }
        idx = idx + step;
    }
    proof {
        assert(f@.subrange(idx as int, f@.len() as int) =~= Seq::<char>::empty());
        assert(out@ + Seq::<char>::empty() =~= out@);
    }
    from_chars(&out)
}

fn has_at_chars(s: &Vec<char>, idx: usize, lit: &Vec<char>) -> (r: bool)
    ensures
        r == (idx + lit@.len() <= s@.len() && s@.subrange(idx as int, idx + lit@.len()) == lit@),
{
    crate::text::has_at(s.as_slice(), idx, lit.as_slice())
}

} // verus!

verus! {

/// The number already in the `{MICRO}` slot of `current`, when `current`
/// matches the template around the slot.
pub open spec fn micro_old_value(current: Seq<char>, prefix: Seq<char>, suffix: Seq<char>) -> Option<
    Seq<char>,
> {
    if crate::text::starts(current, prefix) && crate::text::ends(current, suffix) && prefix.len()
        + suffix.len() <= current.len() {
        let mid = current.subrange(prefix.len() as int, current.len() - suffix.len());
        if mid.len() > 0 && all_digits(mid) {
            Some(mid)
        } else {
            None
        }
    } else {
        None
    }
}

/// Outcome of a calver bump on a date: the new text, or `None` for a missing
/// numeric segment.
pub open spec fn spec_bump_calver(current: Seq<char>, format: Seq<char>, date: CalverDate) -> Option<
    Seq<char>,
> {
    let t = calver_expand(format, date);
    match crate::text::find_sub(t, micro_placeholder()) {
        Some(i) => {
            let prefix = t.subrange(0, i);
            let suffix = t.subrange(i + 7, t.len() as int);
            let old = micro_old_value(current, prefix, suffix);
            let next: nat = match old {
                Some(m) => if digits_value(m) <= u64::MAX {
                    digits_value(m) + 1
                } else {
                    1
                },
                None => 1,
            };
            let rep = match old {
                Some(m) => if m[0] == '0' && m.len() > 1 {
                    zero_pad(decimal(next), m.len())
                } else {
                    decimal(next)
                },
                None => decimal(next),
            };
            Some(prefix + rep + suffix)
        },
        None => spec_bump_rightmost(t),
    }
}

/// A calendar version whose `{MICRO}` slot holds the digits `m` gets that
/// number incremented in place, keeping a zero-padded width, while the rest
/// (what the format gives for the date) stays as it is.
pub proof fn lemma_calver_micro_increments(
    format: Seq<char>,
    date: CalverDate,
    prefix: Seq<char>,
    suffix: Seq<char>,
    m: Seq<char>,
)
    requires
        calver_expand(format, date) == prefix + micro_placeholder() + suffix,
        crate::text::find_sub(prefix + micro_placeholder() + suffix, micro_placeholder()) == Some(prefix.len() as int),
        m.len() > 0,
        all_digits(m),
        digits_value(m) < u64::MAX,
    ensures
        spec_bump_calver(prefix + m + suffix, format, date) == Some(
            prefix + (if m[0] == '0' && m.len() > 1 {
                zero_pad(decimal(digits_value(m) + 1), m.len())
            } else {
                decimal(digits_value(m) + 1)
            }) + suffix,
        ),
{
    let t = prefix + micro_placeholder() + suffix;
    let i = prefix.len() as int;
    assert(t.subrange(0, i) =~= prefix);
    assert(t.subrange(i + 7, t.len() as int) =~= suffix);
    let current = prefix + m + suffix;
    assert(current.subrange(0, prefix.len() as int) =~= prefix);
    assert(current.subrange(current.len() - suffix.len(), current.len() as int) =~= suffix);
    assert(current.subrange(prefix.len() as int, current.len() - suffix.len()) =~= m);
    assert(micro_old_value(current, prefix, suffix) == Some(m));
}

/// The number to increment is below `u64::MAX`.
pub open spec fn calver_bump_fits(current: Seq<char>, format: Seq<char>, date: CalverDate) -> bool {
    let t = calver_expand(format, date);
    match crate::text::find_sub(t, micro_placeholder()) {
        Some(i) => match micro_old_value(current, t.subrange(0, i), t.subrange(i + 7, t.len() as int)) {
            Some(m) => digits_value(m) != u64::MAX,
            None => true,
        },
        None => rightmost_number(t) matches Some((_, _, v)) ==> v != u64::MAX,
    }
}

/// Bumps a calendar version for the given date.
pub fn bump_calver_on(current_raw: &str, format: &str, date: CalverDate) -> (r: Result<
    String,
    VersionError,
>)
    requires
        calver_bump_fits(current_raw@, format@, date),
    ensures
        match spec_bump_calver(current_raw@, format@, date) {
            Some(out) => r matches Ok(s) && s@ == out,
            None => r matches Err(e) && e is NoNumericSegment,
        },
{
    let template = apply_calver_format(format, date);
    let t = to_chars(template.as_str());
    let ph = micro_placeholder_chars();
    match crate::text::find_chars(&t, &ph) {
        Some(idx) => {
            proof {
                crate::text::lemma_find_sub_bounds(t@, ph@);
                assert(ph@.len() == 7);
                assert(t@.len() == t.len());
            }
            let prefix = crate::numbers::slice_range(&t, 0, idx);
            let suffix = crate::numbers::slice_range(&t, idx + 7, t.len());
            let cur = to_chars(current_raw);
            let mut old: Option<Vec<char>> = None;
            if crate::text::starts_with_chars(&cur, &prefix) && crate::text::ends_with_chars(
                &cur,
                &suffix,
            ) && prefix.len() <= cur.len() && suffix.len() <= cur.len() - prefix.len() {
                let mid = crate::numbers::slice_range(&cur, prefix.len(), cur.len() - suffix.len());
                if mid.len() > 0 && all_digit_chars(&mid) {
                    old = Some(mid);
                }
            }
            proof {
                assert(match old {
                    Some(m) => micro_old_value(current_raw@, prefix@, suffix@) == Some(m@),
                    None => micro_old_value(current_raw@, prefix@, suffix@) is None,
                });
            }
            let rep = match old {
                Some(m) => {
                    let next: u64 = match parse_digits_u128(&m) {
                        Some(v) => v as u64 + 1,
                        None => 1,
                    };
                    if m[0] == '0' && m.len() > 1 {
                        format_u64_padded(next, m.len())
                    } else {
                        decimal_chars(next)
                    }
                },
                None => decimal_chars(1),
            };
            let mut out = from_chars(&prefix);
            push_chars(&mut out, &rep);
            push_chars(&mut out, &suffix);
            Ok(out)
        },
        None => bump_rightmost_numeric(template.as_str()),
    }
}

/// All characters are ASCII digits.
pub fn all_digit_chars(s: &[char]) -> (r: bool)
    ensures
        r == all_digits(s@),
{
    let mut i: usize = 0;
    while i < s.len()
        invariant
            i <= s@.len(),
            forall|j: int| 0 <= j < i ==> is_digit(#[trigger] s@[j]),
        decreases s@.len() - i,
    {
        if !char_is_digit(s[i]) {
            return false;
        }
        i += 1;
    }
    true
}

} // verus!

verus! {

/// `r` is the outcome of a calver bump on date `d`.
pub open spec fn calver_text_result(
    r: Result<String, VersionError>,
    current: Seq<char>,
    format: Seq<char>,
    d: CalverDate,
) -> bool {
    match spec_bump_calver(current, format, d) {
        Some(out) => r matches Ok(s) && s@ == out,
        None => r matches Err(e) && e is NoNumericSegment,
    }
}

/// `r` is the version a calver bump on date `d` yields.
pub open spec fn calver_version_result(
    r: Result<Version, VersionError>,
    current: Seq<char>,
    format: Seq<char>,
    d: CalverDate,
) -> bool {
    match spec_bump_calver(current, format, d) {
        Some(out) => r matches Ok(v) && v.raw@ == out && v.kind == VersionKind::Calver
            && v.semver is None,
        None => r matches Err(e) && e is NoNumericSegment,
    }
}

/// Bumps a calendar version for today's date.
pub fn bump_calver(current_raw: &str, format: &str) -> (r: Result<String, VersionError>)
    requires
        forall|d: CalverDate| calver_bump_fits(current_raw@, format@, d),
    ensures
        exists|d: CalverDate| #[trigger] calver_text_result(r, current_raw@, format@, d),
{
    let date = current_date();
    let r = bump_calver_on(current_raw, format, date);
    assert(calver_text_result(r, current_raw@, format@, date));
    r
}

/// The calver format used when none is configured.
pub open spec fn default_calver_format() -> Seq<char> {
    seq!['Y', 'Y', 'Y', 'Y', '.', '0', 'M', '.', 'M', 'I', 'C', 'R', 'O']
}

fn default_calver_format_string() -> (r: String)
    ensures
        r@ == default_calver_format(),
{
    let v = vec!['Y', 'Y', 'Y', 'Y', '.', '0', 'M', '.', 'M', 'I', 'C', 'R', 'O'];
    proof {
        assert(v@ =~= default_calver_format());
    }
    from_chars(&v)
}

/// The format a calver bump uses.
pub open spec fn effective_calver_format(calver_format: Option<Seq<char>>) -> Seq<char> {
    match calver_format {
        Some(f) => f,
        None => default_calver_format(),
    }
}

/// What a bump may not overflow.
pub open spec fn bump_version_fits(
    current: &Version,
    mode: BumpMode,
    level: Option<BumpLevel>,
    calver_format: Option<Seq<char>>,
) -> bool {
    match mode {
        BumpMode::Semver => semver_base(current) matches Some(b) ==> bump_fits(
            b,
            match level {
                Some(l) => l,
                None => BumpLevel::Patch,
            },
        ),
        BumpMode::Calver => forall|d: CalverDate|
            calver_bump_fits(current.raw@, effective_calver_format(calver_format), d),
        BumpMode::TinyInc => rightmost_number(current.raw@) matches Some((_, _, v)) ==> v
            != u64::MAX,
    }
}

/// Bumps a version: semver at a level (patch by default) with an optional
/// prerelease tag; calver by a format (`YYYY.0M.MICRO` by default) and
/// today's date; or by incrementing its rightmost number, keeping its kind.
pub fn bump_version(
    current: &Version,
    mode: BumpMode,
    level: Option<BumpLevel>,
    calver_format: Option<&str>,
    pre: Option<&str>,
) -> (r: Result<Version, VersionError>)
    requires
        bump_version_fits(current, mode, level, crate::text::opt_str_view(calver_format)),
    ensures
        mode == BumpMode::Semver ==> match spec_bump_semver(
            current,
            match level {
                Some(l) => l,
                None => BumpLevel::Patch,
            },
            match pre {
                Some(t) => Some(t@),
                None => None,
            },
        ) {
            Ok(text) => r matches Ok(v) && v.raw@ == text && v.kind == VersionKind::Semver && (
            match v.semver {
                Some(p) => spec_semver_parse(text) == Some(p.fields()) && p.source() == text,
                None => spec_semver_parse(text) is None,
            }),
            Err((kind, text)) => r matches Err(e) && e.spec_view() == (kind, text),
        },
        mode == BumpMode::Calver ==> exists|d: CalverDate|
            #[trigger] calver_version_result(
                r,
                current.raw@,
                effective_calver_format(crate::text::opt_str_view(calver_format)),
                d,
            ),
        mode == BumpMode::TinyInc ==> match spec_bump_rightmost(current.raw@) {
            Some(out) => r matches Ok(v) && v.raw@ == out && v.kind == current.kind && (
            current.kind == VersionKind::Semver ==> match v.semver {
                Some(p) => spec_semver_parse(out) == Some(p.fields()),
                None => spec_semver_parse(out) is None,
            }) && (current.kind != VersionKind::Semver ==> v.semver is None),
            None => r matches Err(e) && e is NoNumericSegment,
        },
{
    match mode {
        BumpMode::Semver => {
            let l = match level {
                Some(l) => l,
                None => BumpLevel::Patch,
            };
            bump_semver(current, l, pre)
        },
        BumpMode::Calver => {
            let format = match calver_format {
                Some(f) => string_of(f),
                None => default_calver_format_string(),
            };
            assert(format@ == effective_calver_format(crate::text::opt_str_view(calver_format)));
            let raw = bump_calver(current.raw.as_str(), format.as_str());
            let ghost d = choose|d: CalverDate| #[trigger] calver_text_result(
                raw,
                current.raw@,
                format@,
                d,
            );
            let r = match raw {
                Ok(text) => Ok(Version::new(text.as_str(), VersionKind::Calver)),
                Err(e) => Err(e),
            };
            assert(calver_version_result(r, current.raw@, format@, d));
            r
        },
        BumpMode::TinyInc => {
            let raw = bump_rightmost_numeric(current.raw.as_str());
            match raw {
                Ok(text) => Ok(Version::new(text.as_str(), current.kind)),
                Err(e) => Err(e),
            }
        },
    }
}

/// The prerelease part of a bumped semantic version: `-` and the tag, or
/// nothing without a tag.
pub open spec fn pre_suffix(pre: Option<Seq<char>>) -> Seq<char> {
    match pre {
        Some(t) => if t.len() > 0 {
            seq!['-'] + t
        } else {
            Seq::empty()
        },
        None => Seq::empty(),
    }
}

/// A semantic-version bump of `M.m.p` gives `(M+1).0.0` at the major level,
/// `M.(m+1).0` at the minor level and `M.m.(p+1)` at the patch level, followed
/// by `-` and the prerelease tag when one is given.
pub proof fn lemma_semver_bump_levels(current: &Version, pre: Option<Seq<char>>)
    requires
        semver_base(current) is Some,
        pre matches Some(t) ==> valid_prerelease(t),
    ensures
        ({
            let b = semver_base(current)->0;
            &&& spec_bump_semver(current, BumpLevel::Major, pre) == Ok::<Seq<char>, (VersionErrorKind, Seq<char>)>(
                decimal((b.0 + 1) as nat) + seq!['.', '0', '.', '0'] + pre_suffix(pre),
            )
            &&& spec_bump_semver(current, BumpLevel::Minor, pre) == Ok::<Seq<char>, (VersionErrorKind, Seq<char>)>(
                decimal(b.0 as nat) + seq!['.'] + decimal((b.1 + 1) as nat) + seq!['.', '0'] + pre_suffix(pre),
            )
            &&& spec_bump_semver(current, BumpLevel::Patch, pre) == Ok::<Seq<char>, (VersionErrorKind, Seq<char>)>(
                decimal(b.0 as nat) + seq!['.'] + decimal(b.1 as nat) + seq!['.'] + decimal((b.2 + 1) as nat)
                    + pre_suffix(pre),
            )
        }),
{
    let b = semver_base(current)->0;
    assert(decimal(0) == seq!['0']) by {
        assert(digit_char(0) == '0');
    }
    let tail = pre_suffix(pre);
    let t = match pre {
        Some(x) => x,
        None => Seq::<char>::empty(),
    };
    assert(semver_text((b.0 + 1) as nat, 0, 0, t) =~= decimal((b.0 + 1) as nat) + seq!['.', '0', '.', '0'] + tail);
    assert(semver_text(b.0 as nat, (b.1 + 1) as nat, 0, t) =~= decimal(b.0 as nat) + seq!['.'] + decimal(
        (b.1 + 1) as nat,
    ) + seq!['.', '0'] + tail);
    assert(semver_text(b.0 as nat, b.1 as nat, (b.2 + 1) as nat, t) =~= decimal(b.0 as nat) + seq!['.'] + decimal(
        b.1 as nat,
    ) + seq!['.'] + decimal((b.2 + 1) as nat) + tail);
}

/// Incrementing the rightmost number of `p + d + s` (where `d` is a run of
/// digits, `s` holds no digit and `p` does not end in one) changes only
/// `d`: into the next number, zero-padded to the old width when `d` was.
pub proof fn lemma_tinyinc_keeps_surroundings(p: Seq<char>, d: Seq<char>, s: Seq<char>)
    requires
        d.len() > 0,
        forall|k: int| 0 <= k < d.len() ==> is_digit(#[trigger] d[k]),
        forall|k: int| 0 <= k < s.len() ==> !is_digit(#[trigger] s[k]),
        p.len() == 0 || !is_digit(p.last()),
        digits_value(d) <= u64::MAX,
    ensures
        spec_bump_rightmost(p + d + s) == Some(
            p + (if d[0] == '0' && d.len() > 1 {
                zero_pad(decimal(digits_value(d) + 1), d.len())
            } else {
                decimal(digits_value(d) + 1)
            }) + s,
        ),
{
    let raw = p + d + s;
    let end = p.len() + d.len() - 1;
    lemma_last_digit_index(raw);
    assert(raw[end] == d[d.len() - 1]);
    assert(last_digit_index(raw) == Some(end)) by {
        let e = last_digit_index(raw)->0;
        if e > end {
            assert(raw[e] == s[e - p.len() - d.len()]);
        }
        if e < end {
            assert(!is_digit(raw[end]));
        }
    }
    lemma_digit_run_start(raw, end);
    let start = digit_run_start(raw, end);
    assert(start == p.len()) by {
        if start < p.len() {
            assert(is_digit(raw[p.len() - 1]));
            assert(raw[p.len() - 1] == p.last());
        }
        if start > p.len() {
            assert(raw[start - 1] == d[start - 1 - p.len()]);
        }
    }
    assert(raw.subrange(start, end + 1) =~= d);
    assert(raw.subrange(0, start) =~= p);
    assert(raw.subrange(end + 1, raw.len() as int) =~= s);
}

} // verus!
