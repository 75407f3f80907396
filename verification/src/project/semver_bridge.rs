//! The calls into the `semver` crate, behind trusted items, and the plain
//! values that the rest of the library reads from them.
use vstd::prelude::*;

verus! {

/// What `semver::Version::parse` yields for a text: major, minor, patch and
/// the prerelease and build texts.
pub uninterp spec fn spec_semver_parse(text: Seq<char>) -> Option<(u64, u64, u64, Seq<char>, Seq<char>)>;

/// A character allowed in a prerelease identifier: an ASCII letter or digit,
/// or `-`.
pub open spec fn pre_char(c: char) -> bool {
    ('A' <= c && c <= 'Z') || ('a' <= c && c <= 'z') || ('0' <= c && c <= '9') || c == '-'
}

/// The identifier of `tag` that starts at `i` runs to `j` (a dot or the end).
pub open spec fn pre_segment(tag: Seq<char>, i: int, j: int) -> bool {
    &&& 0 <= i < j <= tag.len()
    &&& (i == 0 || tag[i - 1] == '.')
    &&& (j == tag.len() || tag[j] == '.')
    &&& forall|k: int| i <= k < j ==> tag[k] != '.'
}

/// A prerelease tag as `semver` accepts it: empty, or dot-separated
/// identifiers that are not empty, hold only ASCII letters, digits and `-`,
/// and, when longer than one digit and all digits, do not start with `0`.
pub open spec fn valid_prerelease(tag: Seq<char>) -> bool {
    tag.len() == 0 || {
        &&& forall|k: int| 0 <= k < tag.len() ==> #[trigger] tag[k] == '.' || pre_char(tag[k])
        &&& tag[0] != '.'
        &&& tag.last() != '.'
        &&& forall|k: int| 0 <= k < tag.len() - 1 && #[trigger] tag[k] == '.' ==> tag[k + 1] != '.'
        &&& forall|i: int, j: int|
            #[trigger] pre_segment(tag, i, j) && j - i > 1 && tag[i] == '0' ==> exists|k: int|
                i <= k < j && !('0' <= #[trigger] tag[k] && tag[k] <= '9')
    }
}

/// What `semver::Prerelease::new` yields for a tag: the tag itself when it
/// is valid.
pub open spec fn spec_prerelease_parse(tag: Seq<char>) -> Option<Seq<char>> {
    if valid_prerelease(tag) {
        Some(tag)
    } else {
        None
    }
}

/// What `semver::VersionReq::parse` yields for a text: its comparators.
pub uninterp spec fn spec_req_parse(text: Seq<char>) -> Option<Seq<ComparatorView>>;

/// What `semver::VersionReq::matches` answers for the requirement parsed from
/// `req` and the version parsed from `version`.
pub uninterp spec fn spec_req_matches(req: Seq<char>, version: Seq<char>) -> bool;

/// The comparison operator of one comparator of a requirement.
#[derive(Clone, Copy, Debug, PartialEq, Eq, Structural)]
pub enum ReqOp {
    Exact,
    Greater,
    GreaterEq,
    Less,
    LessEq,
    Tilde,
    Caret,
    Wildcard,
    Other,
}

/// A comparator as plain values.
pub type ComparatorView = (ReqOp, u64, Option<u64>, Option<u64>, Seq<char>);

/// One comparator of a parsed requirement.
#[derive(Debug)]
pub struct ComparatorParts {
    pub op: ReqOp,
    pub major: u64,
    pub minor: Option<u64>,
    pub patch: Option<u64>,
    pub pre: String,
}

impl ComparatorParts {
    pub open spec fn view(&self) -> ComparatorView {
        (self.op, self.major, self.minor, self.patch, self.pre@)
    }
}

/// A version parsed by `semver`, together with the text it was parsed from.
#[derive(Debug)]
pub struct SemverParts {
    pub(crate) major: u64,
    pub(crate) minor: u64,
    pub(crate) patch: u64,
    pub(crate) pre: String,
    pub(crate) build: String,
    pub(crate) text: String,
}

impl SemverParts {
    #[verifier::type_invariant]
    spec fn parsed_from_text(self) -> bool {
        spec_semver_parse(self.text@) == Some(self.fields())
    }

    /// Major, minor, patch, prerelease and build.
    pub closed spec fn fields(self) -> (u64, u64, u64, Seq<char>, Seq<char>) {
        (self.major, self.minor, self.patch, self.pre@, self.build@)
    }

    /// The text this version was parsed from.
    pub closed spec fn source(self) -> Seq<char> {
        self.text@
    }

    /// The version's fields are what `semver` parsed from its source text.
    pub fn assert_parsed(&self)
        ensures
            spec_semver_parse(self.source()) == Some(self.fields()),
    {
        proof {
            use_type_invariant(self);
        }
    }

    pub fn major(&self) -> (r: u64)
        ensures
            r == self.fields().0,
    {
        self.major
    }

    pub fn minor(&self) -> (r: u64)
        ensures
            r == self.fields().1,
    {
        self.minor
    }

    pub fn patch(&self) -> (r: u64)
        ensures
            r == self.fields().2,
    {
        self.patch
    }

    pub fn pre(&self) -> (r: &String)
        ensures
            r@ == self.fields().3,
    {
        &self.pre
    }

    pub fn build(&self) -> (r: &String)
        ensures
            r@ == self.fields().4,
    {
        &self.build
    }

    /// A copy.
    pub fn duplicate(&self) -> (r: Self)
        ensures
            r.fields() == self.fields(),
            r.source() == self.source(),
    {
        proof {
            use_type_invariant(self);
        }
        SemverParts {
            major: self.major,
            minor: self.minor,
            patch: self.patch,
            pre: self.pre.clone(),
            build: self.build.clone(),
            text: self.text.clone(),
        }
    }
}

/// A requirement parsed by `semver`, together with the text it was parsed from.
#[derive(Debug)]
pub struct ReqParts {
    pub(crate) comparators: Vec<ComparatorParts>,
    pub(crate) text: String,
}

impl ReqParts {
    #[verifier::type_invariant]
    spec fn parsed_from_text(self) -> bool {
        spec_req_parse(self.text@) == Some(self.comparator_views())
    }

    /// The comparators as plain values.
    pub closed spec fn comparator_views(self) -> Seq<ComparatorView> {
        self.comparators@.map_values(|c: ComparatorParts| c.view())
    }

    /// The text this requirement was parsed from.
    pub closed spec fn source(self) -> Seq<char> {
        self.text@
    }

    /// The comparators are what `semver` parsed from the source text.
    pub fn assert_parsed(&self)
        ensures
            spec_req_parse(self.source()) == Some(self.comparator_views()),
    {
        proof {
            use_type_invariant(self);
        }
    }

    /// Number of comparators.
    pub fn comparator_count(&self) -> (r: usize)
        ensures
            r == self.comparator_views().len(),
    {
        self.comparators.len()
    }

    /// Operator, minor and patch presence of comparator `i`.
    pub fn comparator_shape(&self, i: usize) -> (r: (ReqOp, bool, bool))
        requires
            i < self.comparator_views().len(),
        ensures
            r.0 == self.comparator_views()[i as int].0,
            r.1 == self.comparator_views()[i as int].2 is Some,
            r.2 == self.comparator_views()[i as int].3 is Some,
    {
        let c = &self.comparators[i];
        (c.op, c.minor.is_some(), c.patch.is_some())
    }

    /// A copy.
    pub fn duplicate(&self) -> (r: Self)
        ensures
            r.comparator_views() == self.comparator_views(),
            r.source() == self.source(),
    {
        proof {
            use_type_invariant(self);
        }
        let mut comps: Vec<ComparatorParts> = Vec::new();
        let mut i: usize = 0;
        while i < self.comparators.len()
            invariant
                i <= self.comparators@.len(),
                comps@.map_values(|c: ComparatorParts| c.view()) =~= self.comparators@.subrange(
                    0,
                    i as int,
                ).map_values(|c: ComparatorParts| c.view()),
            decreases self.comparators@.len() - i,
        {
            let c = &self.comparators[i];
            let copy = ComparatorParts {
                op: c.op,
                major: c.major,
                minor: c.minor,
                patch: c.patch,
                pre: c.pre.clone(),
            };
            assert(copy.view() == c.view());
            let ghost before = comps@;
            comps.push(copy);
            proof {
                assert(comps@ =~= before.push(copy));
                assert(self.comparators@.subrange(0, i + 1) =~= self.comparators@.subrange(
                    0,
                    i as int,
                ).push(self.comparators@[i as int]));
                assert(comps@.map_values(|c: ComparatorParts| c.view()) =~= before.map_values(
                    |c: ComparatorParts| c.view(),
                ).push(copy.view()));
                assert(self.comparators@.subrange(0, i + 1).map_values(
                    |c: ComparatorParts| c.view(),
                ) =~= self.comparators@.subrange(0, i as int).map_values(
                    |c: ComparatorParts| c.view(),
                ).push(self.comparators@[i as int].view()));
            }
            i += 1;
        }
        proof {
            assert(self.comparators@.subrange(0, self.comparators@.len() as int)
                =~= self.comparators@);
        }
        ReqParts { comparators: comps, text: self.text.clone() }
    }
}

/// Calls `semver::Version::parse`; the result is the parsed fields and the text.
#[verifier::external_body]
pub(crate) fn semver_parse(text: &str) -> (r: Option<SemverParts>)
    ensures
        r matches Some(p) ==> spec_semver_parse(text@) == Some(p.fields()) && p.source() == text@,
        r is None <==> spec_semver_parse(text@) is None,
{
    match semver::Version::parse(text) {
        Ok(v) => Some(
            SemverParts {
                major: v.major,
                minor: v.minor,
                patch: v.patch,
                pre: v.pre.as_str().to_string(),
                build: v.build.as_str().to_string(),
                text: text.to_string(),
            },
        ),
        Err(_) => None,
    }
}

/// Calls `semver::Prerelease::new`, which accepts exactly the valid tags
/// (its parser in `parse.rs` walks the identifiers byte by byte) and keeps
/// the text; the result is that text.
#[verifier::external_body]
pub(crate) fn prerelease_parse(tag: &str) -> (r: Option<String>)
    ensures
        r matches Some(t) ==> spec_prerelease_parse(tag@) == Some(t@),
        r is None <==> spec_prerelease_parse(tag@) is None,
{
    match semver::Prerelease::new(tag) {
        Ok(p) => Some(p.as_str().to_string()),
        Err(_) => None,
    }
}

/// Calls `semver::VersionReq::parse`; the result is the comparators and the text.
#[verifier::external_body]
pub(crate) fn req_parse(text: &str) -> (r: Option<ReqParts>)
    ensures
        r matches Some(p) ==> spec_req_parse(text@) == Some(p.comparator_views()) && p.source()
            == text@,
        r is None <==> spec_req_parse(text@) is None,
{
    match semver::VersionReq::parse(text) {
        Ok(req) => Some(
            ReqParts {
                comparators: req.comparators.iter().map(comparator_parts).collect(),
                text: text.to_string(),
            },
        ),
        Err(_) => None,
    }
}

/// `semver::Comparator`, carried opaquely.
#[verifier::external_type_specification]
#[verifier::external_body]
pub struct ExSemverComparator(semver::Comparator);

/// Converts one `semver::Comparator` to plain values, one variant for one.
#[verifier::external_body]
fn comparator_parts(c: &semver::Comparator) -> ComparatorParts {
    let op = match c.op {
        semver::Op::Exact => ReqOp::Exact,
        semver::Op::Greater => ReqOp::Greater,
        semver::Op::GreaterEq => ReqOp::GreaterEq,
        semver::Op::Less => ReqOp::Less,
        semver::Op::LessEq => ReqOp::LessEq,
        semver::Op::Tilde => ReqOp::Tilde,
        semver::Op::Caret => ReqOp::Caret,
        semver::Op::Wildcard => ReqOp::Wildcard,
        _ => ReqOp::Other,
    };
    ComparatorParts { op, major: c.major, minor: c.minor, patch: c.patch, pre: c.pre.as_str().to_string() }
}

/// Calls `semver::VersionReq::matches` on the requirement and version that
/// `semver` parses from the two source texts.
#[verifier::external_body]
pub(crate) fn req_matches(req: &ReqParts, version: &SemverParts) -> (r: bool)
    ensures
        r == spec_req_matches(req.source(), version.source()),
{
    match (semver::VersionReq::parse(&req.text), semver::Version::parse(&version.text)) {
        (Ok(r), Ok(v)) => r.matches(&v),
        _ => false,
    }
}

} // verus!
