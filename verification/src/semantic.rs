//! What the library has from the `semver` crate: strict parsing of versions
//! and requirements, precedence, and matching. Nothing here is proved; the
//! rest of the library reasons from these contracts.

use crate::text::{append_chars, chars_of, decimal_text, render_u64};
use vstd::prelude::*;

verus! {

/// The outcome of comparing two values.
#[derive(Copy, Clone, Debug, PartialEq, Eq, Structural)]
pub enum Sign {
    Less,
    Equal,
    Greater,
}

/// The fields of a semantic version: three numbers, the pre-release and
/// the build metadata (each empty where the version has none).
#[derive(Clone, Debug, PartialEq, Eq, Hash)]
pub struct SemVerParts {
    pub major: u64,
    pub minor: u64,
    pub patch: u64,
    pub pre: String,
    pub build: String,
}

/// The fields of a semantic version as plain values.
pub struct SemVerPartsView {
    pub major: u64,
    pub minor: u64,
    pub patch: u64,
    pub pre: Seq<char>,
    pub build: Seq<char>,
}

impl View for SemVerParts {
    type V = SemVerPartsView;

    open spec fn view(&self) -> SemVerPartsView {
        SemVerPartsView {
            major: self.major,
            minor: self.minor,
            patch: self.patch,
            pre: self.pre@,
            build: self.build@,
        }
    }
}

/// The text of a version: `major.minor.patch`, then `-` and the pre-release
/// where there is one, then `+` and the build metadata where there is some.
pub open spec fn semver_text(p: SemVerPartsView) -> Seq<char> {
    decimal_text(p.major as nat) + seq!['.'] + decimal_text(p.minor as nat) + seq!['.']
        + decimal_text(p.patch as nat) + (if p.pre.len() > 0 {
        seq!['-'] + p.pre
    } else {
        Seq::<char>::empty()
    }) + (if p.build.len() > 0 {
        seq!['+'] + p.build
    } else {
        Seq::<char>::empty()
    })
}

/// What `semver::Version::parse` makes of a text: the version's fields, or
/// nothing where the text is no version.
pub uninterp spec fn semver_parts(text: Seq<char>) -> Option<(u64, u64, u64, Seq<char>, Seq<char>)>;

/// The fields that `semver_parts` names, as a record.
pub open spec fn semver_parse(text: Seq<char>) -> Option<SemVerPartsView> {
    match semver_parts(text) {
        Some(p) => Some(
            SemVerPartsView { major: p.0, minor: p.1, patch: p.2, pre: p.3, build: p.4 },
        ),
        None => None,
    }
}

/// The text in which `semver::VersionReq` displays what it parsed from a
/// text, or nothing where the text is no requirement.
pub uninterp spec fn semver_req_text(text: Seq<char>) -> Option<Seq<char>>;

/// Whether the requirement parsed from the first text admits the version
/// parsed from the second (false where either is not parsed).
pub uninterp spec fn semver_matches(req: Seq<char>, version: Seq<char>) -> bool;

/// How the versions parsed from two texts compare in `semver`'s total order
/// (nothing where either is not parsed).
pub uninterp spec fn semver_order(a: Seq<char>, b: Seq<char>) -> Option<Sign>;

/// `semver::Version::parse`, with the fields of the result as plain values.
/// The parser is strict: it accepts a text only in the one form in which a
/// version is written, so the fields written out again are the text.
#[verifier::external_body]
pub(crate) fn parse_semver(text: &str) -> (res: Option<SemVerParts>)
    ensures
        res is Some == semver_parts(text@) is Some,
        res matches Some(p) ==> semver_parse(text@) == Some(p@) && semver_text(p@) == text@,
{
    match ::semver::Version::parse(text) {
        Ok(v) => Some(
            SemVerParts {
                major: v.major,
                minor: v.minor,
                patch: v.patch,
                pre: v.pre.as_str().to_string(),
                build: v.build.as_str().to_string(),
            },
        ),
        Err(_) => None,
    }
}

/// `semver::VersionReq::parse`, with the result in the text that its
/// `Display` gives.
#[verifier::external_body]
pub(crate) fn parse_semver_req(text: &str) -> (res: Option<String>)
    ensures
        res is Some == semver_req_text(text@) is Some,
        res matches Some(t) ==> semver_req_text(text@) == Some(t@),
{
    match ::semver::VersionReq::parse(text) {
        Ok(req) => Some(req.to_string()),
        Err(_) => None,
    }
}

/// How a comparator of a requirement compares.
#[derive(Copy, Clone, Debug, PartialEq, Eq, Structural)]
pub enum Operator {
    Exact,
    Greater,
    GreaterEq,
    Less,
    LessEq,
    Tilde,
    Caret,
    Wildcard,
    /// An operator that this library does not know.
    Other,
}

/// One comparator of a requirement: its operator, the numbers that it
/// writes, and its pre-release (empty where it has none).
#[derive(Debug, PartialEq, Eq)]
pub struct Comparator {
    pub op: Operator,
    pub major: u64,
    pub minor: Option<u64>,
    pub patch: Option<u64>,
    pub pre: String,
}

/// A comparator as plain values.
pub struct ComparatorView {
    pub op: Operator,
    pub major: u64,
    pub minor: Option<u64>,
    pub patch: Option<u64>,
    pub pre: Seq<char>,
}

impl View for Comparator {
    type V = ComparatorView;

    open spec fn view(&self) -> ComparatorView {
        ComparatorView {
            op: self.op,
            major: self.major,
            minor: self.minor,
            patch: self.patch,
            pre: self.pre@,
        }
    }
}

/// The views of a sequence of comparators.
pub open spec fn comparators_view(comparators: Seq<Comparator>) -> Seq<ComparatorView> {
    comparators.map_values(|c: Comparator| c@)
}

/// The comparators of the requirement that `semver::VersionReq::parse`
/// reads from a text, in their order, or nothing where the text is no
/// requirement.
pub uninterp spec fn semver_req_comparators(text: Seq<char>) -> Option<Seq<ComparatorView>>;

/// The field `comparators` of what `semver::VersionReq::parse` reads, each
/// comparator with its fields as plain values.
#[verifier::external_body]
pub(crate) fn semver_comparators(text: &str) -> (res: Option<Vec<Comparator>>)
    ensures
        match res {
            Some(cs) => semver_req_comparators(text@) == Some(comparators_view(cs@)),
            None => semver_req_comparators(text@) is None,
        },
{
    let req = ::semver::VersionReq::parse(text).ok()?;
    Some(req.comparators.iter().map(|c| Comparator {
        op: match c.op {
            ::semver::Op::Exact => Operator::Exact, ::semver::Op::Greater => Operator::Greater,
            ::semver::Op::GreaterEq => Operator::GreaterEq, ::semver::Op::Less => Operator::Less,
            ::semver::Op::LessEq => Operator::LessEq, ::semver::Op::Tilde => Operator::Tilde,
            ::semver::Op::Caret => Operator::Caret, ::semver::Op::Wildcard => Operator::Wildcard,
            _ => Operator::Other,
        },
        major: c.major, minor: c.minor, patch: c.patch, pre: c.pre.as_str().to_string(),
    }).collect())
}

/// `semver::VersionReq::matches` on the requirement and the version that the
/// two texts parse to.
#[verifier::external_body]
pub(crate) fn semver_req_matches(req: &str, version: &str) -> (res: bool)
    ensures
        res == semver_matches(req@, version@),
{
    match (::semver::VersionReq::parse(req), ::semver::Version::parse(version)) {
        (Ok(r), Ok(v)) => r.matches(&v),
        _ => false,
    }
}

/// The order that `semver::Version` implements, on the versions that the two
/// texts parse to. There is an answer exactly where both texts are versions.
#[verifier::external_body]
pub(crate) fn semver_precedence(a: &str, b: &str) -> (res: Option<Sign>)
    ensures
        res == semver_order(a@, b@),
        res is Some == (semver_parts(a@) is Some && semver_parts(b@) is Some),
{
    match (::semver::Version::parse(a), ::semver::Version::parse(b)) {
        (Ok(x), Ok(y)) => Some(
            match x.cmp(&y) {
                std::cmp::Ordering::Less => Sign::Less,
                std::cmp::Ordering::Equal => Sign::Equal,
                std::cmp::Ordering::Greater => Sign::Greater,
            },
        ),
        _ => None,
    }
}

/// Writes the fields of a version in the form `major.minor.patch[-pre][+build]`.
pub fn render_semver(p: &SemVerParts) -> (r: Vec<char>)
    ensures
        r@ == semver_text(p@),
{
    let mut r = render_u64(p.major);
    r.push('.');
    let minor = render_u64(p.minor);
    append_chars(&mut r, &minor);
    r.push('.');
    let patch = render_u64(p.patch);
    append_chars(&mut r, &patch);
    let pre = chars_of(p.pre.as_str());
    if pre.len() > 0 {
        r.push('-');
        append_chars(&mut r, &pre);
    }
    let build = chars_of(p.build.as_str());
    if build.len() > 0 {
        r.push('+');
        append_chars(&mut r, &build);
    }
    proof {
        let v = p@;
        let head = decimal_text(v.major as nat) + seq!['.'] + decimal_text(v.minor as nat)
            + seq!['.'] + decimal_text(v.patch as nat);
        assert(decimal_text(v.major as nat).push('.') =~= decimal_text(v.major as nat)
            + seq!['.']);
        assert((decimal_text(v.major as nat) + seq!['.'] + decimal_text(v.minor as nat)).push('.')
            =~= decimal_text(v.major as nat) + seq!['.'] + decimal_text(v.minor as nat)
            + seq!['.']);
        if v.pre.len() > 0 {
            assert(head.push('-') + v.pre =~= head + (seq!['-'] + v.pre));
        } else {
            assert(head =~= head + Seq::<char>::empty());
        }
        let mid = head + (if v.pre.len() > 0 {
            seq!['-'] + v.pre
        } else {
            Seq::<char>::empty()
        });
        if v.build.len() > 0 {
            assert(mid.push('+') + v.build =~= mid + (seq!['+'] + v.build));
        } else {
            assert(mid =~= mid + Seq::<char>::empty());
        }
    }
    r
}

} // verus!
