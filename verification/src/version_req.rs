//! Version requirements: what a dependency admits. A requirement is a range
//! of semantic versions, one development marker, one free-text version, or
//! anything at all.

use crate::semantic::{
    comparators_view, parse_semver, parse_semver_req, render_semver, semver_comparators,
    semver_matches, semver_parse, semver_req_comparators, semver_req_matches, semver_req_text,
    semver_text, ComparatorView, Operator, SemVerParts, SemVerPartsView,
};
use crate::text::{
    append_chars, chars_of, copy_chars, count_char, count_of, decimal_text, has_prefix,
    is_alphanumeric, is_alphanumeric_char, render_u64, slice_of, split_chars, split_seq,
    string_of, trim_chars, trim_seq, trim_start_char, trim_start_matches, views,
};
use crate::version::{
    correct_prerelease_version_string, correct_version_string, corrected_version_text, dev_text,
    dev_version_chars, dev_version_text, is_dev_text, is_known_dev_version_str, is_scm_text,
    scm_text, trim_specrev, trim_specrev_spec, with_prerelease, DevVer,
    DevVersion, PackageVersion, PackageVersionView, SemVer, SemVerView, StringVer, StringVerView,
};
use vstd::prelude::*;

verus! {

/// A requirement on the version of a package.
#[derive(Debug, PartialEq, Eq, Hash)]
pub enum PackageVersionReq {
    /// A range of semantic versions, in the text in which such a range is
    /// displayed: comparators separated by `, `, or `*`.
    SemVer(String),
    /// One development marker.
    DevVer(DevVersion),
    /// One free-text version.
    StringVer(String),
    /// No constraint.
    Any,
}

/// A requirement as plain values.
pub enum PackageVersionReqView {
    SemVer(Seq<char>),
    DevVer(DevVersion),
    StringVer(Seq<char>),
    Any,
}

/// The error of reading a requirement. No text is refused, so none is ever
/// made; the type names the result of `PackageVersionReq::parse`.
#[derive(Debug, PartialEq, Eq)]
pub struct PackageVersionReqError(pub String);

/// Why a requirement names no single version.
#[derive(Debug, PartialEq, Eq)]
pub enum VersionReqToVersionError {
    /// The requirement is a range that is not made of exact comparators
    /// alone; it is given in its text.
    NonExactVersionReq(String),
    /// The requirement admits any version.
    Any,
}

impl View for PackageVersionReq {
    type V = PackageVersionReqView;

    open spec fn view(&self) -> PackageVersionReqView {
        match self {
            PackageVersionReq::SemVer(t) => PackageVersionReqView::SemVer(t@),
            PackageVersionReq::DevVer(d) => PackageVersionReqView::DevVer(*d),
            PackageVersionReq::StringVer(t) => PackageVersionReqView::StringVer(t@),
            PackageVersionReq::Any => PackageVersionReqView::Any,
        }
    }
}

/// What `html_escape::decode_html_entities` makes of a text.
pub uninterp spec fn html_decoded(text: Seq<char>) -> Seq<char>;

/// `html_escape::decode_html_entities`: the text with its named and numeric
/// character references replaced by the characters they stand for.
#[verifier::external_body]
fn html_unescape(text: &str) -> (r: String)
    ensures
        r@ == html_decoded(text@),
{
    html_escape::decode_html_entities(text).into_owned()
}

/// Whether a requirement admits a version. A range admits semantic versions
/// only, as the semantic rules say; a marker admits the development versions
/// with that marker; a free text admits the free-text versions with that
/// text; the unconstrained requirement admits everything. The revision plays
/// no part.
pub open spec fn req_matches(req: PackageVersionReqView, version: PackageVersionView) -> bool {
    match (req, version) {
        (PackageVersionReqView::SemVer(r), PackageVersionView::SemVer(v)) => semver_matches(
            r,
            semver_text(v.parts),
        ),
        (PackageVersionReqView::DevVer(r), PackageVersionView::DevVer(v)) => r == v.modrev,
        (PackageVersionReqView::StringVer(r), PackageVersionView::StringVer(v)) => r == v.modrev,
        (PackageVersionReqView::Any, _) => true,
        _ => false,
    }
}

/// The text of a requirement. A range is written as it is displayed, but
/// with `==` for a leading `=` and `~>` for a leading `^`; a marker or a free
/// text is written behind `==`; the unconstrained requirement is `any`.
pub open spec fn req_text(req: PackageVersionReqView) -> Seq<char> {
    match req {
        PackageVersionReqView::SemVer(t) => if has_prefix(t, seq!['=']) {
            seq!['='] + t
        } else if has_prefix(t, seq!['^']) {
            seq!['~', '>'] + t.skip(1)
        } else {
            t
        },
        PackageVersionReqView::DevVer(d) => seq!['=', '='] + dev_version_text(d),
        PackageVersionReqView::StringVer(t) => seq!['=', '='] + t,
        PackageVersionReqView::Any => seq!['a', 'n', 'y'],
    }
}

/// Whether `c` may stand in a version: a letter, a number, `-`, `_` or `.`.
pub open spec fn is_version_char(c: char) -> bool {
    is_alphanumeric(c) || c == '-' || c == '_' || c == '.'
}

/// The length of the run at the start of `s` of characters that are all
/// version characters, or all not.
pub open spec fn run_length(s: Seq<char>) -> nat
    decreases s.len(),
{
    if s.len() <= 1 {
        s.len()
    } else if is_version_char(s[0]) == is_version_char(s[1]) {
        1 + run_length(s.drop_first())
    } else {
        1
    }
}

/// A run is at least one character of a non-empty text, and within it.
pub proof fn lemma_run_length(s: Seq<char>)
    ensures
        run_length(s) <= s.len(),
        s.len() > 0 ==> run_length(s) >= 1,
    decreases s.len(),
{
    if s.len() > 1 && is_version_char(s[0]) == is_version_char(s[1]) {
        lemma_run_length(s.drop_first());
    }
}

/// One run of a requirement text, corrected: a run of version characters
/// that is no development marker loses its revision and has its fourth and
/// later components turned into a pre-release; any other run stays.
pub open spec fn corrected_run(run: Seq<char>) -> Seq<char> {
    if run.len() > 0 && is_version_char(run[0]) && run != dev_text() && run != scm_text() {
        with_prerelease(trim_specrev_spec(run))
    } else {
        run
    }
}

/// A requirement text with each of its runs corrected.
pub open spec fn corrected_req_text(text: Seq<char>) -> Seq<char>
    decreases text.len(),
{
    if text.len() == 0 {
        text
    } else {
        let n = run_length(text);
        if n == 0 || n > text.len() {
            text
        } else {
            corrected_run(text.take(n as int)) + corrected_req_text(text.skip(n as int))
        }
    }
}

/// The fields of `p` with one number raised by one: the major where `dots`
/// is 0, the minor where it is 1, else the patch. Nothing where that number
/// is the greatest there is.
pub open spec fn bumped(p: SemVerPartsView, dots: nat) -> Option<SemVerPartsView> {
    if dots == 0 {
        if p.major < u64::MAX {
            Some(SemVerPartsView { major: (p.major + 1) as u64, ..p })
        } else {
            None
        }
    } else if dots == 1 {
        if p.minor < u64::MAX {
            Some(SemVerPartsView { minor: (p.minor + 1) as u64, ..p })
        } else {
            None
        }
    } else {
        if p.patch < u64::MAX {
            Some(SemVerPartsView { patch: (p.patch + 1) as u64, ..p })
        } else {
            None
        }
    }
}

/// The range that a pessimistic constraint `~> V` stands for, `parsed` being
/// what the semantic-version parser made of the corrected `V`: from `V` up
/// to, not including, `V` with its last written component raised by one.
pub open spec fn pessimistic_range(min: Seq<char>, parsed: Option<SemVerPartsView>) -> Option<
    Seq<char>,
> {
    match parsed {
        None => None,
        Some(p) => match bumped(p, count_of(min, '.')) {
            None => None,
            Some(q) => Some(
                seq!['>', '=', ' '] + semver_text(p) + seq![',', ' ', '<', ' '] + semver_text(q),
            ),
        },
    }
}

/// What stands behind the `~>` of a pessimistic constraint, trimmed.
pub open spec fn pessimistic_operand(constraint: Seq<char>) -> Seq<char> {
    trim_seq(constraint.skip(2))
}

/// The text that is handed to the parser of semantic requirements for an
/// unescaped constraint: `~>` is written out as a range, `@` and `==` become
/// `=`, and a constraint that starts with a letter or number gets `=` in
/// front. Nothing where a pessimistic constraint has no usable version.
pub open spec fn transformed_clause(unescaped: Seq<char>) -> Option<Seq<char>> {
    if has_prefix(unescaped, seq!['~', '>']) {
        let min = pessimistic_operand(unescaped);
        pessimistic_range(min, semver_parse(corrected_version_text(min)))
    } else if has_prefix(unescaped, seq!['@']) {
        Some(seq!['='] + unescaped.skip(1))
    } else if has_prefix(unescaped, seq!['=', '=']) {
        Some(unescaped.skip(1))
    } else if unescaped.len() > 0 && is_alphanumeric(unescaped[0]) {
        Some(seq!['='] + unescaped)
    } else {
        Some(unescaped)
    }
}

/// The clauses `clauses`, each trimmed and brought into the form that the
/// parser of semantic requirements understands. Nothing where one of them
/// cannot be.
pub open spec fn transformed_clauses(clauses: Seq<Seq<char>>) -> Option<Seq<Seq<char>>>
    decreases clauses.len(),
{
    if clauses.len() == 0 {
        Some(Seq::<Seq<char>>::empty())
    } else {
        match (
            transformed_clauses(clauses.drop_last()),
            transformed_clause(trim_seq(clauses.last())),
        ) {
            (Some(before), Some(last)) => Some(before.push(last)),
            _ => None,
        }
    }
}

/// The text that is handed to the parser of semantic requirements for an
/// unescaped constraint: its clauses, which commas separate, each brought
/// into the form that the parser understands, with `, ` between them.
pub open spec fn transformed_constraint(unescaped: Seq<char>) -> Option<Seq<char>> {
    match transformed_clauses(split_seq(unescaped, ',')) {
        Some(clauses) => Some(crate::text::join_seq(clauses, seq![',', ' '])),
        None => None,
    }
}

/// The semantic range that a corrected constraint stands for, in its
/// displayed text; nothing where it is no semantic range.
pub open spec fn semver_range_of(corrected: Seq<char>) -> Option<Seq<char>> {
    match transformed_constraint(html_decoded(corrected)) {
        None => None,
        Some(t) => semver_req_text(t),
    }
}

/// A constraint without the `=` and then the `@` at its start, trimmed.
pub open spec fn bare_constraint(corrected: Seq<char>) -> Seq<char> {
    trim_seq(trim_start_char(trim_start_char(corrected, '='), '@'))
}

/// The requirement that a corrected constraint stands for, `range` being the
/// semantic range that it stands for, if any.
pub open spec fn requirement_of(corrected: Seq<char>, range: Option<Seq<char>>)
    -> PackageVersionReqView {
    match range {
        Some(t) => PackageVersionReqView::SemVer(t),
        None => {
            let bare = bare_constraint(corrected);
            if bare == scm_text() {
                PackageVersionReqView::DevVer(DevVersion::Scm)
            } else if bare == dev_text() {
                PackageVersionReqView::DevVer(DevVersion::Dev)
            } else {
                PackageVersionReqView::StringVer(bare)
            }
        },
    }
}

/// The text `*`.
pub open spec fn star_text() -> Seq<char> {
    seq!['*']
}

/// The requirement that `text` stands for: `*` is the unconstrained
/// requirement; any other text is corrected and read as a semantic range,
/// or else as a development marker or a free text.
pub open spec fn parse_req_spec(text: Seq<char>) -> PackageVersionReqView {
    if trim_seq(text) == star_text() {
        PackageVersionReqView::Any
    } else {
        let corrected = corrected_req_text(text);
        requirement_of(corrected, semver_range_of(corrected))
    }
}

/// A requirement that is written as `*`, with or without space around it,
/// admits every version.
pub proof fn lemma_star_admits_every_version(text: Seq<char>, version: PackageVersionView)
    requires
        trim_seq(text) == star_text(),
    ensures
        parse_req_spec(text) == PackageVersionReqView::Any,
        req_matches(parse_req_spec(text), version),
{
}

/// The requirement of a development marker admits the development versions
/// with that marker, whatever their revision, and no other version.
pub proof fn lemma_marker_admits_only_its_versions(marker: DevVersion, version: PackageVersionView)
    ensures
        req_matches(PackageVersionReqView::DevVer(marker), version) <==> (version
            is DevVer && version->DevVer_0.modrev == marker),
{
}

/// The number that a comparator writes, 0 where it writes none.
pub open spec fn written(number: Option<u64>) -> nat {
    match number {
        Some(n) => n as nat,
        None => 0,
    }
}

/// The version that a comparator names: its text, padded to three
/// components, with the pre-release behind `-` where there is one, and the
/// number of components that the comparator wrote.
pub open spec fn comparator_version(c: ComparatorView) -> (Seq<char>, nat) {
    (
        decimal_text(c.major as nat) + "."@ + decimal_text(written(c.minor)) + "."@ + decimal_text(
            written(c.patch),
        ) + (if c.pre.len() > 0 {
            "-"@ + c.pre
        } else {
            Seq::<char>::empty()
        }),
        if c.patch is Some {
            3
        } else if c.minor is Some {
            2
        } else {
            1
        },
    )
}

/// The exact version that a range names: the range must have comparators,
/// all of them exact; the first one gives the version. Nothing where the
/// range has another comparator or none, as `*` has.
pub open spec fn exact_version_of(range: Seq<char>) -> Option<(Seq<char>, nat)> {
    match semver_req_comparators(range) {
        Some(cs) => if cs.len() > 0 && forall|i: int|
            0 <= i < cs.len() ==> (#[trigger] cs[i]).op == Operator::Exact {
            Some(comparator_version(cs[0]))
        } else {
            None
        },
        None => None,
    }
}

/// The length of the run at the start of `v[from..]`.
fn run_end(v: &Vec<char>, from: usize) -> (end: usize)
    requires
        from < v.len(),
    ensures
        from < end <= v.len(),
        end - from == run_length(v@.skip(from as int)),
{
    let kind = is_version(v[from]);
    let mut i: usize = from + 1;
    proof {
        lemma_run_tail(v@, from as int, from as int);
    }
    while i < v.len() && is_version(v[i]) == kind
        invariant
            from < i <= v.len(),
            kind == is_version_char(v@[from as int]),
            forall|j: int| from <= j < i ==> is_version_char(#[trigger] v@[j]) == kind,
        decreases v.len() - i,
    {
        i = i + 1;
    }
    proof {
        lemma_run_is(v@.skip(from as int), (i - from) as int);
    }
    i
}

/// A prefix of `n` characters of one kind, not followed by another of that
/// kind, is the run at the start of `s`.
proof fn lemma_run_is(s: Seq<char>, n: int)
    requires
        1 <= n <= s.len(),
        forall|j: int| 0 <= j < n ==> is_version_char(#[trigger] s[j]) == is_version_char(s[0]),
        n < s.len() ==> is_version_char(s[n]) != is_version_char(s[0]),
    ensures
        run_length(s) == n,
    decreases n,
{
    if s.len() > 1 {
        if n == 1 {
            assert(is_version_char(s[1]) != is_version_char(s[0]));
        } else {
            assert(is_version_char(s[1]) == is_version_char(s[0]));
            let t = s.drop_first();
            assert forall|j: int| 0 <= j < n - 1 implies is_version_char(#[trigger] t[j])
                == is_version_char(t[0]) by {
                assert(t[j] == s[j + 1]);
                assert(t[0] == s[1]);
            }
            if n - 1 < t.len() {
                assert(t[n - 1] == s[n]);
                assert(t[0] == s[1]);
            }
            lemma_run_is(t, n - 1);
        }
    }
}

/// Nothing to show: the statement that lets `run_end` speak of `v[from..]`
/// by the positions of `v`.
proof fn lemma_run_tail(s: Seq<char>, from: int, j: int)
    requires
        0 <= from <= j < s.len(),
    ensures
        s.skip(from)[j - from] == s[j],
{
}

/// Whether `c` may stand in a version.
fn is_version(c: char) -> (r: bool)
    ensures
        r == is_version_char(c),
{
    is_alphanumeric_char(c) || c == '-' || c == '_' || c == '.'
}

/// Corrects one run of a requirement text.
fn correct_run(run: &Vec<char>) -> (r: Vec<char>)
    ensures
        r@ == corrected_run(run@),
{
    if run.len() > 0 && is_version(run[0]) && !is_known_dev_version_str(run) {
        let trimmed = trim_specrev(run);
        correct_prerelease_version_string(&trimmed)
    } else {
        copy_chars(run)
    }
}

/// Corrects a requirement text run by run, so that the parser of semantic
/// requirements can read versions of any width, with or without a revision.
pub fn correct_version_req_str(text: &Vec<char>) -> (r: Vec<char>)
    ensures
        r@ == corrected_req_text(text@),
{
    let mut r: Vec<char> = Vec::new();
    let mut i: usize = 0;
    proof {
        assert(text@.skip(0) =~= text@);
    }
    while i < text.len()
        invariant
            i <= text.len(),
            corrected_req_text(text@) == r@ + corrected_req_text(text@.skip(i as int)),
        decreases text.len() - i,
    {
        let end = run_end(text, i);
        let run = slice_of(text, i, end);
        let fixed = correct_run(&run);
        proof {
            let rest = text@.skip(i as int);
            lemma_run_length(rest);
            assert(rest.take(end - i) =~= text@.subrange(i as int, end as int));
            assert(rest.skip(end - i) =~= text@.skip(end as int));
            assert(r@ + (fixed@ + corrected_req_text(text@.skip(end as int))) =~= (r@ + fixed@)
                + corrected_req_text(text@.skip(end as int)));
        }
        append_chars(&mut r, &fixed);
        i = end;
    }
    proof {
        assert(text@.skip(text.len() as int).len() == 0);
        assert(r@ + text@.skip(text.len() as int) =~= r@);
    }
    r
}

/// The fields of `p` with one number raised by one.
fn bump(p: &SemVerParts, dots: usize) -> (r: Option<SemVerParts>)
    ensures
        match r {
            Some(q) => bumped(p@, dots as nat) == Some(q@),
            None => bumped(p@, dots as nat) is None,
        },
{
    let mut major = p.major;
    let mut minor = p.minor;
    let mut patch = p.patch;
    if dots == 0 {
        if major == u64::MAX {
            return None;
        }
        major = major + 1;
    } else if dots == 1 {
        if minor == u64::MAX {
            return None;
        }
        minor = minor + 1;
    } else {
        if patch == u64::MAX {
            return None;
        }
        patch = patch + 1;
    }
    Some(SemVerParts { major, minor, patch, pre: p.pre.clone(), build: p.build.clone() })
}

/// Writes a pessimistic constraint out as a range, given what the
/// semantic-version parser made of its corrected operand `min`.
pub fn pessimistic_range_of(min: &Vec<char>, parsed: Option<SemVerParts>) -> (r: Option<
    Vec<char>,
>)
    ensures
        match r {
            Some(t) => pessimistic_range(
                min@,
                match parsed {
                    Some(p) => Some(p@),
                    None => None,
                },
            ) == Some(t@),
            None => pessimistic_range(
                min@,
                match parsed {
                    Some(p) => Some(p@),
                    None => None,
                },
            ) is None,
        },
{
    match parsed {
        None => None,
        Some(p) => {
            let dots = count_char(min, '.');
            match bump(&p, dots) {
                None => None,
                Some(q) => {
                    let mut r: Vec<char> = Vec::new();
                    r.push('>');
                    r.push('=');
                    r.push(' ');
                    let low = render_semver(&p);
                    append_chars(&mut r, &low);
                    r.push(',');
                    r.push(' ');
                    r.push('<');
                    r.push(' ');
                    let high = render_semver(&q);
                    append_chars(&mut r, &high);
                    proof {
                        assert(r@ =~= seq!['>', '=', ' '] + semver_text(p@) + seq![
                            ',',
                            ' ',
                            '<',
                            ' ',
                        ] + semver_text(q@));
                    }
                    Some(r)
                },
            }
        },
    }
}

/// Writes a pessimistic constraint `~> V` out as the range from `V` up to
/// the next version that changes the component before the last one written.
pub fn parse_pessimistic_version_constraint(constraint: &Vec<char>) -> (r: Option<Vec<char>>)
    requires
        has_prefix(constraint@, seq!['~', '>']),
    ensures
        match r {
            Some(t) => transformed_clause(constraint@) == Some(t@),
            None => transformed_clause(constraint@) is None,
        },
{
    let operand = slice_of(constraint, 2, constraint.len());
    proof {
        assert(constraint@.subrange(2, constraint.len() as int) =~= constraint@.skip(2));
    }
    let min = trim_chars(&operand);
    let corrected = correct_version_string(&min);
    let parsed = parse_semver(string_of(&corrected).as_str());
    pessimistic_range_of(&min, parsed)
}

/// Whether `v` starts with the one character `c`.
fn starts_with_char(v: &Vec<char>, c: char) -> (r: bool)
    ensures
        r == has_prefix(v@, seq![c]),
{
    let r = v.len() > 0 && v[0] == c;
    proof {
        if r {
            assert(v@.take(1) =~= seq![c]);
        } else if v.len() > 0 {
            assert(v@.take(1)[0] == v@[0]);
        }
    }
    r
}

/// Whether `v` starts with the two characters `a` and `b`.
fn starts_with_two(v: &Vec<char>, a: char, b: char) -> (r: bool)
    ensures
        r == has_prefix(v@, seq![a, b]),
{
    let r = v.len() > 1 && v[0] == a && v[1] == b;
    proof {
        if r {
            assert(v@.take(2) =~= seq![a, b]);
        } else if v.len() > 1 {
            assert(v@.take(2)[0] == v@[0]);
            assert(v@.take(2)[1] == v@[1]);
        }
    }
    r
}

/// Turns an unescaped constraint into the text that the parser of semantic
/// requirements understands.
pub fn transform_clause(unescaped: &Vec<char>) -> (r: Option<Vec<char>>)
    ensures
        match r {
            Some(t) => transformed_clause(unescaped@) == Some(t@),
            None => transformed_clause(unescaped@) is None,
        },
{
    if starts_with_two(unescaped, '~', '>') {
        parse_pessimistic_version_constraint(unescaped)
    } else if starts_with_char(unescaped, '@') {
        let mut r: Vec<char> = Vec::new();
        r.push('=');
        let rest = slice_of(unescaped, 1, unescaped.len());
        append_chars(&mut r, &rest);
        proof {
            assert(unescaped@.subrange(1, unescaped.len() as int) =~= unescaped@.skip(1));
            assert(r@ =~= seq!['='] + unescaped@.skip(1));
        }
        Some(r)
    } else if starts_with_two(unescaped, '=', '=') {
        proof {
            assert(unescaped@.subrange(1, unescaped.len() as int) =~= unescaped@.skip(1));
        }
        Some(slice_of(unescaped, 1, unescaped.len()))
    } else if unescaped.len() > 0 && is_alphanumeric_char(unescaped[0]) {
        let mut r: Vec<char> = Vec::new();
        r.push('=');
        append_chars(&mut r, unescaped);
        proof {
            assert(r@ =~= seq!['='] + unescaped@);
        }
        Some(r)
    } else {
        Some(copy_chars(unescaped))
    }
}

/// Turns an unescaped constraint into the text that the parser of semantic
/// requirements understands, clause by clause.
pub fn transform_constraint(unescaped: &Vec<char>) -> (r: Option<Vec<char>>)
    ensures
        match r {
            Some(t) => transformed_constraint(unescaped@) == Some(t@),
            None => transformed_constraint(unescaped@) is None,
        },
{
    let clauses = split_chars(unescaped, ',');
    let ghost all = views(clauses@);
    let mut out: Vec<Vec<char>> = Vec::new();
    let mut i: usize = 0;
    proof {
        assert(all.take(0) =~= Seq::<Seq<char>>::empty());
    }
    while i < clauses.len()
        invariant
            i <= clauses.len(),
            all == views(clauses@),
            all == split_seq(unescaped@, ','),
            transformed_clauses(all.take(i as int)) == Some(views(out@)),
        decreases clauses.len() - i,
    {
        proof {
            assert(all.take(i as int + 1).drop_last() =~= all.take(i as int));
            assert(all.take(i as int + 1).last() == clauses@[i as int]@);
        }
        let clause = trim_chars(&clauses[i]);
        match transform_clause(&clause) {
            Some(t) => {
                let ghost before = out@;
                out.push(t);
                proof {
                    assert(views(before.push(t)) =~= views(before).push(t@));
                }
            },
            None => {
                proof {
                    assert(transformed_clause(trim_seq(all.take(i as int + 1).last())) is None);
                    assert(transformed_clauses(all.take(i as int + 1)) is None);
                    lemma_clauses_fail(all, i as int + 1);
                    assert(all == split_seq(unescaped@, ','));
                }
                return None;
            },
        }
        i = i + 1;
    }
    proof {
        assert(all.take(clauses.len() as int) =~= all);
    }
    let mut sep: Vec<char> = Vec::new();
    sep.push(',');
    sep.push(' ');
    proof {
        assert(sep@ =~= seq![',', ' ']);
    }
    Some(crate::text::join_chars(&out, &sep))
}

/// Where the first clauses cannot be transformed, the clauses cannot.
proof fn lemma_clauses_fail(clauses: Seq<Seq<char>>, n: int)
    requires
        0 <= n <= clauses.len(),
        transformed_clauses(clauses.take(n)) is None,
    ensures
        transformed_clauses(clauses) is None,
    decreases clauses.len() - n,
{
    if n < clauses.len() {
        assert(clauses.take(n + 1).drop_last() =~= clauses.take(n));
        lemma_clauses_fail(clauses, n + 1);
    } else {
        assert(clauses.take(n) =~= clauses);
    }
}

/// Reads a corrected constraint as a semantic range: the constraint is
/// unescaped, brought into the form that the parser of semantic requirements
/// understands, and parsed.
pub fn parse_version_req(corrected: &Vec<char>) -> (r: Option<String>)
    ensures
        match r {
            Some(t) => semver_range_of(corrected@) == Some(t@),
            None => semver_range_of(corrected@) is None,
        },
{
    let unescaped = html_unescape(string_of(corrected).as_str());
    match transform_constraint(&chars_of(unescaped.as_str())) {
        None => None,
        Some(t) => parse_semver_req(string_of(&t).as_str()),
    }
}

/// The exact version that a range names, if it names one: the version's
/// text padded to three components, and the number of components that the
/// range wrote.
pub fn exact_version(range: &Vec<char>) -> (r: Option<(Vec<char>, usize)>)
    ensures
        match r {
            Some((text, count)) => exact_version_of(range@) == Some((text@, count as nat)),
            None => exact_version_of(range@) is None,
        },
{
    let comparators = match semver_comparators(string_of(range).as_str()) {
        Some(cs) => cs,
        None => {
            return None;
        },
    };
    let ghost cs = comparators_view(comparators@);
    if comparators.len() == 0 {
        return None;
    }
    let mut i: usize = 0;
    while i < comparators.len()
        invariant
            i <= comparators.len(),
            cs == comparators_view(comparators@),
            semver_req_comparators(range@) == Some(cs),
            forall|j: int| 0 <= j < i ==> (#[trigger] cs[j]).op == Operator::Exact,
        decreases comparators.len() - i,
    {
        proof {
            assert(cs[i as int] == comparators@[i as int]@);
        }
        match comparators[i].op {
            Operator::Exact => {},
            _ => {
                proof {
                    assert(cs[i as int].op != Operator::Exact);
                }
                return None;
            },
        }
        i = i + 1;
    }
    let first = &comparators[0];
    proof {
        assert(cs[0] == first@);
    }
    let mut text = render_u64(first.major);
    text.push('.');
    let minor = match first.minor {
        Some(n) => n,
        None => 0,
    };
    append_chars(&mut text, &render_u64(minor));
    text.push('.');
    let patch = match first.patch {
        Some(n) => n,
        None => 0,
    };
    append_chars(&mut text, &render_u64(patch));
    if first.pre.as_str().unicode_len() > 0 {
        text.push('-');
        append_chars(&mut text, &chars_of(first.pre.as_str()));
    }
    let count: usize = match (first.minor, first.patch) {
        (_, Some(_)) => 3,
        (Some(_), None) => 2,
        (None, None) => 1,
    };
    proof {
        reveal_strlit(".");
        reveal_strlit("-");
        assert(text@ =~= comparator_version(first@).0);
    }
    Some((text, count))
}

/// The range that admits exactly the semantic version with the fields `p`:
/// `=` and the version without its build metadata.
pub open spec fn exact_range_text(p: SemVerPartsView) -> Seq<char> {
    seq!['='] + semver_text(SemVerPartsView { build: Seq::<char>::empty(), ..p })
}

/// The requirement that admits a version and no other of its kind. The
/// revision is lost.
pub open spec fn version_as_req(v: PackageVersionView) -> PackageVersionReqView {
    match v {
        PackageVersionView::SemVer(s) => PackageVersionReqView::SemVer(exact_range_text(s.parts)),
        PackageVersionView::DevVer(d) => PackageVersionReqView::DevVer(d.modrev),
        PackageVersionView::StringVer(s) => PackageVersionReqView::StringVer(s.modrev),
    }
}

/// The one version that a requirement names, at revision 1, if it names
/// one: a marker or a free text names itself, and a range names a version
/// where all its comparators are exact and the first one is a semantic
/// version. `parsed` is what the semantic-version parser made of that
/// version's text.
pub open spec fn req_as_version(req: PackageVersionReqView, parsed: Option<SemVerPartsView>)
    -> Option<PackageVersionView> {
    match req {
        PackageVersionReqView::SemVer(t) => match (exact_version_of(t), parsed) {
            (Some((_, count)), Some(parts)) => Some(
                PackageVersionView::SemVer(
                    SemVerView { parts, component_count: count, specrev: 1 },
                ),
            ),
            _ => None,
        },
        PackageVersionReqView::DevVer(d) => Some(
            PackageVersionView::DevVer(DevVer { modrev: d, specrev: 1 }),
        ),
        PackageVersionReqView::StringVer(t) => Some(
            PackageVersionView::StringVer(StringVerView { modrev: t, specrev: 1 }),
        ),
        PackageVersionReqView::Any => None,
    }
}

/// What the semantic-version parser makes of the exact version that a
/// requirement names, if it is a range that names one.
pub open spec fn exact_version_parsed(req: PackageVersionReqView) -> Option<SemVerPartsView> {
    match req {
        PackageVersionReqView::SemVer(t) => match exact_version_of(t) {
            Some((text, _)) => semver_parse(text),
            None => None,
        },
        _ => None,
    }
}

impl PackageVersion {
    /// The requirement that admits this version and no other of its kind.
    /// The revision is lost.
    pub fn into_version_req(&self) -> (r: PackageVersionReq)
        ensures
            r@ == version_as_req(self@),
    {
        match self {
            PackageVersion::DevVer(v) => PackageVersionReq::DevVer(v.modrev),
            PackageVersion::StringVer(_) => PackageVersionReq::StringVer(self.to_modrev_string()),
            PackageVersion::SemVer(v) => {
                let p = v.parts();
                let bare = SemVerParts {
                    major: p.major,
                    minor: p.minor,
                    patch: p.patch,
                    pre: p.pre,
                    build: String::new(),
                };
                let mut r: Vec<char> = Vec::new();
                r.push('=');
                let text = render_semver(&bare);
                append_chars(&mut r, &text);
                proof {
                    assert(bare@ == (SemVerPartsView { build: Seq::<char>::empty(), ..p@ }));
                    assert(r@ =~= seq!['='] + semver_text(bare@));
                }
                PackageVersionReq::SemVer(string_of(&r))
            },
        }
    }

    /// The one version that a requirement names, at revision 1. A range
    /// names one where it is made of exact comparators alone; the
    /// unconstrained requirement names none.
    pub fn try_from_req(req: &PackageVersionReq) -> (r: Result<Self, VersionReqToVersionError>)
        ensures
            match r {
                Ok(v) => req_as_version(req@, exact_version_parsed(req@)) == Some(v@),
                Err(VersionReqToVersionError::Any) => req@ is Any,
                Err(VersionReqToVersionError::NonExactVersionReq(t)) => {
                    &&& req@ == PackageVersionReqView::SemVer(t@)
                    &&& req_as_version(req@, exact_version_parsed(req@)) is None
                },
            },
    {
        match req {
            PackageVersionReq::SemVer(t) => {
                match exact_version(&chars_of(t.as_str())) {
                    None => Err(VersionReqToVersionError::NonExactVersionReq(t.clone())),
                    Some((text, count)) => {
                        match SemVer::new(string_of(&text).as_str(), count, 1) {
                            Some(v) => Ok(PackageVersion::SemVer(v)),
                            None => Err(VersionReqToVersionError::NonExactVersionReq(t.clone())),
                        }
                    },
                }
            },
            PackageVersionReq::DevVer(d) => Ok(PackageVersion::DevVer(DevVer::new(*d, 1))),
            PackageVersionReq::StringVer(t) => Ok(
                PackageVersion::StringVer(StringVer::new(t.as_str(), 1)),
            ),
            PackageVersionReq::Any => Err(VersionReqToVersionError::Any),
        }
    }
}

impl Clone for PackageVersionReq {
    fn clone(&self) -> (r: Self)
        ensures
            r@ == self@,
    {
        match self {
            PackageVersionReq::SemVer(t) => PackageVersionReq::SemVer(t.clone()),
            PackageVersionReq::DevVer(d) => PackageVersionReq::DevVer(*d),
            PackageVersionReq::StringVer(t) => PackageVersionReq::StringVer(t.clone()),
            PackageVersionReq::Any => PackageVersionReq::Any,
        }
    }
}

impl PackageVersionReq {
    /// The requirement that admits any version.
    pub fn any() -> (r: Self)
        ensures
            r@ == PackageVersionReqView::Any,
    {
        PackageVersionReq::Any
    }

    /// The requirement that a corrected constraint stands for, once it is
    /// known which semantic range it stands for, if any.
    pub fn from_range(corrected: &Vec<char>, range: Option<String>) -> (r: Self)
        ensures
            r@ == requirement_of(
                corrected@,
                match range {
                    Some(t) => Some(t@),
                    None => None,
                },
            ),
    {
        match range {
            Some(t) => PackageVersionReq::SemVer(t),
            None => {
                let a = trim_start_matches(corrected, '=');
                let b = trim_start_matches(&a, '@');
                let bare = trim_chars(&b);
                if is_scm_text(&bare) {
                    PackageVersionReq::DevVer(DevVersion::Scm)
                } else if is_dev_text(&bare) {
                    PackageVersionReq::DevVer(DevVersion::Dev)
                } else {
                    PackageVersionReq::StringVer(string_of(&bare))
                }
            },
        }
    }

    /// Reads a requirement. Every text is one: `*` admits anything, a text
    /// that is a semantic range after correction is that range, `dev` and
    /// `scm` (bare, or behind `==` or `@`) are development markers, and
    /// anything else is a free-text version.
    pub fn parse(text: &str) -> (r: Result<Self, PackageVersionReqError>)
        ensures
            r matches Ok(req) && req@ == parse_req_spec(text@),
    {
        let chars = chars_of(text);
        let trimmed = trim_chars(&chars);
        if trimmed.len() == 1 && trimmed[0] == '*' {
            proof {
                assert(trimmed@ =~= star_text());
            }
            return Ok(PackageVersionReq::Any);
        }
        let corrected = correct_version_req_str(&chars);
        let range = parse_version_req(&corrected);
        Ok(PackageVersionReq::from_range(&corrected, range))
    }

    /// Whether the requirement admits `version`.
    pub fn matches(&self, version: &PackageVersion) -> (r: bool)
        ensures
            r == req_matches(self@, version@),
    {
        match (self, version) {
            (PackageVersionReq::SemVer(req), PackageVersion::SemVer(_)) => {
                let text = version.to_modrev_string();
                semver_req_matches(req.as_str(), text.as_str())
            },
            (PackageVersionReq::DevVer(req), PackageVersion::DevVer(ver)) => *req == ver.modrev,
            (PackageVersionReq::StringVer(req), PackageVersion::StringVer(_)) => {
                let text = version.to_modrev_string();
                *req == text
            },
            (PackageVersionReq::Any, _) => true,
            _ => false,
        }
    }

    /// Whether the requirement admits any version.
    pub fn is_any(&self) -> (r: bool)
        ensures
            r == (self@ is Any),
    {
        match self {
            PackageVersionReq::Any => true,
            _ => false,
        }
    }

    /// Whether two requirements are the same.
    pub fn same_as(&self, other: &Self) -> (r: bool)
        ensures
            r == (self@ == other@),
    {
        match (self, other) {
            (PackageVersionReq::SemVer(a), PackageVersionReq::SemVer(b)) => *a == *b,
            (PackageVersionReq::DevVer(a), PackageVersionReq::DevVer(b)) => *a == *b,
            (PackageVersionReq::StringVer(a), PackageVersionReq::StringVer(b)) => *a == *b,
            (PackageVersionReq::Any, PackageVersionReq::Any) => true,
            _ => false,
        }
    }

    /// The text of the requirement.
    pub fn to_string(&self) -> (r: String)
        ensures
            r@ == req_text(self@),
    {
        match self {
            PackageVersionReq::SemVer(t) => {
                let chars = chars_of(t.as_str());
                if starts_with_char(&chars, '=') {
                    let mut r: Vec<char> = Vec::new();
                    r.push('=');
                    append_chars(&mut r, &chars);
                    proof {
                        assert(r@ =~= seq!['='] + chars@);
                    }
                    string_of(&r)
                } else if starts_with_char(&chars, '^') {
                    let mut r: Vec<char> = Vec::new();
                    r.push('~');
                    r.push('>');
                    let rest = slice_of(&chars, 1, chars.len());
                    append_chars(&mut r, &rest);
                    proof {
                        assert(chars@.subrange(1, chars.len() as int) =~= chars@.skip(1));
                        assert(r@ =~= seq!['~', '>'] + chars@.skip(1));
                    }
                    string_of(&r)
                } else {
                    t.clone()
                }
            },
            PackageVersionReq::DevVer(d) => {
                let mut r: Vec<char> = Vec::new();
                r.push('=');
                r.push('=');
                let name = dev_version_chars(*d);
                append_chars(&mut r, &name);
                proof {
                    assert(r@ =~= seq!['=', '='] + dev_version_text(*d));
                }
                string_of(&r)
            },
            PackageVersionReq::StringVer(t) => {
                let mut r: Vec<char> = Vec::new();
                r.push('=');
                r.push('=');
                let name = chars_of(t.as_str());
                append_chars(&mut r, &name);
                proof {
                    assert(r@ =~= seq!['=', '='] + t@);
                }
                string_of(&r)
            },
            PackageVersionReq::Any => {
                let mut r: Vec<char> = Vec::new();
                r.push('a');
                r.push('n');
                r.push('y');
                proof {
                    assert(r@ =~= seq!['a', 'n', 'y']);
                }
                string_of(&r)
            },
        }
    }
}

} // verus!
