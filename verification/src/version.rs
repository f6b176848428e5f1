//! Package versions: semantic, development and free-text versions, each with
//! a rockspec revision, their parsing, rendering and order.

use crate::semantic::{
    parse_semver, render_semver, semver_order, semver_parse, semver_parts, semver_precedence,
    semver_text, SemVerParts, SemVerPartsView, Sign,
};
use crate::text::{
    all_digits, append_chars, chars_eq, chars_less, chars_of, copy_chars, count_char, count_of,
    decimal_text, decimal_value, find_last, is_all_digits, join_range, join_seq, last_index_of,
    lemma_count_bound, lemma_last_index_of, lex_less, parse_u16, render_u64, slice_of,
    split_chars, split_seq, string_of, views,
};
use vstd::prelude::*;

verus! {

/// The two markers of a development version.
#[derive(Copy, Clone, Debug, PartialEq, Eq, Hash, Structural)]
pub enum DevVersion {
    Dev,
    Scm,
}

/// A semantic version, a little lenient: the number of components that its
/// text had is kept, so that it is written back at the same width.
#[derive(Debug, PartialEq, Eq, Hash)]
pub struct SemVer {
    parts: SemVerParts,
    component_count: usize,
    specrev: u16,
}

/// A development version.
#[derive(Copy, Clone, Debug, PartialEq, Eq, Hash, Structural)]
pub struct DevVer {
    pub modrev: DevVersion,
    pub specrev: u16,
}

/// A version that is neither semantic nor a known development marker.
#[derive(Debug, PartialEq, Eq, Hash)]
pub struct StringVer {
    modrev: String,
    specrev: u16,
}

/// The version of a package.
#[derive(Debug, PartialEq, Eq, Hash)]
pub enum PackageVersion {
    SemVer(SemVer),
    DevVer(DevVer),
    StringVer(StringVer),
}

/// A semantic version as plain values.
pub struct SemVerView {
    pub parts: SemVerPartsView,
    pub component_count: nat,
    pub specrev: u16,
}

/// A free-text version as plain values.
pub struct StringVerView {
    pub modrev: Seq<char>,
    pub specrev: u16,
}

/// A version as plain values.
pub enum PackageVersionView {
    SemVer(SemVerView),
    DevVer(DevVer),
    StringVer(StringVerView),
}

/// Why a version text has no usable rockspec revision.
#[derive(Debug, PartialEq, Eq)]
pub enum SpecrevParseError {
    /// What follows the last `-` is not a number of 16 bits.
    InvalidSpecrev { specrev: String, full_version: String },
    /// The text cannot be cut behind its last `-`.
    InvalidVersion(String),
}

/// Why a text is no package version.
#[derive(Debug, PartialEq, Eq)]
pub enum PackageVersionParseError {
    Specrev(SpecrevParseError),
    Version(String),
}

impl View for SemVer {
    type V = SemVerView;

    closed spec fn view(&self) -> SemVerView {
        SemVerView {
            parts: self.parts@,
            component_count: self.component_count as nat,
            specrev: self.specrev,
        }
    }
}

impl View for StringVer {
    type V = StringVerView;

    closed spec fn view(&self) -> StringVerView {
        StringVerView { modrev: self.modrev@, specrev: self.specrev }
    }
}

impl View for PackageVersion {
    type V = PackageVersionView;

    open spec fn view(&self) -> PackageVersionView {
        match self {
            PackageVersion::SemVer(v) => PackageVersionView::SemVer(v@),
            PackageVersion::DevVer(v) => PackageVersionView::DevVer(*v),
            PackageVersion::StringVer(v) => PackageVersionView::StringVer(v@),
        }
    }
}

/// The text `dev`.
pub open spec fn dev_text() -> Seq<char> {
    seq!['d', 'e', 'v']
}

/// The text `scm`.
pub open spec fn scm_text() -> Seq<char> {
    seq!['s', 'c', 'm']
}

/// The text of a development marker.
pub open spec fn dev_version_text(d: DevVersion) -> Seq<char> {
    match d {
        DevVersion::Dev => dev_text(),
        DevVersion::Scm => scm_text(),
    }
}

/// A version text cut at its last `-`: what stands before it, and the
/// revision behind it (1 where the text has no `-`). Where what stands behind
/// is not a number of 16 bits, that text is the error.
pub open spec fn split_specrev_spec(text: Seq<char>) -> Result<(Seq<char>, u16), Seq<char>> {
    match last_index_of(text, '-') {
        None => Ok((text, 1u16)),
        Some(pos) => {
            let tail = text.skip(pos + 1);
            if tail.len() > 0 && all_digits(tail) && decimal_value(tail) <= u16::MAX {
                Ok((text.take(pos), decimal_value(tail) as u16))
            } else {
                Err(tail)
            }
        },
    }
}

/// `version` with `.0` appended until it has a minor and a patch component.
pub open spec fn with_minor_patch(version: Seq<char>) -> Seq<char> {
    if count_of(version, '.') == 0 {
        version + seq!['.', '0', '.', '0']
    } else if count_of(version, '.') == 1 {
        version + seq!['.', '0']
    } else {
        version
    }
}

/// `version` with its fourth and later dotted components turned into a
/// pre-release: `1.0.0.10.0` becomes `1.0.0-10.0`.
pub open spec fn with_prerelease(version: Seq<char>) -> Seq<char> {
    let parts = split_seq(version, '.');
    if parts.len() > 3 {
        parts[0] + seq!['.'] + parts[1] + seq!['.'] + parts[2] + seq!['-'] + join_seq(
            parts.skip(3),
            seq!['.'],
        )
    } else {
        version
    }
}

/// The text that is handed to the semantic-version parser for `version`.
pub open spec fn corrected_version_text(version: Seq<char>) -> Seq<char> {
    with_prerelease(with_minor_patch(version))
}

/// How many components a semantic version shows: one more than its text has
/// dots, three at most.
pub open spec fn shown_components(text: Seq<char>) -> nat {
    if count_of(text, '.') + 1 < 3 {
        count_of(text, '.') + 1
    } else {
        3
    }
}

/// The version that a text with the given parts stands for, `parsed` being
/// what the semantic-version parser made of the corrected `modrev`.
pub open spec fn classify_spec(
    text: Seq<char>,
    modrev: Seq<char>,
    specrev: u16,
    parsed: Option<SemVerPartsView>,
) -> PackageVersionView {
    if modrev == scm_text() {
        PackageVersionView::DevVer(DevVer { modrev: DevVersion::Scm, specrev })
    } else if modrev == dev_text() {
        PackageVersionView::DevVer(DevVer { modrev: DevVersion::Dev, specrev })
    } else {
        match parsed {
            Some(parts) => PackageVersionView::SemVer(
                SemVerView { parts, component_count: shown_components(text), specrev },
            ),
            None => PackageVersionView::StringVer(StringVerView { modrev, specrev }),
        }
    }
}

/// The version that `text` stands for, or the text of its unusable revision.
pub open spec fn parse_version_spec(text: Seq<char>) -> Result<PackageVersionView, Seq<char>> {
    match split_specrev_spec(text) {
        Err(tail) => Err(tail),
        Ok((modrev, specrev)) => Ok(
            classify_spec(text, modrev, specrev, semver_parse(corrected_version_text(modrev))),
        ),
    }
}

/// A semantic version's text cut at its last `-`: the part before, and the
/// part behind where there is a `-`.
pub open spec fn split_semver_text(t: Seq<char>) -> (Seq<char>, Option<Seq<char>>) {
    match last_index_of(t, '-') {
        Some(pos) => (t.take(pos), Some(t.skip(pos + 1))),
        None => (t, None),
    }
}

/// The first `n` of the dotted components of `head`, or all of them where it
/// has fewer.
pub open spec fn leading_components(head: Seq<char>, n: nat) -> Seq<char> {
    let comps = split_seq(head, '.');
    join_seq(
        comps.take(
            if n <= comps.len() {
                n as int
            } else {
                comps.len() as int
            },
        ),
        seq!['.'],
    )
}

/// The text of a semantic version without its revision: as many components
/// as its text had, then what the semantic version holds behind its last `-`
/// as further dotted components.
pub open spec fn semver_modrev_text(v: SemVerView) -> Seq<char> {
    let (head, rest) = split_semver_text(semver_text(v.parts));
    let shown = leading_components(head, v.component_count);
    match rest {
        Some(r) => shown + seq!['.'] + r,
        None => shown,
    }
}

/// The text of a version: what stands for the version itself, `-`, and the
/// revision.
pub open spec fn version_text(v: PackageVersionView) -> Seq<char> {
    match v {
        PackageVersionView::SemVer(s) => semver_modrev_text(s) + seq!['-'] + decimal_text(
            s.specrev as nat,
        ),
        PackageVersionView::DevVer(d) => dev_version_text(d.modrev) + seq!['-'] + decimal_text(
            d.specrev as nat,
        ),
        PackageVersionView::StringVer(s) => s.modrev + seq!['-'] + decimal_text(
            s.specrev as nat,
        ),
    }
}

/// A version text in its canonical form: the revision is written out as a
/// plain number, 1 where the text has none, and a semantic version shows as
/// many components as the text had.
pub open spec fn normalized(text: Seq<char>) -> Seq<char> {
    match split_specrev_spec(text) {
        Ok((modrev, specrev)) => {
            let shown = if modrev == scm_text() || modrev == dev_text() {
                modrev
            } else {
                match semver_parse(corrected_version_text(modrev)) {
                    Some(parts) => semver_modrev_text(
                        SemVerView { parts, component_count: shown_components(text), specrev },
                    ),
                    None => modrev,
                }
            };
            shown + seq!['-'] + decimal_text(specrev as nat)
        },
        Err(_) => text,
    }
}

/// The text of the version that a text stands for is the text in its
/// canonical form.
pub proof fn lemma_parsed_version_shows_normalized(text: Seq<char>)
    requires
        parse_version_spec(text) is Ok,
    ensures
        version_text(parse_version_spec(text)->Ok_0) == normalized(text),
{
}

/// A text with a revision that is written as a plain number, before which
/// stands a development marker or what is no semantic version, is its own
/// canonical form.
pub proof fn lemma_canonical_text_is_kept(text: Seq<char>)
    requires
        last_index_of(text, '-') is Some,
        split_specrev_spec(text) is Ok,
        decimal_text(split_specrev_spec(text)->Ok_0.1 as nat) == text.skip(
            last_index_of(text, '-')->0 + 1,
        ),
        ({
            let modrev = split_specrev_spec(text)->Ok_0.0;
            modrev == scm_text() || modrev == dev_text() || semver_parse(
                corrected_version_text(modrev),
            ) is None
        }),
    ensures
        normalized(text) == text,
{
    let pos = last_index_of(text, '-')->0;
    lemma_last_index_of(text, '-');
    assert(text.take(pos) + seq!['-'] + text.skip(pos + 1) =~= text);
}

/// The text of a version without its revision. For a semantic version this
/// is the full semantic text, at whatever width the version was written.
pub open spec fn modrev_text(v: PackageVersionView) -> Seq<char> {
    match v {
        PackageVersionView::SemVer(s) => semver_text(s.parts),
        PackageVersionView::DevVer(d) => dev_version_text(d.modrev),
        PackageVersionView::StringVer(s) => s.modrev,
    }
}

/// How two numbers compare.
pub open spec fn int_order(a: int, b: int) -> Sign {
    if a < b {
        Sign::Less
    } else if a == b {
        Sign::Equal
    } else {
        Sign::Greater
    }
}

/// How two texts compare in dictionary order.
pub open spec fn text_order(a: Seq<char>, b: Seq<char>) -> Sign {
    if lex_less(a, b) {
        Sign::Less
    } else if a == b {
        Sign::Equal
    } else {
        Sign::Greater
    }
}

/// The rank of a development marker: `dev` before `scm`.
pub open spec fn dev_rank(d: DevVersion) -> int {
    match d {
        DevVersion::Dev => 0,
        DevVersion::Scm => 1,
    }
}

/// The order of versions. Across kinds, free-text versions come first, then
/// semantic ones, then development versions. Semantic versions go by their
/// semantic order, then by revision; the others by revision, then by marker
/// or text.
pub open spec fn version_order(a: PackageVersionView, b: PackageVersionView) -> Sign {
    match (a, b) {
        (PackageVersionView::SemVer(x), PackageVersionView::SemVer(y)) => {
            match semver_order(semver_text(x.parts), semver_text(y.parts)) {
                Some(Sign::Less) => Sign::Less,
                Some(Sign::Greater) => Sign::Greater,
                _ => int_order(x.specrev as int, y.specrev as int),
            }
        },
        (PackageVersionView::SemVer(_), PackageVersionView::DevVer(_)) => Sign::Less,
        (PackageVersionView::SemVer(_), PackageVersionView::StringVer(_)) => Sign::Greater,
        (PackageVersionView::DevVer(_), PackageVersionView::SemVer(_)) => Sign::Greater,
        (PackageVersionView::DevVer(x), PackageVersionView::DevVer(y)) => {
            if x.specrev != y.specrev {
                int_order(x.specrev as int, y.specrev as int)
            } else {
                int_order(dev_rank(x.modrev), dev_rank(y.modrev))
            }
        },
        (PackageVersionView::DevVer(_), PackageVersionView::StringVer(_)) => Sign::Greater,
        (PackageVersionView::StringVer(x), PackageVersionView::StringVer(y)) => {
            if x.specrev != y.specrev {
                int_order(x.specrev as int, y.specrev as int)
            } else {
                text_order(x.modrev, y.modrev)
            }
        },
        (PackageVersionView::StringVer(_), PackageVersionView::SemVer(_)) => Sign::Less,
        (PackageVersionView::StringVer(_), PackageVersionView::DevVer(_)) => Sign::Less,
    }
}

/// Whether `v` is the text `dev`.
pub fn is_dev_text(v: &Vec<char>) -> (r: bool)
    ensures
        r == (v@ == dev_text()),
{
    let r = v.len() == 3 && v[0] == 'd' && v[1] == 'e' && v[2] == 'v';
    proof {
        if r {
            assert(v@ =~= dev_text());
        }
    }
    r
}

/// Whether `v` is the text `scm`.
pub fn is_scm_text(v: &Vec<char>) -> (r: bool)
    ensures
        r == (v@ == scm_text()),
{
    let r = v.len() == 3 && v[0] == 's' && v[1] == 'c' && v[2] == 'm';
    proof {
        if r {
            assert(v@ =~= scm_text());
        }
    }
    r
}

/// Whether `text` is one of the known development markers.
pub fn is_known_dev_version_str(text: &Vec<char>) -> (r: bool)
    ensures
        r == (text@ == dev_text() || text@ == scm_text()),
{
    is_dev_text(text) || is_scm_text(text)
}

/// The characters of a development marker.
pub fn dev_version_chars(d: DevVersion) -> (r: Vec<char>)
    ensures
        r@ == dev_version_text(d),
{
    let mut r: Vec<char> = Vec::new();
    match d {
        DevVersion::Dev => {
            r.push('d');
            r.push('e');
            r.push('v');
            proof {
                assert(r@ =~= dev_text());
            }
        },
        DevVersion::Scm => {
            r.push('s');
            r.push('c');
            r.push('m');
            proof {
                assert(r@ =~= scm_text());
            }
        },
    }
    r
}

/// Cuts a version text at its last `-` into what stands for the version and
/// the revision, which is 1 where the text has no `-`.
pub fn split_specrev(version: &Vec<char>) -> (r: Result<(Vec<char>, u16), SpecrevParseError>)
    ensures
        match r {
            Ok((modrev, specrev)) => split_specrev_spec(version@) == Ok::<
                (Seq<char>, u16),
                Seq<char>,
            >((modrev@, specrev)),
            Err(SpecrevParseError::InvalidSpecrev { specrev, full_version }) => {
                &&& split_specrev_spec(version@) == Err::<(Seq<char>, u16), Seq<char>>(specrev@)
                &&& full_version@ == version@
            },
            Err(SpecrevParseError::InvalidVersion(_)) => false,
        },
{
    match find_last(version, '-') {
        None => Ok((copy_chars(version), 1)),
        Some(pos) => {
            proof {
                lemma_last_index_of(version@, '-');
                assert(last_index_of(version@, '-') == Some(pos as int));
                assert(pos < version.len());
            }
            let tail = slice_of(version, pos + 1, version.len());
            proof {
                assert(version@.subrange(pos as int + 1, version.len() as int) =~= version@.skip(
                    pos as int + 1,
                ));
            }
            if is_all_digits(&tail) {
                match parse_u16(&tail) {
                    Some(n) => {
                        let modrev = slice_of(version, 0, pos);
                        proof {
                            assert(version@.subrange(0, pos as int) =~= version@.take(pos as int));
                        }
                        Ok((modrev, n))
                    },
                    None => Err(
                        SpecrevParseError::InvalidSpecrev {
                            specrev: string_of(&tail),
                            full_version: string_of(version),
                        },
                    ),
                }
            } else {
                Err(
                    SpecrevParseError::InvalidSpecrev {
                        specrev: string_of(&tail),
                        full_version: string_of(version),
                    },
                )
            }
        },
    }
}

/// What stands before the last `-` of `version`, or all of it where it has
/// none.
pub open spec fn trim_specrev_spec(version: Seq<char>) -> Seq<char> {
    match last_index_of(version, '-') {
        Some(pos) => version.take(pos),
        None => version,
    }
}

/// Cuts a revision off a version text.
pub fn trim_specrev(version: &Vec<char>) -> (r: Vec<char>)
    ensures
        r@ == trim_specrev_spec(version@),
{
    match find_last(version, '-') {
        Some(pos) => {
            proof {
                lemma_last_index_of(version@, '-');
                assert(version@.subrange(0, pos as int) =~= version@.take(pos as int));
            }
            slice_of(version, 0, pos)
        },
        None => copy_chars(version),
    }
}

/// Appends `.0` until the version has a minor and a patch component.
pub fn append_minor_patch_if_missing(version: &Vec<char>) -> (r: Vec<char>)
    ensures
        r@ == with_minor_patch(version@),
{
    let dots = count_char(version, '.');
    let mut r = copy_chars(version);
    if dots < 2 {
        r.push('.');
        r.push('0');
        if dots < 1 {
            r.push('.');
            r.push('0');
            proof {
                assert(r@ =~= version@ + seq!['.', '0', '.', '0']);
            }
        } else {
            proof {
                assert(r@ =~= version@ + seq!['.', '0']);
            }
        }
    }
    r
}

/// Turns the fourth and later dotted components into a pre-release.
pub fn correct_prerelease_version_string(version: &Vec<char>) -> (r: Vec<char>)
    ensures
        r@ == with_prerelease(version@),
{
    let parts = split_chars(version, '.');
    if parts.len() > 3 {
        let mut dot: Vec<char> = Vec::new();
        dot.push('.');
        let mut r = copy_chars(&parts[0]);
        r.push('.');
        append_chars(&mut r, &parts[1]);
        r.push('.');
        append_chars(&mut r, &parts[2]);
        r.push('-');
        let rest = join_range(&parts, 3, parts.len(), &dot);
        append_chars(&mut r, &rest);
        proof {
            let ps = split_seq(version@, '.');
            assert(ps == views(parts@));
            assert(views(parts@).subrange(3, parts.len() as int) =~= ps.skip(3));
            assert(dot@ =~= seq!['.']);
            assert(ps[0] == parts@[0]@);
            assert(ps[1] == parts@[1]@);
            assert(ps[2] == parts@[2]@);
            assert(r@ =~= ps[0] + seq!['.'] + ps[1] + seq!['.'] + ps[2] + seq!['-'] + join_seq(
                ps.skip(3),
                seq!['.'],
            ));
        }
        r
    } else {
        copy_chars(version)
    }
}

/// Corrects a version text that is wider or narrower than a semantic
/// version: pads it to three components, and turns further ones into a
/// pre-release.
pub fn correct_version_string(version: &Vec<char>) -> (r: Vec<char>)
    ensures
        r@ == corrected_version_text(version@),
{
    let padded = append_minor_patch_if_missing(version);
    correct_prerelease_version_string(&padded)
}

/// Cuts the text of a semantic version at its last `-`.
pub fn split_semver_version(version: &Vec<char>) -> (r: (Vec<char>, Option<Vec<char>>))
    ensures
        r.0@ == split_semver_text(version@).0,
        match r.1 {
            Some(rest) => split_semver_text(version@).1 == Some(rest@),
            None => split_semver_text(version@).1 is None,
        },
{
    match find_last(version, '-') {
        Some(pos) => {
            proof {
                lemma_last_index_of(version@, '-');
                assert(version@.subrange(0, pos as int) =~= version@.take(pos as int));
                assert(version@.subrange(pos as int + 1, version.len() as int) =~= version@.skip(
                    pos as int + 1,
                ));
            }
            (slice_of(version, 0, pos), Some(slice_of(version, pos + 1, version.len())))
        },
        None => (copy_chars(version), None),
    }
}

/// Compares two numbers.
pub fn order_u64(a: u64, b: u64) -> (r: Sign)
    ensures
        r == int_order(a as int, b as int),
{
    if a < b {
        Sign::Less
    } else if a == b {
        Sign::Equal
    } else {
        Sign::Greater
    }
}

/// Compares two texts in dictionary order.
pub fn order_chars(a: &Vec<char>, b: &Vec<char>) -> (r: Sign)
    ensures
        r == text_order(a@, b@),
{
    if chars_less(a, b) {
        Sign::Less
    } else if chars_eq(a, b) {
        Sign::Equal
    } else {
        Sign::Greater
    }
}

impl DevVersion {
    /// The marker's text, `dev` or `scm`.
    pub fn to_string(&self) -> (r: String)
        ensures
            r@ == dev_version_text(*self),
    {
        string_of(&dev_version_chars(*self))
    }
}

impl Default for DevVersion {
    fn default() -> (r: Self)
        ensures
            r == DevVersion::Dev,
    {
        DevVersion::Dev
    }
}

impl Default for DevVer {
    fn default() -> (r: Self)
        ensures
            r == (DevVer { modrev: DevVersion::Dev, specrev: 1 }),
    {
        DevVer { modrev: DevVersion::Dev, specrev: 1 }
    }
}

impl DevVer {
    /// A development version with the given marker and revision.
    pub fn new(modrev: DevVersion, specrev: u16) -> (r: Self)
        ensures
            r == (DevVer { modrev, specrev }),
    {
        DevVer { modrev, specrev }
    }
}

impl Clone for StringVer {
    fn clone(&self) -> (r: Self)
        ensures
            r@ == self@,
    {
        StringVer { modrev: self.modrev.clone(), specrev: self.specrev }
    }
}

impl StringVer {
    /// A free-text version with the given text and revision.
    pub fn new(modrev: &str, specrev: u16) -> (r: Self)
        ensures
            r@ == (StringVerView { modrev: modrev@, specrev }),
    {
        StringVer { modrev: string_of(&chars_of(modrev)), specrev }
    }
}

impl Clone for SemVer {
    fn clone(&self) -> (r: Self)
        ensures
            r@ == self@,
            r.wf(),
    {
        proof {
            use_type_invariant(self);
        }
        SemVer {
            parts: SemVerParts {
                major: self.parts.major,
                minor: self.parts.minor,
                patch: self.parts.patch,
                pre: self.parts.pre.clone(),
                build: self.parts.build.clone(),
            },
            component_count: self.component_count,
            specrev: self.specrev,
        }
    }
}

impl SemVer {
    /// What holds of every semantic version: written out, it is a text that
    /// the semantic-version parser reads as the same fields.
    #[verifier::type_invariant]
    pub closed spec fn wf(self) -> bool {
        semver_parse(semver_text(self.parts@)) == Some(self.parts@)
    }

    /// The semantic version that `version` is the strict text of, shown with
    /// `component_count` components (three at most) and with the given
    /// revision; nothing where `version` is no semantic version.
    pub fn new(version: &str, component_count: usize, specrev: u16) -> (r: Option<Self>)
        ensures
            match r {
                Some(v) => semver_parse(version@) == Some(v@.parts) && v@.component_count == (
                if component_count < 3 {
                    component_count
                } else {
                    3
                }) && v@.specrev == specrev && v.wf(),
                None => semver_parse(version@) is None,
            },
    {
        match parse_semver(version) {
            Some(parts) => Some(
                SemVer {
                    parts,
                    component_count: if component_count < 3 {
                        component_count
                    } else {
                        3
                    },
                    specrev,
                },
            ),
            None => None,
        }
    }

    /// The fields of the semantic version.
    pub fn parts(&self) -> (r: SemVerParts)
        ensures
            r@ == self@.parts,
    {
        SemVerParts {
            major: self.parts.major,
            minor: self.parts.minor,
            patch: self.parts.patch,
            pre: self.parts.pre.clone(),
            build: self.parts.build.clone(),
        }
    }

    /// The text of the version without its revision.
    pub fn modrev_chars(&self) -> (r: Vec<char>)
        ensures
            r@ == semver_modrev_text(self@),
    {
        let text = render_semver(&self.parts);
        let (head, rest) = split_semver_version(&text);
        let comps = split_chars(&head, '.');
        let n = if self.component_count <= comps.len() {
            self.component_count
        } else {
            comps.len()
        };
        let mut dot: Vec<char> = Vec::new();
        dot.push('.');
        let mut shown = join_range(&comps, 0, n, &dot);
        proof {
            assert(dot@ =~= seq!['.']);
            assert(views(comps@).subrange(0, n as int) =~= split_seq(head@, '.').take(n as int));
        }
        match rest {
            Some(r) => {
                shown.push('.');
                append_chars(&mut shown, &r);
                proof {
                    let s = leading_components(head@, self@.component_count);
                    assert(shown@ =~= s + seq!['.'] + r@);
                }
            },
            None => {},
        }
        shown
    }
}

impl Clone for PackageVersion {
    fn clone(&self) -> (r: Self)
        ensures
            r@ == self@,
    {
        match self {
            PackageVersion::SemVer(v) => PackageVersion::SemVer(v.clone()),
            PackageVersion::DevVer(v) => PackageVersion::DevVer(*v),
            PackageVersion::StringVer(v) => PackageVersion::StringVer(v.clone()),
        }
    }
}

impl PackageVersion {
    /// The version that a text stands for once its parts are known. `parsed`
    /// is what the semantic-version parser made of the corrected `modrev`.
    pub fn classify(
        text: &Vec<char>,
        modrev: Vec<char>,
        specrev: u16,
        parsed: Option<SemVer>,
    ) -> (r: Self)
        requires
            parsed matches Some(v) ==> v@.component_count == shown_components(text@)
                && v@.specrev == specrev,
        ensures
            r@ == classify_spec(
                text@,
                modrev@,
                specrev,
                match parsed {
                    Some(v) => Some(v@.parts),
                    None => None,
                },
            ),
    {
        if is_scm_text(&modrev) {
            PackageVersion::DevVer(DevVer { modrev: DevVersion::Scm, specrev })
        } else if is_dev_text(&modrev) {
            PackageVersion::DevVer(DevVer { modrev: DevVersion::Dev, specrev })
        } else {
            match parsed {
                Some(v) => PackageVersion::SemVer(v),
                None => PackageVersion::StringVer(
                    StringVer { modrev: string_of(&modrev), specrev },
                ),
            }
        }
    }

    /// Reads a version. The text is cut at its last `-` into the version
    /// proper and the revision; `scm` and `dev` are development versions,
    /// what corrects to a semantic version is one, and anything else is a
    /// free-text version. Only an unusable revision is an error.
    pub fn parse(text: &str) -> (r: Result<Self, PackageVersionParseError>)
        ensures
            match r {
                Ok(v) => parse_version_spec(text@) == Ok::<PackageVersionView, Seq<char>>(v@),
                Err(PackageVersionParseError::Specrev(
                    SpecrevParseError::InvalidSpecrev { specrev, full_version },
                )) => parse_version_spec(text@) == Err::<PackageVersionView, Seq<char>>(specrev@)
                    && full_version@ == text@,
                Err(_) => false,
            },
    {
        let chars = chars_of(text);
        match split_specrev(&chars) {
            Err(e) => Err(PackageVersionParseError::Specrev(e)),
            Ok((modrev, specrev)) => {
                let corrected = correct_version_string(&modrev);
                let dots = count_char(&chars, '.');
                proof {
                    lemma_count_bound(chars@, '.');
                }
                let shown = if dots < 2 {
                    dots + 1
                } else {
                    3
                };
                let parsed = SemVer::new(string_of(&corrected).as_str(), shown, specrev);
                Ok(PackageVersion::classify(&chars, modrev, specrev, parsed))
            },
        }
    }

    /// The text of the version: the version proper, `-`, the revision.
    pub fn to_string(&self) -> (r: String)
        ensures
            r@ == version_text(self@),
    {
        let (mut out, specrev) = match self {
            PackageVersion::SemVer(v) => (v.modrev_chars(), v.specrev),
            PackageVersion::DevVer(v) => (dev_version_chars(v.modrev), v.specrev),
            PackageVersion::StringVer(v) => (chars_of(v.modrev.as_str()), v.specrev),
        };
        out.push('-');
        let rev = render_u64(specrev as u64);
        append_chars(&mut out, &rev);
        string_of(&out)
    }

    /// The text of the version without its revision.
    pub fn to_modrev_string(&self) -> (r: String)
        ensures
            r@ == modrev_text(self@),
    {
        match self {
            PackageVersion::SemVer(v) => string_of(&render_semver(&v.parts)),
            PackageVersion::DevVer(v) => string_of(&dev_version_chars(v.modrev)),
            PackageVersion::StringVer(v) => v.modrev.clone(),
        }
    }

    /// Whether the version is a semantic one.
    pub fn is_semver(&self) -> (r: bool)
        ensures
            r == (self@ is SemVer),
    {
        match self {
            PackageVersion::SemVer(_) => true,
            _ => false,
        }
    }

    /// The version `dev-1`.
    pub fn default_dev_version() -> (r: Self)
        ensures
            r@ == PackageVersionView::DevVer(DevVer { modrev: DevVersion::Dev, specrev: 1 }),
    {
        PackageVersion::DevVer(DevVer { modrev: DevVersion::Dev, specrev: 1 })
    }

    /// The revision of the version.
    pub fn specrev(&self) -> (r: u16)
        ensures
            r == match self@ {
                PackageVersionView::SemVer(v) => v.specrev,
                PackageVersionView::DevVer(v) => v.specrev,
                PackageVersionView::StringVer(v) => v.specrev,
            },
    {
        match self {
            PackageVersion::SemVer(v) => v.specrev,
            PackageVersion::DevVer(v) => v.specrev,
            PackageVersion::StringVer(v) => v.specrev,
        }
    }

    /// Whether two versions are the same: same kind, same fields, same width
    /// and same revision.
    pub fn same_as(&self, other: &Self) -> (r: bool)
        ensures
            r == (self@ == other@),
    {
        match (self, other) {
            (PackageVersion::SemVer(a), PackageVersion::SemVer(b)) => {
                let r = a.parts.major == b.parts.major && a.parts.minor == b.parts.minor
                    && a.parts.patch == b.parts.patch && a.parts.pre == b.parts.pre
                    && a.parts.build == b.parts.build && a.component_count == b.component_count
                    && a.specrev == b.specrev;
                proof {
                    if !r {
                        assert(a@ != b@);
                    }
                }
                r
            },
            (PackageVersion::DevVer(a), PackageVersion::DevVer(b)) => a.modrev == b.modrev
                && a.specrev == b.specrev,
            (PackageVersion::StringVer(a), PackageVersion::StringVer(b)) => {
                let r = a.modrev == b.modrev && a.specrev == b.specrev;
                proof {
                    if !r {
                        assert(a@ != b@);
                    }
                }
                r
            },
            _ => false,
        }
    }

    /// How `self` stands to `other` in the order of versions.
    pub fn compare(&self, other: &Self) -> (r: Sign)
        ensures
            r == version_order(self@, other@),
    {
        match (self, other) {
            (PackageVersion::SemVer(a), PackageVersion::SemVer(b)) => {
                let ta = string_of(&render_semver(&a.parts));
                let tb = string_of(&render_semver(&b.parts));
                proof {
                    use_type_invariant(a);
                    use_type_invariant(b);
                }
                match semver_precedence(ta.as_str(), tb.as_str()) {
                    Some(Sign::Less) => Sign::Less,
                    Some(Sign::Greater) => Sign::Greater,
                    Some(Sign::Equal) => order_u64(a.specrev as u64, b.specrev as u64),
                    None => {
                        proof {
                            assert(semver_parts(ta@) is Some);
                            assert(false);
                        }
                        Sign::Equal
                    },
                }
            },
            (PackageVersion::SemVer(_), PackageVersion::DevVer(_)) => Sign::Less,
            (PackageVersion::SemVer(_), PackageVersion::StringVer(_)) => Sign::Greater,
            (PackageVersion::DevVer(_), PackageVersion::SemVer(_)) => Sign::Greater,
            (PackageVersion::DevVer(a), PackageVersion::DevVer(b)) => {
                if a.specrev != b.specrev {
                    order_u64(a.specrev as u64, b.specrev as u64)
                } else {
                    match (a.modrev, b.modrev) {
                        (DevVersion::Dev, DevVersion::Scm) => Sign::Less,
                        (DevVersion::Scm, DevVersion::Dev) => Sign::Greater,
                        _ => Sign::Equal,
                    }
                }
            },
            (PackageVersion::DevVer(_), PackageVersion::StringVer(_)) => Sign::Greater,
            (PackageVersion::StringVer(a), PackageVersion::StringVer(b)) => {
                if a.specrev != b.specrev {
                    order_u64(a.specrev as u64, b.specrev as u64)
                } else {
                    order_chars(&chars_of(a.modrev.as_str()), &chars_of(b.modrev.as_str()))
                }
            },
            (PackageVersion::StringVer(_), PackageVersion::SemVer(_)) => Sign::Less,
            (PackageVersion::StringVer(_), PackageVersion::DevVer(_)) => Sign::Less,
        }
    }
}

} // verus!
