//! Packages by name: names, a name with a version, a name with a
//! requirement, and where a package of the remote index comes from.

use crate::text::{
    chars_of, is_alphanumeric, is_alphanumeric_char, slice_of, string_of, trim_chars, trim_seq,
};
use crate::version::{PackageVersion, PackageVersionParseError, PackageVersionView};
use crate::version_req::{parse_req_spec, version_as_req, PackageVersionReq, PackageVersionReqView};
use vstd::prelude::*;

verus! {

/// The lower-case form of a text, as `str::to_lowercase` of std gives it.
pub uninterp spec fn lowercase(text: Seq<char>) -> Seq<char>;

/// `str::to_lowercase` of std.
#[verifier::external_body]
fn to_lowercase(text: &str) -> (r: String)
    ensures
        r@ == lowercase(text@),
{
    text.to_lowercase()
}

/// The name of a package. Names do not tell upper from lower case: a name is
/// kept in lower case.
#[derive(Debug, PartialEq, Eq, Hash)]
pub struct PackageName {
    name: String,
}

impl View for PackageName {
    type V = Seq<char>;

    closed spec fn view(&self) -> Seq<char> {
        self.name@
    }
}

impl Clone for PackageName {
    fn clone(&self) -> (r: Self)
        ensures
            r@ == self@,
    {
        PackageName { name: self.name.clone() }
    }
}

impl PackageName {
    /// The name that `name` writes, in whatever case.
    pub fn new(name: &str) -> (r: Self)
        ensures
            r@ == lowercase(name@),
    {
        PackageName { name: to_lowercase(name) }
    }

    /// The name, in lower case.
    pub fn to_string(&self) -> (r: String)
        ensures
            r@ == self@,
    {
        self.name.clone()
    }

    /// Whether two names are the same.
    pub fn same_as(&self, other: &Self) -> (r: bool)
        ensures
            r == (self@ == other@),
    {
        self.name == other.name
    }
}

/// A package at one version.
#[derive(Debug, PartialEq, Eq, Hash)]
pub struct PackageSpec {
    name: PackageName,
    version: PackageVersion,
}

/// A package at one version, as plain values.
pub struct PackageSpecView {
    pub name: Seq<char>,
    pub version: PackageVersionView,
}

impl View for PackageSpec {
    type V = PackageSpecView;

    closed spec fn view(&self) -> PackageSpecView {
        PackageSpecView { name: self.name@, version: self.version@ }
    }
}

/// A package with a requirement on its version.
#[derive(Debug, PartialEq, Eq, Hash)]
pub struct PackageReq {
    name: PackageName,
    version_req: PackageVersionReq,
}

/// A package with a requirement, as plain values.
pub struct PackageReqView {
    pub name: Seq<char>,
    pub version_req: PackageVersionReqView,
}

impl View for PackageReq {
    type V = PackageReqView;

    closed spec fn view(&self) -> PackageReqView {
        PackageReqView { name: self.name@, version_req: self.version_req@ }
    }
}

/// Why a text is no package requirement.
#[derive(Debug, PartialEq, Eq)]
pub enum PackageReqParseError {
    /// The text does not start with a package name.
    InvalidDependencyName(String),
}

impl Clone for PackageSpec {
    fn clone(&self) -> (r: Self)
        ensures
            r@ == self@,
    {
        PackageSpec { name: self.name.clone(), version: self.version.clone() }
    }
}

impl PackageSpec {
    /// The package `name` at `version`.
    pub fn new(name: PackageName, version: PackageVersion) -> (r: Self)
        ensures
            r@ == (PackageSpecView { name: name@, version: version@ }),
    {
        PackageSpec { name, version }
    }

    /// The package that the two texts name. Only an unusable revision in the
    /// version is an error.
    pub fn parse(name: &str, version: &str) -> (r: Result<Self, PackageVersionParseError>)
        ensures
            match r {
                Ok(spec) => crate::version::parse_version_spec(version@) == Ok::<
                    PackageVersionView,
                    Seq<char>,
                >(spec@.version) && spec@.name == lowercase(name@),
                Err(PackageVersionParseError::Specrev(
                    crate::version::SpecrevParseError::InvalidSpecrev { specrev, full_version },
                )) => crate::version::parse_version_spec(version@) == Err::<
                    PackageVersionView,
                    Seq<char>,
                >(specrev@) && full_version@ == version@,
                Err(_) => false,
            },
    {
        match PackageVersion::parse(version) {
            Ok(v) => Ok(PackageSpec { name: PackageName::new(name), version: v }),
            Err(e) => Err(e),
        }
    }

    /// The name of the package.
    pub fn name(&self) -> (r: &PackageName)
        ensures
            r@ == self@.name,
    {
        &self.name
    }

    /// The version of the package.
    pub fn version(&self) -> (r: &PackageVersion)
        ensures
            r@ == self@.version,
    {
        &self.version
    }

    /// The requirement that admits this package and no other version of it.
    pub fn into_package_req(&self) -> (r: PackageReq)
        ensures
            r@ == (PackageReqView {
                name: self@.name,
                version_req: version_as_req(self@.version),
            }),
    {
        PackageReq { name: self.name.clone(), version_req: self.version.into_version_req() }
    }
}

/// Whether `c` may stand in a package name: a letter, a number, `-`, `_` or
/// `.`.
pub open spec fn is_name_char(c: char) -> bool {
    is_alphanumeric(c) || c == '-' || c == '_' || c == '.'
}

/// How many characters at the start of `s` may stand in a package name.
pub open spec fn name_length(s: Seq<char>) -> nat
    decreases s.len(),
{
    if s.len() == 0 || !is_name_char(s.first()) {
        0
    } else {
        1 + name_length(s.drop_first())
    }
}

/// The name is within the text.
pub proof fn lemma_name_length(s: Seq<char>)
    ensures
        name_length(s) <= s.len(),
    decreases s.len(),
{
    if s.len() > 0 && is_name_char(s.first()) {
        lemma_name_length(s.drop_first());
    }
}

/// The requirement that a text stands for: the name is the run of name
/// characters at its start, and what follows, trimmed, is the constraint on
/// the version, no constraint where nothing follows. A text that starts
/// with no name stands for none.
pub open spec fn parse_package_req_spec(text: Seq<char>) -> Option<PackageReqView> {
    let n = name_length(text);
    if n == 0 {
        None
    } else {
        let constraint = trim_seq(text.skip(n as int));
        Some(
            PackageReqView {
                name: lowercase(text.take(n as int)),
                version_req: if constraint.len() == 0 {
                    PackageVersionReqView::Any
                } else {
                    parse_req_spec(constraint)
                },
            },
        )
    }
}

impl Clone for PackageReq {
    fn clone(&self) -> (r: Self)
        ensures
            r@ == self@,
    {
        PackageReq { name: self.name.clone(), version_req: self.version_req.clone() }
    }
}

impl PackageReq {
    /// The requirement on `name` that `version` writes, or the unconstrained
    /// one where there is no text.
    pub fn new(name: &str, version: Option<&str>) -> (r: Self)
        ensures
            r@ == (PackageReqView {
                name: lowercase(name@),
                version_req: match version {
                    Some(v) => parse_req_spec(v@),
                    None => PackageVersionReqView::Any,
                },
            }),
    {
        let version_req = match version {
            Some(v) => match PackageVersionReq::parse(v) {
                Ok(req) => req,
                Err(_) => PackageVersionReq::Any,
            },
            None => PackageVersionReq::Any,
        };
        PackageReq { name: PackageName::new(name), version_req }
    }

    /// The requirement made of a name and a requirement on its version.
    pub fn from_parts(name: PackageName, version_req: PackageVersionReq) -> (r: Self)
        ensures
            r@ == (PackageReqView { name: name@, version_req: version_req@ }),
    {
        PackageReq { name, version_req }
    }

    /// Reads a requirement such as `neorg@8.8.1-1`, `say >= 1.3` or `busted`.
    pub fn parse(text: &str) -> (r: Result<Self, PackageReqParseError>)
        ensures
            match r {
                Ok(req) => parse_package_req_spec(text@) == Some(req@),
                Err(PackageReqParseError::InvalidDependencyName(t)) => parse_package_req_spec(
                    text@,
                ) is None && t@ == text@,
            },
    {
        let chars = chars_of(text);
        let mut n: usize = 0;
        proof {
            assert(chars@.skip(0) =~= chars@);
        }
        while n < chars.len() && is_name(chars[n])
            invariant
                n <= chars.len(),
                name_length(chars@) == n + name_length(chars@.skip(n as int)),
            decreases chars.len() - n,
        {
            proof {
                assert(chars@.skip(n as int).first() == chars@[n as int]);
                assert(chars@.skip(n as int).drop_first() =~= chars@.skip(n as int + 1));
            }
            n = n + 1;
        }
        proof {
            if n < chars.len() {
                assert(chars@.skip(n as int).first() == chars@[n as int]);
            }
        }
        if n == 0 {
            return Err(PackageReqParseError::InvalidDependencyName(string_of(&chars)));
        }
        let name = slice_of(&chars, 0, n);
        let rest = slice_of(&chars, n, chars.len());
        proof {
            assert(chars@.subrange(0, n as int) =~= chars@.take(n as int));
            assert(chars@.subrange(n as int, chars.len() as int) =~= chars@.skip(n as int));
        }
        let constraint = trim_chars(&rest);
        let version_req = if constraint.len() == 0 {
            PackageVersionReq::Any
        } else {
            match PackageVersionReq::parse(string_of(&constraint).as_str()) {
                Ok(req) => req,
                Err(_) => PackageVersionReq::Any,
            }
        };
        Ok(PackageReq { name: PackageName::new(string_of(&name).as_str()), version_req })
    }

    /// The name of the package.
    pub fn name(&self) -> (r: &PackageName)
        ensures
            r@ == self@.name,
    {
        &self.name
    }

    /// The requirement on the version.
    pub fn version_req(&self) -> (r: &PackageVersionReq)
        ensures
            r@ == self@.version_req,
    {
        &self.version_req
    }

    /// Whether the requirement admits the package `name` at `version`.
    pub fn matches(&self, name: &PackageName, version: &PackageVersion) -> (r: bool)
        ensures
            r == (self@.name == name@ && crate::version_req::req_matches(
                self@.version_req,
                version@,
            )),
    {
        self.name.same_as(name) && self.version_req.matches(version)
    }
}

/// Whether `c` may stand in a package name.
fn is_name(c: char) -> (r: bool)
    ensures
        r == is_name_char(c),
{
    is_alphanumeric_char(c) || c == '-' || c == '_' || c == '.'
}

/// The kinds of artifact that the remote index offers for a package, from
/// the least to the most preferred.
#[derive(Copy, Clone, Debug, PartialEq, Eq, Hash, Structural)]
pub enum RemotePackageType {
    /// The rockspec alone.
    Rockspec,
    /// A source archive.
    Src,
    /// A binary archive.
    Binary,
}

impl RemotePackageType {
    /// The place of a kind in the order of preference.
    pub open spec fn rank(self) -> int {
        match self {
            RemotePackageType::Rockspec => 0,
            RemotePackageType::Src => 1,
            RemotePackageType::Binary => 2,
        }
    }

    /// The place of the kind in the order of preference.
    pub fn priority(&self) -> (r: u8)
        ensures
            r == self.rank(),
    {
        match self {
            RemotePackageType::Rockspec => 0,
            RemotePackageType::Src => 1,
            RemotePackageType::Binary => 2,
        }
    }
}

/// Which kinds of artifact a search may return.
#[derive(Copy, Clone, Debug, PartialEq, Eq, Hash, Structural)]
pub struct RemotePackageTypeFilterSpec {
    /// Include rockspecs.
    pub rockspec: bool,
    /// Include source archives.
    pub src: bool,
    /// Include binary archives.
    pub binary: bool,
}

impl Default for RemotePackageTypeFilterSpec {
    fn default() -> (r: Self)
        ensures
            r == (RemotePackageTypeFilterSpec { rockspec: true, src: true, binary: true }),
    {
        RemotePackageTypeFilterSpec { rockspec: true, src: true, binary: true }
    }
}

impl RemotePackageTypeFilterSpec {
    /// Whether the filter lets a kind through.
    pub open spec fn admits(self, kind: RemotePackageType) -> bool {
        match kind {
            RemotePackageType::Rockspec => self.rockspec,
            RemotePackageType::Src => self.src,
            RemotePackageType::Binary => self.binary,
        }
    }

    /// Whether the filter lets `kind` through.
    pub fn includes(&self, kind: RemotePackageType) -> (r: bool)
        ensures
            r == self.admits(kind),
    {
        match kind {
            RemotePackageType::Rockspec => self.rockspec,
            RemotePackageType::Src => self.src,
            RemotePackageType::Binary => self.binary,
        }
    }
}

/// Where a package comes from.
#[derive(Debug, PartialEq, Eq, Hash)]
pub enum RemotePackageSource {
    /// A rockspec on the server with the given URL.
    LuarocksRockspec(String),
    /// A source archive on the server with the given URL.
    LuarocksSrcRock(String),
    /// A binary archive on the server with the given URL.
    LuarocksBinaryRock(String),
    /// A rockspec whose content is at hand.
    RockspecContent(String),
    /// A package of the local project.
    Local,
}

/// Where a package comes from, as plain values.
pub enum RemotePackageSourceView {
    LuarocksRockspec(Seq<char>),
    LuarocksSrcRock(Seq<char>),
    LuarocksBinaryRock(Seq<char>),
    RockspecContent(Seq<char>),
    Local,
}

impl View for RemotePackageSource {
    type V = RemotePackageSourceView;

    open spec fn view(&self) -> RemotePackageSourceView {
        match self {
            RemotePackageSource::LuarocksRockspec(u) => RemotePackageSourceView::LuarocksRockspec(
                u@,
            ),
            RemotePackageSource::LuarocksSrcRock(u) => RemotePackageSourceView::LuarocksSrcRock(u@),
            RemotePackageSource::LuarocksBinaryRock(u) =>
                RemotePackageSourceView::LuarocksBinaryRock(u@),
            RemotePackageSource::RockspecContent(c) => RemotePackageSourceView::RockspecContent(c@),
            RemotePackageSource::Local => RemotePackageSourceView::Local,
        }
    }
}

impl Clone for RemotePackageSource {
    fn clone(&self) -> (r: Self)
        ensures
            r@ == self@,
    {
        match self {
            RemotePackageSource::LuarocksRockspec(u) => RemotePackageSource::LuarocksRockspec(
                u.clone(),
            ),
            RemotePackageSource::LuarocksSrcRock(u) => RemotePackageSource::LuarocksSrcRock(
                u.clone(),
            ),
            RemotePackageSource::LuarocksBinaryRock(u) => RemotePackageSource::LuarocksBinaryRock(
                u.clone(),
            ),
            RemotePackageSource::RockspecContent(c) => RemotePackageSource::RockspecContent(
                c.clone(),
            ),
            RemotePackageSource::Local => RemotePackageSource::Local,
        }
    }
}

impl RemotePackageSource {
    /// Whether a filter lets a package from this source through: the filter
    /// speaks of what comes from a server, anything else passes.
    pub open spec fn passes(source: RemotePackageSourceView, filter: RemotePackageTypeFilterSpec)
        -> bool {
        match source {
            RemotePackageSourceView::LuarocksRockspec(_) => filter.rockspec,
            RemotePackageSourceView::LuarocksSrcRock(_) => filter.src,
            RemotePackageSourceView::LuarocksBinaryRock(_) => filter.binary,
            RemotePackageSourceView::RockspecContent(_) => true,
            RemotePackageSourceView::Local => true,
        }
    }

    /// Whether `filter` lets a package from this source through.
    pub fn passes_filter(&self, filter: &RemotePackageTypeFilterSpec) -> (r: bool)
        ensures
            r == RemotePackageSource::passes(self@, *filter),
    {
        match self {
            RemotePackageSource::LuarocksRockspec(_) => filter.rockspec,
            RemotePackageSource::LuarocksSrcRock(_) => filter.src,
            RemotePackageSource::LuarocksBinaryRock(_) => filter.binary,
            RemotePackageSource::RockspecContent(_) => true,
            RemotePackageSource::Local => true,
        }
    }
}

/// A package of the remote index: what it is and where it comes from.
#[derive(Debug, PartialEq, Eq, Hash)]
pub struct RemotePackage {
    pub package: PackageSpec,
    pub source: RemotePackageSource,
}

impl RemotePackage {
    /// The package `package` from `source`.
    pub fn new(package: PackageSpec, source: RemotePackageSource) -> (r: Self)
        ensures
            r.package@ == package@,
            r.source@ == source@,
    {
        RemotePackage { package, source }
    }
}

} // verus!
