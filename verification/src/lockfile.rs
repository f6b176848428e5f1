//! What a lockfile records of one installed package: its identity, its pin
//! and opt states, the constraint under which it was installed, its direct
//! dependencies and its content hashes.

use crate::hash::{sha256_hex, sha256_hex_of, Integrity};
use crate::package::{
    PackageName, PackageReq, PackageReqView, PackageSpec, PackageSpecView, RemotePackageSource,
    RemotePackageSourceView,
};
use crate::text::{append_chars, chars_of, string_of};
use crate::version::{version_text, PackageVersion, PackageVersionView};
use crate::version_req::{
    parse_req_spec, req_text, version_as_req, PackageVersionReq, PackageVersionReqError,
    PackageVersionReqView,
};
use vstd::prelude::*;

verus! {

/// Whether a package may be upgraded by a sync.
#[derive(Copy, Clone, Debug, PartialEq, Eq, Hash, Structural)]
pub enum PinnedState {
    /// Unpinned packages can be updated.
    Unpinned,
    /// Pinned packages cannot be updated.
    Pinned,
}

impl PinnedState {
    pub open spec fn spec_as_bool(&self) -> bool {
        *self == PinnedState::Pinned
    }

    /// The boolean under which the state is persisted.
    #[verifier::when_used_as_spec(spec_as_bool)]
    pub fn as_bool(&self) -> (b: bool)
        ensures
            b == (*self == PinnedState::Pinned),
    {
        match self {
            PinnedState::Unpinned => false,
            PinnedState::Pinned => true,
        }
    }

    /// The state persisted as `value`.
    pub fn from_bool(value: bool) -> (s: Self)
        ensures
            s.as_bool() == value,
    {
        if value {
            PinnedState::Pinned
        } else {
            PinnedState::Unpinned
        }
    }
}

impl Default for PinnedState {
    fn default() -> (r: Self)
        ensures
            r == PinnedState::Unpinned,
    {
        PinnedState::Unpinned
    }
}

/// Whether a package may be absent without error.
#[derive(Copy, Clone, Debug, PartialEq, Eq, Hash, Structural)]
pub enum OptState {
    /// A required package.
    Required,
    /// An optional package.
    Optional,
}

impl OptState {
    pub open spec fn spec_as_bool(&self) -> bool {
        *self == OptState::Optional
    }

    /// The boolean under which the state is persisted.
    #[verifier::when_used_as_spec(spec_as_bool)]
    pub fn as_bool(&self) -> (b: bool)
        ensures
            b == (*self == OptState::Optional),
    {
        match self {
            OptState::Required => false,
            OptState::Optional => true,
        }
    }

    /// The state persisted as `value`.
    pub fn from_bool(value: bool) -> (s: Self)
        ensures
            s.as_bool() == value,
    {
        if value {
            OptState::Optional
        } else {
            OptState::Required
        }
    }
}

impl Default for OptState {
    fn default() -> (r: Self)
        ensures
            r == OptState::Required,
    {
        OptState::Required
    }
}

/// The constraint under which a package was installed.
#[derive(Debug, PartialEq, Eq, Hash)]
pub enum LockConstraint {
    Unconstrained,
    Constrained(PackageVersionReq),
}

/// A lock constraint as plain values.
pub enum LockConstraintView {
    Unconstrained,
    Constrained(PackageVersionReqView),
}

/// The error of reading the constraint of a locked package. No text is
/// refused, so none is ever made.
#[derive(Debug, PartialEq, Eq)]
pub enum LockConstraintParseError {
    LockConstraintParseError(PackageVersionReqError),
}

impl View for LockConstraint {
    type V = LockConstraintView;

    open spec fn view(&self) -> LockConstraintView {
        match self {
            LockConstraint::Unconstrained => LockConstraintView::Unconstrained,
            LockConstraint::Constrained(r) => LockConstraintView::Constrained(r@),
        }
    }
}

/// The text of a constraint as a lockfile holds it: none for no constraint.
pub open spec fn constraint_text_opt(c: LockConstraintView) -> Option<Seq<char>> {
    match c {
        LockConstraintView::Unconstrained => None,
        LockConstraintView::Constrained(r) => Some(req_text(r)),
    }
}

/// The constraint that a lockfile's text stands for.
pub open spec fn constraint_of_text(text: Option<Seq<char>>) -> LockConstraintView {
    match text {
        None => LockConstraintView::Unconstrained,
        Some(t) => LockConstraintView::Constrained(parse_req_spec(t)),
    }
}

/// Whether an installed constraint equals a declared requirement: no
/// constraint equals the requirement that admits anything, and a constraint
/// equals the requirement that it is.
pub open spec fn constraint_matches(c: LockConstraintView, req: PackageVersionReqView) -> bool {
    match c {
        LockConstraintView::Unconstrained => req is Any,
        LockConstraintView::Constrained(r) => r == req,
    }
}

/// The constraint that a requirement is: none where it admits anything.
pub open spec fn constraint_of_req(req: PackageVersionReqView) -> LockConstraintView {
    if req is Any {
        LockConstraintView::Unconstrained
    } else {
        LockConstraintView::Constrained(req)
    }
}

impl Default for LockConstraint {
    fn default() -> (r: Self)
        ensures
            r@ == LockConstraintView::Unconstrained,
    {
        LockConstraint::Unconstrained
    }
}

impl Clone for LockConstraint {
    fn clone(&self) -> (r: Self)
        ensures
            r@ == self@,
    {
        match self {
            LockConstraint::Unconstrained => LockConstraint::Unconstrained,
            LockConstraint::Constrained(req) => LockConstraint::Constrained(req.clone()),
        }
    }
}

impl LockConstraint {
    /// The text of the constraint, none for no constraint.
    pub fn to_string_opt(&self) -> (r: Option<String>)
        ensures
            match r {
                Some(t) => constraint_text_opt(self@) == Some(t@),
                None => constraint_text_opt(self@) is None,
            },
    {
        match self {
            LockConstraint::Unconstrained => None,
            LockConstraint::Constrained(req) => Some(req.to_string()),
        }
    }

    /// Whether the constraint equals the declared requirement `req`.
    pub fn matches_version_req(&self, req: &PackageVersionReq) -> (r: bool)
        ensures
            r == constraint_matches(self@, req@),
    {
        match self {
            LockConstraint::Unconstrained => req.is_any(),
            LockConstraint::Constrained(own) => own.same_as(req),
        }
    }

    /// The constraint that `req` is.
    pub fn from_req(req: PackageVersionReq) -> (r: Self)
        ensures
            r@ == constraint_of_req(req@),
    {
        if req.is_any() {
            LockConstraint::Unconstrained
        } else {
            LockConstraint::Constrained(req)
        }
    }

    /// The constraint that the text of a lockfile stands for.
    pub fn try_from_text(text: &Option<String>) -> (r: Result<Self, LockConstraintParseError>)
        ensures
            r matches Ok(c) && c@ == constraint_of_text(
                match text {
                    Some(t) => Some(t@),
                    None => None,
                },
            ),
    {
        match text {
            Some(t) => match PackageVersionReq::parse(t.as_str()) {
                Ok(req) => Ok(LockConstraint::Constrained(req)),
                Err(e) => Err(LockConstraintParseError::LockConstraintParseError(e)),
            },
            None => Ok(LockConstraint::Unconstrained),
        }
    }

    /// Whether two constraints are the same.
    pub fn same_as(&self, other: &Self) -> (r: bool)
        ensures
            r == (self@ == other@),
    {
        match (self, other) {
            (LockConstraint::Unconstrained, LockConstraint::Unconstrained) => true,
            (LockConstraint::Constrained(a), LockConstraint::Constrained(b)) => a.same_as(b),
            _ => false,
        }
    }
}

/// The identifier of an installed package: the lower-case hex of a SHA-256
/// hash, 64 characters.
#[derive(Debug, PartialEq, Eq, Hash)]
pub struct LocalPackageId(String);

impl View for LocalPackageId {
    type V = Seq<char>;

    closed spec fn view(&self) -> Seq<char> {
        self.0@
    }
}

/// The text of a boolean, `true` or `false`.
pub open spec fn bool_text(b: bool) -> Seq<char> {
    if b {
        seq!['t', 'r', 'u', 'e']
    } else {
        seq!['f', 'a', 'l', 's', 'e']
    }
}

/// The text that is hashed into the identifier of a package: its name, the
/// text of its version, its pin and opt states as `true` or `false`, and the
/// text of its constraint (nothing for no constraint), one after another
/// with nothing between them.
pub open spec fn id_input(
    name: Seq<char>,
    version: PackageVersionView,
    pinned: PinnedState,
    opt: OptState,
    constraint: LockConstraintView,
) -> Seq<char> {
    name + version_text(version) + bool_text(pinned.as_bool()) + bool_text(opt.as_bool())
        + match constraint_text_opt(constraint) {
        Some(t) => t,
        None => Seq::<char>::empty(),
    }
}

/// The identifier of the package with the given name, version, states and
/// constraint.
pub open spec fn package_id(
    name: Seq<char>,
    version: PackageVersionView,
    pinned: PinnedState,
    opt: OptState,
    constraint: LockConstraintView,
) -> Seq<char> {
    sha256_hex(id_input(name, version, pinned, opt, constraint))
}

/// Equal names, versions, states and constraints give equal identifiers.
pub proof fn lemma_package_id_is_a_function(
    name: Seq<char>,
    version: PackageVersionView,
    pinned: PinnedState,
    opt: OptState,
    constraint: LockConstraintView,
    name2: Seq<char>,
    version2: PackageVersionView,
    pinned2: PinnedState,
    opt2: OptState,
    constraint2: LockConstraintView,
)
    requires
        name == name2,
        version == version2,
        pinned == pinned2,
        opt == opt2,
        constraint == constraint2,
    ensures
        package_id(name, version, pinned, opt, constraint) == package_id(
            name2,
            version2,
            pinned2,
            opt2,
            constraint2,
        ),
{
}

/// The characters of `true` or `false`.
fn bool_chars(b: bool) -> (r: Vec<char>)
    ensures
        r@ == bool_text(b),
{
    let mut r: Vec<char> = Vec::new();
    if b {
        r.push('t');
        r.push('r');
        r.push('u');
        r.push('e');
        proof {
            assert(r@ =~= bool_text(true));
        }
    } else {
        r.push('f');
        r.push('a');
        r.push('l');
        r.push('s');
        r.push('e');
        proof {
            assert(r@ =~= bool_text(false));
        }
    }
    r
}

impl Clone for LocalPackageId {
    fn clone(&self) -> (r: Self)
        ensures
            r@ == self@,
    {
        LocalPackageId(self.0.clone())
    }
}

impl LocalPackageId {
    /// The identifier of the package with the given name, version, states
    /// and constraint. It depends on these alone.
    pub fn new(
        name: &PackageName,
        version: &PackageVersion,
        pinned: PinnedState,
        opt: OptState,
        constraint: LockConstraint,
    ) -> (r: Self)
        ensures
            r@ == package_id(name@, version@, pinned, opt, constraint@),
    {
        let mut input = chars_of(name.to_string().as_str());
        let version_chars = chars_of(version.to_string().as_str());
        append_chars(&mut input, &version_chars);
        let pinned_chars = bool_chars(pinned.as_bool());
        append_chars(&mut input, &pinned_chars);
        let opt_chars = bool_chars(opt.as_bool());
        append_chars(&mut input, &opt_chars);
        match constraint.to_string_opt() {
            Some(t) => {
                let constraint_chars = chars_of(t.as_str());
                append_chars(&mut input, &constraint_chars);
            },
            None => {
                proof {
                    assert(input@ + Seq::<char>::empty() =~= input@);
                }
            },
        }
        LocalPackageId(sha256_hex_of(string_of(&input).as_str()))
    }

    /// The identifier that `text` writes. Nothing is checked: the text had
    /// better be the identifier of a package of the tree at hand.
    pub fn from_unchecked(text: String) -> (r: Self)
        ensures
            r@ == text@,
    {
        LocalPackageId(text)
    }

    /// The identifier's text.
    pub fn to_string(&self) -> (r: String)
        ensures
            r@ == self@,
    {
        self.0.clone()
    }

    /// Whether two identifiers are the same.
    pub fn same_as(&self, other: &Self) -> (r: bool)
        ensures
            r == (self@ == other@),
    {
        self.0 == other.0
    }

    /// Whether this identifier comes before `other` in the order in which a
    /// lockfile keeps its packages.
    pub fn comes_before(&self, other: &Self) -> (r: bool)
        ensures
            r == crate::text::lex_less(self@, other@),
    {
        crate::text::chars_less(&chars_of(self.0.as_str()), &chars_of(other.0.as_str()))
    }
}

/// The views of a sequence of identifiers.
pub open spec fn ids_view(ids: Seq<LocalPackageId>) -> Seq<Seq<char>> {
    ids.map_values(|id: LocalPackageId| id@)
}

/// The views of a sequence of strings.
pub open spec fn strings_view(texts: Seq<String>) -> Seq<Seq<char>> {
    texts.map_values(|t: String| t@)
}

/// A copy of a vector of identifiers.
pub fn clone_ids(ids: &Vec<LocalPackageId>) -> (r: Vec<LocalPackageId>)
    ensures
        ids_view(r@) == ids_view(ids@),
{
    let mut r: Vec<LocalPackageId> = Vec::new();
    let mut i: usize = 0;
    while i < ids.len()
        invariant
            i <= ids.len(),
            ids_view(r@) == ids_view(ids@).take(i as int),
        decreases ids.len() - i,
    {
        let ghost before = r@;
        let id = ids[i].clone();
        r.push(id);
        proof {
            assert(ids_view(before.push(id)) =~= ids_view(before).push(id@));
            assert(ids_view(ids@).take(i as int).push(ids@[i as int]@) =~= ids_view(ids@).take(
                i as int + 1,
            ));
        }
        i = i + 1;
    }
    proof {
        assert(ids_view(ids@).take(ids.len() as int) =~= ids_view(ids@));
    }
    r
}

/// A copy of a vector of strings.
pub fn clone_strings(texts: &Vec<String>) -> (r: Vec<String>)
    ensures
        strings_view(r@) == strings_view(texts@),
{
    let mut r: Vec<String> = Vec::new();
    let mut i: usize = 0;
    while i < texts.len()
        invariant
            i <= texts.len(),
            strings_view(r@) == strings_view(texts@).take(i as int),
        decreases texts.len() - i,
    {
        let ghost before = r@;
        let t = texts[i].clone();
        r.push(t);
        proof {
            assert(strings_view(before.push(t)) =~= strings_view(before).push(t@));
            assert(strings_view(texts@).take(i as int).push(texts@[i as int]@) =~= strings_view(
                texts@,
            ).take(i as int + 1));
        }
        i = i + 1;
    }
    proof {
        assert(strings_view(texts@).take(texts.len() as int) =~= strings_view(texts@));
    }
    r
}

/// Where the source of a package was fetched from.
#[derive(Debug, PartialEq, Eq, Hash)]
pub enum RemotePackageSourceUrl {
    /// A git repository at a ref.
    Git { url: String, checkout_ref: String },
    /// An archive at a URL.
    Url { url: String },
    /// A local file or directory.
    File { path: String },
}

/// A source location as plain values.
pub enum RemotePackageSourceUrlView {
    Git { url: Seq<char>, checkout_ref: Seq<char> },
    Url { url: Seq<char> },
    File { path: Seq<char> },
}

impl View for RemotePackageSourceUrl {
    type V = RemotePackageSourceUrlView;

    open spec fn view(&self) -> RemotePackageSourceUrlView {
        match self {
            RemotePackageSourceUrl::Git { url, checkout_ref } => RemotePackageSourceUrlView::Git {
                url: url@,
                checkout_ref: checkout_ref@,
            },
            RemotePackageSourceUrl::Url { url } => RemotePackageSourceUrlView::Url { url: url@ },
            RemotePackageSourceUrl::File { path } => RemotePackageSourceUrlView::File {
                path: path@,
            },
        }
    }
}

impl Clone for RemotePackageSourceUrl {
    fn clone(&self) -> (r: Self)
        ensures
            r@ == self@,
    {
        match self {
            RemotePackageSourceUrl::Git { url, checkout_ref } => RemotePackageSourceUrl::Git {
                url: url.clone(),
                checkout_ref: checkout_ref.clone(),
            },
            RemotePackageSourceUrl::Url { url } => RemotePackageSourceUrl::Url { url: url.clone() },
            RemotePackageSourceUrl::File { path } => RemotePackageSourceUrl::File {
                path: path.clone(),
            },
        }
    }
}

/// The content hashes of an installed package.
#[derive(Debug, PartialEq, Eq, Hash)]
pub struct LocalPackageHashes {
    pub rockspec: Integrity,
    pub source: Integrity,
}

/// The content hashes of a package as plain values.
pub struct LocalPackageHashesView {
    pub rockspec: Seq<(Seq<char>, Seq<char>)>,
    pub source: Seq<(Seq<char>, Seq<char>)>,
}

impl View for LocalPackageHashes {
    type V = LocalPackageHashesView;

    open spec fn view(&self) -> LocalPackageHashesView {
        LocalPackageHashesView { rockspec: self.rockspec@, source: self.source@ }
    }
}

impl Clone for LocalPackageHashes {
    fn clone(&self) -> (r: Self)
        ensures
            r@ == self@,
    {
        LocalPackageHashes { rockspec: self.rockspec.clone(), source: self.source.clone() }
    }
}

/// What identifies an installed package and what it depends on.
#[derive(Debug, PartialEq, Eq, Hash)]
pub struct LocalPackageSpec {
    pub name: PackageName,
    pub version: PackageVersion,
    pub pinned: PinnedState,
    pub opt: OptState,
    pub dependencies: Vec<LocalPackageId>,
    pub constraint: Option<String>,
    pub binaries: Vec<String>,
}

/// The identity and dependencies of a package as plain values.
pub struct LocalPackageSpecView {
    pub name: Seq<char>,
    pub version: PackageVersionView,
    pub pinned: PinnedState,
    pub opt: OptState,
    pub dependencies: Seq<Seq<char>>,
    pub constraint: Option<Seq<char>>,
    pub binaries: Seq<Seq<char>>,
}

impl View for LocalPackageSpec {
    type V = LocalPackageSpecView;

    open spec fn view(&self) -> LocalPackageSpecView {
        LocalPackageSpecView {
            name: self.name@,
            version: self.version@,
            pinned: self.pinned,
            opt: self.opt,
            dependencies: ids_view(self.dependencies@),
            constraint: match self.constraint {
                Some(t) => Some(t@),
                None => None,
            },
            binaries: strings_view(self.binaries@),
        }
    }
}

impl LocalPackageSpecView {
    /// The constraint under which the package was installed.
    pub open spec fn lock_constraint(self) -> LockConstraintView {
        constraint_of_text(self.constraint)
    }

    /// The identifier of the package.
    pub open spec fn id(self) -> Seq<char> {
        package_id(self.name, self.version, self.pinned, self.opt, self.lock_constraint())
    }
}

impl Clone for LocalPackageSpec {
    fn clone(&self) -> (r: Self)
        ensures
            r@ == self@,
    {
        LocalPackageSpec {
            name: self.name.clone(),
            version: self.version.clone(),
            pinned: self.pinned,
            opt: self.opt,
            dependencies: clone_ids(&self.dependencies),
            constraint: match &self.constraint {
                Some(t) => Some(t.clone()),
                None => None,
            },
            binaries: clone_strings(&self.binaries),
        }
    }
}

impl LocalPackageSpec {
    /// The record of a package with the given identity, dependencies and
    /// binaries. The constraint is kept in its text.
    pub fn new(
        name: &PackageName,
        version: &PackageVersion,
        constraint: LockConstraint,
        dependencies: Vec<LocalPackageId>,
        pinned: &PinnedState,
        opt: &OptState,
        binaries: Vec<String>,
    ) -> (r: Self)
        ensures
            r@ == (LocalPackageSpecView {
                name: name@,
                version: version@,
                pinned: *pinned,
                opt: *opt,
                dependencies: ids_view(dependencies@),
                constraint: constraint_text_opt(constraint@),
                binaries: strings_view(binaries@),
            }),
    {
        LocalPackageSpec {
            name: name.clone(),
            version: version.clone(),
            pinned: *pinned,
            opt: *opt,
            dependencies,
            constraint: constraint.to_string_opt(),
            binaries,
        }
    }

    /// The constraint under which the package was installed.
    pub fn constraint(&self) -> (r: LockConstraint)
        ensures
            r@ == self@.lock_constraint(),
    {
        match LockConstraint::try_from_text(&self.constraint) {
            Ok(c) => c,
            Err(_) => LockConstraint::Unconstrained,
        }
    }

    /// The identifier of the package.
    pub fn id(&self) -> (r: LocalPackageId)
        ensures
            r@ == self@.id(),
    {
        LocalPackageId::new(&self.name, &self.version, self.pinned, self.opt, self.constraint())
    }

    /// The name of the package.
    pub fn name(&self) -> (r: &PackageName)
        ensures
            r@ == self@.name,
    {
        &self.name
    }

    /// The version of the package.
    pub fn version(&self) -> (r: &PackageVersion)
        ensures
            r@ == self@.version,
    {
        &self.version
    }

    /// Whether the package is pinned.
    pub fn pinned(&self) -> (r: PinnedState)
        ensures
            r == self@.pinned,
    {
        self.pinned
    }

    /// Whether the package is optional.
    pub fn opt(&self) -> (r: OptState)
        ensures
            r == self@.opt,
    {
        self.opt
    }

    /// The identifiers of the direct dependencies.
    pub fn dependencies(&self) -> (r: &Vec<LocalPackageId>)
        ensures
            ids_view(r@) == self@.dependencies,
    {
        &self.dependencies
    }

    /// The paths of the binaries that the package installs.
    pub fn binaries(&self) -> (r: &Vec<String>)
        ensures
            strings_view(r@) == self@.binaries,
    {
        &self.binaries
    }

    /// The package by name and version.
    pub fn to_package(&self) -> (r: PackageSpec)
        ensures
            r@ == (PackageSpecView { name: self@.name, version: self@.version }),
    {
        PackageSpec::new(self.name.clone(), self.version.clone())
    }

    /// The requirement that admits this package and no other version of it.
    pub fn into_package_req(&self) -> (r: PackageReq)
        ensures
            r@ == (PackageReqView {
                name: self@.name,
                version_req: version_as_req(self@.version),
            }),
    {
        self.to_package().into_package_req()
    }
}

/// An installed package as a lockfile records it.
#[derive(Debug, PartialEq, Eq, Hash)]
pub struct LocalPackage {
    pub spec: LocalPackageSpec,
    pub source: RemotePackageSource,
    pub source_url: Option<RemotePackageSourceUrl>,
    pub hashes: LocalPackageHashes,
}

/// An installed package as plain values.
pub struct LocalPackageView {
    pub spec: LocalPackageSpecView,
    pub source: RemotePackageSourceView,
    pub source_url: Option<RemotePackageSourceUrlView>,
    pub hashes: LocalPackageHashesView,
}

impl View for LocalPackage {
    type V = LocalPackageView;

    open spec fn view(&self) -> LocalPackageView {
        LocalPackageView {
            spec: self.spec@,
            source: self.source@,
            source_url: match self.source_url {
                Some(u) => Some(u@),
                None => None,
            },
            hashes: self.hashes@,
        }
    }
}

impl Clone for LocalPackage {
    fn clone(&self) -> (r: Self)
        ensures
            r@ == self@,
    {
        LocalPackage {
            spec: self.spec.clone(),
            source: self.source.clone(),
            source_url: match &self.source_url {
                Some(u) => Some(u.clone()),
                None => None,
            },
            hashes: self.hashes.clone(),
        }
    }
}

impl LocalPackage {
    /// The record of a freshly installed package: unpinned, required, and
    /// without dependencies yet.
    pub fn from(
        package: &PackageSpec,
        constraint: LockConstraint,
        binaries: Vec<String>,
        source: RemotePackageSource,
        source_url: Option<RemotePackageSourceUrl>,
        hashes: LocalPackageHashes,
    ) -> (r: Self)
        ensures
            r@ == (LocalPackageView {
                spec: LocalPackageSpecView {
                    name: package@.name,
                    version: package@.version,
                    pinned: PinnedState::Unpinned,
                    opt: OptState::Required,
                    dependencies: Seq::<Seq<char>>::empty(),
                    constraint: constraint_text_opt(constraint@),
                    binaries: strings_view(binaries@),
                },
                source: source@,
                source_url: match source_url {
                    Some(u) => Some(u@),
                    None => None,
                },
                hashes: hashes@,
            }),
    {
        let dependencies: Vec<LocalPackageId> = Vec::new();
        proof {
            assert(ids_view(dependencies@) =~= Seq::<Seq<char>>::empty());
        }
        LocalPackage {
            spec: LocalPackageSpec::new(
                package.name(),
                package.version(),
                constraint,
                dependencies,
                &PinnedState::Unpinned,
                &OptState::Required,
                binaries,
            ),
            source,
            source_url,
            hashes,
        }
    }

    /// The identifier of the package.
    pub fn id(&self) -> (r: LocalPackageId)
        ensures
            r@ == self@.spec.id(),
    {
        self.spec.id()
    }

    /// The name of the package.
    pub fn name(&self) -> (r: &PackageName)
        ensures
            r@ == self@.spec.name,
    {
        self.spec.name()
    }

    /// The version of the package.
    pub fn version(&self) -> (r: &PackageVersion)
        ensures
            r@ == self@.spec.version,
    {
        self.spec.version()
    }

    /// Whether the package is pinned.
    pub fn pinned(&self) -> (r: PinnedState)
        ensures
            r == self@.spec.pinned,
    {
        self.spec.pinned()
    }

    /// Whether the package is optional.
    pub fn opt(&self) -> (r: OptState)
        ensures
            r == self@.spec.opt,
    {
        self.spec.opt()
    }

    /// Where the package comes from.
    pub fn source(&self) -> (r: &RemotePackageSource)
        ensures
            r@ == self@.source,
    {
        &self.source
    }

    /// The identifiers of the direct dependencies.
    pub fn dependencies(&self) -> (r: &Vec<LocalPackageId>)
        ensures
            ids_view(r@) == self@.spec.dependencies,
    {
        self.spec.dependencies()
    }

    /// The constraint under which the package was installed.
    pub fn constraint(&self) -> (r: LockConstraint)
        ensures
            r@ == self@.spec.lock_constraint(),
    {
        self.spec.constraint()
    }

    /// The content hashes of the package.
    pub fn hashes(&self) -> (r: &LocalPackageHashes)
        ensures
            r@ == self@.hashes,
    {
        &self.hashes
    }

    /// The package by name and version.
    pub fn to_package(&self) -> (r: PackageSpec)
        ensures
            r@ == (PackageSpecView { name: self@.spec.name, version: self@.spec.version }),
    {
        self.spec.to_package()
    }

    /// The package by name and version.
    pub fn as_package_spec(&self) -> (r: PackageSpec)
        ensures
            r@ == (PackageSpecView { name: self@.spec.name, version: self@.spec.version }),
    {
        self.spec.to_package()
    }

    /// The package by name and version.
    pub fn into_package_spec(self) -> (r: PackageSpec)
        ensures
            r@ == (PackageSpecView { name: self@.spec.name, version: self@.spec.version }),
    {
        self.spec.to_package()
    }

    /// The requirement that admits this package and no other version of it.
    pub fn into_package_req(&self) -> (r: PackageReq)
        ensures
            r@ == (PackageReqView {
                name: self@.spec.name,
                version_req: version_as_req(self@.spec.version),
            }),
    {
        self.spec.into_package_req()
    }
}

/// A dependency as a project or a rockspec declares it.
#[derive(Debug, PartialEq, Eq, Hash)]
pub struct LuaDependencySpec {
    pub package_req: PackageReq,
    pub pin: PinnedState,
    pub opt: OptState,
}

/// A declared dependency as plain values.
pub struct LuaDependencySpecView {
    pub package_req: PackageReqView,
    pub pin: PinnedState,
    pub opt: OptState,
}

impl View for LuaDependencySpec {
    type V = LuaDependencySpecView;

    open spec fn view(&self) -> LuaDependencySpecView {
        LuaDependencySpecView { package_req: self.package_req@, pin: self.pin, opt: self.opt }
    }
}

impl Clone for LuaDependencySpec {
    fn clone(&self) -> (r: Self)
        ensures
            r@ == self@,
    {
        LuaDependencySpec { package_req: self.package_req.clone(), pin: self.pin, opt: self.opt }
    }
}

impl LuaDependencySpec {
    /// The dependency on `package_req` with the given states.
    pub fn new(package_req: PackageReq, pin: PinnedState, opt: OptState) -> (r: Self)
        ensures
            r@ == (LuaDependencySpecView { package_req: package_req@, pin, opt }),
    {
        LuaDependencySpec { package_req, pin, opt }
    }

    /// The dependency on `package_req`, unpinned and required.
    pub fn from_req(package_req: PackageReq) -> (r: Self)
        ensures
            r@ == (LuaDependencySpecView {
                package_req: package_req@,
                pin: PinnedState::Unpinned,
                opt: OptState::Required,
            }),
    {
        LuaDependencySpec { package_req, pin: PinnedState::Unpinned, opt: OptState::Required }
    }

    /// The requirement of the dependency.
    pub fn package_req(&self) -> (r: &PackageReq)
        ensures
            r@ == self@.package_req,
    {
        &self.package_req
    }

    /// The name of the package depended on.
    pub fn name(&self) -> (r: &PackageName)
        ensures
            r@ == self@.package_req.name,
    {
        self.package_req.name()
    }

    /// The requirement on the version.
    pub fn version_req(&self) -> (r: &PackageVersionReq)
        ensures
            r@ == self@.package_req.version_req,
    {
        self.package_req.version_req()
    }

    /// Whether the dependency is pinned.
    pub fn pin(&self) -> (r: PinnedState)
        ensures
            r == self@.pin,
    {
        self.pin
    }

    /// Whether the dependency is optional.
    pub fn opt(&self) -> (r: OptState)
        ensures
            r == self@.opt,
    {
        self.opt
    }
}

} // verus!
