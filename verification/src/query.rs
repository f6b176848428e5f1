//! Questions that are asked of a lockfile: which installed package answers
//! a requirement, which packages carry a name, and whether the hashes of a
//! package are the ones on record.

use crate::hash::{integrity_matches, Integrity};
use crate::lock::{entries_view, LocalPackageLock};
use crate::lockfile::{
    constraint_matches, LocalPackage, LocalPackageId, LocalPackageView, LuaDependencySpec,
    LuaDependencySpecView, PinnedState,
};
use crate::package::{
    PackageName, PackageReq, PackageReqView, RemotePackageSource, RemotePackageTypeFilterSpec,
};
use crate::version::PackageVersion;
use crate::version_req::req_matches;
use vstd::prelude::*;

verus! {

/// Whether the installed package `p` answers the requirement `req`: it has
/// the name, its version is admitted, and, where there is a filter, the
/// filter lets its source through.
pub open spec fn admits(
    req: PackageReqView,
    filter: Option<RemotePackageTypeFilterSpec>,
    p: LocalPackageView,
) -> bool {
    &&& p.spec.name == req.name
    &&& match filter {
        Some(f) => RemotePackageSource::passes(p.source, f),
        None => true,
    }
    &&& req_matches(req.version_req, p.spec.version)
}

/// The last of `rocks` that answers `req`, if one does.
pub open spec fn last_admitted(
    rocks: Seq<(Seq<char>, LocalPackageView)>,
    req: PackageReqView,
    filter: Option<RemotePackageTypeFilterSpec>,
) -> Option<LocalPackageView>
    decreases rocks.len(),
{
    if rocks.len() == 0 {
        None
    } else if admits(req, filter, rocks.last().1) {
        Some(rocks.last().1)
    } else {
        last_admitted(rocks.drop_last(), req, filter)
    }
}

/// The identifiers of those of `rocks` that answer `req`, the last of them
/// first.
pub open spec fn found_rocks(rocks: Seq<(Seq<char>, LocalPackageView)>, req: PackageReqView)
    -> Seq<Seq<char>>
    decreases rocks.len(),
{
    if rocks.len() == 0 {
        Seq::<Seq<char>>::empty()
    } else if admits(req, None, rocks.last().1) {
        seq![rocks.last().1.spec.id()] + found_rocks(rocks.drop_last(), req)
    } else {
        found_rocks(rocks.drop_last(), req)
    }
}

/// What more is asked of an installed package that answers a requirement.
#[derive(Copy, Clone, Debug, PartialEq, Eq, Structural)]
pub enum RockFilter {
    /// Nothing.
    Any,
    /// That its pinned state is another than the given one.
    PinnedOtherThan(PinnedState),
}

impl RockFilter {
    /// Whether the filter lets the package through.
    pub open spec fn keeps(self, p: LocalPackageView) -> bool {
        match self {
            RockFilter::Any => true,
            RockFilter::PinnedOtherThan(pin) => p.spec.pinned != pin,
        }
    }

    /// Whether the filter lets `p` through.
    pub fn lets_through(&self, p: &LocalPackage) -> (r: bool)
        ensures
            r == self.keeps(p@),
    {
        match self {
            RockFilter::Any => true,
            RockFilter::PinnedOtherThan(pin) => match (p.pinned(), pin) {
                (PinnedState::Pinned, PinnedState::Pinned) => false,
                (PinnedState::Unpinned, PinnedState::Unpinned) => false,
                _ => true,
            },
        }
    }
}

/// The identifiers of those of `rocks` that answer `req` and that `filter`
/// lets through, the last of them first.
pub open spec fn found_with(
    rocks: Seq<(Seq<char>, LocalPackageView)>,
    req: PackageReqView,
    filter: RockFilter,
) -> Seq<Seq<char>>
    decreases rocks.len(),
{
    if rocks.len() == 0 {
        Seq::<Seq<char>>::empty()
    } else if admits(req, None, rocks.last().1) && filter.keeps(rocks.last().1) {
        seq![rocks.last().1.spec.id()] + found_with(rocks.drop_last(), req, filter)
    } else {
        found_with(rocks.drop_last(), req, filter)
    }
}

/// Under the filter that asks nothing, what is found is what answers.
pub proof fn lemma_found_with_any(rocks: Seq<(Seq<char>, LocalPackageView)>, req: PackageReqView)
    ensures
        found_with(rocks, req, RockFilter::Any) == found_rocks(rocks, req),
    decreases rocks.len(),
{
    if rocks.len() > 0 {
        lemma_found_with_any(rocks.drop_last(), req);
    }
}

/// Whether the package at the place `i` of `rocks` answers `req`.
pub open spec fn answers_at(
    rocks: Seq<(Seq<char>, LocalPackageView)>,
    req: PackageReqView,
    i: int,
) -> bool {
    0 <= i < rocks.len() && admits(req, None, rocks[i].1)
}

/// Nothing is found exactly where no package answers.
pub proof fn lemma_nothing_found(rocks: Seq<(Seq<char>, LocalPackageView)>, req: PackageReqView)
    ensures
        found_rocks(rocks, req).len() == 0 <==> forall|i: int| !answers_at(rocks, req, i),
    decreases rocks.len(),
{
    if rocks.len() > 0 {
        let before = rocks.drop_last();
        lemma_nothing_found(before, req);
        if admits(req, None, rocks.last().1) {
            assert(answers_at(rocks, req, rocks.len() - 1));
        } else if found_rocks(before, req).len() == 0 {
            assert forall|i: int| !answers_at(rocks, req, i) by {
                if 0 <= i < rocks.len() - 1 {
                    assert(!answers_at(before, req, i));
                }
            }
        } else {
            let i = choose|i: int| answers_at(before, req, i);
            assert(answers_at(rocks, req, i));
        }
    }
}

/// What is found begins with the last package of the lockfile that answers.
pub proof fn lemma_found_begins_with_last(
    rocks: Seq<(Seq<char>, LocalPackageView)>,
    req: PackageReqView,
)
    ensures
        match last_admitted(rocks, req, None) {
            Some(p) => found_rocks(rocks, req).len() > 0 && found_rocks(rocks, req)[0]
                == p.spec.id(),
            None => found_rocks(rocks, req).len() == 0,
        },
    decreases rocks.len(),
{
    if rocks.len() > 0 {
        lemma_found_begins_with_last(rocks.drop_last(), req);
    }
}

/// Where one identifier is found for a requirement, one installed package
/// answers it and no other does: none that answers is newer than the one
/// that was found.
pub proof fn lemma_single_match_is_the_only(
    rocks: Seq<(Seq<char>, LocalPackageView)>,
    req: PackageReqView,
)
    requires
        found_rocks(rocks, req).len() == 1,
    ensures
        exists|i: int|
            {
                &&& #[trigger] answers_at(rocks, req, i)
                &&& found_rocks(rocks, req)[0] == rocks[i].1.spec.id()
                &&& forall|j: int| #[trigger] answers_at(rocks, req, j) ==> j == i
            },
    decreases rocks.len(),
{
    let before = rocks.drop_last();
    let last = rocks.len() - 1;
    if admits(req, None, rocks.last().1) {
        lemma_nothing_found(before, req);
        assert(found_rocks(before, req).len() == 0);
        assert(answers_at(rocks, req, last));
        assert forall|j: int| #[trigger] answers_at(rocks, req, j) implies j == last by {
            if j < last {
                assert(answers_at(before, req, j));
            }
        }
    } else {
        lemma_single_match_is_the_only(before, req);
        let i = choose|i: int|
            {
                &&& #[trigger] answers_at(before, req, i)
                &&& found_rocks(before, req)[0] == before[i].1.spec.id()
                &&& forall|j: int| #[trigger] answers_at(before, req, j) ==> j == i
            };
        assert(answers_at(rocks, req, i));
        assert forall|j: int| #[trigger] answers_at(rocks, req, j) implies j == i by {
            assert(answers_at(before, req, j));
        }
    }
}

/// Whether the installed package `p` has the name of the dependency `dep`
/// and was installed under a constraint that equals its requirement.
pub open spec fn equally_constrained(dep: LuaDependencySpecView, p: LocalPackageView) -> bool {
    p.spec.name == dep.package_req.name && constraint_matches(
        p.spec.lock_constraint(),
        dep.package_req.version_req,
    )
}

/// The last of `rocks` that has the name of `dep` and an equal constraint.
pub open spec fn last_equally_constrained(
    rocks: Seq<(Seq<char>, LocalPackageView)>,
    dep: LuaDependencySpecView,
) -> Option<LocalPackageView>
    decreases rocks.len(),
{
    if rocks.len() == 0 {
        None
    } else if equally_constrained(dep, rocks.last().1) {
        Some(rocks.last().1)
    } else {
        last_equally_constrained(rocks.drop_last(), dep)
    }
}

/// Those of `rocks` that carry `name`, in their order.
pub open spec fn named(rocks: Seq<(Seq<char>, LocalPackageView)>, name: Seq<char>) -> Seq<
    LocalPackageView,
>
    decreases rocks.len(),
{
    if rocks.len() == 0 {
        Seq::<LocalPackageView>::empty()
    } else if rocks.last().1.spec.name == name {
        named(rocks.drop_last(), name).push(rocks.last().1)
    } else {
        named(rocks.drop_last(), name)
    }
}

/// Whether two packages are the same release: same name, same version.
pub open spec fn same_release(p: LocalPackageView, q: LocalPackageView) -> bool {
    p.spec.name == q.spec.name && p.spec.version == q.spec.version
}

/// The place of the first of `rocks` that is the release of `package`.
pub open spec fn first_release(rocks: Seq<(Seq<char>, LocalPackageView)>, package: LocalPackageView)
    -> Option<int>
    decreases rocks.len(),
{
    if rocks.len() == 0 {
        None
    } else if same_release(rocks.first().1, package) {
        Some(0)
    } else {
        match first_release(rocks.drop_first(), package) {
            Some(i) => Some(i + 1),
            None => None,
        }
    }
}

/// The first release is a place among the packages.
pub proof fn lemma_first_release(rocks: Seq<(Seq<char>, LocalPackageView)>, package: LocalPackageView)
    ensures
        match first_release(rocks, package) {
            Some(i) => 0 <= i < rocks.len() && same_release(rocks[i].1, package),
            None => true,
        },
    decreases rocks.len(),
{
    if rocks.len() > 0 && !same_release(rocks.first().1, package) {
        lemma_first_release(rocks.drop_first(), package);
    }
}

/// What the record says of the hashes of a package.
pub enum IntegrityVerdict {
    /// The record holds the release, and both hashes match.
    Valid,
    /// The record does not hold the release.
    NotFound,
    /// The rockspec hash does not match the one of the recorded package.
    RockspecMismatch(LocalPackageView),
    /// The rockspec hash matches, the source hash does not match the one of
    /// the recorded package.
    SourceMismatch(LocalPackageView),
}

/// What `rocks` say of the hashes of `package`: its record is the first
/// package of the same name and version, and the rockspec hash is looked at
/// before the source hash.
pub open spec fn integrity_verdict(
    rocks: Seq<(Seq<char>, LocalPackageView)>,
    package: LocalPackageView,
) -> IntegrityVerdict {
    match first_release(rocks, package) {
        None => IntegrityVerdict::NotFound,
        Some(i) => {
            let expected = rocks[i].1;
            if !integrity_matches(package.hashes.rockspec, expected.hashes.rockspec) {
                IntegrityVerdict::RockspecMismatch(expected)
            } else if !integrity_matches(package.hashes.source, expected.hashes.source) {
                IntegrityVerdict::SourceMismatch(expected)
            } else {
                IntegrityVerdict::Valid
            }
        },
    }
}

/// Whether two integrities hold the same hashes, in whatever order.
pub open spec fn same_hashes(a: Seq<(Seq<char>, Seq<char>)>, b: Seq<(Seq<char>, Seq<char>)>)
    -> bool {
    forall|h: (Seq<char>, Seq<char>)| #[trigger] a.contains(h) <==> b.contains(h)
}

/// Whether two packages are the same release with the same hashes, in
/// whatever order the hashes of each integrity stand.
pub open spec fn hashes_reordered(p: LocalPackageView, q: LocalPackageView) -> bool {
    &&& same_release(p, q)
    &&& same_hashes(p.hashes.rockspec, q.hashes.rockspec)
    &&& same_hashes(p.hashes.source, q.hashes.source)
}

/// Whether two lists of packages differ at most in the order of the hashes
/// of their integrities.
pub open spec fn rocks_reordered(
    a: Seq<(Seq<char>, LocalPackageView)>,
    b: Seq<(Seq<char>, LocalPackageView)>,
) -> bool {
    a.len() == b.len() && forall|i: int|
        0 <= i < a.len() ==> hashes_reordered((#[trigger] a[i]).1, b[i].1)
}

/// Which of the four verdicts a verdict is.
pub open spec fn verdict_kind(v: IntegrityVerdict) -> int {
    match v {
        IntegrityVerdict::Valid => 0,
        IntegrityVerdict::NotFound => 1,
        IntegrityVerdict::RockspecMismatch(_) => 2,
        IntegrityVerdict::SourceMismatch(_) => 3,
    }
}

/// Whether two integrities match does not depend on the order of their
/// hashes.
pub proof fn lemma_matching_ignores_order(
    a: Seq<(Seq<char>, Seq<char>)>,
    b: Seq<(Seq<char>, Seq<char>)>,
    a2: Seq<(Seq<char>, Seq<char>)>,
    b2: Seq<(Seq<char>, Seq<char>)>,
)
    requires
        same_hashes(a, a2),
        same_hashes(b, b2),
    ensures
        integrity_matches(a, b) == integrity_matches(a2, b2),
{
    if integrity_matches(a, b) {
        let (i, j) = choose|i: int, j: int| 0 <= i < a.len() && 0 <= j < b.len() && a[i] == b[j];
        assert(a.contains(a[i]));
        assert(b.contains(b[j]));
        let i2 = choose|i2: int| 0 <= i2 < a2.len() && a2[i2] == a[i];
        let j2 = choose|j2: int| 0 <= j2 < b2.len() && b2[j2] == b[j];
        assert(a2[i2] == b2[j2]);
    }
    if integrity_matches(a2, b2) {
        let (i, j) = choose|i: int, j: int|
            0 <= i < a2.len() && 0 <= j < b2.len() && a2[i] == b2[j];
        assert(a2.contains(a2[i]));
        assert(b2.contains(b2[j]));
        assert(a.contains(a2[i]));
        assert(b.contains(b2[j]));
        let i1 = choose|i1: int| 0 <= i1 < a.len() && a[i1] == a2[i];
        let j1 = choose|j1: int| 0 <= j1 < b.len() && b[j1] == b2[j];
        assert(a[i1] == b[j1]);
    }
}

/// The record of a release stands at the same place in two lists that
/// differ at most in the order of hashes.
pub proof fn lemma_release_stays_in_place(
    a: Seq<(Seq<char>, LocalPackageView)>,
    b: Seq<(Seq<char>, LocalPackageView)>,
    p: LocalPackageView,
    q: LocalPackageView,
)
    requires
        rocks_reordered(a, b),
        same_release(p, q),
    ensures
        first_release(a, p) == first_release(b, q),
    decreases a.len(),
{
    if a.len() > 0 {
        assert(hashes_reordered(a[0].1, b[0].1));
        assert forall|i: int| 0 <= i < a.drop_first().len() implies hashes_reordered(
            (#[trigger] a.drop_first()[i]).1,
            b.drop_first()[i].1,
        ) by {
            assert(hashes_reordered(a[i + 1].1, b[i + 1].1));
        }
        lemma_release_stays_in_place(a.drop_first(), b.drop_first(), p, q);
    }
}

/// Two lockfiles and two packages that differ only in the order in which
/// the hashes stand within their integrities are judged alike: the hashes
/// are found valid, missing or mismatched for both or for neither.
pub proof fn lemma_verdict_ignores_order(
    a: Seq<(Seq<char>, LocalPackageView)>,
    b: Seq<(Seq<char>, LocalPackageView)>,
    p: LocalPackageView,
    q: LocalPackageView,
)
    requires
        rocks_reordered(a, b),
        hashes_reordered(p, q),
    ensures
        verdict_kind(integrity_verdict(a, p)) == verdict_kind(integrity_verdict(b, q)),
{
    lemma_release_stays_in_place(a, b, p, q);
    lemma_first_release(a, p);
    match first_release(a, p) {
        Some(i) => {
            assert(hashes_reordered(a[i].1, b[i].1));
            lemma_matching_ignores_order(
                p.hashes.rockspec,
                a[i].1.hashes.rockspec,
                q.hashes.rockspec,
                b[i].1.hashes.rockspec,
            );
            lemma_matching_ignores_order(
                p.hashes.source,
                a[i].1.hashes.source,
                q.hashes.source,
                b[i].1.hashes.source,
            );
        },
        None => {},
    }
}

/// Why the hashes of a package are not the ones on record.
#[derive(Debug, PartialEq, Eq)]
pub enum LockfileIntegrityError {
    RockspecIntegrityMismatch { expected: Integrity, got: Integrity },
    SourceIntegrityMismatch { expected: Integrity, got: Integrity },
    /// The lockfile does not hold the package; given are its name, version,
    /// pinned state and the text of its constraint (`UNCONSTRAINED` for
    /// none).
    PackageNotFound(PackageName, PackageVersion, PinnedState, String),
}

/// The text `UNCONSTRAINED`.
pub open spec fn unconstrained_text() -> Seq<char> {
    seq!['U', 'N', 'C', 'O', 'N', 'S', 'T', 'R', 'A', 'I', 'N', 'E', 'D']
}

/// The error that tells that `package` is not in the lockfile.
fn integrity_err_not_found(package: &LocalPackage) -> (r: LockfileIntegrityError)
    ensures
        r matches LockfileIntegrityError::PackageNotFound(name, version, pinned, constraint)
            && name@ == package@.spec.name && version@ == package@.spec.version && pinned
            == package@.spec.pinned && constraint@ == match package@.spec.constraint {
            Some(t) => t,
            None => unconstrained_text(),
        },
{
    let constraint = match &package.spec.constraint {
        Some(t) => t.clone(),
        None => {
            let mut v: Vec<char> = Vec::new();
            v.push('U');
            v.push('N');
            v.push('C');
            v.push('O');
            v.push('N');
            v.push('S');
            v.push('T');
            v.push('R');
            v.push('A');
            v.push('I');
            v.push('N');
            v.push('E');
            v.push('D');
            proof {
                assert(v@ =~= unconstrained_text());
            }
            crate::text::string_of(&v)
        },
    };
    LockfileIntegrityError::PackageNotFound(
        package.name().clone(),
        package.version().clone(),
        package.spec.pinned,
        constraint,
    )
}

/// Whether the installed package `p` answers `req` under `filter`.
fn answers(req: &PackageReq, filter: &Option<RemotePackageTypeFilterSpec>, p: &LocalPackage) -> (r:
    bool)
    ensures
        r == admits(req@, *filter, p@),
{
    if !p.name().same_as(req.name()) {
        return false;
    }
    let passes = match filter {
        Some(f) => p.source().passes_filter(f),
        None => true,
    };
    passes && req.version_req().matches(p.version())
}

impl LocalPackageLock {
    /// The installed package that answers `req`: the last one, in the order
    /// of the lockfile, that has the name, passes the filter and has an
    /// admitted version.
    pub fn has_rock(&self, req: &PackageReq, filter: Option<RemotePackageTypeFilterSpec>) -> (r:
        Option<LocalPackage>)
        ensures
            match r {
                Some(p) => last_admitted(self@.rocks, req@, filter) == Some(p@),
                None => last_admitted(self@.rocks, req@, filter) is None,
            },
    {
        let rocks = self.rocks();
        let mut i: usize = rocks.len();
        proof {
            assert(self@.rocks.take(rocks.len() as int) =~= self@.rocks);
        }
        while i > 0
            invariant
                i <= rocks.len(),
                entries_view(rocks@) == self@.rocks,
                last_admitted(self@.rocks, req@, filter) == last_admitted(
                    self@.rocks.take(i as int),
                    req@,
                    filter,
                ),
            decreases i,
        {
            proof {
                assert(self@.rocks.take(i as int).last() == rocks@[i - 1]@);
                assert(self@.rocks.take(i as int).drop_last() =~= self@.rocks.take(i as int - 1));
            }
            if answers(req, &filter, &rocks[i - 1].package) {
                return Some(rocks[i - 1].package.clone());
            }
            i = i - 1;
        }
        None
    }

    /// The identifiers of the installed packages that answer `req`, the last
    /// of them first.
    pub fn find_rocks(&self, req: &PackageReq) -> (r: Vec<LocalPackageId>)
        ensures
            crate::lockfile::ids_view(r@) == found_rocks(self@.rocks, req@),
    {
        let rocks = self.rocks();
        let mut out: Vec<LocalPackageId> = Vec::new();
        let mut i: usize = rocks.len();
        proof {
            assert(self@.rocks.take(rocks.len() as int) =~= self@.rocks);
            assert(crate::lockfile::ids_view(out@) + found_rocks(self@.rocks, req@)
                =~= found_rocks(self@.rocks, req@));
        }
        while i > 0
            invariant
                i <= rocks.len(),
                entries_view(rocks@) == self@.rocks,
                found_rocks(self@.rocks, req@) == crate::lockfile::ids_view(out@) + found_rocks(
                    self@.rocks.take(i as int),
                    req@,
                ),
            decreases i,
        {
            proof {
                assert(self@.rocks.take(i as int).last() == rocks@[i - 1]@);
                assert(self@.rocks.take(i as int).drop_last() =~= self@.rocks.take(i as int - 1));
            }
            if answers(req, &None, &rocks[i - 1].package) {
                let ghost before = out@;
                let id = rocks[i - 1].package.id();
                out.push(id);
                proof {
                    assert(crate::lockfile::ids_view(before.push(id)) =~= crate::lockfile::ids_view(
                        before,
                    ).push(id@));
                    assert(crate::lockfile::ids_view(before).push(id@) + found_rocks(
                        self@.rocks.take(i as int - 1),
                        req@,
                    ) =~= crate::lockfile::ids_view(before) + (seq![id@] + found_rocks(
                        self@.rocks.take(i as int - 1),
                        req@,
                    )));
                }
            }
            i = i - 1;
        }
        proof {
            assert(crate::lockfile::ids_view(out@) + found_rocks(self@.rocks.take(0), req@)
                =~= crate::lockfile::ids_view(out@));
        }
        out
    }

    /// The identifiers of the installed packages that answer `req` and that
    /// `filter` lets through, the last of them first.
    pub fn find_rocks_and(&self, req: &PackageReq, filter: RockFilter) -> (r: Vec<LocalPackageId>)
        ensures
            crate::lockfile::ids_view(r@) == found_with(self@.rocks, req@, filter),
    {
        let rocks = self.rocks();
        let mut out: Vec<LocalPackageId> = Vec::new();
        let mut i: usize = rocks.len();
        proof {
            assert(self@.rocks.take(rocks.len() as int) =~= self@.rocks);
            assert(crate::lockfile::ids_view(out@) + found_with(self@.rocks, req@, filter)
                =~= found_with(self@.rocks, req@, filter));
        }
        while i > 0
            invariant
                i <= rocks.len(),
                entries_view(rocks@) == self@.rocks,
                found_with(self@.rocks, req@, filter) == crate::lockfile::ids_view(out@)
                    + found_with(self@.rocks.take(i as int), req@, filter),
            decreases i,
        {
            proof {
                assert(self@.rocks.take(i as int).last() == rocks@[i - 1]@);
                assert(self@.rocks.take(i as int).drop_last() =~= self@.rocks.take(i as int - 1));
            }
            if answers(req, &None, &rocks[i - 1].package) && filter.lets_through(
                &rocks[i - 1].package,
            ) {
                let ghost before = out@;
                let id = rocks[i - 1].package.id();
                out.push(id);
                proof {
                    assert(crate::lockfile::ids_view(before.push(id)) =~= crate::lockfile::ids_view(
                        before,
                    ).push(id@));
                    assert(crate::lockfile::ids_view(before).push(id@) + found_with(
                        self@.rocks.take(i as int - 1),
                        req@,
                        filter,
                    ) =~= crate::lockfile::ids_view(before) + (seq![id@] + found_with(
                        self@.rocks.take(i as int - 1),
                        req@,
                        filter,
                    )));
                }
            }
            i = i - 1;
        }
        proof {
            assert(crate::lockfile::ids_view(out@) + found_with(self@.rocks.take(0), req@, filter)
                =~= crate::lockfile::ids_view(out@));
        }
        out
    }

    /// The installed package with the name of `dep` that was installed under
    /// a constraint equal to its requirement: the last one, in the order of
    /// the lockfile.
    pub fn has_rock_with_equal_constraint(&self, dep: &LuaDependencySpec) -> (r: Option<
        LocalPackage,
    >)
        ensures
            match r {
                Some(p) => last_equally_constrained(self@.rocks, dep@) == Some(p@),
                None => last_equally_constrained(self@.rocks, dep@) is None,
            },
    {
        let rocks = self.rocks();
        let mut i: usize = rocks.len();
        proof {
            assert(self@.rocks.take(rocks.len() as int) =~= self@.rocks);
        }
        while i > 0
            invariant
                i <= rocks.len(),
                entries_view(rocks@) == self@.rocks,
                last_equally_constrained(self@.rocks, dep@) == last_equally_constrained(
                    self@.rocks.take(i as int),
                    dep@,
                ),
            decreases i,
        {
            proof {
                assert(self@.rocks.take(i as int).last() == rocks@[i - 1]@);
                assert(self@.rocks.take(i as int).drop_last() =~= self@.rocks.take(i as int - 1));
            }
            let p = &rocks[i - 1].package;
            if p.name().same_as(dep.name()) && p.constraint().matches_version_req(
                dep.version_req(),
            ) {
                return Some(p.clone());
            }
            i = i - 1;
        }
        None
    }

    /// The installed packages that carry `name`, in the order of the
    /// lockfile.
    pub fn list_named(&self, name: &PackageName) -> (r: Vec<LocalPackage>)
        ensures
            packages_view(r@) == named(self@.rocks, name@),
    {
        let rocks = self.rocks();
        let mut out: Vec<LocalPackage> = Vec::new();
        let mut i: usize = 0;
        while i < rocks.len()
            invariant
                i <= rocks.len(),
                entries_view(rocks@) == self@.rocks,
                packages_view(out@) == named(self@.rocks.take(i as int), name@),
            decreases rocks.len() - i,
        {
            proof {
                assert(self@.rocks.take(i as int + 1).last() == rocks@[i as int]@);
                assert(self@.rocks.take(i as int + 1).drop_last() =~= self@.rocks.take(i as int));
            }
            if rocks[i].package.name().same_as(name) {
                let ghost before = out@;
                let p = rocks[i].package.clone();
                out.push(p);
                proof {
                    assert(packages_view(before.push(p)) =~= packages_view(before).push(p@));
                }
            }
            i = i + 1;
        }
        proof {
            assert(self@.rocks.take(rocks.len() as int) =~= self@.rocks);
        }
        out
    }

    /// Holds the hashes of `package` against the record: the record of a
    /// package is the first installed package of its name and version.
    pub fn validate_integrity(&self, package: &LocalPackage) -> (r: Result<
        (),
        LockfileIntegrityError,
    >)
        ensures
            match r {
                Ok(()) => integrity_verdict(self@.rocks, package@) == IntegrityVerdict::Valid,
                Err(LockfileIntegrityError::PackageNotFound(name, version, pinned, constraint)) => {
                    &&& integrity_verdict(self@.rocks, package@) == IntegrityVerdict::NotFound
                    &&& name@ == package@.spec.name
                    &&& version@ == package@.spec.version
                    &&& pinned == package@.spec.pinned
                    &&& constraint@ == match package@.spec.constraint {
                        Some(t) => t,
                        None => unconstrained_text(),
                    }
                },
                Err(LockfileIntegrityError::RockspecIntegrityMismatch { expected, got }) => {
                    &&& integrity_verdict(self@.rocks, package@) matches IntegrityVerdict::RockspecMismatch(
                        e,
                    ) && e.hashes.rockspec == expected@
                    &&& got@ == package@.hashes.rockspec
                },
                Err(LockfileIntegrityError::SourceIntegrityMismatch { expected, got }) => {
                    &&& integrity_verdict(self@.rocks, package@) matches IntegrityVerdict::SourceMismatch(
                        e,
                    ) && e.hashes.source == expected@
                    &&& got@ == package@.hashes.source
                },
            },
    {
        let rocks = self.rocks();
        let mut i: usize = 0;
        proof {
            assert(self@.rocks.skip(0) =~= self@.rocks);
        }
        while i < rocks.len()
            invariant
                i <= rocks.len(),
                entries_view(rocks@) == self@.rocks,
                first_release(self@.rocks, package@) == match first_release(
                    self@.rocks.skip(i as int),
                    package@,
                ) {
                    Some(k) => Some(k + i),
                    None => None,
                },
            decreases rocks.len() - i,
        {
            proof {
                assert(self@.rocks.skip(i as int).first() == rocks@[i as int]@);
                assert(self@.rocks.skip(i as int).drop_first() =~= self@.rocks.skip(i as int + 1));
            }
            let expected = &rocks[i].package;
            if expected.name().same_as(package.name()) && expected.version().same_as(
                package.version(),
            ) {
                proof {
                    assert(first_release(self@.rocks, package@) == Some(i as int));
                    assert(self@.rocks[i as int].1 == expected@);
                }
                if !package.hashes.rockspec.matches(&expected.hashes.rockspec) {
                    return Err(
                        LockfileIntegrityError::RockspecIntegrityMismatch {
                            expected: expected.hashes.rockspec.clone(),
                            got: package.hashes.rockspec.clone(),
                        },
                    );
                }
                if !package.hashes.source.matches(&expected.hashes.source) {
                    return Err(
                        LockfileIntegrityError::SourceIntegrityMismatch {
                            expected: expected.hashes.source.clone(),
                            got: package.hashes.source.clone(),
                        },
                    );
                }
                return Ok(());
            }
            i = i + 1;
        }
        proof {
            assert(self@.rocks.skip(rocks.len() as int).len() == 0);
        }
        Err(integrity_err_not_found(package))
    }
}

/// The views of a sequence of packages.
pub open spec fn packages_view(packages: Seq<LocalPackage>) -> Seq<LocalPackageView> {
    packages.map_values(|p: LocalPackage| p@)
}

} // verus!
