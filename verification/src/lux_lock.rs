//! Lockfiles as they are held in memory: the lockfile of an install tree
//! and the lockfile of a project, each either read-only or writeable. The
//! type tells which: only a writeable lockfile offers the operations that
//! change it.

use crate::config::{RockLayoutConfig, RockLayoutConfigView};
use crate::lock::{entries_view, with_dependency, without, LocalPackageLock, LockEntry, LockView};
use crate::lockfile::{ids_view, LocalPackage, LocalPackageId, LuaDependencySpec};
use crate::package::{PackageName, PackageReq, RemotePackageTypeFilterSpec};
use crate::query::{
    found_rocks, found_with, integrity_verdict, last_admitted, named, packages_view,
    unconstrained_text, IntegrityVerdict, LockfileIntegrityError, RockFilter,
};
use crate::sync::{deps_view, to_add_spec, to_remove_spec, PackageSyncSpec};
use crate::text::{chars_of, string_of};
use std::marker::PhantomData;
use vstd::prelude::*;

verus! {

/// The version of the lockfile format.
pub open spec fn lockfile_version() -> Seq<char> {
    "1.0.0"@
}

/// What may be done with a lockfile.
pub trait LockfilePermissions {

}

/// The permission to read.
#[derive(Clone, Debug)]
pub struct ReadOnly;

/// The permission to read and to change.
#[derive(Clone, Debug)]
pub struct ReadWrite;

impl LockfilePermissions for ReadOnly {

}

impl LockfilePermissions for ReadWrite {

}

/// Why a lockfile could not be had.
#[derive(Debug, PartialEq, Eq)]
pub enum LockfileError {
    /// The file could not be read.
    Load(String),
    /// The file could not be created.
    Create(String),
    /// The file holds no lockfile.
    ParseJson(String),
    /// The lockfile could not be written out.
    WriteJson(String),
    /// The lockfile was made for another layout than the expected one.
    MismatchedRockLayout,
}

/// The lockfile of an install tree.
#[derive(Debug)]
pub struct Lockfile<P: LockfilePermissions> {
    filepath: String,
    _marker: PhantomData<P>,
    version: String,
    lock: LocalPackageLock,
    pub entrypoint_layout: RockLayoutConfig,
}

/// The lockfile of a tree as plain values.
pub struct LockfileView {
    pub filepath: Seq<char>,
    pub version: Seq<char>,
    pub lock: LockView,
    pub entrypoint_layout: RockLayoutConfigView,
}

impl<P: LockfilePermissions> View for Lockfile<P> {
    type V = LockfileView;

    closed spec fn view(&self) -> LockfileView {
        LockfileView {
            filepath: self.filepath@,
            version: self.version@,
            lock: self.lock@,
            entrypoint_layout: self.entrypoint_layout@,
        }
    }
}

/// The three sets of dependencies of a project.
#[derive(Copy, Clone, Debug, PartialEq, Eq, Structural)]
pub enum LocalPackageLockType {
    Regular,
    Test,
    Build,
}

/// The lockfile of a project: one body for each set of dependencies.
#[derive(Debug)]
pub struct ProjectLockfile<P: LockfilePermissions> {
    filepath: String,
    _marker: PhantomData<P>,
    version: String,
    dependencies: LocalPackageLock,
    test_dependencies: LocalPackageLock,
    build_dependencies: LocalPackageLock,
}

/// The lockfile of a project as plain values.
pub struct ProjectLockfileView {
    pub filepath: Seq<char>,
    pub version: Seq<char>,
    pub dependencies: LockView,
    pub test_dependencies: LockView,
    pub build_dependencies: LockView,
}

impl ProjectLockfileView {
    /// The body for one set of dependencies.
    pub open spec fn body(self, deps: LocalPackageLockType) -> LockView {
        match deps {
            LocalPackageLockType::Regular => self.dependencies,
            LocalPackageLockType::Test => self.test_dependencies,
            LocalPackageLockType::Build => self.build_dependencies,
        }
    }

    /// The lockfile with the body for one set of dependencies replaced.
    pub open spec fn with_body(self, deps: LocalPackageLockType, body: LockView) -> Self {
        match deps {
            LocalPackageLockType::Regular => ProjectLockfileView { dependencies: body, ..self },
            LocalPackageLockType::Test => ProjectLockfileView { test_dependencies: body, ..self },
            LocalPackageLockType::Build => ProjectLockfileView { build_dependencies: body, ..self },
        }
    }

    /// Whether each body is a well-formed lockfile body.
    pub open spec fn wf(self) -> bool {
        self.dependencies.wf() && self.test_dependencies.wf() && self.build_dependencies.wf()
    }
}

impl<P: LockfilePermissions> View for ProjectLockfile<P> {
    type V = ProjectLockfileView;

    closed spec fn view(&self) -> ProjectLockfileView {
        ProjectLockfileView {
            filepath: self.filepath@,
            version: self.version@,
            dependencies: self.dependencies@,
            test_dependencies: self.test_dependencies@,
            build_dependencies: self.build_dependencies@,
        }
    }
}

impl<P: LockfilePermissions> Lockfile<P> {
    /// The version of the format in which the lockfile was written.
    pub fn version(&self) -> (r: &String)
        ensures
            r@ == self@.version,
    {
        &self.version
    }

    /// The path of the file that the lockfile belongs to.
    pub fn filepath(&self) -> (r: &String)
        ensures
            r@ == self@.filepath,
    {
        &self.filepath
    }

    /// The packages with the identifiers under which they are kept, in the
    /// order of the identifiers.
    pub fn rocks(&self) -> (r: &Vec<LockEntry>)
        ensures
            entries_view(r@) == self@.lock.rocks,
    {
        self.lock.rocks()
    }

    /// Whether some package names `package` among its direct dependencies.
    pub fn is_dependency(&self, package: &LocalPackageId) -> (r: bool)
        ensures
            r == self@.lock.is_dependency(package@),
    {
        self.lock.is_dependency(package)
    }

    /// Whether `package` is among the entrypoints.
    pub fn is_entrypoint(&self, package: &LocalPackageId) -> (r: bool)
        ensures
            r == self@.lock.is_entrypoint(package@),
    {
        self.lock.is_entrypoint(package)
    }

    /// Whether `package` is among the entrypoints.
    pub fn entry_type(&self, package: &LocalPackageId) -> (r: bool)
        ensures
            r == self@.lock.is_entrypoint(package@),
    {
        self.lock.is_entrypoint(package)
    }

    /// The body of the lockfile.
    pub fn local_pkg_lock(&self) -> (r: &LocalPackageLock)
        ensures
            r@ == self@.lock,
    {
        &self.lock
    }

    /// The package that is kept under `id`.
    pub fn get(&self, id: &LocalPackageId) -> (r: Option<&LocalPackage>)
        requires
            self@.lock.wf(),
        ensures
            match r {
                Some(p) => self@.lock.get(id@) == Some(p@),
                None => self@.lock.get(id@) is None,
            },
    {
        self.lock.get(id)
    }

    /// The package that is kept under `id`, which must be the identifier of
    /// a package of the lockfile.
    pub fn get_unchecked(&self, id: &LocalPackageId) -> (r: &LocalPackage)
        requires
            self@.lock.wf(),
            self@.lock.has(id@),
        ensures
            self@.lock.get(id@) == Some(r@),
    {
        match self.lock.get(id) {
            Some(p) => p,
            None => {
                proof {
                    assert(false);
                }
                vstd::pervasive::unreached()
            },
        }
    }

    /// The installed packages that carry `name`, in the order of the
    /// lockfile.
    pub fn list_named(&self, name: &PackageName) -> (r: Vec<LocalPackage>)
        ensures
            packages_view(r@) == named(self@.lock.rocks, name@),
    {
        self.lock.list_named(name)
    }

    /// The installed package that answers `req`: the last one, in the order
    /// of the lockfile, that has the name, passes the filter and has an
    /// admitted version.
    pub fn has_rock(&self, req: &PackageReq, filter: Option<RemotePackageTypeFilterSpec>) -> (r:
        Option<LocalPackage>)
        ensures
            match r {
                Some(p) => last_admitted(self@.lock.rocks, req@, filter) == Some(p@),
                None => last_admitted(self@.lock.rocks, req@, filter) is None,
            },
    {
        self.lock.has_rock(req, filter)
    }

    /// The identifiers of all installed packages that answer `req`, the last
    /// of them first.
    pub fn find_rocks(&self, req: &PackageReq) -> (r: Vec<LocalPackageId>)
        ensures
            ids_view(r@) == found_rocks(self@.lock.rocks, req@),
    {
        self.lock.find_rocks(req)
    }

    /// The identifiers of the installed packages that answer `req` and that
    /// `filter` lets through, the last of them first.
    pub fn find_rocks_and(&self, req: &PackageReq, filter: RockFilter) -> (r: Vec<LocalPackageId>)
        ensures
            ids_view(r@) == found_with(self@.lock.rocks, req@, filter),
    {
        self.lock.find_rocks_and(req, filter)
    }

    /// Holds the hashes of an installed package against the entry of the
    /// lockfile. The entry is found by name and version, not by identifier:
    /// a package that is installed from a lockfile always has an exact
    /// constraint.
    pub fn validate_integrity(&self, package: &LocalPackage) -> (r: Result<
        (),
        LockfileIntegrityError,
    >)
        ensures
            match r {
                Ok(()) => integrity_verdict(self@.lock.rocks, package@) == IntegrityVerdict::Valid,
                Err(LockfileIntegrityError::PackageNotFound(name, version, pinned, constraint)) => {
                    &&& integrity_verdict(self@.lock.rocks, package@) == IntegrityVerdict::NotFound
                    &&& name@ == package@.spec.name
                    &&& version@ == package@.spec.version
                    &&& pinned == package@.spec.pinned
                    &&& constraint@ == match package@.spec.constraint {
                        Some(t) => t,
                        None => unconstrained_text(),
                    }
                },
                Err(LockfileIntegrityError::RockspecIntegrityMismatch { expected, got }) => {
                    &&& integrity_verdict(self@.lock.rocks, package@) matches IntegrityVerdict::RockspecMismatch(
                        e,
                    ) && e.hashes.rockspec == expected@
                    &&& got@ == package@.hashes.rockspec
                },
                Err(LockfileIntegrityError::SourceIntegrityMismatch { expected, got }) => {
                    &&& integrity_verdict(self@.lock.rocks, package@) matches IntegrityVerdict::SourceMismatch(
                        e,
                    ) && e.hashes.source == expected@
                    &&& got@ == package@.hashes.source
                },
            },
    {
        self.lock.validate_integrity(package)
    }
}

impl Lockfile<ReadOnly> {
    /// The lockfile that is written where none exists: no package, no
    /// entrypoint, the current version of the format.
    pub fn empty(filepath: String, rock_layout: RockLayoutConfig) -> (r: Self)
        ensures
            r@.filepath == filepath@,
            r@.version == lockfile_version(),
            r@.lock.rocks.len() == 0,
            r@.lock.entrypoints.len() == 0,
            r@.lock.wf(),
            r@.entrypoint_layout == rock_layout@,
    {
        Lockfile {
            filepath,
            _marker: PhantomData,
            version: string_of(&chars_of("1.0.0")),
            lock: LocalPackageLock::default(),
            entrypoint_layout: rock_layout,
        }
    }

    /// The lockfile that was read from `filepath`, given what the file
    /// holds. Where a layout is expected, a lockfile that was made for
    /// another layout is refused.
    pub fn load(
        filepath: String,
        version: String,
        lock: LocalPackageLock,
        entrypoint_layout: RockLayoutConfig,
        expected_rock_layout: Option<&RockLayoutConfig>,
    ) -> (r: Result<Self, LockfileError>)
        ensures
            match r {
                Ok(l) => {
                    &&& (expected_rock_layout matches Some(e) ==> e@ == entrypoint_layout@)
                    &&& l@ == (LockfileView {
                        filepath: filepath@,
                        version: version@,
                        lock: lock@,
                        entrypoint_layout: entrypoint_layout@,
                    })
                },
                Err(e) => e == LockfileError::MismatchedRockLayout && (
                expected_rock_layout matches Some(x) && x@ != entrypoint_layout@),
            },
    {
        match expected_rock_layout {
            Some(expected) => {
                if !entrypoint_layout.same_as(expected) {
                    return Err(LockfileError::MismatchedRockLayout);
                }
            },
            None => {},
        }
        Ok(Lockfile { filepath, _marker: PhantomData, version, lock, entrypoint_layout })
    }

    /// The same lockfile, writeable. It is not written anywhere.
    pub fn into_temporary(self) -> (r: Lockfile<ReadWrite>)
        ensures
            r@ == self@,
    {
        Lockfile {
            _marker: PhantomData,
            filepath: self.filepath,
            version: self.version,
            lock: self.lock,
            entrypoint_layout: self.entrypoint_layout,
        }
    }

    /// The same lockfile behind a guard that lets it be changed. Who holds
    /// the guard writes the lockfile out when done with it.
    pub fn write_guard(self) -> (r: LockfileGuard)
        ensures
            r@ == self@,
    {
        LockfileGuard(self.into_temporary())
    }
}

impl Lockfile<ReadWrite> {
    /// Records `rock` under its identifier unless a package is already kept
    /// under it.
    pub fn add(&mut self, rock: &LocalPackage)
        requires
            old(self)@.lock.wf(),
        ensures
            final(self)@.lock.wf(),
            final(self)@ == (LockfileView { lock: final(self)@.lock, ..old(self)@ }),
            final(self)@.lock.entrypoints == old(self)@.lock.entrypoints,
            old(self)@.lock.ids_within(final(self)@.lock),
            final(self)@.lock.get(rock@.spec.id()) == if old(self)@.lock.has(rock@.spec.id()) {
                old(self)@.lock.get(rock@.spec.id())
            } else {
                Some(rock@)
            },
            forall|id: Seq<char>|
                id != rock@.spec.id() ==> final(self)@.lock.get(id) == old(self)@.lock.get(id),
            old(self)@.lock.has(rock@.spec.id()) ==> final(self)@ == old(self)@,
            old(self)@.lock.closed() && old(self)@.lock.knows_dependencies_of(rock@)
                ==> final(self)@.lock.closed(),
    {
        self.lock.add(rock)
    }

    /// Records `rock` and makes it an entrypoint.
    pub fn add_entrypoint(&mut self, rock: &LocalPackage)
        requires
            old(self)@.lock.wf(),
        ensures
            final(self)@.lock.wf(),
            final(self)@ == (LockfileView { lock: final(self)@.lock, ..old(self)@ }),
            final(self)@.lock.entrypoints == old(self)@.lock.entrypoints.push(rock@.spec.id()),
            old(self)@.lock.ids_within(final(self)@.lock),
            final(self)@.lock.get(rock@.spec.id()) == if old(self)@.lock.has(rock@.spec.id()) {
                old(self)@.lock.get(rock@.spec.id())
            } else {
                Some(rock@)
            },
            forall|id: Seq<char>|
                id != rock@.spec.id() ==> final(self)@.lock.get(id) == old(self)@.lock.get(id),
            final(self)@.lock.is_entrypoint(rock@.spec.id()),
            old(self)@.lock.closed() && old(self)@.lock.knows_dependencies_of(rock@)
                ==> final(self)@.lock.closed(),
    {
        self.lock.add_entrypoint(rock)
    }

    /// Takes the first occurrence of `rock`'s identifier off the
    /// entrypoints. The package itself stays.
    pub fn remove_entrypoint(&mut self, rock: &LocalPackage)
        requires
            old(self)@.lock.wf(),
        ensures
            final(self)@.lock.wf(),
            final(self)@ == (LockfileView { lock: final(self)@.lock, ..old(self)@ }),
            final(self)@.lock.rocks == old(self)@.lock.rocks,
            final(self)@.lock.entrypoints == match old(self)@.lock.entrypoints.index_of_first(
                rock@.spec.id(),
            ) {
                Some(i) => old(self)@.lock.entrypoints.remove(i),
                None => old(self)@.lock.entrypoints,
            },
    {
        self.lock.remove_entrypoint(rock)
    }

    /// Notes that `target` depends on `dependency`, and records both.
    pub fn add_dependency(&mut self, target: &LocalPackage, dependency: &LocalPackage)
        requires
            old(self)@.lock.wf(),
        ensures
            final(self)@.lock.wf(),
            final(self)@ == (LockfileView { lock: final(self)@.lock, ..old(self)@ }),
            final(self)@.lock.entrypoints == old(self)@.lock.entrypoints,
            old(self)@.lock.ids_within(final(self)@.lock),
            final(self)@.lock.get(target@.spec.id()) == Some(
                with_dependency(
                    match old(self)@.lock.get(target@.spec.id()) {
                        Some(p) => p,
                        None => target@,
                    },
                    dependency@.spec.id(),
                ),
            ),
            final(self)@.lock.has(dependency@.spec.id()),
            dependency@.spec.id() != target@.spec.id() ==> final(self)@.lock.get(
                dependency@.spec.id(),
            ) == if old(self)@.lock.has(dependency@.spec.id()) {
                old(self)@.lock.get(dependency@.spec.id())
            } else {
                Some(dependency@)
            },
            forall|id: Seq<char>|
                id != target@.spec.id() && id != dependency@.spec.id() ==> final(self)@.lock.get(
                    id,
                ) == old(self)@.lock.get(id),
            old(self)@.lock.closed() && old(self)@.lock.knows_dependencies_of(target@)
                && old(self)@.lock.knows_dependencies_of(dependency@) ==> final(self)@.lock.closed(),
    {
        self.lock.add_dependency(target, dependency)
    }

    /// Notes that `target` depends on the package that is kept under
    /// `dependency`.
    pub fn add_dependency_id(&mut self, target: &LocalPackage, dependency: &LocalPackageId)
        requires
            old(self)@.lock.wf(),
        ensures
            final(self)@.lock.wf(),
            final(self)@ == (LockfileView { lock: final(self)@.lock, ..old(self)@ }),
            final(self)@.lock.entrypoints == old(self)@.lock.entrypoints,
            old(self)@.lock.ids_within(final(self)@.lock),
            final(self)@.lock.get(target@.spec.id()) == Some(
                with_dependency(
                    match old(self)@.lock.get(target@.spec.id()) {
                        Some(p) => p,
                        None => target@,
                    },
                    dependency@,
                ),
            ),
            forall|id: Seq<char>|
                id != target@.spec.id() ==> final(self)@.lock.get(id) == old(self)@.lock.get(id),
            old(self)@.lock.closed() && old(self)@.lock.knows_dependencies_of(target@) && (
            old(self)@.lock.has(dependency@) || dependency@ == target@.spec.id())
                ==> final(self)@.lock.closed(),
    {
        self.lock.add_dependency_id(target, dependency)
    }

    /// Takes `target` out of the lockfile.
    pub fn remove(&mut self, target: &LocalPackage)
        requires
            old(self)@.lock.wf(),
        ensures
            final(self)@.lock.wf(),
            final(self)@ == (LockfileView { lock: final(self)@.lock, ..old(self)@ }),
            !final(self)@.lock.has(target@.spec.id()),
            final(self)@.lock.ids_within(old(self)@.lock),
            forall|id: Seq<char>|
                id != target@.spec.id() ==> final(self)@.lock.get(id) == old(self)@.lock.get(id),
            final(self)@.lock.entrypoints == without(
                old(self)@.lock.entrypoints,
                target@.spec.id(),
            ),
    {
        self.lock.remove(target)
    }

    /// Takes the package that is kept under `target` out of the lockfile.
    pub fn remove_by_id(&mut self, target: &LocalPackageId)
        requires
            old(self)@.lock.wf(),
        ensures
            final(self)@.lock.wf(),
            final(self)@ == (LockfileView { lock: final(self)@.lock, ..old(self)@ }),
            !final(self)@.lock.has(target@),
            final(self)@.lock.ids_within(old(self)@.lock),
            forall|id: Seq<char>| id != target@ ==> final(self)@.lock.get(id) == old(self)@.lock.get(id),
            final(self)@.lock.entrypoints == without(old(self)@.lock.entrypoints, target@),
    {
        self.lock.remove_by_id(target)
    }

    /// Replaces the body of the lockfile by `lock`.
    pub fn sync(&mut self, lock: &LocalPackageLock)
        ensures
            final(self)@ == (LockfileView { lock: lock@, ..old(self)@ }),
    {
        self.lock.sync(lock)
    }
}

/// A writeable lockfile of a tree, to be written out by who holds it.
#[derive(Debug)]
pub struct LockfileGuard(pub Lockfile<ReadWrite>);

impl View for LockfileGuard {
    type V = LockfileView;

    open spec fn view(&self) -> LockfileView {
        self.0@
    }
}

/// A writeable lockfile of a project, to be written out by who holds it.
#[derive(Debug)]
pub struct ProjectLockfileGuard(pub ProjectLockfile<ReadWrite>);

impl View for ProjectLockfileGuard {
    type V = ProjectLockfileView;

    open spec fn view(&self) -> ProjectLockfileView {
        self.0@
    }
}

impl<P: LockfilePermissions> ProjectLockfile<P> {
    /// The path of the file that the lockfile belongs to.
    pub fn filepath(&self) -> (r: &String)
        ensures
            r@ == self@.filepath,
    {
        &self.filepath
    }

    /// The version of the format in which the lockfile was written.
    pub fn version(&self) -> (r: &String)
        ensures
            r@ == self@.version,
    {
        &self.version
    }

    /// The body for one set of dependencies.
    pub fn local_pkg_lock(&self, deps: &LocalPackageLockType) -> (r: &LocalPackageLock)
        ensures
            r@ == self@.body(*deps),
    {
        match deps {
            LocalPackageLockType::Regular => &self.dependencies,
            LocalPackageLockType::Test => &self.test_dependencies,
            LocalPackageLockType::Build => &self.build_dependencies,
        }
    }

    /// The packages of one set of dependencies.
    pub fn rocks(&self, deps: &LocalPackageLockType) -> (r: &Vec<LockEntry>)
        ensures
            entries_view(r@) == self@.body(*deps).rocks,
    {
        self.local_pkg_lock(deps).rocks()
    }

    /// The package that one set of dependencies keeps under `id`.
    pub fn get(&self, id: &LocalPackageId, deps: &LocalPackageLockType) -> (r: Option<
        &LocalPackage,
    >)
        requires
            self@.wf(),
        ensures
            match r {
                Some(p) => self@.body(*deps).get(id@) == Some(p@),
                None => self@.body(*deps).get(id@) is None,
            },
    {
        self.local_pkg_lock(deps).get(id)
    }

    /// Whether `package` is an entrypoint of one set of dependencies.
    pub fn is_entrypoint(&self, package: &LocalPackageId, deps: &LocalPackageLockType) -> (r: bool)
        ensures
            r == self@.body(*deps).is_entrypoint(package@),
    {
        self.local_pkg_lock(deps).is_entrypoint(package)
    }

    /// What a sync of one set of dependencies with the declared
    /// dependencies `packages` has to do. The three sets are synced
    /// independently of each other.
    pub fn package_sync_spec(&self, packages: &[LuaDependencySpec], deps: &LocalPackageLockType)
        -> (r: PackageSyncSpec)
        requires
            self@.wf(),
        ensures
            deps_view(r.to_add@) == to_add_spec(self@.body(*deps), deps_view(packages@)),
            packages_view(r.to_remove@) == to_remove_spec(self@.body(*deps), deps_view(packages@)),
    {
        self.local_pkg_lock(deps).package_sync_spec(packages)
    }
}

impl ProjectLockfile<ReadOnly> {
    /// The lockfile that is written where none exists: three empty bodies.
    pub fn empty(filepath: String) -> (r: Self)
        ensures
            r@.filepath == filepath@,
            r@.version == lockfile_version(),
            r@.wf(),
            r@.dependencies.rocks.len() == 0,
            r@.test_dependencies.rocks.len() == 0,
            r@.build_dependencies.rocks.len() == 0,
    {
        ProjectLockfile {
            filepath,
            _marker: PhantomData,
            version: string_of(&chars_of("1.0.0")),
            dependencies: LocalPackageLock::default(),
            test_dependencies: LocalPackageLock::default(),
            build_dependencies: LocalPackageLock::default(),
        }
    }

    /// The lockfile that was read from `filepath`, given what the file
    /// holds.
    pub fn load(
        filepath: String,
        version: String,
        dependencies: LocalPackageLock,
        test_dependencies: LocalPackageLock,
        build_dependencies: LocalPackageLock,
    ) -> (r: Self)
        ensures
            r@ == (ProjectLockfileView {
                filepath: filepath@,
                version: version@,
                dependencies: dependencies@,
                test_dependencies: test_dependencies@,
                build_dependencies: build_dependencies@,
            }),
    {
        ProjectLockfile {
            filepath,
            _marker: PhantomData,
            version,
            dependencies,
            test_dependencies,
            build_dependencies,
        }
    }

    /// The same lockfile, writeable.
    pub fn into_temporary(self) -> (r: ProjectLockfile<ReadWrite>)
        ensures
            r@ == self@,
    {
        ProjectLockfile {
            _marker: PhantomData,
            filepath: self.filepath,
            version: self.version,
            dependencies: self.dependencies,
            test_dependencies: self.test_dependencies,
            build_dependencies: self.build_dependencies,
        }
    }

    /// The same lockfile behind a guard that lets it be changed.
    pub fn write_guard(self) -> (r: ProjectLockfileGuard)
        ensures
            r@ == self@,
    {
        ProjectLockfileGuard(self.into_temporary())
    }
}

impl ProjectLockfile<ReadWrite> {
    /// Takes `target` out of one set of dependencies.
    pub fn remove(&mut self, target: &LocalPackage, deps: &LocalPackageLockType)
        requires
            old(self)@.wf(),
        ensures
            final(self)@.wf(),
            final(self)@ == old(self)@.with_body(*deps, final(self)@.body(*deps)),
            !final(self)@.body(*deps).has(target@.spec.id()),
            final(self)@.body(*deps).ids_within(old(self)@.body(*deps)),
            forall|id: Seq<char>|
                id != target@.spec.id() ==> final(self)@.body(*deps).get(id) == old(self)@.body(
                    *deps,
                ).get(id),
            final(self)@.body(*deps).entrypoints == without(
                old(self)@.body(*deps).entrypoints,
                target@.spec.id(),
            ),
    {
        match deps {
            LocalPackageLockType::Regular => self.dependencies.remove(target),
            LocalPackageLockType::Test => self.test_dependencies.remove(target),
            LocalPackageLockType::Build => self.build_dependencies.remove(target),
        }
    }

    /// Replaces the body of one set of dependencies by `lock`.
    pub fn sync(&mut self, lock: &LocalPackageLock, deps: &LocalPackageLockType)
        ensures
            final(self)@ == old(self)@.with_body(*deps, lock@),
    {
        match deps {
            LocalPackageLockType::Regular => {
                self.dependencies = lock.clone();
            },
            LocalPackageLockType::Test => {
                self.test_dependencies = lock.clone();
            },
            LocalPackageLockType::Build => {
                self.build_dependencies = lock.clone();
            },
        }
    }
}

} // verus!
