//! What is asked of an installation: which package, built how, and what a
//! downloaded package brings along.

use crate::lockfile::{
    clone_strings, strings_view, LocalPackageSpec, LocalPackageSpecView, LockConstraint,
    LockConstraintView, OptState, PinnedState,
};
use crate::package::{PackageName, PackageReq, PackageReqView};
use crate::tree::EntryType;
use crate::version::{PackageVersion, PackageVersionView};
use vstd::prelude::*;

verus! {

/// Whether a package is built although it is installed.
#[derive(Copy, Clone, Debug, PartialEq, Eq, Hash, Structural)]
pub enum BuildBehaviour {
    /// Build what is not installed.
    NoForce,
    /// Build, installed or not.
    Force,
}

/// How to install a package.
#[derive(Debug, PartialEq, Eq)]
pub struct PackageInstallSpec {
    pub package: PackageReq,
    pub build_behaviour: BuildBehaviour,
    pub pin: PinnedState,
    pub opt: OptState,
    pub entry_type: EntryType,
    /// A constraint carried over from an earlier installation, such as one
    /// that a lockfile records.
    pub constraint: Option<LockConstraint>,
    /// Where to take the package from, where that is known beforehand.
    pub source: Option<String>,
}

/// An install request as plain values.
pub struct PackageInstallSpecView {
    pub package: PackageReqView,
    pub build_behaviour: BuildBehaviour,
    pub pin: PinnedState,
    pub opt: OptState,
    pub entry_type: EntryType,
    pub constraint: Option<LockConstraintView>,
    pub source: Option<Seq<char>>,
}

impl View for PackageInstallSpec {
    type V = PackageInstallSpecView;

    open spec fn view(&self) -> PackageInstallSpecView {
        PackageInstallSpecView {
            package: self.package@,
            build_behaviour: self.build_behaviour,
            pin: self.pin,
            opt: self.opt,
            entry_type: self.entry_type,
            constraint: match self.constraint {
                Some(c) => Some(c@),
                None => None,
            },
            source: match self.source {
                Some(s) => Some(s@),
                None => None,
            },
        }
    }
}

impl Clone for PackageInstallSpec {
    fn clone(&self) -> (r: Self)
        ensures
            r@ == self@,
    {
        PackageInstallSpec {
            package: self.package.clone(),
            build_behaviour: self.build_behaviour,
            pin: self.pin,
            opt: self.opt,
            entry_type: self.entry_type,
            constraint: match &self.constraint {
                Some(c) => Some(c.clone()),
                None => None,
            },
            source: match &self.source {
                Some(s) => Some(s.clone()),
                None => None,
            },
        }
    }
}

impl PackageInstallSpec {
    /// The request to install `package` in the given way.
    pub fn new(
        package: PackageReq,
        build_behaviour: BuildBehaviour,
        pin: PinnedState,
        opt: OptState,
        entry_type: EntryType,
        constraint: Option<LockConstraint>,
    ) -> (r: Self)
        ensures
            r@ == (PackageInstallSpecView {
                package: package@,
                build_behaviour,
                pin,
                opt,
                entry_type,
                constraint: match constraint {
                    Some(c) => Some(c@),
                    None => None,
                },
                source: None,
            }),
    {
        PackageInstallSpec {
            package,
            build_behaviour,
            pin,
            opt,
            entry_type,
            constraint,
            source: None,
        }
    }

    /// The request to install `package` as it comes: not forced, unpinned,
    /// required.
    pub fn of(package: PackageReq, entry_type: EntryType) -> (r: Self)
        ensures
            r@ == (PackageInstallSpecView {
                package: package@,
                build_behaviour: BuildBehaviour::NoForce,
                pin: PinnedState::Unpinned,
                opt: OptState::Required,
                entry_type,
                constraint: None,
                source: None,
            }),
    {
        PackageInstallSpec {
            package,
            build_behaviour: BuildBehaviour::NoForce,
            pin: PinnedState::Unpinned,
            opt: OptState::Required,
            entry_type,
            constraint: None,
            source: None,
        }
    }
}

/// What was downloaded for a package.
#[derive(Copy, Clone, Debug, PartialEq, Eq, Hash, Structural)]
pub enum RockKind {
    /// The rockspec alone.
    RockspecOnly,
    /// A binary archive, with the rockspec taken out of it.
    BinaryRock,
    /// A source archive, with the rockspec taken out of it.
    SrcRock,
}

/// A dependency as a rockspec declares it.
#[derive(Debug, PartialEq, Eq)]
pub struct RockDependency {
    pub package_req: PackageReq,
    pub source: Option<String>,
}

impl View for RockDependency {
    type V = (PackageReqView, Option<Seq<char>>);

    open spec fn view(&self) -> (PackageReqView, Option<Seq<char>>) {
        (
            self.package_req@,
            match self.source {
                Some(s) => Some(s@),
                None => None,
            },
        )
    }
}

impl Clone for RockDependency {
    fn clone(&self) -> (r: Self)
        ensures
            r@ == self@,
    {
        RockDependency {
            package_req: self.package_req.clone(),
            source: match &self.source {
                Some(s) => Some(s.clone()),
                None => None,
            },
        }
    }
}

/// The views of a sequence of declared dependencies.
pub open spec fn rock_deps_view(deps: Seq<RockDependency>) -> Seq<
    (PackageReqView, Option<Seq<char>>),
> {
    deps.map_values(|d: RockDependency| d@)
}

/// A copy of a list of declared dependencies.
pub fn clone_rock_deps(deps: &Vec<RockDependency>) -> (r: Vec<RockDependency>)
    ensures
        rock_deps_view(r@) == rock_deps_view(deps@),
{
    let mut out: Vec<RockDependency> = Vec::new();
    let mut i: usize = 0;
    while i < deps.len()
        invariant
            i <= deps.len(),
            rock_deps_view(out@) == rock_deps_view(deps@).take(i as int),
        decreases deps.len() - i,
    {
        let ghost before = out@;
        let d = deps[i].clone();
        out.push(d);
        proof {
            assert(rock_deps_view(before.push(d)) =~= rock_deps_view(before).push(d@));
            assert(rock_deps_view(deps@).take(i as int).push(deps@[i as int]@) =~= rock_deps_view(
                deps@,
            ).take(i as int + 1));
        }
        i = i + 1;
    }
    proof {
        assert(rock_deps_view(deps@).take(deps.len() as int) =~= rock_deps_view(deps@));
    }
    out
}

/// What the rockspec of a downloaded package says, for the platform at
/// hand, as far as the resolution of dependencies needs it.
#[derive(Debug, PartialEq, Eq)]
pub struct DownloadedRock {
    pub kind: RockKind,
    pub name: PackageName,
    pub version: PackageVersion,
    pub dependencies: Vec<RockDependency>,
    pub build_dependencies: Vec<RockDependency>,
    pub binaries: Vec<String>,
}

/// A downloaded package as plain values.
pub struct DownloadedRockView {
    pub kind: RockKind,
    pub name: Seq<char>,
    pub version: PackageVersionView,
    pub dependencies: Seq<(PackageReqView, Option<Seq<char>>)>,
    pub build_dependencies: Seq<(PackageReqView, Option<Seq<char>>)>,
    pub binaries: Seq<Seq<char>>,
}

impl View for DownloadedRock {
    type V = DownloadedRockView;

    open spec fn view(&self) -> DownloadedRockView {
        DownloadedRockView {
            kind: self.kind,
            name: self.name@,
            version: self.version@,
            dependencies: rock_deps_view(self.dependencies@),
            build_dependencies: rock_deps_view(self.build_dependencies@),
            binaries: strings_view(self.binaries@),
        }
    }
}

impl Clone for DownloadedRock {
    fn clone(&self) -> (r: Self)
        ensures
            r@ == self@,
    {
        DownloadedRock {
            kind: self.kind,
            name: self.name.clone(),
            version: self.version.clone(),
            dependencies: clone_rock_deps(&self.dependencies),
            build_dependencies: clone_rock_deps(&self.build_dependencies),
            binaries: clone_strings(&self.binaries),
        }
    }
}

/// A package that is ready to be built and installed.
#[derive(Debug, PartialEq, Eq)]
pub struct PackageInstallData {
    pub build_behaviour: BuildBehaviour,
    pub pin: PinnedState,
    pub opt: OptState,
    pub downloaded_rock: DownloadedRock,
    pub spec: LocalPackageSpec,
    pub entry_type: EntryType,
}

/// An install order as plain values.
pub struct PackageInstallDataView {
    pub build_behaviour: BuildBehaviour,
    pub pin: PinnedState,
    pub opt: OptState,
    pub downloaded_rock: DownloadedRockView,
    pub spec: LocalPackageSpecView,
    pub entry_type: EntryType,
}

impl View for PackageInstallData {
    type V = PackageInstallDataView;

    open spec fn view(&self) -> PackageInstallDataView {
        PackageInstallDataView {
            build_behaviour: self.build_behaviour,
            pin: self.pin,
            opt: self.opt,
            downloaded_rock: self.downloaded_rock@,
            spec: self.spec@,
            entry_type: self.entry_type,
        }
    }
}

} // verus!
