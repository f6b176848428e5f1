//! The install tree: where installed packages lie on disk.
//!
//! - `<root>/<lua-version>/` holds the packages of one Lua version,
//! - `<root>/<lua-version>/<id>-<name>@<version>/` one package, with `lib`
//!   for native libraries, `src` for Lua sources and `etc` for the rest,
//! - `<root>/bin/` the executables of all packages.
//!
//! Nothing here touches the disk: a tree computes paths.

use crate::config::{join_path, join_path_spec, LuaVersion, RockLayoutConfig, RockLayoutConfigView};
use crate::lockfile::{
    ids_view, LocalPackage, LocalPackageId, LocalPackageView, OptState, PinnedState,
};
use crate::lux_lock::{Lockfile, LockfilePermissions};
use crate::package::{PackageReq, PackageReqView, PackageSpec, PackageSpecView};
use crate::query::{found_rocks, found_with, RockFilter};
use crate::version_req::version_as_req;
use crate::text::{append_str, chars_of, string_of};
use crate::variables::{substitute, substituted, Variable};
use crate::version::version_text;
use vstd::prelude::*;

verus! {

/// A tree: a root directory, the Lua version that it serves, and the layout
/// of the packages that are its entrypoints.
#[derive(Debug)]
pub struct Tree {
    version: LuaVersion,
    root: String,
    entrypoint_layout: RockLayoutConfig,
}

/// A tree as plain values.
pub struct TreeView {
    pub version: LuaVersion,
    pub root: Seq<char>,
    pub entrypoint_layout: RockLayoutConfigView,
}

impl View for Tree {
    type V = TreeView;

    closed spec fn view(&self) -> TreeView {
        TreeView {
            version: self.version,
            root: self.root@,
            entrypoint_layout: self.entrypoint_layout@,
        }
    }
}

/// The paths of an installed package.
#[derive(Debug, PartialEq, Eq)]
pub struct RockLayout {
    /// The directory of the package; `$(PREFIX)` in build variables.
    pub rock_path: String,
    /// The directory of resources.
    pub etc: String,
    /// The directory of native libraries; `$(LIBDIR)`.
    pub lib: String,
    /// The directory of Lua sources; `$(LUADIR)`.
    pub src: String,
    /// The directory of executables, shared by all packages of the tree;
    /// `$(BINDIR)`.
    pub bin: String,
    /// The directory of configuration files; `$(CONFDIR)`.
    pub conf: String,
    /// The directory of documentation; `$(DOCDIR)`.
    pub doc: String,
}

/// The paths of a package as plain values.
pub struct RockLayoutView {
    pub rock_path: Seq<char>,
    pub etc: Seq<char>,
    pub lib: Seq<char>,
    pub src: Seq<char>,
    pub bin: Seq<char>,
    pub conf: Seq<char>,
    pub doc: Seq<char>,
}

impl View for RockLayout {
    type V = RockLayoutView;

    open spec fn view(&self) -> RockLayoutView {
        RockLayoutView {
            rock_path: self.rock_path@,
            etc: self.etc@,
            lib: self.lib@,
            src: self.src@,
            bin: self.bin@,
            conf: self.conf@,
            doc: self.doc@,
        }
    }
}

/// Whether a package was asked for by the user or came in as a dependency.
#[derive(Copy, Clone, Debug, PartialEq, Eq, Hash, Structural)]
pub enum EntryType {
    Entrypoint,
    DependencyOnly,
}

/// The installed packages that answer a requirement.
#[derive(Debug, PartialEq, Eq)]
pub enum RockMatches {
    NotFound(PackageReq),
    Single(LocalPackageId),
    Many(Vec<LocalPackageId>),
}

/// Why the pinned state of a package cannot be changed.
#[derive(Debug, PartialEq, Eq)]
pub enum ChangePinError {
    /// No installed package is the package with another pinned state.
    NotFound(PackageSpec),
    /// Several installed packages are; given are their identifiers.
    Many(Vec<LocalPackageId>),
}

/// The identifiers of the installed packages that are `package` and whose
/// pinned state is another than `pin`, the last of the lockfile first.
pub open spec fn pin_candidates(
    rocks: Seq<(Seq<char>, LocalPackageView)>,
    package: PackageSpecView,
    pin: PinnedState,
) -> Seq<Seq<char>> {
    found_with(
        rocks,
        PackageReqView { name: package.name, version_req: version_as_req(package.version) },
        RockFilter::PinnedOtherThan(pin),
    )
}

impl RockMatches {
    /// Whether any package was found.
    pub fn is_found(&self) -> (r: bool)
        ensures
            r == !(self is NotFound),
    {
        match self {
            RockMatches::Single(_) => true,
            RockMatches::Many(_) => true,
            RockMatches::NotFound(_) => false,
        }
    }
}

impl TreeView {
    /// The directory of the packages of the tree's Lua version.
    pub open spec fn root(self) -> Seq<char> {
        join_path_spec(self.root, self.version.text())
    }

    /// The directory of executables.
    pub open spec fn bin(self) -> Seq<char> {
        join_path_spec(self.root, "bin"@)
    }

    /// The directory of a package: its identifier, `-`, its name, `@`, its
    /// version, under the directory of the tree's Lua version.
    pub open spec fn root_for(self, package: LocalPackageView) -> Seq<char> {
        join_path_spec(self.root(), package_dir_name(package))
    }

    /// The paths of a package under a layout. `lib` and `src` lie in the
    /// directory of the package. `etc` lies there too unless the layout
    /// names a shared directory, in which the package then has a directory
    /// of its name; an optional package may have its `etc` under another
    /// name than a required one.
    pub open spec fn layout(self, package: LocalPackageView, config: RockLayoutConfigView)
        -> RockLayoutView {
        let rock_path = self.root_for(package);
        let etc_root = match config.etc_root {
            Some(shared) => join_path_spec(self.root(), shared),
            None => rock_path,
        };
        let etc_named = join_path_spec(
            etc_root,
            match package.spec.opt {
                OptState::Required => config.etc,
                OptState::Optional => config.opt_etc,
            },
        );
        let etc = if config.etc_root is Some {
            join_path_spec(etc_named, package.spec.name)
        } else {
            etc_named
        };
        RockLayoutView {
            rock_path,
            etc,
            lib: join_path_spec(rock_path, "lib"@),
            src: join_path_spec(rock_path, "src"@),
            bin: self.bin(),
            conf: join_path_spec(etc, config.conf),
            doc: join_path_spec(etc, config.doc),
        }
    }
}

/// The name of the directory of a package.
pub open spec fn package_dir_name(package: LocalPackageView) -> Seq<char> {
    package.spec.id() + "-"@ + package.spec.name + "@"@ + version_text(package.spec.version)
}

/// The variables that a layout gives to the build of its package.
pub open spec fn layout_variables(layout: RockLayoutView) -> Seq<(Seq<char>, Seq<char>)> {
    seq![
        ("PREFIX"@, layout.rock_path),
        ("LIBDIR"@, layout.lib),
        ("LUADIR"@, layout.src),
        ("BINDIR"@, layout.bin),
        ("CONFDIR"@, layout.conf),
        ("DOCDIR"@, layout.doc),
    ]
}

impl RockLayout {
    /// The path of the rockspec of the package.
    pub fn rockspec_path(&self) -> (r: String)
        ensures
            r@ == join_path_spec(self@.rock_path, "package.rockspec"@),
    {
        join_path(self.rock_path.as_str(), "package.rockspec")
    }

    /// The variables that the layout gives to the build of its package.
    pub fn variables(&self) -> (r: Vec<Variable>)
        ensures
            crate::variables::variables_view(r@) == layout_variables(self@),
    {
        let mut r: Vec<Variable> = Vec::new();
        r.push(Variable::new("PREFIX", self.rock_path.as_str()));
        r.push(Variable::new("LIBDIR", self.lib.as_str()));
        r.push(Variable::new("LUADIR", self.src.as_str()));
        r.push(Variable::new("BINDIR", self.bin.as_str()));
        r.push(Variable::new("CONFDIR", self.conf.as_str()));
        r.push(Variable::new("DOCDIR", self.doc.as_str()));
        proof {
            assert(crate::variables::variables_view(r@) =~= layout_variables(self@));
        }
        r
    }

    /// `input` with `$(PREFIX)`, `$(LIBDIR)`, `$(LUADIR)`, `$(BINDIR)`,
    /// `$(CONFDIR)` and `$(DOCDIR)` replaced by the paths of the layout.
    /// Other references stay.
    pub fn substitute_variables(&self, input: &str) -> (r: String)
        ensures
            r@ == substituted(layout_variables(self@), input@),
    {
        let vars = self.variables();
        substitute(&vars, input)
    }
}

impl Tree {
    /// The tree at `root` for the Lua version `version`.
    pub fn new(root: String, version: LuaVersion, entrypoint_layout: RockLayoutConfig) -> (r: Self)
        ensures
            r@ == (TreeView { version, root: root@, entrypoint_layout: entrypoint_layout@ }),
    {
        Tree { version, root, entrypoint_layout }
    }

    /// The directory of the packages of the tree's Lua version.
    pub fn root(&self) -> (r: String)
        ensures
            r@ == self@.root(),
    {
        join_path(self.root.as_str(), self.version.to_string().as_str())
    }

    /// The Lua version that the tree serves.
    pub fn version(&self) -> (r: &LuaVersion)
        ensures
            *r == self@.version,
    {
        &self.version
    }

    /// The layout of the packages that are entrypoints.
    pub fn layout_config(&self) -> (r: &RockLayoutConfig)
        ensures
            r@ == self@.entrypoint_layout,
    {
        &self.entrypoint_layout
    }

    /// The directory of `package`.
    pub fn root_for(&self, package: &LocalPackage) -> (r: String)
        ensures
            r@ == self@.root_for(package@),
    {
        let mut name = chars_of(package.id().to_string().as_str());
        append_str(&mut name, "-");
        append_str(&mut name, package.name().to_string().as_str());
        append_str(&mut name, "@");
        append_str(&mut name, package.version().to_string().as_str());
        join_path(self.root().as_str(), string_of(&name).as_str())
    }

    /// The directory of executables, shared by all Lua versions.
    pub fn bin(&self) -> (r: String)
        ensures
            r@ == self@.bin(),
    {
        join_path(self.root.as_str(), "bin")
    }

    /// The directory of scripts that have not been wrapped yet.
    pub fn unwrapped_bin(&self) -> (r: String)
        ensures
            r@ == join_path_spec(self@.bin(), "unwrapped"@),
    {
        join_path(self.bin().as_str(), "unwrapped")
    }

    /// The path of the tree's lockfile.
    pub fn lockfile_path(&self) -> (r: String)
        ensures
            r@ == join_path_spec(self@.root(), "lux.lock"@),
    {
        join_path(self.root().as_str(), "lux.lock")
    }

    /// The installed packages that answer `req`, as `lockfile`, the
    /// lockfile of the tree, records them: none, the one, or all of them
    /// with the last of the lockfile first.
    pub fn match_rocks<P: LockfilePermissions>(&self, lockfile: &Lockfile<P>, req: &PackageReq)
        -> (r: RockMatches)
        ensures
            match r {
                RockMatches::NotFound(q) => found_rocks(lockfile@.lock.rocks, req@).len() == 0 && q@
                    == req@,
                RockMatches::Single(id) => found_rocks(lockfile@.lock.rocks, req@) == seq![id@],
                RockMatches::Many(ids) => ids@.len() >= 2 && ids_view(ids@) == found_rocks(
                    lockfile@.lock.rocks,
                    req@,
                ),
            },
    {
        let mut found = lockfile.find_rocks(req);
        if found.len() == 0 {
            RockMatches::NotFound(req.clone())
        } else if found.len() == 1 {
            let ghost all = ids_view(found@);
            let id = found.pop().unwrap();
            proof {
                assert(all =~= seq![id@]);
            }
            RockMatches::Single(id)
        } else {
            RockMatches::Many(found)
        }
    }

    /// The installed packages that answer `req` and that `filter` lets
    /// through: none, the one, or all of them with the last of the lockfile
    /// first.
    pub fn match_rocks_and<P: LockfilePermissions>(
        &self,
        lockfile: &Lockfile<P>,
        req: &PackageReq,
        filter: RockFilter,
    ) -> (r: RockMatches)
        ensures
            match r {
                RockMatches::NotFound(q) => found_with(lockfile@.lock.rocks, req@, filter).len()
                    == 0 && q@ == req@,
                RockMatches::Single(id) => found_with(lockfile@.lock.rocks, req@, filter)
                    == seq![id@],
                RockMatches::Many(ids) => ids@.len() >= 2 && ids_view(ids@) == found_with(
                    lockfile@.lock.rocks,
                    req@,
                    filter,
                ),
            },
    {
        let mut found = lockfile.find_rocks_and(req, filter);
        if found.len() == 0 {
            RockMatches::NotFound(req.clone())
        } else if found.len() == 1 {
            let ghost all = ids_view(found@);
            let id = found.pop().unwrap();
            proof {
                assert(all =~= seq![id@]);
            }
            RockMatches::Single(id)
        } else {
            RockMatches::Many(found)
        }
    }

    /// The installed package whose pinned state is to be changed to `pin`:
    /// the one installed package that is `package` and has another pinned
    /// state. It is an error where there is none, and where there are
    /// several.
    pub fn pin_target<P: LockfilePermissions>(
        &self,
        lockfile: &Lockfile<P>,
        package: &PackageSpec,
        pin: PinnedState,
    ) -> (r: Result<LocalPackageId, ChangePinError>)
        ensures
            match r {
                Ok(id) => pin_candidates(lockfile@.lock.rocks, package@, pin) == seq![id@],
                Err(ChangePinError::NotFound(p)) => pin_candidates(
                    lockfile@.lock.rocks,
                    package@,
                    pin,
                ).len() == 0 && p@ == package@,
                Err(ChangePinError::Many(ids)) => ids@.len() >= 2 && ids_view(ids@)
                    == pin_candidates(lockfile@.lock.rocks, package@, pin),
            },
    {
        let req = package.into_package_req();
        match self.match_rocks_and(lockfile, &req, RockFilter::PinnedOtherThan(pin)) {
            RockMatches::Single(id) => Ok(id),
            RockMatches::Many(ids) => Err(ChangePinError::Many(ids)),
            RockMatches::NotFound(_) => Err(ChangePinError::NotFound(package.clone())),
        }
    }

    /// The paths of `package` under `layout_config`.
    fn mk_rock_layout(&self, package: &LocalPackage, layout_config: &RockLayoutConfig) -> (r:
        RockLayout)
        ensures
            r@ == self@.layout(package@, layout_config@),
    {
        let rock_path = self.root_for(package);
        let bin = self.bin();
        let etc_root = match &layout_config.etc_root {
            Some(shared) => join_path(self.root().as_str(), shared.as_str()),
            None => rock_path.clone(),
        };
        let mut etc = match package.opt() {
            OptState::Required => join_path(etc_root.as_str(), layout_config.etc.as_str()),
            OptState::Optional => join_path(etc_root.as_str(), layout_config.opt_etc.as_str()),
        };
        if layout_config.etc_root.is_some() {
            etc = join_path(etc.as_str(), package.name().to_string().as_str());
        }
        let lib = join_path(rock_path.as_str(), "lib");
        let src = join_path(rock_path.as_str(), "src");
        let conf = join_path(etc.as_str(), layout_config.conf.as_str());
        let doc = join_path(etc.as_str(), layout_config.doc.as_str());
        RockLayout { rock_path, etc, lib, src, bin, conf, doc }
    }

    /// The paths of `package` as an entrypoint.
    pub fn entrypoint_layout(&self, package: &LocalPackage) -> (r: RockLayout)
        ensures
            r@ == self@.layout(package@, self@.entrypoint_layout),
    {
        self.mk_rock_layout(package, &self.entrypoint_layout)
    }

    /// The paths of `package` as a dependency.
    pub fn dependency_layout(&self, package: &LocalPackage) -> (r: RockLayout)
        ensures
            r@ == self@.layout(package@, crate::config::default_layout()),
    {
        let config = RockLayoutConfig::default();
        self.mk_rock_layout(package, &config)
    }

    /// The paths of the installed package `package`: those of an
    /// entrypoint where `lockfile`, the lockfile of the tree, has it as one,
    /// else those of a dependency.
    pub fn installed_rock_layout<P: LockfilePermissions>(
        &self,
        lockfile: &Lockfile<P>,
        package: &LocalPackage,
    ) -> (r: RockLayout)
        ensures
            r@ == self@.layout(
                package@,
                if lockfile@.lock.is_entrypoint(package@.spec.id()) {
                    self@.entrypoint_layout
                } else {
                    crate::config::default_layout()
                },
            ),
    {
        if lockfile.is_entrypoint(&package.id()) {
            self.entrypoint_layout(package)
        } else {
            self.dependency_layout(package)
        }
    }
}

} // verus!
