//! A project: a directory with a `lux.toml`, and what the manifest declares.
//! The files themselves are read and written elsewhere; here are the paths,
//! and the changes that adding, removing and pinning dependencies make to
//! what is declared.

use crate::config::{join_path, join_path_spec};
use crate::lockfile::{LuaDependencySpec, LuaDependencySpecView, OptState, PinnedState};
use crate::package::{PackageName, PackageReq, PackageReqView};
use crate::sync::deps_view;
use crate::version::{version_text, PackageVersion};
use crate::version_req::req_text;
use vstd::prelude::*;

verus! {

/// The root directory of a project.
#[derive(Debug, PartialEq, Eq)]
pub struct ProjectRoot(String);

impl View for ProjectRoot {
    type V = Seq<char>;

    closed spec fn view(&self) -> Seq<char> {
        self.0@
    }
}

impl ProjectRoot {
    /// The empty path.
    pub fn new() -> (r: Self)
        ensures
            r@.len() == 0,
    {
        ProjectRoot(String::new())
    }

    /// The root at `path`.
    pub fn at(path: String) -> (r: Self)
        ensures
            r@ == path@,
    {
        ProjectRoot(path)
    }

    /// The path of the root.
    pub fn as_str(&self) -> (r: &str)
        ensures
            r@ == self@,
    {
        self.0.as_str()
    }
}

/// The three sets of dependencies that a manifest declares on Lua packages.
#[derive(Copy, Clone, Debug, PartialEq, Eq, Structural)]
pub enum LuaDependencyType {
    Regular,
    Build,
    Test,
}

/// What the manifest of a project declares, as far as dependencies go.
#[derive(Debug, PartialEq, Eq)]
pub struct PartialProjectToml {
    pub package: String,
    pub dependencies: Option<Vec<LuaDependencySpec>>,
    pub build_dependencies: Option<Vec<LuaDependencySpec>>,
    pub test_dependencies: Option<Vec<LuaDependencySpec>>,
}

/// A manifest as plain values.
pub struct PartialProjectTomlView {
    pub package: Seq<char>,
    pub dependencies: Option<Seq<LuaDependencySpecView>>,
    pub build_dependencies: Option<Seq<LuaDependencySpecView>>,
    pub test_dependencies: Option<Seq<LuaDependencySpecView>>,
}

/// The view of a table of dependencies that may be absent.
pub open spec fn table_view(table: Option<Vec<LuaDependencySpec>>) -> Option<
    Seq<LuaDependencySpecView>,
> {
    match table {
        Some(t) => Some(deps_view(t@)),
        None => None,
    }
}

impl View for PartialProjectToml {
    type V = PartialProjectTomlView;

    open spec fn view(&self) -> PartialProjectTomlView {
        PartialProjectTomlView {
            package: self.package@,
            dependencies: table_view(self.dependencies),
            build_dependencies: table_view(self.build_dependencies),
            test_dependencies: table_view(self.test_dependencies),
        }
    }
}

impl PartialProjectTomlView {
    /// The table of one set of dependencies.
    pub open spec fn table(self, kind: LuaDependencyType) -> Option<Seq<LuaDependencySpecView>> {
        match kind {
            LuaDependencyType::Regular => self.dependencies,
            LuaDependencyType::Build => self.build_dependencies,
            LuaDependencyType::Test => self.test_dependencies,
        }
    }

    /// The manifest with the table of one set of dependencies replaced.
    pub open spec fn with_table(self, kind: LuaDependencyType, table: Seq<LuaDependencySpecView>)
        -> Self {
        match kind {
            LuaDependencyType::Regular => PartialProjectTomlView {
                dependencies: Some(table),
                ..self
            },
            LuaDependencyType::Build => PartialProjectTomlView {
                build_dependencies: Some(table),
                ..self
            },
            LuaDependencyType::Test => PartialProjectTomlView {
                test_dependencies: Some(table),
                ..self
            },
        }
    }
}

/// A project.
#[derive(Debug, PartialEq, Eq)]
pub struct Project {
    root: ProjectRoot,
    toml: PartialProjectToml,
}

/// A project as plain values.
pub struct ProjectView {
    pub root: Seq<char>,
    pub toml: PartialProjectTomlView,
}

impl View for Project {
    type V = ProjectView;

    closed spec fn view(&self) -> ProjectView {
        ProjectView { root: self.root@, toml: self.toml@ }
    }
}

/// A table of dependencies, empty where there is none.
pub open spec fn or_empty(table: Option<Seq<LuaDependencySpecView>>) -> Seq<LuaDependencySpecView> {
    match table {
        Some(t) => t,
        None => Seq::<LuaDependencySpecView>::empty(),
    }
}

/// The dependencies that requirements are when they are added to a
/// manifest: unpinned and required.
pub open spec fn as_dependencies(reqs: Seq<PackageReqView>) -> Seq<LuaDependencySpecView> {
    reqs.map_values(
        |r: PackageReqView|
            LuaDependencySpecView {
                package_req: r,
                pin: PinnedState::Unpinned,
                opt: OptState::Required,
            },
    )
}

/// `table` without the dependencies on the packages `names`.
pub open spec fn without_names(table: Seq<LuaDependencySpecView>, names: Seq<Seq<char>>) -> Seq<
    LuaDependencySpecView,
>
    decreases table.len(),
{
    if table.len() == 0 {
        table
    } else if names.contains(table.last().package_req.name) {
        without_names(table.drop_last(), names)
    } else {
        without_names(table.drop_last(), names).push(table.last())
    }
}

/// `table` with every dependency in the pinned state `pin`.
pub open spec fn all_pinned(table: Seq<LuaDependencySpecView>, pin: PinnedState) -> Seq<
    LuaDependencySpecView,
> {
    table.map_values(|d: LuaDependencySpecView| LuaDependencySpecView { pin, ..d })
}

/// The views of a sequence of requirements.
pub open spec fn reqs_view(reqs: Seq<PackageReq>) -> Seq<PackageReqView> {
    reqs.map_values(|r: PackageReq| r@)
}

/// The views of a sequence of names.
pub open spec fn names_view(names: Seq<PackageName>) -> Seq<Seq<char>> {
    names.map_values(|n: PackageName| n@)
}

/// The version that is written into the manifest for a new dependency: its
/// requirement, or, where it admits anything, the latest version that the
/// index has of the package. There is none where the requirement admits
/// anything and the index has no version.
pub open spec fn manifest_version(req: PackageReqView, latest: Option<Seq<char>>) -> Option<
    Seq<char>,
> {
    if req.version_req is Any {
        latest
    } else {
        Some(req_text(req.version_req))
    }
}

/// A copy of a table of dependencies.
fn clone_table(table: &Vec<LuaDependencySpec>) -> (r: Vec<LuaDependencySpec>)
    ensures
        deps_view(r@) == deps_view(table@),
{
    let mut out: Vec<LuaDependencySpec> = Vec::new();
    let mut i: usize = 0;
    while i < table.len()
        invariant
            i <= table.len(),
            deps_view(out@) == deps_view(table@).take(i as int),
        decreases table.len() - i,
    {
        let ghost before = out@;
        let d = table[i].clone();
        out.push(d);
        proof {
            assert(deps_view(before.push(d)) =~= deps_view(before).push(d@));
            assert(deps_view(table@).take(i as int).push(table@[i as int]@) =~= deps_view(
                table@,
            ).take(i as int + 1));
        }
        i = i + 1;
    }
    proof {
        assert(deps_view(table@).take(table.len() as int) =~= deps_view(table@));
    }
    out
}

impl PartialProjectToml {
    /// The table of one set of dependencies, empty where there is none.
    fn table_or_empty(&self, kind: LuaDependencyType) -> (r: Vec<LuaDependencySpec>)
        ensures
            deps_view(r@) == or_empty(self@.table(kind)),
    {
        let table = match kind {
            LuaDependencyType::Regular => &self.dependencies,
            LuaDependencyType::Build => &self.build_dependencies,
            LuaDependencyType::Test => &self.test_dependencies,
        };
        match table {
            Some(t) => clone_table(t),
            None => {
                let r: Vec<LuaDependencySpec> = Vec::new();
                proof {
                    assert(deps_view(r@) =~= Seq::<LuaDependencySpecView>::empty());
                }
                r
            },
        }
    }

    /// Replaces the table of one set of dependencies.
    fn set_table(&mut self, kind: LuaDependencyType, table: Vec<LuaDependencySpec>)
        ensures
            final(self)@ == old(self)@.with_table(kind, deps_view(table@)),
    {
        match kind {
            LuaDependencyType::Regular => {
                self.dependencies = Some(table);
            },
            LuaDependencyType::Build => {
                self.build_dependencies = Some(table);
            },
            LuaDependencyType::Test => {
                self.test_dependencies = Some(table);
            },
        }
    }
}

impl Project {
    /// The project at `root` whose manifest declares `toml`.
    pub fn new(root: ProjectRoot, toml: PartialProjectToml) -> (r: Self)
        ensures
            r@ == (ProjectView { root: root@, toml: toml@ }),
    {
        Project { root, toml }
    }

    /// The path of the manifest, `lux.toml`.
    pub fn toml_path(&self) -> (r: String)
        ensures
            r@ == join_path_spec(self@.root, "lux.toml"@),
    {
        join_path(self.root.as_str(), "lux.toml")
    }

    /// The path of `extra.rockspec`, which may lie beside the manifest.
    pub fn extra_rockspec_path(&self) -> (r: String)
        ensures
            r@ == join_path_spec(self@.root, "extra.rockspec"@),
    {
        join_path(self.root.as_str(), "extra.rockspec")
    }

    /// The path of the lockfile, `lux.lock`.
    pub fn lockfile_path(&self) -> (r: String)
        ensures
            r@ == join_path_spec(self@.root, "lux.lock"@),
    {
        join_path(self.root.as_str(), "lux.lock")
    }

    /// The directory of the trees of the project, `.lux`.
    pub fn default_tree_root_dir(&self) -> (r: String)
        ensures
            r@ == join_path_spec(self@.root, ".lux"@),
    {
        join_path(self.root.as_str(), ".lux")
    }

    /// The root directory.
    pub fn root(&self) -> (r: &ProjectRoot)
        ensures
            r@ == self@.root,
    {
        &self.root
    }

    /// What the manifest declares.
    pub fn toml(&self) -> (r: &PartialProjectToml)
        ensures
            r@ == self@.toml,
    {
        &self.toml
    }

    /// The text that is written into the manifest as the version of the new
    /// dependency `req`, `latest` being the latest version that the index
    /// has of the package.
    pub fn manifest_version_of(req: &PackageReq, latest: Option<&PackageVersion>) -> (r: Option<
        String,
    >)
        ensures
            match r {
                Some(t) => manifest_version(
                    req@,
                    match latest {
                        Some(v) => Some(version_text(v@)),
                        None => None,
                    },
                ) == Some(t@),
                None => req@.version_req is Any && latest is None,
            },
    {
        if req.version_req().is_any() {
            match latest {
                Some(v) => Some(v.to_string()),
                None => None,
            }
        } else {
            Some(req.version_req().to_string())
        }
    }

    /// Declares the dependencies `dependencies` in one set: they are
    /// appended to its table, unpinned and required.
    pub fn add(&mut self, kind: LuaDependencyType, dependencies: &Vec<PackageReq>)
        ensures
            final(self)@ == (ProjectView {
                toml: old(self)@.toml.with_table(
                    kind,
                    or_empty(old(self)@.toml.table(kind)) + as_dependencies(
                        reqs_view(dependencies@),
                    ),
                ),
                ..old(self)@
            }),
    {
        let mut table = self.toml.table_or_empty(kind);
        let ghost head = deps_view(table@);
        let ghost added = as_dependencies(reqs_view(dependencies@));
        let mut i: usize = 0;
        proof {
            assert(head + added.take(0) =~= head);
        }
        while i < dependencies.len()
            invariant
                i <= dependencies.len(),
                added == as_dependencies(reqs_view(dependencies@)),
                deps_view(table@) == head + added.take(i as int),
            decreases dependencies.len() - i,
        {
            let ghost before = table@;
            let d = LuaDependencySpec::from_req(dependencies[i].clone());
            table.push(d);
            proof {
                assert(deps_view(before.push(d)) =~= deps_view(before).push(d@));
                assert(added[i as int] == d@);
                assert((head + added.take(i as int)).push(d@) =~= head + added.take(i as int + 1));
            }
            i = i + 1;
        }
        proof {
            assert(added.take(dependencies.len() as int) =~= added);
        }
        self.toml.set_table(kind, table);
    }

    /// Takes the dependencies on the packages `names` out of one set.
    pub fn remove(&mut self, kind: LuaDependencyType, names: &Vec<PackageName>)
        ensures
            final(self)@ == (ProjectView {
                toml: old(self)@.toml.with_table(
                    kind,
                    without_names(or_empty(old(self)@.toml.table(kind)), names_view(names@)),
                ),
                ..old(self)@
            }),
    {
        let table = self.toml.table_or_empty(kind);
        let ghost all = deps_view(table@);
        let ghost gone = names_view(names@);
        let mut kept: Vec<LuaDependencySpec> = Vec::new();
        let mut i: usize = 0;
        while i < table.len()
            invariant
                i <= table.len(),
                all == deps_view(table@),
                gone == names_view(names@),
                deps_view(kept@) == without_names(all.take(i as int), gone),
            decreases table.len() - i,
        {
            proof {
                assert(all.take(i as int + 1).drop_last() =~= all.take(i as int));
                assert(all.take(i as int + 1).last() == table@[i as int]@);
            }
            let mut named = false;
            let mut k: usize = 0;
            while k < names.len() && !named
                invariant
                    k <= names.len(),
                    i < table.len(),
                    gone == names_view(names@),
                    named ==> gone.contains(table@[i as int]@.package_req.name),
                    !named ==> forall|j: int|
                        0 <= j < k ==> gone[j] != table@[i as int]@.package_req.name,
                decreases names.len() - k + if named {
                    0int
                } else {
                    1int
                },
            {
                proof {
                    assert(gone[k as int] == names@[k as int]@);
                }
                if names[k].same_as(table[i].name()) {
                    named = true;
                } else {
                    k = k + 1;
                }
            }
            if !named {
                let ghost before = kept@;
                let d = table[i].clone();
                kept.push(d);
                proof {
                    assert(deps_view(before.push(d)) =~= deps_view(before).push(d@));
                }
            }
            i = i + 1;
        }
        proof {
            assert(all.take(table.len() as int) =~= all);
        }
        self.toml.set_table(kind, kept);
    }

    /// Puts every dependency of one set into the pinned state `pin`.
    pub fn set_pinned_state(&mut self, kind: LuaDependencyType, pin: PinnedState)
        ensures
            final(self)@ == (ProjectView {
                toml: old(self)@.toml.with_table(
                    kind,
                    all_pinned(or_empty(old(self)@.toml.table(kind)), pin),
                ),
                ..old(self)@
            }),
    {
        let table = self.toml.table_or_empty(kind);
        let ghost all = deps_view(table@);
        let mut out: Vec<LuaDependencySpec> = Vec::new();
        let mut i: usize = 0;
        while i < table.len()
            invariant
                i <= table.len(),
                all == deps_view(table@),
                deps_view(out@) == all_pinned(all, pin).take(i as int),
            decreases table.len() - i,
        {
            let ghost before = out@;
            let d = LuaDependencySpec::new(table[i].package_req().clone(), pin, table[i].opt());
            out.push(d);
            proof {
                assert(deps_view(before.push(d)) =~= deps_view(before).push(d@));
                assert(all[i as int] == table@[i as int]@);
                assert(all_pinned(all, pin).take(i as int).push(d@) =~= all_pinned(all, pin).take(
                    i as int + 1,
                ));
            }
            i = i + 1;
        }
        proof {
            assert(all_pinned(all, pin).take(table.len() as int) =~= all_pinned(all, pin));
        }
        self.toml.set_table(kind, out);
    }
}

} // verus!
