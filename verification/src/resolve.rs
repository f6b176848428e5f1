//! The resolution of dependencies: from the packages that are asked for to
//! the packages that have to be installed, each with the identifiers of its
//! direct dependencies.
//!
//! Packages are downloaded by the caller. The resolver says which package it
//! needs next, takes what was downloaded, and hands out an install order for
//! a package as soon as all its dependencies are resolved. Build
//! dependencies, and whatever they depend on, are resolved against the
//! lockfile of the build tree and ordered for the build tree; everything else
//! is resolved against the lockfile of the main tree.

use crate::install_spec::{
    rock_deps_view, BuildBehaviour, DownloadedRock, DownloadedRockView, PackageInstallData,
    PackageInstallDataView, PackageInstallSpec, PackageInstallSpecView, RockDependency, RockKind,
};
use crate::lock::LockView;
use crate::lockfile::{
    clone_ids, constraint_of_req, constraint_text_opt, ids_view, LocalPackageId, LocalPackageSpec,
    LocalPackageSpecView, LockConstraint, LockConstraintView,
};
use crate::lux_lock::{Lockfile, LockfilePermissions};
use crate::package::{PackageReq, PackageReqView};
use crate::query::last_admitted;
use crate::tree::EntryType;
use vstd::prelude::*;

verus! {

/// The tree that a package is resolved for.
#[derive(Copy, Clone, Debug, PartialEq, Eq, Hash, Structural)]
pub enum TargetTree {
    /// The tree of the packages themselves.
    Main,
    /// The tree of the tools that builds need.
    Build,
}

/// One package to resolve: how to install it, for which tree, and whether
/// the package that depends on it records it as a dependency.
#[derive(Debug, PartialEq, Eq)]
pub struct Task {
    pub spec: PackageInstallSpec,
    pub tree: TargetTree,
    pub counts: bool,
}

/// A task as plain values.
pub struct TaskView {
    pub spec: PackageInstallSpecView,
    pub tree: TargetTree,
    pub counts: bool,
}

impl View for Task {
    type V = TaskView;

    open spec fn view(&self) -> TaskView {
        TaskView { spec: self.spec@, tree: self.tree, counts: self.counts }
    }
}

impl Clone for Task {
    fn clone(&self) -> (r: Self)
        ensures
            r@ == self@,
    {
        Task { spec: self.spec.clone(), tree: self.tree, counts: self.counts }
    }
}

/// The views of a sequence of tasks.
pub open spec fn tasks_view(tasks: Seq<Task>) -> Seq<TaskView> {
    tasks.map_values(|t: Task| t@)
}

/// A downloaded package whose dependencies are being resolved.
#[derive(Debug, PartialEq, Eq)]
pub struct Frame {
    task: Task,
    rock: DownloadedRock,
    children: Vec<Task>,
    cursor: usize,
    collected: Vec<LocalPackageId>,
}

/// A frame as plain values.
pub struct FrameView {
    pub task: TaskView,
    pub rock: DownloadedRockView,
    /// The dependencies to resolve: the build dependencies, then the
    /// others.
    pub children: Seq<TaskView>,
    /// How many of them have been dealt with.
    pub cursor: nat,
    /// The identifiers of the resolved dependencies that count.
    pub collected: Seq<Seq<char>>,
}

impl View for Frame {
    type V = FrameView;

    closed spec fn view(&self) -> FrameView {
        FrameView {
            task: self.task@,
            rock: self.rock@,
            children: tasks_view(self.children@),
            cursor: self.cursor as nat,
            collected: ids_view(self.collected@),
        }
    }
}

/// The views of a sequence of frames.
pub open spec fn frames_view(frames: Seq<Frame>) -> Seq<FrameView> {
    frames.map_values(|f: Frame| f@)
}

/// A resolution under way.
#[derive(Debug, PartialEq, Eq)]
pub struct Resolve {
    roots: Vec<Task>,
    cursor: usize,
    ids: Vec<LocalPackageId>,
    stack: Vec<Frame>,
    awaiting: Option<Task>,
}

/// A resolution as plain values.
pub struct ResolveView {
    /// The packages that were asked for.
    pub roots: Seq<TaskView>,
    /// How many of them have been dealt with.
    pub cursor: nat,
    /// The identifiers of those that were resolved.
    pub ids: Seq<Seq<char>>,
    /// The packages whose dependencies are being resolved, each one a
    /// dependency of the one before.
    pub stack: Seq<FrameView>,
    /// The package whose download is awaited.
    pub awaiting: Option<TaskView>,
}

impl View for Resolve {
    type V = ResolveView;

    closed spec fn view(&self) -> ResolveView {
        ResolveView {
            roots: tasks_view(self.roots@),
            cursor: self.cursor as nat,
            ids: ids_view(self.ids@),
            stack: frames_view(self.stack@),
            awaiting: match self.awaiting {
                Some(t) => Some(t@),
                None => None,
            },
        }
    }
}

/// What the caller is to do next.
#[derive(Debug, PartialEq, Eq)]
pub enum ResolveAction {
    /// Download the package, from the source where one is given, and come
    /// back with it.
    Download { package: PackageReq, source: Option<String> },
    /// Order the installation of a package for a tree.
    Emit { data: PackageInstallData, tree: TargetTree },
    /// Nothing: ask again.
    Continue,
    /// The resolution is over; given are the identifiers of the packages
    /// that were asked for and had to be resolved.
    Done(Vec<LocalPackageId>),
}

/// An action as plain values.
pub enum ResolveActionView {
    Download { package: PackageReqView, source: Option<Seq<char>> },
    Emit { data: PackageInstallDataView, tree: TargetTree },
    Continue,
    Done(Seq<Seq<char>>),
}

impl View for ResolveAction {
    type V = ResolveActionView;

    open spec fn view(&self) -> ResolveActionView {
        match self {
            ResolveAction::Download { package, source } => ResolveActionView::Download {
                package: package@,
                source: match source {
                    Some(s) => Some(s@),
                    None => None,
                },
            },
            ResolveAction::Emit { data, tree } => ResolveActionView::Emit {
                data: data@,
                tree: *tree,
            },
            ResolveAction::Continue => ResolveActionView::Continue,
            ResolveAction::Done(ids) => ResolveActionView::Done(ids_view(ids@)),
        }
    }
}

/// The lockfile against which packages for `tree` are resolved.
pub open spec fn lock_of(tree: TargetTree, main: LockView, build: LockView) -> LockView {
    match tree {
        TargetTree::Main => main,
        TargetTree::Build => build,
    }
}

/// Whether a package has to be resolved: it has, unless it is not forced
/// and the lockfile holds a package that answers its requirement.
pub open spec fn should_resolve(spec: PackageInstallSpecView, lock: LockView) -> bool {
    spec.build_behaviour == BuildBehaviour::Force || last_admitted(lock.rocks, spec.package, None)
         is None
}

/// The entry type of a dependency: a dependency only, unless the build is
/// forced and the lockfile holds a package that answers the requirement and
/// is an entrypoint, which it then stays.
pub open spec fn dependency_entry_type(
    behaviour: BuildBehaviour,
    lock: LockView,
    req: PackageReqView,
) -> EntryType {
    if behaviour == BuildBehaviour::Force && (match last_admitted(lock.rocks, req, None) {
        Some(p) => lock.is_entrypoint(p.spec.id()),
        None => false,
    }) {
        EntryType::Entrypoint
    } else {
        EntryType::DependencyOnly
    }
}

/// The task for a build dependency of a package: it is resolved for the
/// build tree, as an entrypoint of that tree, built, pinned and optional as
/// the package is; the package does not record it.
pub open spec fn build_child(parent: PackageInstallSpecView, dep: (PackageReqView, Option<Seq<char>>))
    -> TaskView {
    TaskView {
        spec: PackageInstallSpecView {
            package: dep.0,
            build_behaviour: parent.build_behaviour,
            pin: parent.pin,
            opt: parent.opt,
            entry_type: EntryType::Entrypoint,
            constraint: None,
            source: dep.1,
        },
        tree: TargetTree::Build,
        counts: false,
    }
}

/// The task for a dependency of a package: it is resolved for the tree of
/// the package, built, pinned and optional as the package is; the package
/// records it.
pub open spec fn dependency_child(
    parent: PackageInstallSpecView,
    tree: TargetTree,
    lock: LockView,
    dep: (PackageReqView, Option<Seq<char>>),
) -> TaskView {
    TaskView {
        spec: PackageInstallSpecView {
            package: dep.0,
            build_behaviour: parent.build_behaviour,
            pin: parent.pin,
            opt: parent.opt,
            entry_type: dependency_entry_type(parent.build_behaviour, lock, dep.0),
            constraint: None,
            source: dep.1,
        },
        tree,
        counts: true,
    }
}

/// The tasks for the build dependencies of a downloaded package. A binary
/// archive needs none.
pub open spec fn build_children(task: TaskView, rock: DownloadedRockView) -> Seq<TaskView> {
    if rock.kind == RockKind::BinaryRock {
        Seq::<TaskView>::empty()
    } else {
        rock.build_dependencies.map_values(
            |d: (PackageReqView, Option<Seq<char>>)| build_child(task.spec, d),
        )
    }
}

/// The tasks for the dependencies of a downloaded package.
pub open spec fn dependency_children(task: TaskView, rock: DownloadedRockView, lock: LockView)
    -> Seq<TaskView> {
    rock.dependencies.map_values(
        |d: (PackageReqView, Option<Seq<char>>)| dependency_child(task.spec, task.tree, lock, d),
    )
}

/// Whether a declared dependency is the dependency on Lua itself, which is
/// no package of a tree.
pub open spec fn is_runtime(dep: (PackageReqView, Option<Seq<char>>)) -> bool {
    dep.0.name == "lua"@
}

/// `deps` without the dependencies on Lua itself.
pub open spec fn without_runtime(deps: Seq<(PackageReqView, Option<Seq<char>>)>) -> Seq<
    (PackageReqView, Option<Seq<char>>),
>
    decreases deps.len(),
{
    if deps.len() == 0 {
        deps
    } else if is_runtime(deps.last()) {
        without_runtime(deps.drop_last())
    } else {
        without_runtime(deps.drop_last()).push(deps.last())
    }
}

/// A downloaded package with the packages that it depends on alone: the
/// dependencies on Lua itself are left out.
pub open spec fn packages_only(rock: DownloadedRockView) -> DownloadedRockView {
    DownloadedRockView {
        dependencies: without_runtime(rock.dependencies),
        build_dependencies: without_runtime(rock.build_dependencies),
        ..rock
    }
}

/// The tasks that a downloaded package brings: its build dependencies,
/// then its dependencies.
pub open spec fn children_of(task: TaskView, rock: DownloadedRockView, main: LockView, build: LockView)
    -> Seq<TaskView> {
    build_children(task, rock) + dependency_children(task, rock, lock_of(task.tree, main, build))
}

/// The constraint under which a package is installed: the one that the
/// request carries, or else the requirement of the request.
pub open spec fn install_constraint(spec: PackageInstallSpecView) -> LockConstraintView {
    match spec.constraint {
        Some(c) => c,
        None => constraint_of_req(spec.package.version_req),
    }
}

/// The install order for a package whose dependencies are all resolved.
pub open spec fn finished(frame: FrameView) -> PackageInstallDataView {
    PackageInstallDataView {
        build_behaviour: frame.task.spec.build_behaviour,
        pin: frame.task.spec.pin,
        opt: frame.task.spec.opt,
        downloaded_rock: frame.rock,
        spec: LocalPackageSpecView {
            name: frame.rock.name,
            version: frame.rock.version,
            pinned: frame.task.spec.pin,
            opt: frame.task.spec.opt,
            dependencies: frame.collected,
            constraint: constraint_text_opt(install_constraint(frame.task.spec)),
            binaries: frame.rock.binaries,
        },
        entry_type: frame.task.spec.entry_type,
    }
}

/// What is done with the next task `task`, the resolution being `rest`
/// once the task is taken: it is downloaded if it has to be resolved, and
/// passed over if not.
pub open spec fn take_task(rest: ResolveView, task: TaskView, main: LockView, build: LockView) -> (
    ResolveView,
    ResolveActionView,
) {
    if should_resolve(task.spec, lock_of(task.tree, main, build)) {
        (
            ResolveView { awaiting: Some(task), ..rest },
            ResolveActionView::Download { package: task.spec.package, source: task.spec.source },
        )
    } else {
        (rest, ResolveActionView::Continue)
    }
}

/// The frames and identifiers after the innermost frame is done and has
/// given the identifier `id`: the frame is gone, and the identifier is with
/// the package that depends on it, if that package records it, or with the
/// results where no package depends on it.
pub open spec fn deliver(view: ResolveView, id: Seq<char>) -> ResolveView {
    let done = view.stack.last();
    let rest = view.stack.drop_last();
    if rest.len() == 0 {
        ResolveView { stack: rest, ids: view.ids.push(id), ..view }
    } else if done.task.counts {
        let parent = rest.last();
        ResolveView {
            stack: rest.drop_last().push(
                FrameView { collected: parent.collected.push(id), ..parent },
            ),
            ..view
        }
    } else {
        ResolveView { stack: rest, ..view }
    }
}

/// One step of a resolution that awaits no download. Where no package is
/// being resolved, the next of the packages that were asked for is taken,
/// and the resolution is over when there is none. Otherwise the next
/// dependency of the innermost package is taken, and when there is none,
/// the package is ordered to be installed.
pub open spec fn advance_spec(view: ResolveView, main: LockView, build: LockView) -> (
    ResolveView,
    ResolveActionView,
) {
    if view.stack.len() == 0 {
        if view.cursor < view.roots.len() {
            take_task(
                ResolveView { cursor: view.cursor + 1, ..view },
                view.roots[view.cursor as int],
                main,
                build,
            )
        } else {
            (view, ResolveActionView::Done(view.ids))
        }
    } else {
        let top = view.stack.last();
        if top.cursor < top.children.len() {
            take_task(
                ResolveView {
                    stack: view.stack.drop_last().push(
                        FrameView { cursor: top.cursor + 1, ..top },
                    ),
                    ..view
                },
                top.children[top.cursor as int],
                main,
                build,
            )
        } else {
            let data = finished(top);
            (deliver(view, data.spec.id()), ResolveActionView::Emit { data, tree: top.task.tree })
        }
    }
}

/// The resolution after the awaited package has come: its dependencies are
/// resolved next.
pub open spec fn downloaded_spec(
    view: ResolveView,
    rock: DownloadedRockView,
    main: LockView,
    build: LockView,
) -> ResolveView {
    match view.awaiting {
        Some(task) => ResolveView {
            stack: view.stack.push(
                FrameView {
                    task,
                    rock,
                    children: children_of(task, packages_only(rock), main, build),
                    cursor: 0,
                    collected: Seq::<Seq<char>>::empty(),
                },
            ),
            awaiting: None,
            ..view
        },
        None => view,
    }
}

/// The tasks for the packages that are asked for: each is resolved for the
/// main tree.
pub open spec fn root_tasks(packages: Seq<PackageInstallSpecView>) -> Seq<TaskView> {
    packages.map_values(
        |s: PackageInstallSpecView| TaskView { spec: s, tree: TargetTree::Main, counts: true },
    )
}

/// The views of a sequence of install requests.
pub open spec fn specs_view(specs: Seq<PackageInstallSpec>) -> Seq<PackageInstallSpecView> {
    specs.map_values(|s: PackageInstallSpec| s@)
}

/// A package that is installed is not resolved again unless that is forced:
/// it is passed over, nothing is downloaded, and nothing is ordered.
pub proof fn lemma_installed_is_passed_over(
    rest: ResolveView,
    task: TaskView,
    main: LockView,
    build: LockView,
)
    requires
        task.spec.build_behaviour != BuildBehaviour::Force,
        last_admitted(lock_of(task.tree, main, build).rocks, task.spec.package, None) is Some,
    ensures
        take_task(rest, task, main, build) == (rest, ResolveActionView::Continue),
{
}

/// The two trees are not mixed: what a package of the build tree brings is
/// resolved for the build tree, and of what a package of the main tree
/// brings, the build dependencies are resolved for the build tree and the
/// dependencies for the main tree.
pub proof fn lemma_trees_are_not_mixed(
    task: TaskView,
    rock: DownloadedRockView,
    main: LockView,
    build: LockView,
    i: int,
)
    requires
        0 <= i < children_of(task, rock, main, build).len(),
    ensures
        task.tree == TargetTree::Build ==> children_of(task, rock, main, build)[i].tree
            == TargetTree::Build,
        i < build_children(task, rock).len() ==> children_of(task, rock, main, build)[i].tree
            == TargetTree::Build,
        i >= build_children(task, rock).len() ==> children_of(task, rock, main, build)[i].tree
            == task.tree,
{
}

/// The resolution after `n` steps.
pub open spec fn after_steps(view: ResolveView, main: LockView, build: LockView, n: nat)
    -> ResolveView
    decreases n,
{
    if n == 0 {
        view
    } else {
        advance_spec(after_steps(view, main, build, (n - 1) as nat), main, build).0
    }
}

/// Whether none of the packages that were asked for has to be resolved.
pub open spec fn all_installed(roots: Seq<TaskView>, main: LockView, build: LockView) -> bool {
    forall|i: int|
        0 <= i < roots.len() ==> !should_resolve(
            (#[trigger] roots[i]).spec,
            lock_of(roots[i].tree, main, build),
        )
}

/// Resolving what is installed orders nothing: where every package that
/// is asked for is installed and none is forced, each step passes over one
/// of them, nothing is downloaded, and after as many steps as there are
/// packages the resolution is over with no identifier gained.
pub proof fn lemma_resolving_the_installed_orders_nothing(
    view: ResolveView,
    main: LockView,
    build: LockView,
    n: nat,
)
    requires
        view.stack.len() == 0,
        view.awaiting is None,
        view.cursor == 0,
        all_installed(view.roots, main, build),
        n <= view.roots.len(),
    ensures
        after_steps(view, main, build, n) == (ResolveView { cursor: n, ..view }),
        n < view.roots.len() ==> advance_spec(after_steps(view, main, build, n), main, build).1
            == ResolveActionView::Continue,
        n == view.roots.len() ==> advance_spec(after_steps(view, main, build, n), main, build)
            == (after_steps(view, main, build, n), ResolveActionView::Done(view.ids)),
    decreases n,
{
    if n > 0 {
        lemma_resolving_the_installed_orders_nothing(view, main, build, (n - 1) as nat);
        assert(!should_resolve(
            view.roots[n - 1].spec,
            lock_of(view.roots[n - 1].tree, main, build),
        ));
    }
    if n < view.roots.len() {
        assert(!should_resolve(view.roots[n as int].spec, lock_of(view.roots[n as int].tree, main, build)));
    }
}

/// Whether `p` answers the requirement of the request under no filter.
fn is_installed<P: LockfilePermissions>(spec: &PackageInstallSpec, lockfile: &Lockfile<P>) -> (r:
    bool)
    ensures
        r == !should_resolve(
            PackageInstallSpecView { build_behaviour: BuildBehaviour::NoForce, ..spec@ },
            lockfile@.lock,
        ),
{
    lockfile.has_rock(&spec.package, None).is_some()
}

/// The entry type of the dependency `req` of a package that is built with
/// `behaviour`.
fn entry_type_of<P: LockfilePermissions>(
    behaviour: BuildBehaviour,
    lockfile: &Lockfile<P>,
    req: &PackageReq,
) -> (r: EntryType)
    ensures
        r == dependency_entry_type(behaviour, lockfile@.lock, req@),
{
    match behaviour {
        BuildBehaviour::Force => match lockfile.has_rock(req, None) {
            Some(installed) => if lockfile.is_entrypoint(&installed.id()) {
                EntryType::Entrypoint
            } else {
                EntryType::DependencyOnly
            },
            None => EntryType::DependencyOnly,
        },
        BuildBehaviour::NoForce => EntryType::DependencyOnly,
    }
}

/// `deps` without the dependencies on Lua itself.
fn drop_runtime(deps: &Vec<RockDependency>) -> (r: Vec<RockDependency>)
    ensures
        rock_deps_view(r@) == without_runtime(rock_deps_view(deps@)),
{
    let ghost all = rock_deps_view(deps@);
    let mut out: Vec<RockDependency> = Vec::new();
    let mut i: usize = 0;
    while i < deps.len()
        invariant
            i <= deps.len(),
            all == rock_deps_view(deps@),
            rock_deps_view(out@) == without_runtime(all.take(i as int)),
        decreases deps.len() - i,
    {
        proof {
            assert(all.take(i as int + 1).drop_last() =~= all.take(i as int));
            assert(all.take(i as int + 1).last() == deps@[i as int]@);
        }
        if !crate::text::str_eq(deps[i].package_req.name().to_string().as_str(), "lua") {
            let ghost before = out@;
            let d = deps[i].clone();
            out.push(d);
            proof {
                assert(rock_deps_view(before.push(d)) =~= rock_deps_view(before).push(d@));
            }
        }
        i = i + 1;
    }
    proof {
        assert(all.take(deps.len() as int) =~= all);
    }
    out
}

/// The tasks that the downloaded package `rock` brings to `task`.
fn make_children<P: LockfilePermissions>(
    task: &Task,
    rock: &DownloadedRock,
    main: &Lockfile<P>,
    build: &Lockfile<P>,
) -> (r: Vec<Task>)
    ensures
        tasks_view(r@) == children_of(task@, rock@, main@.lock, build@.lock),
{
    let mut out: Vec<Task> = Vec::new();
    let ghost first = build_children(task@, rock@);
    match rock.kind {
        RockKind::BinaryRock => {
            proof {
                assert(tasks_view(out@) =~= first);
            }
        },
        _ => {
            let deps = &rock.build_dependencies;
            let mut i: usize = 0;
            while i < deps.len()
                invariant
                    i <= deps.len(),
                    deps@ == rock.build_dependencies@,
                    rock@.kind != RockKind::BinaryRock,
                    first == build_children(task@, rock@),
                    tasks_view(out@) == first.take(i as int),
                decreases deps.len() - i,
            {
                let ghost before = out@;
                let child = Task {
                    spec: PackageInstallSpec {
                        package: deps[i].package_req.clone(),
                        build_behaviour: task.spec.build_behaviour,
                        pin: task.spec.pin,
                        opt: task.spec.opt,
                        entry_type: EntryType::Entrypoint,
                        constraint: None,
                        source: match &deps[i].source {
                            Some(s) => Some(s.clone()),
                            None => None,
                        },
                    },
                    tree: TargetTree::Build,
                    counts: false,
                };
                out.push(child);
                proof {
                    assert(tasks_view(before.push(child)) =~= tasks_view(before).push(child@));
                    assert(rock@.build_dependencies[i as int] == deps@[i as int]@);
                    assert(first[i as int] == child@);
                    assert(first.take(i as int).push(child@) =~= first.take(i as int + 1));
                }
                i = i + 1;
            }
            proof {
                assert(first.take(deps.len() as int) =~= first);
            }
        },
    }
    let ghost lock = lock_of(task@.tree, main@.lock, build@.lock);
    let ghost second = dependency_children(task@, rock@, lock);
    let deps = &rock.dependencies;
    let mut i: usize = 0;
    proof {
        assert(first + second.take(0) =~= first);
    }
    while i < deps.len()
        invariant
            i <= deps.len(),
            deps@ == rock.dependencies@,
            lock == lock_of(task@.tree, main@.lock, build@.lock),
            second == dependency_children(task@, rock@, lock),
            tasks_view(out@) == first + second.take(i as int),
        decreases deps.len() - i,
    {
        let ghost before = out@;
        let entry_type = match task.tree {
            TargetTree::Main => entry_type_of(task.spec.build_behaviour, main, &deps[i].package_req),
            TargetTree::Build => entry_type_of(
                task.spec.build_behaviour,
                build,
                &deps[i].package_req,
            ),
        };
        let child = Task {
            spec: PackageInstallSpec {
                package: deps[i].package_req.clone(),
                build_behaviour: task.spec.build_behaviour,
                pin: task.spec.pin,
                opt: task.spec.opt,
                entry_type,
                constraint: None,
                source: match &deps[i].source {
                    Some(s) => Some(s.clone()),
                    None => None,
                },
            },
            tree: task.tree,
            counts: true,
        };
        out.push(child);
        proof {
            assert(tasks_view(before.push(child)) =~= tasks_view(before).push(child@));
            assert(rock@.dependencies[i as int] == deps@[i as int]@);
            assert(second[i as int] == child@);
            assert((first + second.take(i as int)).push(child@) =~= first + second.take(
                i as int + 1,
            ));
        }
        i = i + 1;
    }
    proof {
        assert(second.take(deps.len() as int) =~= second);
    }
    out
}

impl Frame {
    /// The install order for the package of the frame.
    fn finish(self) -> (r: (PackageInstallData, TargetTree, bool, LocalPackageId))
        ensures
            r.0@ == finished(self@),
            r.1 == self@.task.tree,
            r.2 == self@.task.counts,
            r.3@ == finished(self@).spec.id(),
    {
        let constraint = match self.task.spec.constraint {
            Some(c) => c,
            None => LockConstraint::from_req(self.task.spec.package.version_req().clone()),
        };
        let spec = LocalPackageSpec::new(
            &self.rock.name,
            &self.rock.version,
            constraint,
            self.collected,
            &self.task.spec.pin,
            &self.task.spec.opt,
            crate::lockfile::clone_strings(&self.rock.binaries),
        );
        let id = spec.id();
        (
            PackageInstallData {
                build_behaviour: self.task.spec.build_behaviour,
                pin: self.task.spec.pin,
                opt: self.task.spec.opt,
                downloaded_rock: self.rock,
                spec,
                entry_type: self.task.spec.entry_type,
            },
            self.task.tree,
            self.task.counts,
            id,
        )
    }
}

impl Resolve {
    /// The resolution of `packages`, with nothing done yet.
    pub fn new(packages: Vec<PackageInstallSpec>) -> (r: Self)
        ensures
            r@ == (ResolveView {
                roots: root_tasks(specs_view(packages@)),
                cursor: 0,
                ids: Seq::<Seq<char>>::empty(),
                stack: Seq::<FrameView>::empty(),
                awaiting: None,
            }),
    {
        let ghost wanted = root_tasks(specs_view(packages@));
        let mut roots: Vec<Task> = Vec::new();
        let mut i: usize = 0;
        while i < packages.len()
            invariant
                i <= packages.len(),
                wanted == root_tasks(specs_view(packages@)),
                tasks_view(roots@) == wanted.take(i as int),
            decreases packages.len() - i,
        {
            let ghost before = roots@;
            let t = Task { spec: packages[i].clone(), tree: TargetTree::Main, counts: true };
            roots.push(t);
            proof {
                assert(tasks_view(before.push(t)) =~= tasks_view(before).push(t@));
                assert(specs_view(packages@)[i as int] == packages@[i as int]@);
                assert(wanted[i as int] == t@);
                assert(wanted.take(i as int).push(t@) =~= wanted.take(i as int + 1));
            }
            i = i + 1;
        }
        proof {
            assert(wanted.take(packages.len() as int) =~= wanted);
        }
        let r = Resolve { roots, cursor: 0, ids: Vec::new(), stack: Vec::new(), awaiting: None };
        proof {
            assert(r@.ids =~= Seq::<Seq<char>>::empty());
            assert(r@.stack =~= Seq::<FrameView>::empty());
        }
        r
    }

    /// Whether a download is awaited.
    pub fn is_awaiting(&self) -> (r: bool)
        ensures
            r == (self@.awaiting is Some),
    {
        self.awaiting.is_some()
    }

    /// Takes the next task: it is awaited if it has to be resolved.
    fn take<P: LockfilePermissions>(&mut self, task: Task, main: &Lockfile<P>, build: &Lockfile<P>)
        -> (r: ResolveAction)
        requires
            old(self)@.awaiting is None,
        ensures
            (final(self)@, r@) == take_task(old(self)@, task@, main@.lock, build@.lock),
    {
        let installed = match task.tree {
            TargetTree::Main => is_installed(&task.spec, main),
            TargetTree::Build => is_installed(&task.spec, build),
        };
        let forced = match task.spec.build_behaviour {
            BuildBehaviour::Force => true,
            BuildBehaviour::NoForce => false,
        };
        if forced || !installed {
            let action = ResolveAction::Download {
                package: task.spec.package.clone(),
                source: match &task.spec.source {
                    Some(s) => Some(s.clone()),
                    None => None,
                },
            };
            self.awaiting = Some(task);
            action
        } else {
            ResolveAction::Continue
        }
    }

    /// One step of the resolution: says what the caller is to do next.
    /// No download may be awaited.
    pub fn advance<P: LockfilePermissions>(&mut self, main: &Lockfile<P>, build: &Lockfile<P>)
        -> (r: ResolveAction)
        requires
            old(self)@.awaiting is None,
        ensures
            (final(self)@, r@) == advance_spec(old(self)@, main@.lock, build@.lock),
    {
        if self.stack.len() == 0 {
            if self.cursor < self.roots.len() {
                let task = self.roots[self.cursor].clone();
                proof {
                    assert(old(self)@.roots[self.cursor as int] == task@);
                }
                self.cursor = self.cursor + 1;
                self.take(task, main, build)
            } else {
                ResolveAction::Done(clone_ids(&self.ids))
            }
        } else {
            let ghost frames = self.stack@;
            let mut top = self.stack.pop().unwrap();
            proof {
                assert(old(self)@.stack.last() == top@);
                assert(frames_view(frames.drop_last()) =~= old(self)@.stack.drop_last());
            }
            if top.cursor < top.children.len() {
                let task = top.children[top.cursor].clone();
                proof {
                    assert(top@.children[top.cursor as int] == task@);
                }
                let ghost before = top@;
                top.cursor = top.cursor + 1;
                let ghost rest = self.stack@;
                self.stack.push(top);
                proof {
                    assert(frames_view(rest.push(top)) =~= frames_view(rest).push(top@));
                    assert(top@ == (FrameView { cursor: before.cursor + 1, ..before }));
                }
                self.take(task, main, build)
            } else {
                let ghost done = top@;
                let (data, tree, counts, id) = top.finish();
                if self.stack.len() == 0 {
                    let ghost ids = self.ids@;
                    self.ids.push(id);
                    proof {
                        assert(ids_view(ids.push(id)) =~= ids_view(ids).push(id@));
                    }
                } else if counts {
                    let ghost rest = self.stack@;
                    let mut parent = self.stack.pop().unwrap();
                    let ghost parent_before = parent@;
                    let ghost collected = parent.collected@;
                    parent.collected.push(id);
                    let ghost lower = self.stack@;
                    self.stack.push(parent);
                    proof {
                        assert(ids_view(collected.push(id)) =~= ids_view(collected).push(id@));
                        assert(frames_view(rest).last() == parent_before);
                        assert(frames_view(lower) =~= frames_view(rest).drop_last());
                        assert(frames_view(lower.push(parent)) =~= frames_view(lower).push(
                            parent@,
                        ));
                    }
                }
                ResolveAction::Emit { data, tree }
            }
        }
    }

    /// Takes the package whose download was awaited: its dependencies are
    /// resolved next, but for the dependency on Lua itself. A download must
    /// be awaited.
    pub fn downloaded<P: LockfilePermissions>(
        &mut self,
        rock: DownloadedRock,
        main: &Lockfile<P>,
        build: &Lockfile<P>,
    )
        requires
            old(self)@.awaiting is Some,
        ensures
            final(self)@ == downloaded_spec(old(self)@, rock@, main@.lock, build@.lock),
    {
        let task = self.awaiting.take().unwrap();
        let mut packages = rock.clone();
        packages.dependencies = drop_runtime(&rock.dependencies);
        packages.build_dependencies = drop_runtime(&rock.build_dependencies);
        proof {
            assert(packages@ == packages_only(rock@));
        }
        let children = make_children(&task, &packages, main, build);
        let collected: Vec<LocalPackageId> = Vec::new();
        let frame = Frame { task, rock, children, cursor: 0, collected };
        let ghost rest = self.stack@;
        proof {
            assert(frame@.collected =~= Seq::<Seq<char>>::empty());
        }
        self.stack.push(frame);
        proof {
            assert(frames_view(rest.push(frame)) =~= frames_view(rest).push(frame@));
        }
    }
}

} // verus!
