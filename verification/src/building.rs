//! What a build does, as far as it can be said without running anything:
//! the commands of a `make` build, the packages that a project needs
//! installed, and what the lockfile of a tree records once a project is
//! built.

use crate::install::{
    lemma_edge_stays, lemma_with_dependency, only_adds, records_edge, same_but_dependencies,
};
use crate::install_spec::{BuildBehaviour, PackageInstallSpec, PackageInstallSpecView};
use crate::lock::{entries_view, LockView};
use crate::lockfile::{
    strings_view, LocalPackage, LocalPackageView, LuaDependencySpec, LuaDependencySpecView,
};
use crate::lux_lock::{Lockfile, LockfilePermissions, LockfileView, ReadWrite};
use crate::query::found_rocks;
use crate::text::{append_str, chars_of, string_of, trim_chars, trim_seq};
use crate::tree::EntryType;
use crate::variables::{substitute, substituted, variables_view, Variable};
use vstd::prelude::*;

verus! {

/// How a package is built with `make`.
#[derive(Debug, PartialEq, Eq)]
pub struct MakeBuildSpec {
    /// The makefile.
    pub makefile: String,
    /// The target of the build pass, the default target where there is none.
    pub build_target: Option<String>,
    /// Whether to perform a build pass.
    pub build_pass: bool,
    /// The target of the install pass.
    pub install_target: String,
    /// Whether to perform an install pass.
    pub install_pass: bool,
    /// The variables that are handed to both passes.
    pub variables: Vec<Variable>,
    /// The variables that are handed to the build pass.
    pub build_variables: Vec<Variable>,
    /// The variables that are handed to the install pass.
    pub install_variables: Vec<Variable>,
}

/// A `make` build as plain values.
pub struct MakeBuildSpecView {
    pub makefile: Seq<char>,
    pub build_target: Option<Seq<char>>,
    pub build_pass: bool,
    pub install_target: Seq<char>,
    pub install_pass: bool,
    pub variables: Seq<(Seq<char>, Seq<char>)>,
    pub build_variables: Seq<(Seq<char>, Seq<char>)>,
    pub install_variables: Seq<(Seq<char>, Seq<char>)>,
}

impl View for MakeBuildSpec {
    type V = MakeBuildSpecView;

    open spec fn view(&self) -> MakeBuildSpecView {
        MakeBuildSpecView {
            makefile: self.makefile@,
            build_target: match self.build_target {
                Some(t) => Some(t@),
                None => None,
            },
            build_pass: self.build_pass,
            install_target: self.install_target@,
            install_pass: self.install_pass,
            variables: variables_view(self.variables@),
            build_variables: variables_view(self.build_variables@),
            install_variables: variables_view(self.install_variables@),
        }
    }
}

/// One run of `make`: the name under which a failure is reported, and the
/// arguments.
#[derive(Debug, PartialEq, Eq)]
pub struct MakeStep {
    pub name: String,
    pub args: Vec<String>,
}

impl View for MakeStep {
    type V = (Seq<char>, Seq<Seq<char>>);

    open spec fn view(&self) -> (Seq<char>, Seq<Seq<char>>) {
        (self.name@, strings_view(self.args@))
    }
}

/// The views of a sequence of steps.
pub open spec fn steps_view(steps: Seq<MakeStep>) -> Seq<(Seq<char>, Seq<Seq<char>>)> {
    steps.map_values(|s: MakeStep| s@)
}

/// Why a `make` build failed.
#[derive(Debug, PartialEq, Eq)]
pub enum MakeError {
    /// A run of `make` ended with a status other than zero; given is what
    /// it wrote.
    CommandFailure { name: String, status: Option<i32>, stdout: String, stderr: String },
    /// The run could not be waited for.
    Io(String),
    /// There is no `make` command of the given name.
    CommandNotFound(String),
    /// The makefile is missing.
    MakefileNotFound(String),
}

/// The argument that hands the variable `var` to `make`: `NAME=value` with
/// the references of the value replaced, trimmed.
pub open spec fn make_arg(substitution: Seq<(Seq<char>, Seq<char>)>, var: (Seq<char>, Seq<char>))
    -> Seq<char> {
    trim_seq(var.0 + "="@ + substituted(substitution, var.1))
}

/// The arguments for the variables `vars`: one for each variable whose
/// value is not empty.
pub open spec fn make_args(
    substitution: Seq<(Seq<char>, Seq<char>)>,
    vars: Seq<(Seq<char>, Seq<char>)>,
) -> Seq<Seq<char>>
    decreases vars.len(),
{
    if vars.len() == 0 {
        Seq::<Seq<char>>::empty()
    } else if vars.last().1.len() == 0 {
        make_args(substitution, vars.drop_last())
    } else {
        make_args(substitution, vars.drop_last()).push(make_arg(substitution, vars.last()))
    }
}

/// The arguments of variables go on when variables are appended.
pub proof fn lemma_make_args_append(
    substitution: Seq<(Seq<char>, Seq<char>)>,
    a: Seq<(Seq<char>, Seq<char>)>,
    b: Seq<(Seq<char>, Seq<char>)>,
)
    ensures
        make_args(substitution, a + b) == make_args(substitution, a) + make_args(substitution, b),
    decreases b.len(),
{
    if b.len() == 0 {
        assert(a + b =~= a);
        assert(make_args(substitution, a) + make_args(substitution, b) =~= make_args(
            substitution,
            a,
        ));
    } else {
        lemma_make_args_append(substitution, a, b.drop_last());
        assert((a + b).drop_last() =~= a + b.drop_last());
        assert((a + b).last() == b.last());
        if b.last().1.len() != 0 {
            assert((make_args(substitution, a) + make_args(substitution, b.drop_last())).push(
                make_arg(substitution, b.last()),
            ) =~= make_args(substitution, a) + make_args(substitution, b));
        }
    }
}

/// The build pass: `make [target] -f <makefile> NAME=value ...` with the
/// common variables and those of the build.
pub open spec fn build_step(
    spec: MakeBuildSpecView,
    make_cmd: Seq<char>,
    substitution: Seq<(Seq<char>, Seq<char>)>,
) -> (Seq<char>, Seq<Seq<char>>) {
    (
        match spec.build_target {
            Some(t) => make_cmd + " "@ + t,
            None => make_cmd,
        },
        (match spec.build_target {
            Some(t) => seq![t],
            None => Seq::<Seq<char>>::empty(),
        }) + seq!["-f"@, spec.makefile] + make_args(substitution, spec.variables) + make_args(
            substitution,
            spec.build_variables,
        ),
    )
}

/// The install pass: `make <target> -f <makefile> NAME=value ...` with the
/// common variables and those of the installation.
pub open spec fn install_step(
    spec: MakeBuildSpecView,
    make_cmd: Seq<char>,
    substitution: Seq<(Seq<char>, Seq<char>)>,
) -> (Seq<char>, Seq<Seq<char>>) {
    (
        make_cmd + " "@ + spec.install_target,
        seq![spec.install_target, "-f"@, spec.makefile] + make_args(substitution, spec.variables)
            + make_args(substitution, spec.install_variables),
    )
}

/// The runs of `make` that build a package: the build pass unless it is
/// switched off, then the install pass unless it is switched off or nothing
/// is to be installed.
pub open spec fn make_plan(
    spec: MakeBuildSpecView,
    make_cmd: Seq<char>,
    substitution: Seq<(Seq<char>, Seq<char>)>,
    no_install: bool,
) -> Seq<(Seq<char>, Seq<Seq<char>>)> {
    (if spec.build_pass {
        seq![build_step(spec, make_cmd, substitution)]
    } else {
        Seq::<(Seq<char>, Seq<Seq<char>>)>::empty()
    }) + (if spec.install_pass && !no_install {
        seq![install_step(spec, make_cmd, substitution)]
    } else {
        Seq::<(Seq<char>, Seq<Seq<char>>)>::empty()
    })
}

/// Appends the arguments for `vars` to `args`.
fn push_make_args(args: &mut Vec<String>, substitution: &Vec<Variable>, vars: &Vec<Variable>)
    ensures
        strings_view(final(args)@) == strings_view(old(args)@) + make_args(
            variables_view(substitution@),
            variables_view(vars@),
        ),
{
    let ghost head = strings_view(args@);
    let ghost subst = variables_view(substitution@);
    let ghost all = variables_view(vars@);
    let mut i: usize = 0;
    proof {
        assert(all.take(0) =~= Seq::<(Seq<char>, Seq<char>)>::empty());
        assert(head + make_args(subst, all.take(0)) =~= head);
    }
    while i < vars.len()
        invariant
            i <= vars.len(),
            subst == variables_view(substitution@),
            all == variables_view(vars@),
            strings_view(args@) == head + make_args(subst, all.take(i as int)),
        decreases vars.len() - i,
    {
        proof {
            assert(all.take(i as int + 1).drop_last() =~= all.take(i as int));
            assert(all.take(i as int + 1).last() == vars@[i as int]@);
        }
        if vars[i].value.as_str().unicode_len() > 0 {
            let value = substitute(substitution, vars[i].value.as_str());
            let mut text = chars_of(vars[i].name.as_str());
            append_str(&mut text, "=");
            append_str(&mut text, value.as_str());
            let arg = string_of(&trim_chars(&text));
            let ghost before = args@;
            args.push(arg);
            proof {
                assert(strings_view(before.push(arg)) =~= strings_view(before).push(arg@));
                assert((head + make_args(subst, all.take(i as int))).push(arg@) =~= head
                    + make_args(subst, all.take(i as int)).push(arg@));
            }
        }
        i = i + 1;
    }
    proof {
        assert(all.take(vars.len() as int) =~= all);
    }
}

impl MakeBuildSpec {
    /// The build pass.
    fn build_step(&self, make_cmd: &str, substitution: &Vec<Variable>) -> (r: MakeStep)
        ensures
            r@ == build_step(self@, make_cmd@, variables_view(substitution@)),
    {
        let mut args: Vec<String> = Vec::new();
        let name = match &self.build_target {
            Some(t) => {
                args.push(t.clone());
                let mut n = chars_of(make_cmd);
                append_str(&mut n, " ");
                append_str(&mut n, t.as_str());
                string_of(&n)
            },
            None => string_of(&chars_of(make_cmd)),
        };
        args.push(string_of(&chars_of("-f")));
        args.push(self.makefile.clone());
        proof {
            assert(strings_view(args@) =~= (match self@.build_target {
                Some(t) => seq![t],
                None => Seq::<Seq<char>>::empty(),
            }) + seq!["-f"@, self@.makefile]);
        }
        push_make_args(&mut args, substitution, &self.variables);
        push_make_args(&mut args, substitution, &self.build_variables);
        MakeStep { name, args }
    }

    /// The install pass.
    fn install_step(&self, make_cmd: &str, substitution: &Vec<Variable>) -> (r: MakeStep)
        ensures
            r@ == install_step(self@, make_cmd@, variables_view(substitution@)),
    {
        let mut args: Vec<String> = Vec::new();
        let mut n = chars_of(make_cmd);
        append_str(&mut n, " ");
        append_str(&mut n, self.install_target.as_str());
        args.push(self.install_target.clone());
        args.push(string_of(&chars_of("-f")));
        args.push(self.makefile.clone());
        proof {
            assert(strings_view(args@) =~= seq![self@.install_target, "-f"@, self@.makefile]);
        }
        push_make_args(&mut args, substitution, &self.variables);
        push_make_args(&mut args, substitution, &self.install_variables);
        MakeStep { name: string_of(&n), args }
    }

    /// The runs of `make` that build the package, in their order.
    /// `make_cmd` is the name of the `make` command, and `substitution` are
    /// the variables whose references are replaced in the values that are
    /// handed to `make`.
    pub fn plan(&self, make_cmd: &str, substitution: &Vec<Variable>, no_install: bool) -> (r: Vec<
        MakeStep,
    >)
        ensures
            steps_view(r@) == make_plan(self@, make_cmd@, variables_view(substitution@), no_install),
    {
        let mut steps: Vec<MakeStep> = Vec::new();
        if self.build_pass {
            steps.push(self.build_step(make_cmd, substitution));
        }
        if self.install_pass && !no_install {
            steps.push(self.install_step(make_cmd, substitution));
        }
        proof {
            assert(steps_view(steps@) =~= make_plan(
                self@,
                make_cmd@,
                variables_view(substitution@),
                no_install,
            ));
        }
        steps
    }
}

/// What follows from the end of a run of `make`: a run that did not end
/// well is a failure that tells what the run wrote.
pub fn check_make_exit(step: &MakeStep, success: bool, status: Option<i32>, stdout: String, stderr: String)
    -> (r: Result<(), MakeError>)
    ensures
        match r {
            Ok(()) => success,
            Err(MakeError::CommandFailure { name, status: s, stdout: o, stderr: e }) => !success
                && name@ == step@.0 && s == status && o@ == stdout@ && e@ == stderr@,
            Err(_) => false,
        },
{
    if success {
        Ok(())
    } else {
        Err(MakeError::CommandFailure { name: step.name.clone(), status, stdout, stderr })
    }
}

/// A dependency as a project declares it, with the source where one is
/// given.
#[derive(Debug, PartialEq, Eq)]
pub struct ProjectDependency {
    pub dependency: LuaDependencySpec,
    pub source: Option<String>,
}

impl View for ProjectDependency {
    type V = (LuaDependencySpecView, Option<Seq<char>>);

    open spec fn view(&self) -> (LuaDependencySpecView, Option<Seq<char>>) {
        (
            self.dependency@,
            match self.source {
                Some(s) => Some(s@),
                None => None,
            },
        )
    }
}

/// The views of a sequence of project dependencies.
pub open spec fn project_deps_view(deps: Seq<ProjectDependency>) -> Seq<
    (LuaDependencySpecView, Option<Seq<char>>),
> {
    deps.map_values(|d: ProjectDependency| d@)
}

/// The request to install a dependency of a project: as an entrypoint,
/// pinned and optional as declared.
pub open spec fn install_request(dep: (LuaDependencySpecView, Option<Seq<char>>))
    -> PackageInstallSpecView {
    PackageInstallSpecView {
        package: dep.0.package_req,
        build_behaviour: BuildBehaviour::NoForce,
        pin: dep.0.pin,
        opt: dep.0.opt,
        entry_type: EntryType::Entrypoint,
        constraint: None,
        source: dep.1,
    }
}

/// The requests for those of `deps` that no installed package answers.
pub open spec fn missing_requests(lock: LockView, deps: Seq<(LuaDependencySpecView, Option<Seq<char>>)>)
    -> Seq<PackageInstallSpecView>
    decreases deps.len(),
{
    if deps.len() == 0 {
        Seq::<PackageInstallSpecView>::empty()
    } else if found_rocks(lock.rocks, deps.last().0.package_req).len() == 0 {
        missing_requests(lock, deps.drop_last()).push(install_request(deps.last()))
    } else {
        missing_requests(lock, deps.drop_last())
    }
}

/// The dependencies of a project that have to be installed where the
/// project has no lockfile: those that no package of the tree answers.
pub fn dependencies_to_install<P: LockfilePermissions>(
    lockfile: &Lockfile<P>,
    dependencies: &Vec<ProjectDependency>,
) -> (r: Vec<PackageInstallSpec>)
    ensures
        crate::resolve::specs_view(r@) == missing_requests(
            lockfile@.lock,
            project_deps_view(dependencies@),
        ),
{
    let ghost all = project_deps_view(dependencies@);
    let mut out: Vec<PackageInstallSpec> = Vec::new();
    let mut i: usize = 0;
    while i < dependencies.len()
        invariant
            i <= dependencies.len(),
            all == project_deps_view(dependencies@),
            crate::resolve::specs_view(out@) == missing_requests(lockfile@.lock, all.take(i as int)),
        decreases dependencies.len() - i,
    {
        proof {
            assert(all.take(i as int + 1).drop_last() =~= all.take(i as int));
            assert(all.take(i as int + 1).last() == dependencies@[i as int]@);
        }
        let dep = &dependencies[i];
        if lockfile.find_rocks(dep.dependency.package_req()).len() == 0 {
            let ghost before = out@;
            let request = PackageInstallSpec {
                package: dep.dependency.package_req().clone(),
                build_behaviour: BuildBehaviour::NoForce,
                pin: dep.dependency.pin(),
                opt: dep.dependency.opt(),
                entry_type: EntryType::Entrypoint,
                constraint: None,
                source: match &dep.source {
                    Some(s) => Some(s.clone()),
                    None => None,
                },
            };
            out.push(request);
            proof {
                assert(crate::resolve::specs_view(before.push(request))
                    =~= crate::resolve::specs_view(before).push(request@));
            }
        }
        i = i + 1;
    }
    proof {
        assert(all.take(dependencies.len() as int) =~= all);
    }
    out
}

/// One step of the build of a project.
#[derive(Debug, PartialEq, Eq)]
pub enum ProjectStep {
    /// Install these dependencies into the tree of the project.
    InstallDependencies(Vec<PackageInstallSpec>),
    /// Make sure that the tool that builds foreign packages is installed.
    EnsureBuildTool,
    /// Install these build dependencies into the build tree.
    InstallBuildDependencies(Vec<PackageInstallSpec>),
    /// Bring the tree in line with the declared dependencies.
    SyncDependencies,
    /// Bring the build tree in line with the declared build dependencies.
    SyncBuildDependencies,
    /// Build the package of the project itself, whether it is installed or
    /// not, and record it as the entrypoint of the tree.
    BuildPackage,
}

/// A step as plain values.
pub enum ProjectStepView {
    InstallDependencies(Seq<PackageInstallSpecView>),
    EnsureBuildTool,
    InstallBuildDependencies(Seq<PackageInstallSpecView>),
    SyncDependencies,
    SyncBuildDependencies,
    BuildPackage,
}

impl View for ProjectStep {
    type V = ProjectStepView;

    open spec fn view(&self) -> ProjectStepView {
        match self {
            ProjectStep::InstallDependencies(specs) => ProjectStepView::InstallDependencies(
                crate::resolve::specs_view(specs@),
            ),
            ProjectStep::EnsureBuildTool => ProjectStepView::EnsureBuildTool,
            ProjectStep::InstallBuildDependencies(specs) => {
                ProjectStepView::InstallBuildDependencies(crate::resolve::specs_view(specs@))
            },
            ProjectStep::SyncDependencies => ProjectStepView::SyncDependencies,
            ProjectStep::SyncBuildDependencies => ProjectStepView::SyncBuildDependencies,
            ProjectStep::BuildPackage => ProjectStepView::BuildPackage,
        }
    }
}

/// The views of a sequence of steps of the build of a project.
pub open spec fn project_steps_view(steps: Seq<ProjectStep>) -> Seq<ProjectStepView> {
    steps.map_values(|s: ProjectStep| s@)
}

/// The steps that bring in what a project depends on. Without a lockfile
/// of the project, what the tree lacks is installed: the dependencies in
/// any case, the build dependencies, after the build tool, only where some
/// are lacking. With a lockfile both trees are synced.
pub open spec fn dependency_steps(
    no_lock: bool,
    lock: LockView,
    deps: Seq<(LuaDependencySpecView, Option<Seq<char>>)>,
    build_deps: Seq<(LuaDependencySpecView, Option<Seq<char>>)>,
) -> Seq<ProjectStepView> {
    if no_lock {
        seq![ProjectStepView::InstallDependencies(missing_requests(lock, deps))] + (
        if missing_requests(lock, build_deps).len() > 0 {
            seq![
                ProjectStepView::EnsureBuildTool,
                ProjectStepView::InstallBuildDependencies(missing_requests(lock, build_deps)),
            ]
        } else {
            Seq::<ProjectStepView>::empty()
        })
    } else {
        seq![ProjectStepView::SyncDependencies, ProjectStepView::SyncBuildDependencies]
    }
}

/// The steps of the build of a project: what it depends on is brought in,
/// and then, unless only that was asked for, the package itself is built.
pub open spec fn project_plan(
    no_lock: bool,
    only_deps: bool,
    lock: LockView,
    deps: Seq<(LuaDependencySpecView, Option<Seq<char>>)>,
    build_deps: Seq<(LuaDependencySpecView, Option<Seq<char>>)>,
) -> Seq<ProjectStepView> {
    dependency_steps(no_lock, lock, deps, build_deps) + (if only_deps {
        Seq::<ProjectStepView>::empty()
    } else {
        seq![ProjectStepView::BuildPackage]
    })
}

/// The steps of the build of a project whose tree has the lockfile
/// `lockfile`, in their order. A step that fails ends the build.
pub fn project_build_steps<P: LockfilePermissions>(
    no_lock: bool,
    only_deps: bool,
    lockfile: &Lockfile<P>,
    dependencies: &Vec<ProjectDependency>,
    build_dependencies: &Vec<ProjectDependency>,
) -> (r: Vec<ProjectStep>)
    ensures
        project_steps_view(r@) == project_plan(
            no_lock,
            only_deps,
            lockfile@.lock,
            project_deps_view(dependencies@),
            project_deps_view(build_dependencies@),
        ),
{
    let mut steps: Vec<ProjectStep> = Vec::new();
    if no_lock {
        steps.push(ProjectStep::InstallDependencies(dependencies_to_install(lockfile, dependencies)));
        let tools = dependencies_to_install(lockfile, build_dependencies);
        if tools.len() > 0 {
            steps.push(ProjectStep::EnsureBuildTool);
            steps.push(ProjectStep::InstallBuildDependencies(tools));
        }
    } else {
        steps.push(ProjectStep::SyncDependencies);
        steps.push(ProjectStep::SyncBuildDependencies);
    }
    if !only_deps {
        steps.push(ProjectStep::BuildPackage);
    }
    proof {
        assert(project_steps_view(steps@) =~= project_plan(
            no_lock,
            only_deps,
            lockfile@.lock,
            project_deps_view(dependencies@),
            project_deps_view(build_dependencies@),
        ));
    }
    steps
}

/// Whether the lockfile `after` records, for each of the first `n` packages
/// of `before` that is an entrypoint there, that the package kept under
/// `project` depends on it.
pub open spec fn entrypoints_recorded(before: LockView, after: LockView, project: Seq<char>, n: int)
    -> bool {
    forall|i: int|
        0 <= i < n && i < before.rocks.len() && before.is_entrypoint(
            (#[trigger] before.rocks[i]).0,
        ) ==> records_edge(after, project, before.rocks[i].1.spec.id())
}

/// The identifiers of those of the first `n` packages of a lockfile that
/// are entrypoints, in the order of the lockfile.
pub open spec fn former_entrypoints(lock: LockView, n: nat) -> Seq<Seq<char>>
    decreases n,
{
    if n == 0 || n > lock.rocks.len() {
        Seq::<Seq<char>>::empty()
    } else if lock.is_entrypoint(lock.rocks[n - 1].0) {
        former_entrypoints(lock, (n - 1) as nat).push(lock.rocks[n - 1].0)
    } else {
        former_entrypoints(lock, (n - 1) as nat)
    }
}

/// `list` without the first occurrence of `id`.
pub open spec fn without_first(list: Seq<Seq<char>>, id: Seq<char>) -> Seq<Seq<char>> {
    match list.index_of_first(id) {
        Some(i) => list.remove(i),
        None => list,
    }
}

/// `list` with one occurrence, the first, of each of the first `m` of `ids`
/// taken off, one after the other.
pub open spec fn taken_off(list: Seq<Seq<char>>, ids: Seq<Seq<char>>, m: nat) -> Seq<Seq<char>>
    decreases m,
{
    if m == 0 || m > ids.len() {
        list
    } else {
        without_first(taken_off(list, ids, (m - 1) as nat), ids[m - 1])
    }
}

/// The entrypoints of a lockfile once the project `project` is built: the
/// entrypoints that were, with one occurrence of each package that was an
/// entrypoint taken off, and the project behind them.
pub open spec fn entrypoints_after_build(before: LockView, project: Seq<char>) -> Seq<Seq<char>> {
    let former = former_entrypoints(before, before.rocks.len());
    taken_off(before.entrypoints, former, former.len()).push(project)
}

/// The package that a lockfile keeps under the identifier of `package`,
/// or else `package`.
pub open spec fn start_base(before: LockView, package: LocalPackageView) -> LocalPackageView {
    match before.get(package.spec.id()) {
        Some(p) => p,
        None => package,
    }
}

/// The package of a project as the lockfile keeps it once the project is
/// built: the package that was kept under its identifier, or else the
/// package as it was built, with the former entrypoints behind the
/// dependencies that it named.
pub open spec fn project_after_build(before: LockView, package: LocalPackageView)
    -> LocalPackageView {
    let base = start_base(before, package);
    LocalPackageView {
        spec: crate::lockfile::LocalPackageSpecView {
            dependencies: base.spec.dependencies + former_entrypoints(before, before.rocks.len()),
            ..base.spec
        },
        ..base
    }
}

impl Lockfile<ReadWrite> {
    /// Records that the project's own package was built into the tree: the
    /// package becomes an entrypoint, and what were the entrypoints, the
    /// dependencies of the project, become its dependencies: for each of
    /// them the package is noted to depend on it, and one occurrence of its
    /// identifier is taken off the entrypoints.
    pub fn record_project_build(&mut self, package: &LocalPackage)
        requires
            old(self)@.lock.wf(),
        ensures
            final(self)@.lock.wf(),
            final(self)@ == (LockfileView { lock: final(self)@.lock, ..old(self)@ }),
            old(self)@.lock.ids_within(final(self)@.lock),
            final(self)@.lock.has(package@.spec.id()),
            final(self)@.lock.is_entrypoint(package@.spec.id()),
            forall|id: Seq<char>|
                id != package@.spec.id() ==> final(self)@.lock.get(id) == old(self)@.lock.get(id),
            final(self)@.lock.get(package@.spec.id()) == Some(
                project_after_build(old(self)@.lock, package@),
            ),
            final(self)@.lock.entrypoints == entrypoints_after_build(
                old(self)@.lock,
                package@.spec.id(),
            ),
            entrypoints_recorded(
                old(self)@.lock,
                final(self)@.lock,
                package@.spec.id(),
                old(self)@.lock.rocks.len() as int,
            ),
    {
        let ghost start = self@;
        let ghost pid = package@.spec.id();
        let mut dependencies: Vec<LocalPackage> = Vec::new();
        let rocks = self.rocks();
        let mut i: usize = 0;
        while i < rocks.len()
            invariant
                i <= rocks.len(),
                self@ == start,
                start.lock.wf(),
                entries_view(rocks@) == start.lock.rocks,
                dependencies@.len() == former_entrypoints(start.lock, i as nat).len(),
                forall|k: int|
                    0 <= k < dependencies@.len() ==> (#[trigger] dependencies@[k])@.spec.id()
                        == former_entrypoints(start.lock, i as nat)[k],
            decreases rocks.len() - i,
        {
            proof {
                assert(start.lock.rocks[i as int] == rocks@[i as int]@);
                assert(start.lock.rocks[i as int].0 == start.lock.rocks[i as int].1.spec.id());
            }
            if self.is_entrypoint(&rocks[i].id) {
                dependencies.push(rocks[i].package.clone());
            }
            i = i + 1;
        }
        let ghost former = former_entrypoints(start.lock, start.lock.rocks.len());
        let ghost base = match start.lock.get(pid) {
            Some(q) => q,
            None => package@,
        };
        proof {
            lemma_former_are_held(start.lock, start.lock.rocks.len());
            assert(same_but_dependencies(base, base));
            assert(base.spec.dependencies + former.take(0) =~= base.spec.dependencies);
        }
        let mut k: usize = 0;
        while k < dependencies.len()
            invariant
                k <= dependencies.len(),
                pid == package@.spec.id(),
                self@.lock.wf(),
                self@ == (LockfileView { lock: self@.lock, ..start }),
                start.lock.ids_within(self@.lock),
                former == former_entrypoints(start.lock, start.lock.rocks.len()),
                dependencies@.len() == former.len(),
                forall|j: int|
                    0 <= j < dependencies@.len() ==> (#[trigger] dependencies@[j])@.spec.id()
                        == former[j],
                self@.lock.entrypoints == taken_off(start.lock.entrypoints, former, k as nat),
                forall|j: int| 0 <= j < k ==> records_edge(self@.lock, pid, #[trigger] former[j]),
                forall|j: int| 0 <= j < former.len() ==> start.lock.has(#[trigger] former[j]),
                forall|id: Seq<char>| id != pid ==> self@.lock.get(id) == start.lock.get(id),
                base == (match start.lock.get(pid) {
                    Some(q) => q,
                    None => package@,
                }),
                self@.lock.get(pid) matches Some(p) ==> same_but_dependencies(p, base)
                    && p.spec.dependencies == base.spec.dependencies + former.take(k as int),
                self@.lock.get(pid) is None ==> start.lock.get(pid) is None && k == 0,
            decreases dependencies.len() - k,
        {
            let ghost before = self@.lock;
            let dep = &dependencies[k];
            self.add_dependency(package, dep);
            proof {
                let mid = self@.lock;
                let base = match before.get(pid) {
                    Some(p) => p,
                    None => package@,
                };
                lemma_with_dependency(base, dep@.spec.id());
                assert(only_adds(before, mid, pid));
                assert((start_base(start.lock, package@).spec.dependencies + former.take(
                    k as int,
                )).push(former[k as int]) =~= start_base(start.lock, package@).spec.dependencies
                    + former.take(k as int + 1));
                assert forall|j: int| 0 <= j < k + 1 implies records_edge(
                    mid,
                    pid,
                    #[trigger] former[j],
                ) by {
                    if j < k {
                        lemma_edge_stays(before, mid, pid, former[j], pid);
                    }
                }
            }
            let ghost mid = self@.lock;
            self.remove_entrypoint(dep);
            proof {
                let after = self@.lock;
                assert(after.rocks == mid.rocks);
                assert forall|x: Seq<char>| after.has(x) == mid.has(x) && after.get(x) == mid.get(
                    x,
                ) by {
                    crate::lock::lemma_has_same_rocks(mid, after, x);
                }
            }
            k = k + 1;
        }
        let ghost before = self@.lock;
        self.add_entrypoint(package);
        proof {
            let after = self@.lock;
            assert(former.take(former.len() as int) =~= former);
            assert(only_adds(before, after, pid));
            assert forall|j: int| 0 <= j < former.len() implies records_edge(
                after,
                pid,
                #[trigger] former[j],
            ) by {
                lemma_edge_stays(before, after, pid, former[j], pid);
            }
            assert forall|a: int|
                0 <= a < start.lock.rocks.len() && start.lock.is_entrypoint(
                    (#[trigger] start.lock.rocks[a]).0,
                ) implies records_edge(after, pid, start.lock.rocks[a].1.spec.id()) by {
                lemma_former_holds(start.lock, start.lock.rocks.len(), a);
                let j = choose|j: int| 0 <= j < former.len() && former[j] == start.lock.rocks[a].0;
                assert(records_edge(after, pid, former[j]));
            }
        }
    }
}

/// Taking the first occurrence of an identifier off a list without
/// repetitions takes the identifier off it and nothing else.
pub proof fn lemma_without_first(list: Seq<Seq<char>>, id: Seq<char>)
    requires
        list.no_duplicates(),
    ensures
        without_first(list, id).no_duplicates(),
        forall|x: Seq<char>|
            #[trigger] without_first(list, id).contains(x) <==> (list.contains(x) && x != id),
{
    let after = without_first(list, id);
    match list.index_of_first(id) {
        Some(i) => {
            list.index_of_first_ensures(id);
            assert forall|x: Seq<char>| #[trigger] after.contains(x) <==> (list.contains(x) && x
                != id) by {
                if after.contains(x) {
                    let j = choose|j: int| 0 <= j < after.len() && after[j] == x;
                    if j < i {
                        assert(list[j] == x);
                    } else {
                        assert(list[j + 1] == x);
                    }
                }
                if list.contains(x) && x != id {
                    let j = choose|j: int| 0 <= j < list.len() && list[j] == x;
                    if j < i {
                        assert(after[j] == x);
                    } else {
                        assert(after[j - 1] == x);
                    }
                }
            }
            assert forall|a: int, b: int| 0 <= a < after.len() && 0 <= b < after.len() && a
                != b implies after[a] != after[b] by {
                let a0 = if a < i {
                    a
                } else {
                    a + 1
                };
                let b0 = if b < i {
                    b
                } else {
                    b + 1
                };
                assert(after[a] == list[a0] && after[b] == list[b0]);
            }
        },
        None => {
            list.index_of_first_ensures(id);
        },
    }
}

/// What is left of a list without repetitions when identifiers are taken
/// off it: what was in the list and is none of them.
pub proof fn lemma_taken_off(list: Seq<Seq<char>>, ids: Seq<Seq<char>>, m: nat)
    requires
        list.no_duplicates(),
        m <= ids.len(),
    ensures
        taken_off(list, ids, m).no_duplicates(),
        forall|x: Seq<char>|
            #[trigger] taken_off(list, ids, m).contains(x) <==> (list.contains(x) && !ids.take(
                m as int,
            ).contains(x)),
    decreases m,
{
    if m > 0 {
        let before = taken_off(list, ids, (m - 1) as nat);
        lemma_taken_off(list, ids, (m - 1) as nat);
        lemma_without_first(before, ids[m - 1]);
        let now = ids.take(m as int);
        let earlier = ids.take(m - 1);
        assert forall|x: Seq<char>| #[trigger]
            taken_off(list, ids, m).contains(x) <==> (list.contains(x) && !now.contains(x)) by {
            if now.contains(x) {
                let j = choose|j: int| 0 <= j < now.len() && now[j] == x;
                if j < m - 1 {
                    assert(earlier[j] == x);
                }
            }
            if earlier.contains(x) {
                let j = choose|j: int| 0 <= j < earlier.len() && earlier[j] == x;
                assert(now[j] == x);
            }
            if x == ids[m - 1] {
                assert(now[m - 1] == x);
            }
        }
    } else {
        assert(ids.take(0).len() == 0);
    }
}

/// Where no entrypoint of a lockfile is named twice, the project is the
/// one entrypoint once it is built: every package that was an entrypoint
/// no longer is.
pub proof fn lemma_project_is_the_entrypoint(before: LockView, project: Seq<char>, r: Seq<char>)
    requires
        before.wf(),
        before.entrypoints.no_duplicates(),
    ensures
        entrypoints_after_build(before, project).contains(r) <==> r == project,
{
    let n = before.rocks.len();
    let former = former_entrypoints(before, n);
    let left = taken_off(before.entrypoints, former, former.len());
    lemma_taken_off(before.entrypoints, former, former.len());
    assert(former.take(former.len() as int) =~= former);
    let after = entrypoints_after_build(before, project);
    assert(after[left.len() as int] == project);
    assert forall|x: Seq<char>| !left.contains(x) by {
        if before.entrypoints.contains(x) {
            let e = choose|e: int| 0 <= e < before.entrypoints.len() && before.entrypoints[e] == x;
            assert(before.has(before.entrypoints[e]));
            let a = before.position(x);
            assert(before.rocks[a].0 == x);
            lemma_former_holds(before, n, a);
        }
    }
    assert(after.contains(project));
    if after.contains(r) && r != project {
        let j = choose|j: int| 0 <= j < after.len() && after[j] == r;
        if j < left.len() {
            assert(left[j] == r);
            assert(left.contains(r));
        }
    }
}

/// The former entrypoints are identifiers of packages of the lockfile.
proof fn lemma_former_are_held(lock: LockView, n: nat)
    requires
        n <= lock.rocks.len(),
    ensures
        forall|j: int|
            0 <= j < former_entrypoints(lock, n).len() ==> lock.has(
                #[trigger] former_entrypoints(lock, n)[j],
            ),
    decreases n,
{
    if n > 0 {
        lemma_former_are_held(lock, (n - 1) as nat);
        assert(lock.has(lock.rocks[n - 1].0));
        let now = former_entrypoints(lock, n);
        let before = former_entrypoints(lock, (n - 1) as nat);
        assert forall|j: int| 0 <= j < now.len() implies lock.has(#[trigger] now[j]) by {
            if j < before.len() {
                assert(now[j] == before[j]);
            }
        }
    }
}

/// Each of the first `n` packages that is an entrypoint is among the
/// former entrypoints.
proof fn lemma_former_holds(lock: LockView, n: nat, a: int)
    requires
        0 <= a < n <= lock.rocks.len(),
        lock.is_entrypoint(lock.rocks[a].0),
    ensures
        former_entrypoints(lock, n).contains(lock.rocks[a].0),
    decreases n,
{
    let now = former_entrypoints(lock, n);
    if a == n - 1 {
        assert(now.last() == lock.rocks[a].0);
    } else {
        lemma_former_holds(lock, (n - 1) as nat, a);
        let before = former_entrypoints(lock, (n - 1) as nat);
        let j = choose|j: int| 0 <= j < before.len() && before[j] == lock.rocks[a].0;
        assert(now[j] == lock.rocks[a].0);
    }
}

} // verus!
