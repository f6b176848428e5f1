use lux_lib::config::RockLayoutConfig;
use lux_lib::hash::Integrity;
use lux_lib::install::{InstallError, InstalledPackage};
use lux_lib::install_spec::{
    BuildBehaviour, DownloadedRock, PackageInstallData, PackageInstallSpec, RockDependency,
    RockKind,
};
use lux_lib::lockfile::{
    LocalPackage, LocalPackageHashes, LocalPackageId, LockConstraint, OptState, PinnedState,
};
use lux_lib::lux_lock::{Lockfile, ReadWrite};
use lux_lib::package::{PackageName, PackageReq, PackageSpec, RemotePackageSource};
use lux_lib::resolve::{Resolve, ResolveAction, TargetTree};
use lux_lib::tree::EntryType;
use lux_lib::version::PackageVersion;
use lux_lib::version_req::PackageVersionReq;

fn rock(kind: RockKind, name: &str, version: &str, deps: &[&str], build: &[&str]) -> DownloadedRock {
    let declare = |reqs: &[&str]| {
        reqs.iter()
            .map(|r| RockDependency { package_req: PackageReq::parse(r).unwrap(), source: None })
            .collect::<Vec<_>>()
    };
    DownloadedRock {
        kind,
        name: PackageName::new(name),
        version: PackageVersion::parse(version).unwrap(),
        dependencies: declare(deps),
        build_dependencies: declare(build),
        binaries: Vec::new(),
    }
}

/// What the server would send for a requirement.
fn server(req: &PackageReq) -> DownloadedRock {
    match req.name().to_string().as_str() {
        "neorg" => rock(RockKind::SrcRock, "neorg", "8.8.1-1", &["nvim-nio ~> 1.7", "pathlib.nvim"], &["luarocks-build-treesitter-parser"]),
        "pathlib.nvim" => rock(RockKind::RockspecOnly, "pathlib.nvim", "2.2.3-1", &["nvim-nio >= 1.7"], &[]),
        "nvim-nio" => rock(RockKind::RockspecOnly, "nvim-nio", "1.7.0-1", &[], &[]),
        "luarocks-build-treesitter-parser" => rock(RockKind::RockspecOnly, "luarocks-build-treesitter-parser", "5.0.0-1", &["luafilesystem"], &[]),
        "luafilesystem" => rock(RockKind::BinaryRock, "luafilesystem", "1.8.0-1", &[], &["never-needed"]),
        "say" => rock(RockKind::RockspecOnly, "say", "1.4.1-3", &["lua >= 5.1", "nvim-nio"], &["Lua ~> 5.1"]),
        other => panic!("no such package: {other}"),
    }
}

fn empty_lockfile() -> Lockfile<ReadWrite> {
    Lockfile::empty("/t/lux.lock".to_string(), RockLayoutConfig::default()).into_temporary()
}

fn run(
    packages: Vec<PackageInstallSpec>,
    main: &Lockfile<ReadWrite>,
    build: &Lockfile<ReadWrite>,
) -> (Vec<(PackageInstallData, TargetTree)>, Vec<LocalPackageId>, Vec<String>) {
    let mut resolve = Resolve::new(packages);
    let mut emitted = Vec::new();
    let mut downloads = Vec::new();
    for _ in 0..1000 {
        assert!(!resolve.is_awaiting());
        match resolve.advance(main, build) {
            ResolveAction::Download { package, source } => {
                assert_eq!(source, None);
                assert!(resolve.is_awaiting());
                downloads.push(package.name().to_string());
                resolve.downloaded(server(&package), main, build);
            }
            ResolveAction::Emit { data, tree } => emitted.push((data, tree)),
            ResolveAction::Continue => {}
            ResolveAction::Done(ids) => return (emitted, ids, downloads),
        }
    }
    panic!("the resolution does not end");
}

fn request(req: &str) -> PackageInstallSpec {
    PackageInstallSpec::of(PackageReq::parse(req).unwrap(), EntryType::Entrypoint)
}

fn as_local(data: &PackageInstallData) -> LocalPackage {
    let mut package = LocalPackage::from(
        &PackageSpec::new(data.spec.name.clone(), data.spec.version.clone()),
        data.spec.constraint(),
        Vec::new(),
        RemotePackageSource::Local,
        None,
        LocalPackageHashes {
            rockspec: Integrity::of_bytes(b"rockspec"),
            source: Integrity::of_bytes(b"source"),
        },
    );
    package.spec.pinned = data.pin;
    package.spec.opt = data.opt;
    package
}

#[test]
fn dependencies_are_resolved_before_the_package_that_needs_them() {
    let main = empty_lockfile();
    let build = empty_lockfile();
    let (emitted, ids, downloads) = run(vec![request("neorg@8.8.1")], &main, &build);

    assert_eq!(
        downloads,
        vec![
            "neorg",
            "luarocks-build-treesitter-parser",
            "luafilesystem",
            "nvim-nio",
            "pathlib.nvim",
            "nvim-nio"
        ]
    );
    let order: Vec<(String, TargetTree)> =
        emitted.iter().map(|(d, t)| (d.spec.name.to_string(), *t)).collect();
    assert_eq!(
        order,
        vec![
            ("luafilesystem".to_string(), TargetTree::Build),
            ("luarocks-build-treesitter-parser".to_string(), TargetTree::Build),
            ("nvim-nio".to_string(), TargetTree::Main),
            ("nvim-nio".to_string(), TargetTree::Main),
            ("pathlib.nvim".to_string(), TargetTree::Main),
            ("neorg".to_string(), TargetTree::Main),
        ]
    );

    let neorg = &emitted[5].0;
    assert_eq!(ids, vec![neorg.spec.id()]);
    assert_eq!(neorg.entry_type, EntryType::Entrypoint);
    assert_eq!(neorg.spec.constraint, Some("==8.8.1".to_string()));
    // The package records its dependencies, not its build dependencies.
    assert_eq!(neorg.spec.dependencies, vec![emitted[2].0.spec.id(), emitted[4].0.spec.id()]);
    assert_eq!(emitted[4].0.spec.dependencies, vec![emitted[3].0.spec.id()]);
    assert_eq!(emitted[4].0.entry_type, EntryType::DependencyOnly);
    // The two requirements on nvim-nio differ, and so do the identifiers.
    assert_ne!(emitted[2].0.spec.id(), emitted[3].0.spec.id());
    // Build dependencies are entrypoints of the build tree; what they depend
    // on lands in the build tree too.
    assert_eq!(emitted[1].0.entry_type, EntryType::Entrypoint);
    assert_eq!(emitted[1].0.spec.dependencies, vec![emitted[0].0.spec.id()]);
    assert_eq!(emitted[0].0.entry_type, EntryType::DependencyOnly);
    assert_eq!(emitted[0].0.downloaded_rock.kind, RockKind::BinaryRock);
}

#[test]
fn resolving_what_is_installed_is_a_no_op() {
    let mut main = empty_lockfile();
    let mut build = empty_lockfile();
    let (emitted, _, _) = run(vec![request("neorg@8.8.1")], &main, &build);
    let installed = |tree: TargetTree| -> Vec<InstalledPackage> {
        emitted
            .iter()
            .filter(|(_, t)| *t == tree)
            .map(|(d, _)| InstalledPackage {
                package: as_local(d),
                entry_type: d.entry_type,
                dependencies: d.spec.dependencies.clone(),
            })
            .collect()
    };
    assert_eq!(main.record_installed(&installed(TargetTree::Main)), Ok(()));
    assert_eq!(build.record_installed(&installed(TargetTree::Build)), Ok(()));
    assert_eq!(main.rocks().len(), 4);
    assert_eq!(build.rocks().len(), 2);
    let neorg = &emitted[5].0;
    assert!(main.is_entrypoint(&neorg.spec.id()));
    assert_eq!(main.get(&neorg.spec.id()).unwrap().dependencies(), &neorg.spec.dependencies);
    assert!(!main.is_entrypoint(&emitted[4].0.spec.id()));
    assert!(build.is_entrypoint(&emitted[1].0.spec.id()));

    let (again, ids, downloads) = run(vec![request("neorg@8.8.1")], &main, &build);
    assert!(again.is_empty());
    assert!(ids.is_empty());
    assert!(downloads.is_empty());

    // A forced build resolves everything again, and keeps entry types.
    let mut forced = request("neorg@8.8.1");
    forced.build_behaviour = BuildBehaviour::Force;
    forced.pin = PinnedState::Pinned;
    forced.opt = OptState::Optional;
    let (again, ids, _) = run(vec![forced], &main, &build);
    assert_eq!(again.len(), 6);
    assert_eq!(ids.len(), 1);
    assert!(again.iter().all(|(d, _)| d.pin == PinnedState::Pinned));
    assert!(again.iter().all(|(d, _)| d.spec.opt == OptState::Optional));
}

#[test]
fn carried_constraint_wins_over_the_requirement() {
    let main = empty_lockfile();
    let build = empty_lockfile();
    let spec = PackageInstallSpec::new(
        PackageReq::parse("nvim-nio == 1.7.0").unwrap(),
        BuildBehaviour::NoForce,
        PinnedState::Unpinned,
        OptState::Required,
        EntryType::DependencyOnly,
        Some(LockConstraint::Constrained(PackageVersionReq::parse(">= 1.7, < 1.8").unwrap())),
    );
    let (emitted, _, _) = run(vec![spec, request("nvim-nio")], &main, &build);
    assert_eq!(emitted.len(), 2);
    assert_eq!(emitted[0].0.spec.constraint, Some(">=1.7, <1.8".to_string()));
    assert_eq!(emitted[0].0.entry_type, EntryType::DependencyOnly);
    assert_eq!(emitted[1].0.spec.constraint, None);
}

#[test]
fn recording_needs_every_dependency() {
    let mut lockfile = empty_lockfile();
    let main = empty_lockfile();
    let build = empty_lockfile();
    let (emitted, _, _) = run(vec![request("pathlib.nvim")], &main, &build);
    let pathlib = &emitted[1].0;
    let alone = vec![InstalledPackage {
        package: as_local(pathlib),
        entry_type: EntryType::Entrypoint,
        dependencies: pathlib.spec.dependencies.clone(),
    }];
    assert_eq!(
        lockfile.record_installed(&alone),
        Err(InstallError::DependencyNotFound {
            package: pathlib.spec.id(),
            dependency: pathlib.spec.dependencies[0].clone(),
        })
    );
    assert!(lockfile.rocks().is_empty());
    // With the dependency in the lockfile it goes through.
    lockfile.add(&as_local(&emitted[0].0));
    assert_eq!(lockfile.record_installed(&alone), Ok(()));
    assert_eq!(
        lockfile.get(&pathlib.spec.id()).unwrap().dependencies(),
        &pathlib.spec.dependencies
    );
    assert!(lockfile.is_dependency(&pathlib.spec.dependencies[0]));
}

#[test]
fn the_dependency_on_lua_itself_is_no_package() {
    let main = empty_lockfile();
    let build = empty_lockfile();
    let (emitted, ids, downloads) = run(vec![request("say")], &main, &build);
    assert_eq!(downloads, vec!["say", "nvim-nio"]);
    let names: Vec<String> = emitted.iter().map(|(d, _)| d.spec.name.to_string()).collect();
    assert_eq!(names, vec!["nvim-nio", "say"]);
    let say = &emitted[1].0;
    assert_eq!(ids, vec![say.spec.id()]);
    assert_eq!(say.spec.dependencies, vec![emitted[0].0.spec.id()]);
    // What was downloaded is handed on as it came.
    assert_eq!(say.downloaded_rock.dependencies.len(), 2);
    assert_eq!(say.downloaded_rock.build_dependencies.len(), 1);
}

#[test]
fn recording_leaves_the_other_packages_as_they_are() {
    let mut lockfile = empty_lockfile();
    let main = empty_lockfile();
    let build = empty_lockfile();
    let held = LocalPackage::from(
        &PackageSpec::parse("busted", "2.2.0-1").unwrap(),
        LockConstraint::Unconstrained,
        vec!["busted".to_string()],
        RemotePackageSource::Local,
        None,
        LocalPackageHashes {
            rockspec: Integrity::of_bytes(b"busted"),
            source: Integrity::of_bytes(b"busted source"),
        },
    );
    lockfile.add_entrypoint(&held);
    let (emitted, _, _) = run(vec![request("pathlib.nvim")], &main, &build);
    let installed: Vec<InstalledPackage> = emitted
        .iter()
        .map(|(data, _)| InstalledPackage {
            package: as_local(data),
            entry_type: data.entry_type,
            dependencies: data.spec.dependencies.clone(),
        })
        .collect();
    assert_eq!(lockfile.record_installed(&installed), Ok(()));
    assert_eq!(lockfile.rocks().len(), 3);
    assert_eq!(lockfile.get(&held.id()), Some(&held));
    let nio = lockfile.get(&emitted[0].0.spec.id()).unwrap();
    assert_eq!(nio, &as_local(&emitted[0].0));
    let pathlib = lockfile.get(&emitted[1].0.spec.id()).unwrap();
    assert_eq!(pathlib.name().to_string(), "pathlib.nvim");
    assert_eq!(pathlib.hashes(), as_local(&emitted[1].0).hashes());
    assert_eq!(pathlib.dependencies(), &vec![emitted[0].0.spec.id()]);
    assert!(lockfile.is_entrypoint(&held.id()));
    assert!(lockfile.is_entrypoint(&emitted[1].0.spec.id()));
    assert!(!lockfile.is_entrypoint(&emitted[0].0.spec.id()));
}

#[test]
fn the_error_names_the_first_dependency_that_is_not_there() {
    let mut lockfile = empty_lockfile();
    let main = empty_lockfile();
    let build = empty_lockfile();
    let (emitted, _, _) = run(vec![request("neorg@8.8.1")], &main, &build);
    // Only the packages of the main tree that depend on others.
    let pathlib = &emitted[4].0;
    let neorg = &emitted[5].0;
    let installed: Vec<InstalledPackage> = [pathlib, neorg]
        .iter()
        .map(|data| InstalledPackage {
            package: as_local(data),
            entry_type: data.entry_type,
            dependencies: data.spec.dependencies.clone(),
        })
        .collect();
    assert_eq!(
        lockfile.record_installed(&installed),
        Err(InstallError::DependencyNotFound {
            package: pathlib.spec.id(),
            dependency: pathlib.spec.dependencies[0].clone(),
        })
    );
    assert!(lockfile.rocks().is_empty());
    let reversed: Vec<InstalledPackage> = [neorg, pathlib]
        .iter()
        .map(|data| InstalledPackage {
            package: as_local(data),
            entry_type: data.entry_type,
            dependencies: data.spec.dependencies.clone(),
        })
        .collect();
    assert_eq!(
        lockfile.record_installed(&reversed),
        Err(InstallError::DependencyNotFound {
            package: neorg.spec.id(),
            dependency: neorg.spec.dependencies[0].clone(),
        })
    );
    // Nothing to record is recorded without more ado.
    assert_eq!(lockfile.record_installed(&Vec::new()), Ok(()));
}
