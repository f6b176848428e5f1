use lux_lib::config::RockLayoutConfig;
use lux_lib::hash::Integrity;
use lux_lib::lock::{LocalPackageLock, LockEntry};
use lux_lib::lockfile::{
    LocalPackage, LocalPackageHashes, LocalPackageId, LockConstraint, LuaDependencySpec, OptState,
    PinnedState,
};
use lux_lib::lux_lock::{
    LocalPackageLockType, Lockfile, LockfileError, ProjectLockfile, ReadWrite,
};
use lux_lib::package::{
    PackageName, PackageReq, PackageSpec, RemotePackageSource, RemotePackageTypeFilterSpec,
};
use lux_lib::query::LockfileIntegrityError;
use lux_lib::version::PackageVersion;
use lux_lib::version_req::PackageVersionReq;
use sha2::Digest;

fn mock_hashes() -> LocalPackageHashes {
    LocalPackageHashes {
        rockspec: Integrity::parse("sha256-uU0nuZNNPgilLlLX2n2r+sSE7+N6U4DukIj3rOLvzek=").unwrap(),
        source: Integrity::parse("sha256-uU0nuZNNPgilLlLX2n2r+sSE7+N6U4DukIj3rOLvzek=").unwrap(),
    }
}

fn locked(req: &str, version: &str) -> LocalPackage {
    let req = PackageReq::parse(req).unwrap();
    LocalPackage::from(
        &PackageSpec::new(req.name().clone(), PackageVersion::parse(version).unwrap()),
        LockConstraint::from_req(req.version_req().clone()),
        Vec::new(),
        RemotePackageSource::LuarocksRockspec("https://luarocks.org/".to_string()),
        None,
        mock_hashes(),
    )
}

fn dep(text: &str) -> LuaDependencySpec {
    LuaDependencySpec::from_req(PackageReq::parse(text).unwrap())
}

/// A tree with `neorg` and `lua-cjson` as entrypoints; `neorg` brings five
/// packages, one of which depends on another.
fn get_test_lockfile() -> Lockfile<ReadWrite> {
    let mut lockfile =
        Lockfile::empty("/tree/5.1/lux.lock".to_string(), RockLayoutConfig::default())
            .into_temporary();
    let neorg = locked("neorg@8.8.1-1", "8.8.1-1");
    let cjson = locked("lua-cjson@2.1.0", "2.1.0-1");
    let nio = locked("nvim-nio >=1.7.0, <1.8.0", "1.7.0-1");
    let utils = locked("lua-utils.nvim == 1.0.2", "1.0.2-1");
    let plenary = locked("plenary.nvim == 0.1.4", "0.1.4-1");
    let nui = locked("nui.nvim == 0.3.0", "0.3.0-1");
    let pathlib = locked("pathlib.nvim ~> 2.2", "2.2.3-1");
    lockfile.add_entrypoint(&neorg);
    lockfile.add_entrypoint(&cjson);
    lockfile.add_dependency(&neorg, &nio);
    lockfile.add_dependency(&neorg, &utils);
    lockfile.add_dependency(&neorg, &plenary);
    lockfile.add_dependency(&neorg, &nui);
    lockfile.add_dependency(&neorg, &pathlib);
    lockfile.add_dependency(&pathlib, &nio);
    lockfile
}

fn constrained(text: &str) -> LockConstraint {
    LockConstraint::Constrained(PackageVersionReq::parse(text).unwrap())
}

#[test]
fn test_sync_spec() {
    let lockfile = get_test_lockfile();
    let packages = vec![dep("neorg@8.8.1-1"), dep("lua-cjson@2.1.0"), dep("nonexistent")];

    let sync_spec = lockfile.local_pkg_lock().package_sync_spec(&packages);

    assert_eq!(sync_spec.to_add.len(), 1);

    // Should keep dependencies of neorg 8.8.1-1
    assert!(!sync_spec.to_remove.iter().any(|pkg| pkg.name().to_string() == "nvim-nio"
        && pkg.constraint() == constrained(">=1.7.0, <1.8.0")));
    assert!(!sync_spec.to_remove.iter().any(|pkg| pkg.name().to_string() == "lua-utils.nvim"
        && pkg.constraint() == constrained("=1.0.2")));
    assert!(!sync_spec.to_remove.iter().any(|pkg| pkg.name().to_string() == "plenary.nvim"
        && pkg.constraint() == constrained("=0.1.4")));
    assert!(!sync_spec.to_remove.iter().any(|pkg| pkg.name().to_string() == "nui.nvim"
        && pkg.constraint() == constrained("=0.3.0")));
    assert!(!sync_spec.to_remove.iter().any(|pkg| pkg.name().to_string() == "pathlib.nvim"
        && pkg.constraint() == constrained(">=2.2.0, <2.3.0")));
    assert!(sync_spec.to_remove.is_empty());
    assert_eq!(sync_spec.to_add[0].name().to_string(), "nonexistent");
}

#[test]
fn test_sync_spec_remove() {
    let lockfile = get_test_lockfile();
    let packages = vec![dep("lua-cjson@2.1.0"), dep("nonexistent")];

    let sync_spec = lockfile.local_pkg_lock().package_sync_spec(&packages);

    assert_eq!(sync_spec.to_add.len(), 1);

    // Should remove:
    // - neorg
    // - dependencies unique to neorg
    assert!(sync_spec.to_remove.iter().any(|pkg| pkg.name().to_string() == "neorg"
        && pkg.version() == &PackageVersion::parse("8.8.1-1").unwrap()));
    assert!(sync_spec.to_remove.iter().any(|pkg| pkg.name().to_string() == "nvim-nio"
        && pkg.constraint() == constrained(">=1.7.0, <1.8.0")));
    assert!(sync_spec.to_remove.iter().any(|pkg| pkg.name().to_string() == "lua-utils.nvim"
        && pkg.constraint() == constrained("=1.0.2")));
    assert!(sync_spec.to_remove.iter().any(|pkg| pkg.name().to_string() == "plenary.nvim"
        && pkg.constraint() == constrained("=0.1.4")));
    assert!(sync_spec.to_remove.iter().any(|pkg| pkg.name().to_string() == "nui.nvim"
        && pkg.constraint() == constrained("=0.3.0")));
    assert!(sync_spec.to_remove.iter().any(|pkg| pkg.name().to_string() == "pathlib.nvim"
        && pkg.constraint() == constrained(">=2.2.0, <2.3.0")));
    assert_eq!(sync_spec.to_remove.len(), 6);
    assert!(!sync_spec.to_remove.iter().any(|pkg| pkg.name().to_string() == "lua-cjson"));
}

#[test]
fn test_sync_spec_empty() {
    let lockfile = get_test_lockfile();
    let packages = vec![];
    let sync_spec = lockfile.local_pkg_lock().package_sync_spec(&packages);

    // Should remove all packages
    assert!(sync_spec.to_add.is_empty());
    assert_eq!(sync_spec.to_remove.len(), lockfile.rocks().len());
    assert_eq!(sync_spec.to_remove.len(), 7);
}

#[test]
fn test_sync_spec_different_constraints() {
    let lockfile = get_test_lockfile();
    let packages = vec![dep("nvim-nio>=2.0.0")];
    let sync_spec = lockfile.local_pkg_lock().package_sync_spec(&packages);

    let expected = PackageVersionReq::parse(">=2.0.0").unwrap();
    assert!(sync_spec
        .to_add
        .iter()
        .any(|req| req.name().to_string() == "nvim-nio" && req.version_req() == &expected));

    assert!(sync_spec.to_remove.iter().any(|pkg| pkg.name().to_string() == "nvim-nio"));
}

#[test]
fn sync_is_a_no_op_when_everything_declared_is_installed() {
    let lockfile = get_test_lockfile();
    let packages = vec![dep("neorg@8.8.1-1"), dep("lua-cjson == 2.1.0")];
    let sync_spec = lockfile.local_pkg_lock().package_sync_spec(&packages);
    assert!(sync_spec.to_add.is_empty());
    assert!(sync_spec.to_remove.is_empty());
}

#[test]
fn sync_of_a_project_lockfile_goes_by_the_set_of_dependencies() {
    let body = get_test_lockfile();
    let lockfile = ProjectLockfile::load(
        "/project/lux.lock".to_string(),
        "1.0.0".to_string(),
        body.local_pkg_lock().clone(),
        LocalPackageLock::default(),
        LocalPackageLock::default(),
    );
    let packages = vec![dep("lua-cjson@2.1.0")];
    let regular = lockfile.package_sync_spec(&packages, &LocalPackageLockType::Regular);
    assert_eq!(regular.to_remove.len(), 6);
    assert!(regular.to_add.is_empty());
    let test = lockfile.package_sync_spec(&packages, &LocalPackageLockType::Test);
    assert!(test.to_remove.is_empty());
    assert_eq!(test.to_add.len(), 1);
    let mut writeable = lockfile.into_temporary();
    let cjson = locked("lua-cjson@2.1.0", "2.1.0-1");
    writeable.remove(&cjson, &LocalPackageLockType::Regular);
    assert_eq!(writeable.rocks(&LocalPackageLockType::Regular).len(), 6);
    assert!(!writeable.is_entrypoint(&cjson.id(), &LocalPackageLockType::Regular));
    writeable.sync(&LocalPackageLock::default(), &LocalPackageLockType::Regular);
    assert!(writeable.local_pkg_lock(&LocalPackageLockType::Regular).is_empty());
}

#[test]
fn add_rocks() {
    let mut lockfile =
        Lockfile::empty("/tree/5.1/lux.lock".to_string(), RockLayoutConfig::default())
            .write_guard();
    let lockfile = &mut lockfile.0;

    let test_package = PackageSpec::parse("test1", "0.1.0").unwrap();
    let test_local_package = LocalPackage::from(
        &test_package,
        LockConstraint::Unconstrained,
        Vec::new(),
        RemotePackageSource::Local,
        None,
        mock_hashes(),
    );
    lockfile.add_entrypoint(&test_local_package);

    let test_dep_package = PackageSpec::parse("test2", "0.1.0").unwrap();
    let mut test_local_dep_package = LocalPackage::from(
        &test_dep_package,
        LockConstraint::Constrained(PackageVersionReq::parse(">= 1.0.0").unwrap()),
        Vec::new(),
        RemotePackageSource::Local,
        None,
        mock_hashes(),
    );
    test_local_dep_package.spec.pinned = PinnedState::Pinned;
    lockfile.add_dependency(&test_local_package, &test_local_dep_package);

    assert_eq!(lockfile.version(), "1.0.0");
    assert_eq!(lockfile.rocks().len(), 2);
    assert!(lockfile.is_entrypoint(&test_local_package.id()));
    assert!(!lockfile.is_entrypoint(&test_local_dep_package.id()));
    assert!(lockfile.is_dependency(&test_local_dep_package.id()));
    assert!(!lockfile.is_dependency(&test_local_package.id()));
    let recorded = lockfile.get(&test_local_package.id()).unwrap();
    assert_eq!(recorded.dependencies(), &vec![test_local_dep_package.id()]);
    let recorded = lockfile.get(&test_local_dep_package.id()).unwrap();
    assert_eq!(recorded, &test_local_dep_package);
    assert_eq!(recorded.pinned(), PinnedState::Pinned);
    assert_eq!(recorded.spec.constraint, Some(">=1.0.0".to_string()));
}

#[test]
fn added_package_is_found_and_ids_only_grow() {
    let mut lockfile = get_test_lockfile();
    let before: Vec<LocalPackageId> = lockfile.rocks().iter().map(|e| e.id.clone()).collect();
    let say = locked("say", "1.3-1");
    lockfile.add(&say);
    assert_eq!(lockfile.get(&say.id()), Some(&say));
    for id in &before {
        assert!(lockfile.get(id).is_some());
    }
    // A second package under the same identifier does not replace the first.
    let mut other = locked("say", "1.3-1");
    other.spec.binaries = vec!["say".to_string()];
    assert_eq!(other.id(), say.id());
    lockfile.add(&other);
    assert_eq!(lockfile.get(&say.id()), Some(&say));
    assert_eq!(lockfile.rocks().len(), before.len() + 1);
    // Packages are kept in the order of their identifiers.
    let ids: Vec<String> = lockfile.rocks().iter().map(|e| e.id.to_string()).collect();
    let mut sorted = ids.clone();
    sorted.sort();
    assert_eq!(ids, sorted);
}

#[test]
fn removing_a_package_takes_it_off_the_entrypoints() {
    let mut lockfile = get_test_lockfile();
    let neorg = locked("neorg@8.8.1-1", "8.8.1-1");
    assert!(lockfile.is_entrypoint(&neorg.id()));
    lockfile.remove(&neorg);
    assert!(lockfile.get(&neorg.id()).is_none());
    assert!(!lockfile.is_entrypoint(&neorg.id()));
    assert_eq!(lockfile.rocks().len(), 6);
    let cjson = locked("lua-cjson@2.1.0", "2.1.0-1");
    lockfile.remove_entrypoint(&cjson);
    assert!(!lockfile.is_entrypoint(&cjson.id()));
    assert!(lockfile.get(&cjson.id()).is_some());
    lockfile.remove_by_id(&cjson.id());
    assert!(lockfile.get(&cjson.id()).is_none());
}

#[test]
fn has_rock_takes_the_last_that_answers() {
    let mut lockfile = get_test_lockfile();
    let old = locked("say", "1.2-1");
    let new = locked("say", "1.3-1");
    lockfile.add(&old);
    lockfile.add(&new);
    let found = lockfile.find_rocks(&PackageReq::parse("say").unwrap());
    assert_eq!(found.len(), 2);
    let best = lockfile.has_rock(&PackageReq::parse("say").unwrap(), None).unwrap();
    assert_eq!(best.id(), found[0]);
    assert_eq!(
        lockfile.has_rock(&PackageReq::parse("say >= 1.3").unwrap(), None).unwrap(),
        new
    );
    assert!(lockfile.has_rock(&PackageReq::parse("say >= 2").unwrap(), None).is_none());
    let no_rockspecs = RemotePackageTypeFilterSpec { rockspec: false, src: true, binary: true };
    assert!(lockfile.has_rock(&PackageReq::parse("say").unwrap(), Some(no_rockspecs)).is_none());
    assert_eq!(lockfile.list_named(&PackageName::new("SAY")).len(), 2);
}

#[test]
fn integrity_is_validated_by_name_and_version() {
    let lockfile = get_test_lockfile();
    let cjson = locked("lua-cjson", "2.1.0-1");
    assert_eq!(lockfile.validate_integrity(&cjson), Ok(()));

    let mut other_rockspec = locked("lua-cjson", "2.1.0-1");
    other_rockspec.hashes.rockspec = Integrity::of_bytes(b"something else");
    assert!(matches!(
        lockfile.validate_integrity(&other_rockspec),
        Err(LockfileIntegrityError::RockspecIntegrityMismatch { .. })
    ));

    let mut other_source = locked("lua-cjson", "2.1.0-1");
    other_source.hashes.source = Integrity::of_bytes(b"something else");
    assert_eq!(
        lockfile.validate_integrity(&other_source),
        Err(LockfileIntegrityError::SourceIntegrityMismatch {
            expected: mock_hashes().source,
            got: Integrity::of_bytes(b"something else"),
        })
    );

    let unknown = locked("lua-cjson", "2.2.0-1");
    assert_eq!(
        lockfile.validate_integrity(&unknown),
        Err(LockfileIntegrityError::PackageNotFound(
            PackageName::new("lua-cjson"),
            PackageVersion::parse("2.2.0-1").unwrap(),
            PinnedState::Unpinned,
            "UNCONSTRAINED".to_string(),
        ))
    );
}

#[test]
fn package_id_is_the_sha256_of_the_concatenated_fields() {
    let name = PackageName::new("neorg");
    let version = PackageVersion::parse("8.0.0-1").unwrap();
    let id = LocalPackageId::new(
        &name,
        &version,
        PinnedState::Unpinned,
        OptState::Required,
        LockConstraint::Unconstrained,
    );
    let expected = hex::encode(sha2::Sha256::digest("neorg8.0.0-1falsefalse".as_bytes()));
    assert_eq!(id.to_string(), expected);
    assert_eq!(id.to_string().len(), 64);

    let constrained = LocalPackageId::new(
        &name,
        &version,
        PinnedState::Pinned,
        OptState::Optional,
        LockConstraint::Constrained(PackageVersionReq::parse(">= 8.0.0").unwrap()),
    );
    let expected = hex::encode(sha2::Sha256::digest("neorg8.0.0-1truetrue>=8.0.0".as_bytes()));
    assert_eq!(constrained.to_string(), expected);

    // The same fields give the same identifier; another revision another one.
    let again = LocalPackageId::new(
        &name,
        &version,
        PinnedState::Unpinned,
        OptState::Required,
        LockConstraint::Unconstrained,
    );
    assert_eq!(id, again);
    let other = LocalPackageId::new(
        &name,
        &PackageVersion::parse("8.0.0-2").unwrap(),
        PinnedState::Unpinned,
        OptState::Required,
        LockConstraint::Unconstrained,
    );
    assert_ne!(id, other);
}

#[test]
fn lockfile_of_the_wrong_layout_is_refused() {
    let nvim = RockLayoutConfig {
        etc_root: Some("site/pack/lux".to_string()),
        etc: "start".to_string(),
        opt_etc: "opt".to_string(),
        conf: "conf".to_string(),
        doc: "doc".to_string(),
    };
    let loaded = Lockfile::load(
        "/t/lux.lock".to_string(),
        "1.0.0".to_string(),
        LocalPackageLock::default(),
        RockLayoutConfig::default(),
        Some(&nvim),
    );
    assert_eq!(loaded.err(), Some(LockfileError::MismatchedRockLayout));
    let loaded = Lockfile::load(
        "/t/lux.lock".to_string(),
        "1.0.0".to_string(),
        LocalPackageLock::default(),
        RockLayoutConfig::default(),
        None,
    );
    assert!(loaded.is_ok());
    assert!(RockLayoutConfig::default().is_default());
    assert!(!nvim.is_default());
}

#[test]
fn lock_from_entries_needs_its_entrypoints() {
    let say = locked("say", "1.3-1");
    let entries = vec![LockEntry { id: say.id(), package: say.clone() }];
    let lock = LocalPackageLock::from_entries(&entries, vec![say.id()]).unwrap();
    assert!(lock.is_entrypoint(&say.id()));
    assert_eq!(lock.get(&say.id()), Some(&say));
    let missing = LocalPackageId::from_unchecked("0000".to_string());
    assert!(LocalPackageLock::from_entries(&entries, vec![missing]).is_none());
}

#[test]
fn lock_from_entries_needs_each_package_under_its_own_identifier() {
    let say = locked("say", "1.3-1");
    let busted = locked("busted", "2.2.0-1");
    let swapped = vec![
        LockEntry { id: busted.id(), package: say.clone() },
        LockEntry { id: say.id(), package: busted.clone() },
    ];
    assert!(LocalPackageLock::from_entries(&swapped, Vec::new()).is_none());
    let foreign = vec![LockEntry {
        id: LocalPackageId::from_unchecked("0000".to_string()),
        package: say.clone(),
    }];
    assert!(LocalPackageLock::from_entries(&foreign, Vec::new()).is_none());
    let own = vec![
        LockEntry { id: busted.id(), package: busted.clone() },
        LockEntry { id: say.id(), package: say.clone() },
    ];
    let lock = LocalPackageLock::from_entries(&own, Vec::new()).unwrap();
    assert!(lock.is_well_formed());
    assert_eq!(lock.len(), 2);
}

#[test]
fn pinned_and_opt_states_persist_as_booleans() {
    assert!(!PinnedState::Unpinned.as_bool());
    assert!(PinnedState::Pinned.as_bool());
    assert_eq!(PinnedState::from_bool(true), PinnedState::Pinned);
    assert_eq!(PinnedState::default(), PinnedState::Unpinned);
    assert!(OptState::Optional.as_bool());
    assert_eq!(OptState::from_bool(false), OptState::Required);
    assert_eq!(OptState::default(), OptState::Required);
    assert_eq!(LockConstraint::default(), LockConstraint::Unconstrained);
    assert_eq!(
        LockConstraint::from_req(PackageVersionReq::any()),
        LockConstraint::Unconstrained
    );
    assert_eq!(constrained(">= 1.0").to_string_opt(), Some(">=1.0".to_string()));
    assert_eq!(
        LockConstraint::try_from_text(&Some("==1.0.2".to_string())).unwrap(),
        constrained("=1.0.2")
    );
    assert!(LockConstraint::Unconstrained.matches_version_req(&PackageVersionReq::any()));
    assert!(!constrained("=1.0.2").matches_version_req(&PackageVersionReq::any()));
}
