use lux_lib::config::{LuaVersion, RockLayoutConfig};
use lux_lib::hash::Integrity;
use lux_lib::lockfile::{LocalPackage, LocalPackageHashes, LockConstraint, OptState};
use lux_lib::lux_lock::Lockfile;
use lux_lib::package::{PackageReq, PackageSpec, RemotePackageSource};
use lux_lib::tree::{EntryType, RockLayout, RockMatches, Tree};

fn tree_mock_hashes() -> LocalPackageHashes {
    LocalPackageHashes {
        rockspec: Integrity::parse("sha256-uU0nuZNNPgilLlLX2n2r+sSE7+N6U4DukIj3rOLvzek=").unwrap(),
        source: Integrity::parse("sha256-uU0nuZNNPgilLlLX2n2r+sSE7+N6U4DukIj3rOLvzek=").unwrap(),
    }
}

fn tree_package(name: &str, version: &str) -> LocalPackage {
    LocalPackage::from(
        &PackageSpec::parse(name, version).unwrap(),
        LockConstraint::Unconstrained,
        Vec::new(),
        RemotePackageSource::Local,
        None,
        tree_mock_hashes(),
    )
}

fn join(base: &str, rest: &str) -> String {
    format!("{}/{}", base, rest)
}

#[test]
fn rock_layout() {
    let tree_path = "/tmp/sample-tree".to_string();
    let tree = Tree::new(tree_path.clone(), LuaVersion::Lua51, RockLayoutConfig::default());

    let package = tree_package("neorg", "8.0.0-1");
    let id = package.id().to_string();
    let neorg = tree.dependency_layout(&package);

    assert_eq!(
        neorg,
        RockLayout {
            bin: join(&tree_path, "bin"),
            rock_path: join(&tree_path, &format!("5.1/{id}-neorg@8.0.0-1")),
            etc: join(&tree_path, &format!("5.1/{id}-neorg@8.0.0-1/etc")),
            lib: join(&tree_path, &format!("5.1/{id}-neorg@8.0.0-1/lib")),
            src: join(&tree_path, &format!("5.1/{id}-neorg@8.0.0-1/src")),
            conf: join(&tree_path, &format!("5.1/{id}-neorg@8.0.0-1/etc/conf")),
            doc: join(&tree_path, &format!("5.1/{id}-neorg@8.0.0-1/etc/doc")),
        }
    );

    let package = tree_package("lua-cjson", "2.1.0-1");
    let id = package.id().to_string();
    let lua_cjson = tree.dependency_layout(&package);

    assert_eq!(
        lua_cjson,
        RockLayout {
            bin: join(&tree_path, "bin"),
            rock_path: join(&tree_path, &format!("5.1/{id}-lua-cjson@2.1.0-1")),
            etc: join(&tree_path, &format!("5.1/{id}-lua-cjson@2.1.0-1/etc")),
            lib: join(&tree_path, &format!("5.1/{id}-lua-cjson@2.1.0-1/lib")),
            src: join(&tree_path, &format!("5.1/{id}-lua-cjson@2.1.0-1/src")),
            conf: join(&tree_path, &format!("5.1/{id}-lua-cjson@2.1.0-1/etc/conf")),
            doc: join(&tree_path, &format!("5.1/{id}-lua-cjson@2.1.0-1/etc/doc")),
        }
    );
}

#[test]
fn rock_layout_substitute() {
    let tree = Tree::new(
        "/tmp/sample-tree".to_string(),
        LuaVersion::Lua51,
        RockLayoutConfig::default(),
    );
    let neorg = tree.dependency_layout(&tree_package("neorg", "8.0.0-1-1"));
    let build_variables = vec![
        "$(PREFIX)",
        "$(LIBDIR)",
        "$(LUADIR)",
        "$(BINDIR)",
        "$(CONFDIR)",
        "$(DOCDIR)",
        "$(UNRECOGNISED)",
    ];
    let result: Vec<String> =
        build_variables.into_iter().map(|var| neorg.substitute_variables(var)).collect();
    assert_eq!(
        result,
        vec![
            neorg.rock_path.clone(),
            neorg.lib.clone(),
            neorg.src.clone(),
            neorg.bin.clone(),
            neorg.conf.clone(),
            neorg.doc.clone(),
            "$(UNRECOGNISED)".to_string(),
        ]
    );
}

#[test]
fn substitution_rewrites_every_known_reference_and_nothing_else() {
    let tree =
        Tree::new("/t".to_string(), LuaVersion::Lua54, RockLayoutConfig::default());
    let layout = tree.dependency_layout(&tree_package("say", "1.3-1"));
    assert_eq!(
        layout.substitute_variables("-L$(LIBDIR) -I$(FOO) $(BINDIR)$(BINDIR) $ ( $(open"),
        format!("-L{} -I$(FOO) /t/bin/t/bin $ ( $(open", layout.lib)
    );
    assert_eq!(layout.substitute_variables(""), "");
    assert_eq!(layout.rockspec_path(), format!("{}/package.rockspec", layout.rock_path));
}

#[test]
fn tree_paths() {
    let tree =
        Tree::new("/home/u/.lux".to_string(), LuaVersion::LuaJIT, RockLayoutConfig::default());
    assert_eq!(tree.root(), "/home/u/.lux/jit");
    assert_eq!(tree.bin(), "/home/u/.lux/bin");
    assert_eq!(tree.unwrapped_bin(), "/home/u/.lux/bin/unwrapped");
    assert_eq!(tree.lockfile_path(), "/home/u/.lux/jit/lux.lock");
    assert_eq!(*tree.version(), LuaVersion::LuaJIT);
    let package = tree_package("say", "1.3-1");
    assert_eq!(
        tree.root_for(&package),
        format!("/home/u/.lux/jit/{}-say@1.3-1", package.id().to_string())
    );
}

#[test]
fn shared_etc_layout_keys_the_directory_by_package_name() {
    let config = RockLayoutConfig {
        etc_root: Some("site/pack/lux".to_string()),
        etc: "start".to_string(),
        opt_etc: "opt".to_string(),
        conf: "conf".to_string(),
        doc: "doc".to_string(),
    };
    let tree = Tree::new("/t".to_string(), LuaVersion::Lua51, config);
    let mut package = tree_package("neorg", "8.0.0-1");
    let layout = tree.entrypoint_layout(&package);
    assert_eq!(layout.etc, "/t/5.1/site/pack/lux/start/neorg");
    assert_eq!(layout.conf, "/t/5.1/site/pack/lux/start/neorg/conf");
    assert_eq!(layout.lib, format!("{}/lib", layout.rock_path));
    package.spec.opt = OptState::Optional;
    let layout = tree.entrypoint_layout(&package);
    assert_eq!(layout.etc, "/t/5.1/site/pack/lux/opt/neorg");
    let layout = tree.dependency_layout(&package);
    assert_eq!(layout.etc, format!("{}/etc", layout.rock_path));
}

#[test]
fn match_rocks_finds_none_one_or_many() {
    let tree = Tree::new("/t".to_string(), LuaVersion::Lua51, RockLayoutConfig::default());
    let mut lockfile =
        Lockfile::empty("/t/5.1/lux.lock".to_string(), RockLayoutConfig::default())
            .into_temporary();
    let old = tree_package("say", "1.2-1");
    let new = tree_package("say", "1.3-1");
    let other = tree_package("busted", "2.0.0-1");
    lockfile.add_entrypoint(&old);
    lockfile.add(&new);
    lockfile.add(&other);

    let none = tree.match_rocks(&lockfile, &PackageReq::parse("luassert").unwrap());
    assert!(!none.is_found());
    assert_eq!(none, RockMatches::NotFound(PackageReq::parse("luassert").unwrap()));

    let single = tree.match_rocks(&lockfile, &PackageReq::parse("say >= 1.3").unwrap());
    assert!(single.is_found());
    assert_eq!(single, RockMatches::Single(new.id()));

    let many = tree.match_rocks(&lockfile, &PackageReq::parse("say").unwrap());
    assert!(many.is_found());
    let mut expected = vec![old.id(), new.id()];
    expected.sort_by(|a, b| b.to_string().cmp(&a.to_string()));
    assert_eq!(many, RockMatches::Many(expected.clone()));
    assert_eq!(
        lockfile.has_rock(&PackageReq::parse("say").unwrap(), None).unwrap().id(),
        expected[0]
    );

    assert_eq!(
        tree.installed_rock_layout(&lockfile, &old),
        tree.entrypoint_layout(&old)
    );
    assert_eq!(
        tree.installed_rock_layout(&lockfile, &new),
        tree.dependency_layout(&new)
    );
    assert_ne!(EntryType::Entrypoint, EntryType::DependencyOnly);
}

#[test]
fn the_package_to_pin_is_the_one_with_the_other_pinned_state() {
    let tree = Tree::new("/tree".to_string(), LuaVersion::Lua51, RockLayoutConfig::default());
    let mut lockfile =
        Lockfile::empty(tree.lockfile_path(), RockLayoutConfig::default()).into_temporary();
    let say = tree_package("say", "1.4.1-3");
    let old_say = tree_package("say", "1.3-1");
    let mut pinned_say = tree_package("say", "1.4.1-3");
    pinned_say.spec.pinned = lux_lib::lockfile::PinnedState::Pinned;
    lockfile.add_entrypoint(&say);
    lockfile.add_entrypoint(&old_say);
    lockfile.add_entrypoint(&pinned_say);
    assert_ne!(say.id(), pinned_say.id());

    let spec = PackageSpec::parse("say", "1.4.1-3").unwrap();
    assert_eq!(
        tree.pin_target(&lockfile, &spec, lux_lib::lockfile::PinnedState::Pinned),
        Ok(say.id())
    );
    assert_eq!(
        tree.pin_target(&lockfile, &spec, lux_lib::lockfile::PinnedState::Unpinned),
        Ok(pinned_say.id())
    );
    let none = PackageSpec::parse("busted", "2.2.0-1").unwrap();
    assert_eq!(
        tree.pin_target(&lockfile, &none, lux_lib::lockfile::PinnedState::Pinned),
        Err(lux_lib::tree::ChangePinError::NotFound(PackageSpec::parse("busted", "2.2.0-1").unwrap()))
    );
    let old = PackageSpec::parse("say", "1.3-1").unwrap();
    assert!(matches!(
        tree.pin_target(&lockfile, &old, lux_lib::lockfile::PinnedState::Unpinned),
        Err(lux_lib::tree::ChangePinError::NotFound(_))
    ));

    let any = PackageReq::parse("say").unwrap();
    let unpinned = tree.match_rocks_and(
        &lockfile,
        &any,
        lux_lib::query::RockFilter::PinnedOtherThan(lux_lib::lockfile::PinnedState::Pinned),
    );
    match unpinned {
        RockMatches::Many(ids) => {
            assert_eq!(ids.len(), 2);
            assert!(ids.contains(&say.id()) && ids.contains(&old_say.id()));
        }
        other => panic!("unexpected {other:?}"),
    }
    assert_eq!(
        tree.match_rocks_and(&lockfile, &any, lux_lib::query::RockFilter::Any),
        tree.match_rocks(&lockfile, &any)
    );
}
