use lux_lib::config::{LuaVersion, RockLayoutConfig};
use lux_lib::hash::Integrity;
use lux_lib::lock::LocalPackageLock;
use lux_lib::lockfile::{LocalPackage, LocalPackageHashes, LockConstraint};
use lux_lib::lux_lock::Lockfile;
use lux_lib::package::{
    PackageName, PackageReq, PackageReqParseError, PackageSpec, RemotePackageSource,
    RemotePackageType, RemotePackageTypeFilterSpec,
};
use lux_lib::path::Paths;
use lux_lib::tree::Tree;
use lux_lib::version::PackageVersion;
use lux_lib::version_req::PackageVersionReq;

#[test]
fn package_names_do_not_tell_upper_from_lower_case() {
    assert_eq!(PackageName::new("Lua-CJSON"), PackageName::new("lua-cjson"));
    assert_eq!(PackageName::new("LuaFileSystem").to_string(), "luafilesystem");
    assert_ne!(PackageName::new("say"), PackageName::new("busted"));
}

#[test]
fn requirements_are_a_name_and_what_follows_it() {
    let pinned = PackageReq::parse("neorg@8.8.1-1").unwrap();
    assert_eq!(pinned.name().to_string(), "neorg");
    assert!(pinned.matches(&PackageName::new("neorg"), &PackageVersion::parse("8.8.1-1").unwrap()));
    assert!(!pinned.matches(&PackageName::new("neorg"), &PackageVersion::parse("8.8.2-1").unwrap()));
    assert!(!pinned.matches(&PackageName::new("norg"), &PackageVersion::parse("8.8.1-1").unwrap()));

    let ranged = PackageReq::parse("Say >= 1.3").unwrap();
    assert_eq!(ranged.name().to_string(), "say");
    assert_eq!(ranged.version_req(), &PackageVersionReq::parse(">= 1.3").unwrap());

    let free = PackageReq::parse("plenary.nvim").unwrap();
    assert_eq!(free.name().to_string(), "plenary.nvim");
    assert!(free.version_req().is_any());
    assert_eq!(free, PackageReq::new("plenary.nvim", None));

    assert_eq!(PackageReq::new("say", Some(">= 1.3")), ranged);
}

#[test]
fn a_requirement_without_a_name_is_refused() {
    assert_eq!(
        PackageReq::parse(">= 1.0"),
        Err(PackageReqParseError::InvalidDependencyName(">= 1.0".to_string()))
    );
    assert_eq!(
        PackageReq::parse(""),
        Err(PackageReqParseError::InvalidDependencyName(String::new()))
    );
}

#[test]
fn filters_let_kinds_of_sources_through() {
    let only_binary = RemotePackageTypeFilterSpec { rockspec: false, src: false, binary: true };
    assert!(only_binary.includes(RemotePackageType::Binary));
    assert!(!only_binary.includes(RemotePackageType::Src));
    assert!(!only_binary.includes(RemotePackageType::Rockspec));
    let url = "https://luarocks.org".to_string();
    assert!(RemotePackageSource::LuarocksBinaryRock(url.clone()).passes_filter(&only_binary));
    assert!(!RemotePackageSource::LuarocksSrcRock(url.clone()).passes_filter(&only_binary));
    assert!(!RemotePackageSource::LuarocksRockspec(url).passes_filter(&only_binary));
    assert!(RemotePackageSource::RockspecContent("x".to_string()).passes_filter(&only_binary));
    assert!(RemotePackageSource::Local.passes_filter(&only_binary));
    let all = RemotePackageTypeFilterSpec::default();
    assert!(all.rockspec && all.src && all.binary);
    assert!(RemotePackageType::Rockspec.priority() < RemotePackageType::Src.priority());
    assert!(RemotePackageType::Src.priority() < RemotePackageType::Binary.priority());
}

fn package(name: &str, version: &str) -> LocalPackage {
    LocalPackage::from(
        &PackageSpec::parse(name, version).unwrap(),
        LockConstraint::Unconstrained,
        Vec::new(),
        RemotePackageSource::LuarocksRockspec("https://luarocks.org/".to_string()),
        None,
        LocalPackageHashes {
            rockspec: Integrity::of_bytes(b"rockspec"),
            source: Integrity::of_bytes(b"source"),
        },
    )
}

#[test]
fn search_paths_follow_the_lockfile() {
    let tree = Tree::new("/tree".to_string(), LuaVersion::Lua51, RockLayoutConfig::default());
    let mut lockfile =
        Lockfile::empty(tree.lockfile_path(), RockLayoutConfig::default()).into_temporary();
    let say = package("say", "1.4.1-3");
    let busted = package("busted", "2.2.0-1");
    lockfile.add_entrypoint(&say);
    lockfile.add_entrypoint(&busted);

    let paths = Paths::new(&tree, &lockfile, "so", None);
    let mut src = Vec::new();
    let mut lib = Vec::new();
    for entry in lockfile.rocks() {
        let layout = tree.installed_rock_layout(&lockfile, &entry.package);
        src.push(format!("{}/?.lua", layout.src));
        src.push(format!("{}/?/init.lua", layout.src));
        lib.push(format!("{}/?.so", layout.lib));
    }
    assert_eq!(src.len(), 4);
    assert_eq!(paths.package_path().paths(), &src);
    assert_eq!(paths.package_cpath().paths(), &lib);
    assert_eq!(paths.package_path().joined(), src.join(";"));
    assert_eq!(paths.path().joined(), Some("/tree/bin".to_string()));

    let with_loader = Paths::new(&tree, &lockfile, "so", Some("/opt/lux/5.1"));
    assert_eq!(with_loader.package_cpath().paths()[0], "/opt/lux/5.1/.so");
    assert_eq!(with_loader.package_cpath().paths().len(), 3);
}

#[test]
fn search_paths_come_before_those_of_the_environment() {
    let tree = Tree::new("/tree".to_string(), LuaVersion::Lua54, RockLayoutConfig::default());
    let mut lockfile =
        Lockfile::empty(tree.lockfile_path(), RockLayoutConfig::default()).into_temporary();
    let say = package("say", "1.4.1-3");
    lockfile.add_entrypoint(&say);
    let paths = Paths::new(&tree, &lockfile, "dylib", None);
    let src = tree.installed_rock_layout(&lockfile, &say).src;
    let lib = tree.installed_rock_layout(&lockfile, &say).lib;

    assert_eq!(
        paths.package_path_prepended("/usr/share/lua/?.lua;;").joined(),
        format!("{src}/?.lua;{src}/?/init.lua;/usr/share/lua/?.lua")
    );
    assert_eq!(
        paths.package_cpath_prepended(&format!("{lib}/?.dylib;/usr/lib/lua/?.so")).joined(),
        format!("{lib}/?.dylib;/usr/lib/lua/?.so")
    );
    assert_eq!(
        paths.path_prepended("/usr/bin:/bin").joined(),
        Some("/tree/bin:/usr/bin:/bin".to_string())
    );
    assert_eq!(
        paths.package_path_prepended("").paths(),
        &vec![format!("{src}/?.lua"), format!("{src}/?/init.lua"), String::new()]
    );
    assert_eq!(
        paths.init(),
        "if _VERSION:find('5.4') then require('lux').loader() end"
    );
}

#[test]
fn lua_is_run_with_the_search_paths_of_the_trees() {
    let tree = Tree::new("/tree".to_string(), LuaVersion::Lua51, RockLayoutConfig::default());
    let mut lockfile =
        Lockfile::empty(tree.lockfile_path(), RockLayoutConfig::default()).into_temporary();
    let say = package("say", "1.4.1-3");
    lockfile.add_entrypoint(&say);
    let build_tree =
        Tree::new("/tree/5.1/build".to_string(), LuaVersion::Lua51, RockLayoutConfig::default());
    let mut build_lockfile =
        Lockfile::empty(build_tree.lockfile_path(), RockLayoutConfig::default()).into_temporary();
    let tool = package("luarocks-build-rust-mlua", "0.2.3-1");
    build_lockfile.add_entrypoint(&tool);

    let say_layout = tree.installed_rock_layout(&lockfile, &say);
    let tool_layout = build_tree.installed_rock_layout(&build_lockfile, &tool);
    let build_paths = Paths::new(&build_tree, &build_lockfile, "so", None);
    let paths = lux_lib::run::run_paths(
        Paths::new(&tree, &lockfile, "so", None),
        None,
        Some(&build_paths),
    );
    let env = lux_lib::run::lua_environment(&paths, "/usr/bin:/tree/bin:/bin").unwrap();
    let expected = vec![
        lux_lib::variables::Variable::new(
            "PATH",
            "/tree/5.1/build/bin:/tree/bin:/usr/bin:/bin",
        ),
        lux_lib::variables::Variable::new(
            "LUA_PATH",
            &format!(
                "{0}/?.lua;{0}/?/init.lua;{1}/?.lua;{1}/?/init.lua",
                tool_layout.src, say_layout.src
            ),
        ),
        lux_lib::variables::Variable::new(
            "LUA_CPATH",
            &format!("{}/?.so;{}/?.so", tool_layout.lib, say_layout.lib),
        ),
    ];
    assert_eq!(env, expected);

    let alone = lux_lib::run::run_paths(Paths::new(&tree, &lockfile, "so", None), None, None);
    assert_eq!(alone, Paths::new(&tree, &lockfile, "so", None));

    let odd_tree = Tree::new("/odd:tree".to_string(), LuaVersion::Lua51, RockLayoutConfig::default());
    let odd = Paths::new(&odd_tree, &lockfile, "so", None);
    assert!(matches!(
        lux_lib::run::lua_environment(&odd, "/usr/bin"),
        Err(lux_lib::run::RunLuaError::Paths(_))
    ));
}

#[test]
fn the_end_of_a_run_of_lua() {
    assert_eq!(lux_lib::run::check_lua_exit("lua", true, Some(0)), Ok(()));
    assert_eq!(
        lux_lib::run::check_lua_exit("/usr/bin/lua", false, Some(1)),
        Err(lux_lib::run::RunLuaError::LuaCommandNonZeroExitCode {
            lua_cmd: "/usr/bin/lua".to_string(),
            exit_code: Some(1),
        })
    );
    assert_eq!(
        lux_lib::run::check_lua_exit("lua", false, None),
        Err(lux_lib::run::RunLuaError::LuaCommandNonZeroExitCode {
            lua_cmd: "lua".to_string(),
            exit_code: None,
        })
    );
}

#[test]
fn a_lock_taken_apart_and_put_together_is_the_same_lock() {
    let mut lock = LocalPackageLock::default();
    let say = package("say", "1.4.1-3");
    let busted = package("busted", "2.2.0-1");
    let luassert = package("luassert", "1.9.0-1");
    lock.add_entrypoint(&busted);
    lock.add_dependency(&busted, &luassert);
    lock.add_dependency(&luassert, &say);
    lock.add_entrypoint(&say);

    let again = LocalPackageLock::from_entries(lock.rocks(), lock.entrypoints().clone()).unwrap();
    assert_eq!(again, lock);
    assert_eq!(again.rocks(), lock.rocks());
    assert_eq!(again.entrypoints(), &vec![busted.id(), say.id()]);

    let mut reversed: Vec<_> = lock.rocks().iter().cloned().collect();
    reversed.reverse();
    let sorted = LocalPackageLock::from_entries(&reversed, Vec::new()).unwrap();
    assert_eq!(sorted.rocks(), lock.rocks());
}

#[test]
fn locks_that_the_library_makes_are_well_formed() {
    let mut lock = LocalPackageLock::default();
    assert!(lock.is_well_formed());
    let say = package("say", "1.4.1-3");
    let busted = package("busted", "2.2.0-1");
    lock.add_entrypoint(&busted);
    lock.add_dependency(&busted, &say);
    assert!(lock.is_well_formed());
    lock.remove(&busted);
    assert!(lock.is_well_formed());
    assert!(!lock.is_entrypoint(&busted.id()));
    assert_eq!(lock.len(), 1);
}
