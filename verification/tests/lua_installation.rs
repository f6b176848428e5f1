use lux_lib::config::LuaVersion;
use lux_lib::lua_installation::{
    default_compile_args, default_link_args, lua_lib_name, parse_lua_version_from_output, pkg_name,
    GetLuaVersionError,
};
use lux_lib::version::PackageVersion;

#[test]
fn parse_luajit_version() {
    let luajit_output =
        "LuaJIT 2.1.1713773202 -- Copyright (C) 2005-2023 Mike Pall. https://luajit.org/";
    parse_lua_version_from_output(luajit_output).unwrap();
}

#[test]
fn parse_lua_51_version() {
    let lua_output = "Lua 5.1.5  Copyright (C) 1994-2012 Lua.org, PUC-Rio";
    parse_lua_version_from_output(lua_output).unwrap();
}

#[test]
fn lua_version_is_the_first_word_behind_the_name() {
    assert_eq!(
        parse_lua_version_from_output("Lua 5.1.5  Copyright (C) 1994-2012 Lua.org, PUC-Rio")
            .unwrap(),
        PackageVersion::parse("5.1.5").unwrap()
    );
    assert_eq!(
        parse_lua_version_from_output("LuaJIT 2.1.1713773202 -- Copyright").unwrap(),
        PackageVersion::parse("2.1.1713773202").unwrap()
    );
    assert_eq!(
        parse_lua_version_from_output("Lua   "),
        Err(GetLuaVersionError::ParseLuaVersionError("Lua   ".to_string()))
    );
    assert!(matches!(
        parse_lua_version_from_output("Lua 5.1-x"),
        Err(GetLuaVersionError::PackageVersionParseError(_))
    ));
}

#[test]
fn compiler_and_linker_arguments_without_pkg_config() {
    assert_eq!(default_compile_args("/lua/include"), vec!["-I/lua/include".to_string()]);
    assert_eq!(
        default_link_args(LuaVersion::Lua54, "/lua/lib"),
        vec!["-L/lua/lib".to_string(), "-llua".to_string()]
    );
    assert_eq!(
        default_link_args(LuaVersion::LuaJIT, "/lua/lib"),
        vec!["-L/lua/lib".to_string(), "-lluajit-5.1".to_string()]
    );
    assert_eq!(lua_lib_name(LuaVersion::LuaJIT52, "so"), "luajit-5.2.so");
    assert_eq!(lua_lib_name(LuaVersion::Lua51, "dylib"), "lua.dylib");
    assert_eq!(pkg_name(LuaVersion::Lua53), "lua5.3");
    assert_eq!(LuaVersion::LuaJIT.version_compatibility_str(), "5.1");
    assert_eq!(LuaVersion::LuaJIT52.to_string(), "jit5.2");
}

#[test]
fn lua_versions_by_name_and_by_release() {
    use_version("5.1", Some(lux_lib::config::LuaVersion::Lua51));
    use_version("5.4", Some(lux_lib::config::LuaVersion::Lua54));
    use_version("jit", Some(lux_lib::config::LuaVersion::LuaJIT));
    use_version("jit5.2", Some(lux_lib::config::LuaVersion::LuaJIT52));
    use_version("5.5", None);
    use_version("", None);
    use_version("Jit", None);

    let release = |text: &str| {
        lux_lib::lua_installation::lua_version_of(
            &lux_lib::version::PackageVersion::parse(text).unwrap(),
        )
    };
    assert_eq!(release("5.1.5"), Some(lux_lib::config::LuaVersion::Lua51));
    assert_eq!(release("5.2"), Some(lux_lib::config::LuaVersion::Lua52));
    assert_eq!(release("5.3.6-1"), Some(lux_lib::config::LuaVersion::Lua53));
    assert_eq!(release("5.4.7"), Some(lux_lib::config::LuaVersion::Lua54));
    assert_eq!(release("2.1.1713773202"), Some(lux_lib::config::LuaVersion::LuaJIT));
    assert_eq!(release("5.5.0"), None);
    assert_eq!(release("5.0.3"), None);
    assert_eq!(release("5.4.0.1"), None);
    assert_eq!(release("scm"), None);
}

fn words(items: &[&str]) -> Vec<String> {
    items.iter().map(|s| s.to_string()).collect()
}

#[test]
fn installation_that_pkg_config_knows() {
    let info = lux_lib::lua_installation::LibInfo {
        include_paths: words(&["/usr/include/lua5.1", "/usr/include"]),
        link_paths: words(&["/usr/lib/x86_64-linux-gnu"]),
        defines: vec![
            lux_lib::lua_installation::Define {
                name: "LUA_COMPAT".to_string(),
                value: Some("1".to_string()),
            },
            lux_lib::lua_installation::Define { name: "NDEBUG".to_string(), value: None },
        ],
        libs: words(&["lua5.1", "m"]),
        ld_args: vec![words(&["-rpath", "/usr/lib"]), words(&["--as-needed"])],
    };
    let lua = lux_lib::lua_installation::LuaInstallation::located(
        lux_lib::config::LuaVersion::Lua51,
        Some(info),
        "/home/user/.lux/lua/5.1",
    );
    assert_eq!(lua.include_dir, "/usr/include/lua5.1");
    assert_eq!(lua.lib_dir, "/usr/lib/x86_64-linux-gnu");
    assert_eq!(lua.bin, None);
    assert!(lua.lib_info.is_some());
    assert_eq!(
        lua.compile_args(),
        words(&["-I/usr/include/lua5.1", "-I/usr/include", "-DLUA_COMPAT=1", "-DNDEBUG"])
    );
    assert_eq!(
        lua.link_args(),
        words(&[
            "-L/usr/lib/x86_64-linux-gnu",
            "-llua5.1",
            "-lm",
            "-Wl,-rpath -Wl,/usr/lib",
            "-Wl,--as-needed",
        ])
    );
}

#[test]
fn installation_that_pkg_config_does_not_know() {
    let half = lux_lib::lua_installation::LibInfo {
        include_paths: words(&["/usr/include/luajit"]),
        link_paths: Vec::new(),
        defines: Vec::new(),
        libs: words(&["luajit-5.1"]),
        ld_args: Vec::new(),
    };
    for info in [None, Some(half)] {
        let mut lua = lux_lib::lua_installation::LuaInstallation::located(
            lux_lib::config::LuaVersion::LuaJIT,
            info,
            "/home/user/.lux/lua/jit",
        );
        assert_eq!(lua.include_dir, "/home/user/.lux/lua/jit/include");
        assert_eq!(lua.lib_dir, "/home/user/.lux/lua/jit/lib");
        assert_eq!(lua.lib_info, None);
        assert_eq!(lua.compile_args(), words(&["-I/home/user/.lux/lua/jit/include"]));
        assert_eq!(lua.link_args(), words(&["-L/home/user/.lux/lua/jit/lib", "-lluajit-5.1"]));
        assert_eq!(lua.lua_binary(None), None);
        assert_eq!(lua.lua_binary(Some("/opt/lua")), Some("/opt/lua".to_string()));
        lua.bin = Some("/home/user/.lux/lua/jit/bin/luajit".to_string());
        assert_eq!(lua.lua_binary(None), Some("/home/user/.lux/lua/jit/bin/luajit".to_string()));
        assert_eq!(lua.lua_binary(Some("/opt/lua")), Some("/opt/lua".to_string()));
    }
    assert!(lux_lib::lua_installation::is_lua_executable_name("lua"));
    assert!(lux_lib::lua_installation::is_lua_executable_name("luajit"));
    assert!(!lux_lib::lua_installation::is_lua_executable_name("lua5.1"));
    assert!(!lux_lib::lua_installation::is_lua_executable_name("luac"));
}

fn use_version(text: &str, expected: Option<lux_lib::config::LuaVersion>) {
    assert_eq!(lux_lib::config::LuaVersion::from_text(text), expected);
    if let Some(version) = expected {
        assert_eq!(version.to_string(), text);
    }
}
