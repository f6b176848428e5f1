use lux_lib::building::{
    check_make_exit, dependencies_to_install, MakeBuildSpec, MakeError, MakeStep,
    ProjectDependency,
};
use lux_lib::builtin::{
    is_lua_module_file, lua_module_path, module_target, BuiltinBuildSpec, Module, ModuleType,
};
use lux_lib::config::RockLayoutConfig;
use lux_lib::hash::Integrity;
use lux_lib::install_spec::BuildBehaviour;
use lux_lib::lockfile::{
    LocalPackage, LocalPackageHashes, LockConstraint, LuaDependencySpec, OptState, PinnedState,
};
use lux_lib::lux_lock::Lockfile;
use lux_lib::merge::{merge_strings, CMakeBuildSpec, Merge};
use lux_lib::package::{PackageReq, PackageSpec, RemotePackageSource};
use lux_lib::tree::EntryType;
use lux_lib::variables::{substitute, Variable};

fn layout_variables() -> Vec<Variable> {
    vec![
        Variable::new("PREFIX", "/tree/5.1/pkg"),
        Variable::new("LIBDIR", "/tree/5.1/pkg/lib"),
        Variable::new("LUADIR", "/tree/5.1/pkg/src"),
        Variable::new("BINDIR", "/tree/bin"),
    ]
}

fn make_spec() -> MakeBuildSpec {
    MakeBuildSpec {
        makefile: "Makefile".to_string(),
        build_target: None,
        build_pass: true,
        install_target: "install".to_string(),
        install_pass: true,
        variables: vec![Variable::new("CFLAGS", "-O2"), Variable::new("EMPTY", "")],
        build_variables: vec![Variable::new("LUA_LIBDIR", "$(LIBDIR)")],
        install_variables: vec![
            Variable::new("INST_PREFIX", "$(PREFIX)"),
            Variable::new("INST_LUADIR", "$(LUADIR)"),
            Variable::new("UNKNOWN", "$(NOWHERE)"),
        ],
    }
}

fn texts(items: &[&str]) -> Vec<String> {
    items.iter().map(|s| s.to_string()).collect()
}

#[test]
fn make_is_run_once_to_build_and_once_to_install() {
    let steps = make_spec().plan("make", &layout_variables(), false);
    assert_eq!(
        steps,
        vec![
            MakeStep {
                name: "make".to_string(),
                args: texts(&["-f", "Makefile", "CFLAGS=-O2", "LUA_LIBDIR=/tree/5.1/pkg/lib"]),
            },
            MakeStep {
                name: "make install".to_string(),
                args: texts(&[
                    "install",
                    "-f",
                    "Makefile",
                    "CFLAGS=-O2",
                    "INST_PREFIX=/tree/5.1/pkg",
                    "INST_LUADIR=/tree/5.1/pkg/src",
                    "UNKNOWN=$(NOWHERE)",
                ]),
            },
        ]
    );
}

#[test]
fn make_passes_can_be_switched_off() {
    let mut spec = make_spec();
    spec.build_target = Some("all".to_string());
    let steps = spec.plan("gmake", &layout_variables(), true);
    assert_eq!(steps.len(), 1);
    assert_eq!(steps[0].name, "gmake all");
    assert_eq!(steps[0].args[0], "all");

    spec.build_pass = false;
    assert_eq!(spec.plan("gmake", &layout_variables(), true), Vec::new());
    let only_install = spec.plan("gmake", &layout_variables(), false);
    assert_eq!(only_install.len(), 1);
    assert_eq!(only_install[0].name, "gmake install");

    spec.install_pass = false;
    assert_eq!(spec.plan("gmake", &layout_variables(), false), Vec::new());
}

#[test]
fn a_failed_run_of_make_tells_what_it_wrote() {
    let step = MakeStep { name: "make install".to_string(), args: Vec::new() };
    assert_eq!(check_make_exit(&step, true, Some(0), String::new(), String::new()), Ok(()));
    assert_eq!(
        check_make_exit(&step, false, Some(2), "out".to_string(), "err".to_string()),
        Err(MakeError::CommandFailure {
            name: "make install".to_string(),
            status: Some(2),
            stdout: "out".to_string(),
            stderr: "err".to_string(),
        })
    );
    assert!(matches!(
        check_make_exit(&step, false, None, String::new(), String::new()),
        Err(MakeError::CommandFailure { status: None, .. })
    ));
}

#[test]
fn substitution_leaves_unknown_names_as_they_are() {
    let vars = layout_variables();
    assert_eq!(substitute(&vars, "$(PREFIX)/share"), "/tree/5.1/pkg/share");
    assert_eq!(substitute(&vars, "-L$(LIBDIR) -I$(LUADIR)"), "-L/tree/5.1/pkg/lib -I/tree/5.1/pkg/src");
    assert_eq!(substitute(&vars, "$(NOWHERE)/x"), "$(NOWHERE)/x");
    assert_eq!(substitute(&vars, "$(PREFIX"), "$(PREFIX");
    assert_eq!(substitute(&vars, "no reference"), "no reference");
    assert_eq!(substitute(&vars, ""), "");
    assert_eq!(substitute(&vars, "$(BINDIR)$(BINDIR)"), "/tree/bin/tree/bin");
}

#[test]
fn lua_modules_are_told_by_their_file_names() {
    assert!(is_lua_module_file("init.lua"));
    assert!(is_lua_module_file("foo.bar.lua"));
    assert!(!is_lua_module_file("test.lua"));
    assert!(!is_lua_module_file("tests.lua"));
    assert!(!is_lua_module_file("foo.c"));
    assert!(!is_lua_module_file("lua"));
    assert!(!is_lua_module_file(".lua"));
    assert!(!is_lua_module_file("foo.luac"));
}

#[test]
fn module_names_mirror_relative_paths() {
    assert_eq!(lua_module_path("src/foo/bar.lua"), "foo.bar");
    assert_eq!(lua_module_path("lua/foo/init.lua"), "foo.init");
    assert_eq!(lua_module_path("./lib/main.lua"), "main");
    assert_eq!(lua_module_path("src//foo/baz.lua"), "foo.baz");
    assert_eq!(lua_module_path("src"), "");
    assert_eq!(module_target("/tree/5.1/pkg/src", "foo.bar"), "/tree/5.1/pkg/src/foo/bar.lua");
    assert_eq!(module_target("/tree/5.1/pkg/src", "main"), "/tree/5.1/pkg/src/main.lua");
}

fn lua_module(name: &str, path: &str) -> Module {
    Module { name: name.to_string(), module: ModuleType::SourcePath(path.to_string()) }
}

#[test]
fn declared_modules_win_over_detected_ones() {
    let declared = BuiltinBuildSpec {
        modules: vec![lua_module("foo", "custom/foo.lua"), lua_module("native", "native.c")],
    };
    assert!(declared.declares("foo"));
    assert!(!declared.declares("bar"));
    let all = declared.with_detected(vec![
        lua_module("bar", "src/bar.lua"),
        lua_module("foo", "src/foo.lua"),
        lua_module("baz.init", "src/baz/init.lua"),
    ]);
    assert_eq!(
        all.modules,
        vec![
            lua_module("bar", "src/bar.lua"),
            lua_module("baz.init", "src/baz/init.lua"),
            lua_module("foo", "custom/foo.lua"),
            lua_module("native", "native.c"),
        ]
    );
}

#[test]
fn merged_lists_drop_what_repeats_the_element_before() {
    assert_eq!(
        merge_strings(texts(&["a", "b", "b"]), texts(&["b", "c", "a"])),
        texts(&["a", "b", "c", "a"])
    );
    assert_eq!(texts(&["x"]).merge(Vec::new()), texts(&["x"]));
    assert_eq!(merge_strings(Vec::new(), Vec::new()), Vec::<String>::new());
}

#[test]
fn merged_options_take_what_is_there() {
    let none: Option<Vec<String>> = None;
    assert_eq!(none.merge(None), None);
    assert_eq!(None.merge(Some(texts(&["b"]))), Some(texts(&["b"])));
    assert_eq!(Some(texts(&["a"])).merge(None), Some(texts(&["a"])));
    assert_eq!(Some(texts(&["a", "b"])).merge(Some(texts(&["b", "c"]))), Some(texts(&["a", "b", "c"])));
}

#[test]
fn merged_cmake_builds_take_the_later_values() {
    let base = CMakeBuildSpec {
        cmake_lists_content: Some("project(base)".to_string()),
        build_pass: true,
        install_pass: true,
        variables: vec![Variable::new("A", "1"), Variable::new("B", "2")],
    };
    let over = CMakeBuildSpec {
        cmake_lists_content: None,
        build_pass: false,
        install_pass: true,
        variables: vec![Variable::new("B", "3"), Variable::new("C", "4")],
    };
    let merged = base.merge(over);
    assert_eq!(merged.cmake_lists_content, Some("project(base)".to_string()));
    assert!(!merged.build_pass);
    assert!(merged.install_pass);
    assert_eq!(
        merged.variables,
        vec![Variable::new("A", "1"), Variable::new("B", "3"), Variable::new("C", "4")]
    );
    let fresh = CMakeBuildSpec::default();
    assert!(fresh.build_pass && fresh.install_pass);
    assert_eq!(fresh.cmake_lists_content, None);
    assert!(fresh.variables.is_empty());
}

fn backend_hashes() -> LocalPackageHashes {
    LocalPackageHashes {
        rockspec: Integrity::of_bytes(b"rockspec"),
        source: Integrity::of_bytes(b"source"),
    }
}

fn installed(req: &str, version: &str) -> LocalPackage {
    let req = PackageReq::parse(req).unwrap();
    LocalPackage::from(
        &PackageSpec::parse(&req.name().to_string(), version).unwrap(),
        LockConstraint::from_req(req.version_req().clone()),
        Vec::new(),
        RemotePackageSource::LuarocksRockspec("https://luarocks.org/".to_string()),
        None,
        backend_hashes(),
    )
}

fn project_dependency(text: &str, pin: PinnedState) -> ProjectDependency {
    ProjectDependency {
        dependency: LuaDependencySpec::new(PackageReq::parse(text).unwrap(), pin, OptState::Required),
        source: None,
    }
}

#[test]
fn only_missing_dependencies_of_a_project_are_installed() {
    let mut lockfile =
        Lockfile::empty("/tree/5.1/lux.lock".to_string(), RockLayoutConfig::default())
            .into_temporary();
    lockfile.add_entrypoint(&installed("say >= 1.3", "1.4.1-3"));
    let wanted = vec![
        project_dependency("say >= 1.0", PinnedState::Unpinned),
        project_dependency("say >= 2.0", PinnedState::Unpinned),
        project_dependency("busted", PinnedState::Pinned),
    ];
    let requests = dependencies_to_install(&lockfile, &wanted);
    assert_eq!(requests.len(), 2);
    assert_eq!(requests[0].package, PackageReq::parse("say >= 2.0").unwrap());
    assert_eq!(requests[0].pin, PinnedState::Unpinned);
    assert_eq!(requests[1].package, PackageReq::parse("busted").unwrap());
    assert_eq!(requests[1].pin, PinnedState::Pinned);
    for request in &requests {
        assert_eq!(request.entry_type, EntryType::Entrypoint);
        assert_eq!(request.build_behaviour, BuildBehaviour::NoForce);
        assert_eq!(request.constraint, None);
        assert_eq!(request.source, None);
    }
}

#[test]
fn a_built_project_takes_over_the_entrypoints() {
    let mut lockfile =
        Lockfile::empty("/project/.lux/5.1/lux.lock".to_string(), RockLayoutConfig::default())
            .into_temporary();
    let say = installed("say >= 1.3", "1.4.1-3");
    let busted = installed("busted", "2.2.0-1");
    let luassert = installed("luassert", "1.9.0-1");
    lockfile.add_entrypoint(&say);
    lockfile.add_entrypoint(&busted);
    lockfile.add_dependency(&busted, &luassert);

    let project = LocalPackage::from(
        &PackageSpec::parse("my-project", "0.1.0-1").unwrap(),
        LockConstraint::Unconstrained,
        Vec::new(),
        RemotePackageSource::Local,
        None,
        backend_hashes(),
    );
    lockfile.record_project_build(&project);

    assert!(lockfile.is_entrypoint(&project.id()));
    assert!(!lockfile.is_entrypoint(&say.id()));
    assert!(!lockfile.is_entrypoint(&busted.id()));
    let recorded = lockfile.get(&project.id()).unwrap();
    assert!(recorded.dependencies().contains(&say.id()));
    assert!(recorded.dependencies().contains(&busted.id()));
    assert!(!recorded.dependencies().contains(&luassert.id()));
    assert!(lockfile.get(&luassert.id()).is_some());
    assert_eq!(lockfile.rocks().len(), 4);
    assert_eq!(lockfile.local_pkg_lock().entrypoints(), &vec![project.id()]);

    // Building once more keeps the project the one entrypoint, and notes
    // that it was an entrypoint itself.
    lockfile.record_project_build(&project);
    assert_eq!(lockfile.local_pkg_lock().entrypoints(), &vec![project.id()]);
    assert!(lockfile.get(&project.id()).unwrap().dependencies().contains(&project.id()));

    // Of an entrypoint that is named twice one occurrence stays.
    let mut twice =
        Lockfile::empty("/project/.lux/5.1/lux.lock".to_string(), RockLayoutConfig::default())
            .into_temporary();
    twice.add_entrypoint(&say);
    twice.add_entrypoint(&say);
    twice.record_project_build(&project);
    assert_eq!(twice.local_pkg_lock().entrypoints(), &vec![say.id(), project.id()]);
}

#[test]
fn modules_spec_from_lua() {
    // build = { modules = {
    //     foo = 'lua/foo/init.lua',
    //     bar = { 'lua/bar.lua', 'lua/bar/internal.lua' },
    //     baz = { sources = { 'lua/baz.lua' }, defines = { 'USE_BAZ' } },
    // } }
    let foo = lux_lib::builtin::module_type_of(lux_lib::builtin::ModuleValue::Text(
        "lua/foo/init.lua".to_string(),
    ))
    .unwrap();
    assert_eq!(foo, ModuleType::SourcePath("lua/foo/init.lua".into()));
    let bar = lux_lib::builtin::module_type_of(lux_lib::builtin::ModuleValue::List(texts(&[
        "lua/bar.lua",
        "lua/bar/internal.lua",
    ])))
    .unwrap();
    assert_eq!(
        bar,
        ModuleType::SourcePaths(vec!["lua/bar.lua".into(), "lua/bar/internal.lua".into()])
    );
    let baz = lux_lib::builtin::module_type_of(lux_lib::builtin::ModuleValue::Table {
        sources: Some(texts(&["lua/baz.lua"])),
        libraries: None,
        defines: Some(texts(&["USE_BAZ"])),
        incdirs: None,
        libdirs: None,
    })
    .unwrap();
    assert!(matches!(baz, ModuleType::ModulePaths { .. }));
    assert_eq!(
        baz,
        ModuleType::ModulePaths(lux_lib::builtin::ModulePaths {
            sources: texts(&["lua/baz.lua"]),
            libraries: Vec::new(),
            defines: texts(&["USE_BAZ"]),
            incdirs: Vec::new(),
            libdirs: Vec::new(),
        })
    );
    // build = { modules = { baz = { defines = { 'USE_BAZ' } } } }
    let result = lux_lib::builtin::module_type_of(lux_lib::builtin::ModuleValue::Table {
        sources: None,
        libraries: None,
        defines: Some(texts(&["USE_BAZ"])),
        incdirs: None,
        libdirs: None,
    });
    let _err = result.unwrap_err();
    assert_eq!(_err, lux_lib::builtin::ModuleSpecError::MissingSources);
}

#[test]
fn a_project_is_built_after_what_it_depends_on() {
    let mut lockfile =
        Lockfile::empty("/project/.lux/5.1/lux.lock".to_string(), RockLayoutConfig::default())
            .into_temporary();
    lockfile.add_entrypoint(&installed("say >= 1.3", "1.4.1-3"));
    let deps = vec![
        project_dependency("say >= 1.0", PinnedState::Unpinned),
        project_dependency("busted", PinnedState::Unpinned),
    ];
    let tools = vec![project_dependency("luarocks-build-rust-mlua", PinnedState::Unpinned)];
    let none: Vec<ProjectDependency> = Vec::new();

    let steps = lux_lib::building::project_build_steps(true, false, &lockfile, &deps, &tools);
    assert_eq!(steps.len(), 4);
    match &steps[0] {
        lux_lib::building::ProjectStep::InstallDependencies(specs) => {
            assert_eq!(specs.len(), 1);
            assert_eq!(specs[0].package, PackageReq::parse("busted").unwrap());
        }
        other => panic!("unexpected step {other:?}"),
    }
    assert_eq!(steps[1], lux_lib::building::ProjectStep::EnsureBuildTool);
    assert!(matches!(
        &steps[2],
        lux_lib::building::ProjectStep::InstallBuildDependencies(specs) if specs.len() == 1
    ));
    assert_eq!(steps[3], lux_lib::building::ProjectStep::BuildPackage);

    assert_eq!(
        lux_lib::building::project_build_steps(true, true, &lockfile, &none, &none),
        vec![lux_lib::building::ProjectStep::InstallDependencies(Vec::new())]
    );
    assert_eq!(
        lux_lib::building::project_build_steps(false, false, &lockfile, &deps, &tools),
        vec![
            lux_lib::building::ProjectStep::SyncDependencies,
            lux_lib::building::ProjectStep::SyncBuildDependencies,
            lux_lib::building::ProjectStep::BuildPackage,
        ]
    );
    assert_eq!(
        lux_lib::building::project_build_steps(false, true, &lockfile, &deps, &tools),
        vec![
            lux_lib::building::ProjectStep::SyncDependencies,
            lux_lib::building::ProjectStep::SyncBuildDependencies,
        ]
    );
}

fn sample_layout() -> lux_lib::tree::RockLayout {
    lux_lib::tree::RockLayout {
        rock_path: "/tree/5.1/pkg".to_string(),
        etc: "/tree/5.1/pkg/etc".to_string(),
        lib: "/tree/5.1/pkg/lib".to_string(),
        src: "/tree/5.1/pkg/src".to_string(),
        bin: "/tree/bin".to_string(),
        conf: "/tree/5.1/pkg/etc/conf".to_string(),
        doc: "/tree/5.1/pkg/etc/doc".to_string(),
    }
}

fn entry(target: &str, source: &str) -> lux_lib::staging::InstallEntry {
    lux_lib::staging::InstallEntry { target: target.to_string(), source: source.to_string() }
}

fn copy(source: &str, target: &str) -> lux_lib::staging::CopyStep {
    lux_lib::staging::CopyStep { source: source.to_string(), target: target.to_string() }
}

#[test]
fn installed_files_go_to_their_places_in_the_layout() {
    let layout = sample_layout();
    let spec = lux_lib::staging::InstallSpec {
        lua: vec![entry("foo.bar", "lua/bar.lua"), entry("main", "main.lua")],
        bin: vec![entry("tool", "scripts/tool.lua")],
    };
    assert_eq!(
        layout.install_copies(&spec),
        vec![
            copy("lua/bar.lua", "/tree/5.1/pkg/src/foo/bar.lua"),
            copy("main.lua", "/tree/5.1/pkg/src/main.lua"),
            copy("scripts/tool.lua", "/tree/bin/tool"),
        ]
    );
    assert_eq!(
        layout.directory_copies(&texts(&["doc/index.md", "plugin/init.vim"])),
        vec![
            copy("doc/index.md", "/tree/5.1/pkg/etc/doc/index.md"),
            copy("plugin/init.vim", "/tree/5.1/pkg/etc/plugin/init.vim"),
        ]
    );
    let nothing = lux_lib::staging::InstallSpec { lua: Vec::new(), bin: Vec::new() };
    assert_eq!(layout.install_copies(&nothing), Vec::new());
    assert_eq!(layout.place(lux_lib::staging::Place::Etc, "conf/x"), "/tree/5.1/pkg/etc/conf/x");
}
