use lux_lib::lockfile::{LuaDependencySpec, OptState, PinnedState};
use lux_lib::package::{PackageName, PackageReq};
use lux_lib::project::{LuaDependencyType, PartialProjectToml, Project, ProjectRoot};
use lux_lib::version::PackageVersion;

fn declared(text: &str) -> LuaDependencySpec {
    LuaDependencySpec::from_req(PackageReq::parse(text).unwrap())
}

/// A project that declares four regular dependencies and nothing else.
fn sample_project() -> Project {
    Project::new(
        ProjectRoot::at("/work/sample".to_string()),
        PartialProjectToml {
            package: "sample-project".to_string(),
            dependencies: Some(vec![
                declared("lua >= 5.1"),
                declared("lua-cjson == 2.1.0"),
                declared("plenary.nvim >= 0.1.4"),
                declared("say >= 1.3"),
            ]),
            build_dependencies: None,
            test_dependencies: None,
        },
    )
}

fn regular(project: &Project) -> Vec<LuaDependencySpec> {
    match &project.toml().dependencies {
        Some(table) => table.iter().cloned().collect(),
        None => Vec::new(),
    }
}

#[test]
fn test_add_various_dependencies() {
    let mut project = Project::new(
        ProjectRoot::at("/work/busted".to_string()),
        PartialProjectToml {
            package: "sample-project-busted".to_string(),
            dependencies: None,
            build_dependencies: None,
            test_dependencies: None,
        },
    );
    let add_dependencies = vec![PackageReq::new("busted", Some(">= 1.0.0"))];
    let expected_dependencies =
        vec![LuaDependencySpec::from_req(PackageReq::new("busted", Some(">= 1.0.0")))];

    project.add(LuaDependencyType::Regular, &add_dependencies);
    project.add(LuaDependencyType::Build, &add_dependencies);
    project.add(LuaDependencyType::Test, &add_dependencies);

    assert_eq!(project.toml().dependencies, Some(expected_dependencies.clone()));
    assert_eq!(project.toml().build_dependencies, Some(expected_dependencies.clone()));
    assert_eq!(project.toml().test_dependencies, Some(expected_dependencies));
}

#[test]
fn test_remove_dependencies() {
    let mut project = sample_project();
    let remove_dependencies = vec![PackageName::new("lua-cjson"), PackageName::new("plenary.nvim")];
    project.remove(LuaDependencyType::Regular, &remove_dependencies);
    for name in &remove_dependencies {
        assert!(!regular(&project).iter().any(|dep| dep.name() == name));
    }
    let left: Vec<String> = regular(&project).iter().map(|d| d.name().to_string()).collect();
    assert_eq!(left, vec!["lua".to_string(), "say".to_string()]);
    assert_eq!(project.toml().build_dependencies, None);
}

fn test_pin_unpin_dependencies(pin: PinnedState) {
    let mut project = sample_project();
    let pin_dependencies = vec![PackageName::new("lua-cjson"), PackageName::new("plenary.nvim")];
    project.set_pinned_state(LuaDependencyType::Regular, pin);
    for name in &pin_dependencies {
        assert!(regular(&project).iter().any(|dep| dep.name() == name && dep.pin() == pin));
    }
    assert_eq!(regular(&project).len(), 4);
    assert!(regular(&project).iter().all(|dep| dep.opt() == OptState::Required));
}

#[test]
fn test_pin_dependencies() {
    test_pin_unpin_dependencies(PinnedState::Pinned)
}

#[test]
fn test_unpin_dependencies() {
    test_pin_unpin_dependencies(PinnedState::Unpinned)
}

#[test]
fn adding_appends_to_what_is_declared() {
    let mut project = sample_project();
    project.add(LuaDependencyType::Regular, &vec![PackageReq::parse("busted ~> 2.2").unwrap()]);
    let names: Vec<String> = regular(&project).iter().map(|d| d.name().to_string()).collect();
    assert_eq!(names, vec!["lua", "lua-cjson", "plenary.nvim", "say", "busted"]);
    let added = &regular(&project)[4];
    assert_eq!(added.pin(), PinnedState::Unpinned);
    assert_eq!(added.opt(), OptState::Required);
}

#[test]
fn removing_from_an_absent_table_leaves_it_empty() {
    let mut project = sample_project();
    project.remove(LuaDependencyType::Test, &vec![PackageName::new("busted")]);
    assert_eq!(project.toml().test_dependencies, Some(Vec::new()));
    assert_eq!(regular(&project).len(), 4);
}

#[test]
fn project_files_lie_under_the_root() {
    let project = sample_project();
    assert_eq!(project.root().as_str(), "/work/sample");
    assert_eq!(project.toml_path(), "/work/sample/lux.toml");
    assert_eq!(project.extra_rockspec_path(), "/work/sample/extra.rockspec");
    assert_eq!(project.lockfile_path(), "/work/sample/lux.lock");
    assert_eq!(project.default_tree_root_dir(), "/work/sample/.lux");
}

#[test]
fn manifest_version_of_a_new_dependency() {
    let constrained = PackageReq::parse("busted >= 1.0.0").unwrap();
    let latest = PackageVersion::parse("2.2.0-1").unwrap();
    assert_eq!(
        Project::manifest_version_of(&constrained, Some(&latest)),
        Some(">=1.0.0".to_string())
    );
    let free = PackageReq::new("busted", None);
    assert_eq!(Project::manifest_version_of(&free, Some(&latest)), Some("2.2.0-1".to_string()));
    assert_eq!(Project::manifest_version_of(&free, None), None);
}
