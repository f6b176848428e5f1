use lux_lib::manifest::{
    remote_package_type, Manifest, ManifestLuaError, ManifestMetadata, RepositoryEntry,
    VersionEntry,
};
use mlua::LuaSerdeExt;
use std::collections::BTreeMap;
use lux_lib::package::{
    PackageName, PackageReq, RemotePackageSource, RemotePackageType, RemotePackageTypeFilterSpec,
};
use lux_lib::version::PackageVersion;

fn entry(name: &str, versions: &[(&str, &[&str])]) -> RepositoryEntry {
    RepositoryEntry {
        name: name.to_string(),
        versions: versions
            .iter()
            .map(|(version, archs)| VersionEntry {
                version: version.to_string(),
                archs: archs.iter().map(|a| Some(a.to_string())).collect(),
            })
            .collect(),
    }
}

/// What a manifest leaves in its global `repository` when it is run.
fn run_manifest(manifest: &str) -> Result<Vec<RepositoryEntry>, String> {
    let lua = mlua::Lua::new();
    lua.load(manifest).exec().map_err(|e| e.to_string())?;
    let value: mlua::Value = lua.globals().get("repository").map_err(|e| e.to_string())?;
    let repository: BTreeMap<String, BTreeMap<String, Vec<BTreeMap<String, String>>>> =
        lua.from_value(value).map_err(|e| e.to_string())?;
    Ok(repository
        .into_iter()
        .map(|(name, versions)| RepositoryEntry {
            name,
            versions: versions
                .into_iter()
                .map(|(version, artifacts)| VersionEntry {
                    version,
                    archs: artifacts.into_iter().map(|mut a| a.remove("arch")).collect(),
                })
                .collect(),
        })
        .collect())
}

fn read_manifest(manifest: &str, platform: &str) -> Result<ManifestMetadata, ManifestLuaError> {
    let entries = run_manifest(manifest).map_err(ManifestLuaError)?;
    ManifestMetadata::from_intermediate(&entries, platform)
}

fn test_metadata() -> ManifestMetadata {
    ManifestMetadata::from_intermediate(
        &vec![
            entry(
                "30log",
                &[
                    ("0.9.1-1", &["rockspec", "src"]),
                    ("1.3.0-1", &["rockspec", "src"]),
                    ("1.2.0-1", &["rockspec"]),
                ],
            ),
            entry(
                "lua-cjson",
                &[
                    ("2.1.0-1", &["rockspec", "src", "linux-x86_64"]),
                    ("2.1.0.10-1", &["src", "win32-x86"]),
                    ("not a version-x", &["src"]),
                    ("scm-1", &["rockspec"]),
                ],
            ),
        ],
        "linux-x86_64",
    )
    .unwrap()
}

#[test]
fn latest_match_regression() {
    let metadata = test_metadata();
    let package_req = PackageReq::parse("30log > 1.3.0").unwrap();
    assert!(metadata.latest_match(&package_req, None).is_none());
}

#[test]
fn parse_metadata_from_empty_manifest() {
    let manifest = "
            commands = {}\n
            modules = {}\n
            repository = {}\n
            "
    .to_string();
    read_manifest(&manifest, "linux-x86_64").unwrap();
}

#[test]
fn metadata_is_read_from_the_text_of_a_manifest() {
    let manifest = "
        commands = {}
        modules = {}
        repository = {
            ['lua-cjson'] = {
                ['2.1.0-1'] = { { arch = 'rockspec' }, { arch = 'src' }, { arch = 'sparc' } },
                ['2.0.0-1'] = { { arch = 'rockspec' } },
            },
            say = { ['1.3-1'] = { { arch = 'all' } } },
        }
    ";
    let metadata = read_manifest(manifest, "linux-x86_64").unwrap();
    assert!(metadata.has_rock(&PackageName::new("say")));
    assert!(metadata.has_rock(&PackageName::new("lua-cjson")));
    assert!(!metadata.has_rock(&PackageName::new("busted")));
    let (spec, kind) =
        metadata.latest_match(&PackageReq::parse("lua-cjson").unwrap(), None).unwrap();
    assert_eq!(spec.version(), &PackageVersion::parse("2.1.0-1").unwrap());
    assert_eq!(kind, RemotePackageType::Src);
    let (_, kind) = metadata.latest_match(&PackageReq::parse("say").unwrap(), None).unwrap();
    assert_eq!(kind, RemotePackageType::Binary);
    assert!(read_manifest("this is not lua", "linux-x86_64").is_err());
}

#[test]
fn an_artifact_without_a_tag_is_refused() {
    let manifest = "
        repository = {
            busted = { ['2.2.0-1'] = { { arch = 'rockspec' } } },
            say = {
                ['1.3-1'] = { { arch = 'all' } },
                ['1.4-1'] = { { arch = 'src' }, { platform = 'linux' } },
                ['1.5-1'] = { {} },
            },
        }
    ";
    assert_eq!(
        read_manifest(manifest, "linux-x86_64"),
        Err(ManifestLuaError("missing field `arch` in say 1.4-1".to_string()))
    );
    let untagged = vec![RepositoryEntry {
        name: "say".to_string(),
        versions: vec![VersionEntry {
            version: "1.3-1".to_string(),
            archs: vec![Some("src".to_string()), None],
        }],
    }];
    assert_eq!(
        ManifestMetadata::from_intermediate(&untagged, "linux-x86_64"),
        Err(ManifestLuaError("missing field `arch` in say 1.3-1".to_string()))
    );
    assert!(ManifestMetadata::from_intermediate(&Vec::new(), "linux-x86_64").is_ok());
}

#[test]
fn latest_match_takes_the_greatest_version_in_its_best_kind() {
    let metadata = test_metadata();
    let (spec, kind) =
        metadata.latest_match(&PackageReq::parse("30log").unwrap(), None).unwrap();
    assert_eq!(spec.name(), &PackageName::new("30log"));
    assert_eq!(spec.version(), &PackageVersion::parse("1.3.0-1").unwrap());
    assert_eq!(kind, RemotePackageType::Src);

    let (spec, kind) =
        metadata.latest_match(&PackageReq::parse("30log < 1.3").unwrap(), None).unwrap();
    assert_eq!(spec.version(), &PackageVersion::parse("1.2.0-1").unwrap());
    assert_eq!(kind, RemotePackageType::Rockspec);

    // Development versions are newer than any semantic version.
    let (spec, kind) =
        metadata.latest_match(&PackageReq::parse("lua-cjson").unwrap(), None).unwrap();
    assert_eq!(spec.version(), &PackageVersion::parse("scm-1").unwrap());
    assert_eq!(kind, RemotePackageType::Rockspec);

    // The binary archive of the platform wins over the source archive.
    let (spec, kind) =
        metadata.latest_match(&PackageReq::parse("lua-cjson == 2.1.0").unwrap(), None).unwrap();
    assert_eq!(spec.version(), &PackageVersion::parse("2.1.0-1").unwrap());
    assert_eq!(kind, RemotePackageType::Binary);

    // Artifacts for other platforms are dropped, the filter counts.
    let only_src = RemotePackageTypeFilterSpec { rockspec: false, src: true, binary: false };
    let (spec, kind) = metadata
        .latest_match(&PackageReq::parse("lua-cjson >= 2.1.0.1").unwrap(), Some(only_src))
        .unwrap();
    assert_eq!(spec.version(), &PackageVersion::parse("2.1.0-1").unwrap());
    assert_eq!(kind, RemotePackageType::Src);
    // A fourth component is a pre-release: 2.1.0.10 comes before 2.1.0.
    let (spec, kind) = metadata
        .latest_match(&PackageReq::parse("lua-cjson >= 2.1.0.10, < 2.1.0").unwrap(), Some(only_src))
        .unwrap();
    assert_eq!(spec.version(), &PackageVersion::parse("2.1.0.10-1").unwrap());
    assert_eq!(kind, RemotePackageType::Src);
    let only_binary = RemotePackageTypeFilterSpec { rockspec: false, src: false, binary: true };
    assert!(metadata
        .latest_match(&PackageReq::parse("lua-cjson >= 2.1.0.10, < 2.1.0").unwrap(), Some(only_binary))
        .is_none());
    assert!(metadata.latest_match(&PackageReq::parse("busted").unwrap(), None).is_none());
}

#[test]
fn find_names_the_server_as_the_source() {
    let manifest = Manifest::new("https://luarocks.org/".to_string(), test_metadata());
    let found = manifest.find(&PackageReq::parse("30log").unwrap(), None).unwrap();
    assert_eq!(
        found.source,
        RemotePackageSource::LuarocksSrcRock("https://luarocks.org/".to_string())
    );
    assert_eq!(found.package.version(), &PackageVersion::parse("1.3.0-1").unwrap());
    assert!(manifest.find(&PackageReq::parse("30log > 1.3.0").unwrap(), None).is_none());
    assert_eq!(manifest.server_url(), "https://luarocks.org/");
}

#[test]
fn architecture_tags() {
    assert_eq!(remote_package_type("rockspec", "linux-x86_64"), Some(RemotePackageType::Rockspec));
    assert_eq!(remote_package_type("src", "linux-x86_64"), Some(RemotePackageType::Src));
    assert_eq!(remote_package_type("all", "linux-x86_64"), Some(RemotePackageType::Binary));
    assert_eq!(
        remote_package_type("linux-x86_64", "linux-x86_64"),
        Some(RemotePackageType::Binary)
    );
    assert_eq!(remote_package_type("win32-x86", "linux-x86_64"), None);
    assert_eq!(RemotePackageTypeFilterSpec::default().includes(RemotePackageType::Src), true);
}
