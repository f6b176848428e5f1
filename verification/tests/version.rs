use lux_lib::semantic::Sign;
use lux_lib::version::{DevVer, DevVersion, PackageVersion, SemVer, StringVer};
use lux_lib::version_req::PackageVersionReq;

fn semver(version: &str, component_count: usize, specrev: u16) -> PackageVersion {
    PackageVersion::SemVer(SemVer::new(version, component_count, specrev).unwrap())
}

fn range(text: &str) -> PackageVersionReq {
    PackageVersionReq::SemVer(semver::VersionReq::parse(text).unwrap().to_string())
}

#[test]
fn parse_semver_version() {
    assert_eq!(PackageVersion::parse("1-1").unwrap(), semver("1.0.0", 1, 1));
    assert_eq!(PackageVersion::parse("1.0-1").unwrap(), semver("1.0.0", 2, 1));
    assert_eq!(PackageVersion::parse("1.0.0-1").unwrap(), semver("1.0.0", 3, 1));
    assert_eq!(PackageVersion::parse("1.0.0-1").unwrap(), semver("1.0.0", 3, 1));
    assert_eq!(PackageVersion::parse("1.0.0-10-1").unwrap(), semver("1.0.0-10", 3, 1));
    assert_eq!(PackageVersion::parse("1.0.0.10-1").unwrap(), semver("1.0.0-10", 3, 1));
    assert_eq!(PackageVersion::parse("1.0.0.10.0-1").unwrap(), semver("1.0.0-10.0", 3, 1));
}

#[test]
fn parse_dev_version() {
    assert_eq!(
        PackageVersion::parse("dev-1").unwrap(),
        PackageVersion::DevVer(DevVer { modrev: DevVersion::Dev, specrev: 1 })
    );
    assert_eq!(
        PackageVersion::parse("scm-1").unwrap(),
        PackageVersion::DevVer(DevVer { modrev: DevVersion::Scm, specrev: 1 })
    );
    assert_eq!(
        PackageVersion::parse("git-1").unwrap(),
        PackageVersion::StringVer(StringVer::new("git", 1))
    );
    assert_eq!(
        PackageVersion::parse("scm-1").unwrap(),
        PackageVersion::DevVer(DevVer { modrev: DevVersion::Scm, specrev: 1 })
    );
}

#[test]
fn parse_dev_version_req() {
    assert_eq!(
        PackageVersionReq::parse("dev").unwrap(),
        PackageVersionReq::DevVer(DevVersion::Dev)
    );
    assert_eq!(
        PackageVersionReq::parse("scm").unwrap(),
        PackageVersionReq::DevVer(DevVersion::Scm)
    );
    assert_eq!(
        PackageVersionReq::parse("git").unwrap(),
        PackageVersionReq::StringVer("git".into())
    );
    assert_eq!(
        PackageVersionReq::parse("==dev").unwrap(),
        PackageVersionReq::DevVer(DevVersion::Dev)
    );
    assert_eq!(
        PackageVersionReq::parse("==git").unwrap(),
        PackageVersionReq::StringVer("git".into())
    );
    assert_eq!(
        PackageVersionReq::parse("== dev").unwrap(),
        PackageVersionReq::DevVer(DevVersion::Dev)
    );
    assert_eq!(
        PackageVersionReq::parse("== scm").unwrap(),
        PackageVersionReq::DevVer(DevVersion::Scm)
    );
    assert_eq!(
        PackageVersionReq::parse("@dev").unwrap(),
        PackageVersionReq::DevVer(DevVersion::Dev)
    );
    assert_eq!(
        PackageVersionReq::parse("@git").unwrap(),
        PackageVersionReq::StringVer("git".into())
    );
    assert_eq!(
        PackageVersionReq::parse("@ dev").unwrap(),
        PackageVersionReq::DevVer(DevVersion::Dev)
    );
    assert_eq!(
        PackageVersionReq::parse("@ scm").unwrap(),
        PackageVersionReq::DevVer(DevVersion::Scm)
    );
    assert_eq!(PackageVersionReq::parse(">1-1,<1.2-2").unwrap(), range(">1,<1.2"));
    assert_eq!(PackageVersionReq::parse("> 1-1, < 1.2-2").unwrap(), range("> 1, < 1.2"));
    assert_eq!(
        PackageVersionReq::parse("> 2.1.0.10, < 2.1.1").unwrap(),
        range("> 2.1.0-10, < 2.1.1")
    );
}

#[test]
fn package_version_req_semver_roundtrips() {
    let req = PackageVersionReq::parse("==0.7.1").unwrap();
    assert_eq!(req.to_string(), "==0.7.1");

    let req = PackageVersionReq::parse("0.7.1").unwrap();
    assert_eq!(req.to_string(), "==0.7.1");

    let req = PackageVersionReq::parse(">=0.7.1").unwrap();
    assert_eq!(req.to_string(), ">=0.7.1");

    let req = PackageVersionReq::parse(">0.7.1").unwrap();
    assert_eq!(req.to_string(), ">0.7.1");

    let req = PackageVersionReq::parse("<0.7.1").unwrap();
    assert_eq!(req.to_string(), "<0.7.1");

    let req = PackageVersionReq::parse("~> 0.7.1").unwrap();
    assert_eq!(req.to_string(), ">=0.7.1, <0.7.2");
}

#[test]
fn package_version_req_devver_roundtrips() {
    let req = PackageVersionReq::parse("==scm").unwrap();
    assert_eq!(req.to_string(), "==scm");

    let req = PackageVersionReq::parse("@scm").unwrap();
    assert_eq!(req.to_string(), "==scm");

    let req = PackageVersionReq::parse("scm").unwrap();
    assert_eq!(req.to_string(), "==scm");

    let req = PackageVersionReq::parse("==a144124839f027a2d0a95791936c478d047126fc").unwrap();
    assert_eq!(req.to_string(), "==a144124839f027a2d0a95791936c478d047126fc");
}

#[test]
fn version_text_keeps_the_width_it_was_written_in() {
    assert_eq!(PackageVersion::parse("1.0.0.10-1").unwrap().to_string(), "1.0.0.10-1");
    assert_eq!(PackageVersion::parse("1-1").unwrap().to_string(), "1-1");
    assert_eq!(PackageVersion::parse("1.0-3").unwrap().to_string(), "1.0-3");
    assert_eq!(PackageVersion::parse("2.1").unwrap().to_string(), "2.1-1");
    assert_eq!(PackageVersion::parse("1.0.0-10-1").unwrap().to_string(), "1.0.0.10-1");
    assert_eq!(PackageVersion::parse("scm").unwrap().to_string(), "scm-1");
    assert_eq!(PackageVersion::parse("git-7").unwrap().to_string(), "git-7");
    assert_eq!(PackageVersion::parse("1.0.0.10.0-1").unwrap().to_string(), "1.0.0.10.0-1");
}

#[test]
fn dev_versions_are_newer_than_semantic_ones() {
    let dev = PackageVersion::parse("dev-1").unwrap();
    let sem = PackageVersion::parse("99.0.0-1").unwrap();
    let text = PackageVersion::parse("git-1").unwrap();
    assert_eq!(dev.compare(&sem), Sign::Greater);
    assert_eq!(sem.compare(&dev), Sign::Less);
    assert_eq!(sem.compare(&text), Sign::Greater);
    assert_eq!(text.compare(&dev), Sign::Less);
    assert!(dev > sem);
}

#[test]
fn any_requirement_matches_every_version() {
    let any = PackageVersionReq::parse("*").unwrap();
    assert_eq!(any, PackageVersionReq::Any);
    assert!(any.is_any());
    assert_eq!(PackageVersionReq::any(), any);
    for text in ["1.0.0-1", "1.0.0.10-1", "dev-1", "scm-3", "git-1", "0-1"] {
        assert!(any.matches(&PackageVersion::parse(text).unwrap()));
    }
    assert_eq!(any.to_string(), "any");
}

#[test]
fn dev_requirement_matches_only_dev_versions() {
    let req = PackageVersionReq::parse("==dev").unwrap();
    assert!(req.matches(&PackageVersion::parse("dev-1").unwrap()));
    assert!(req.matches(&PackageVersion::parse("dev-7").unwrap()));
    assert!(!req.matches(&PackageVersion::parse("scm-1").unwrap()));
    assert!(!req.matches(&PackageVersion::parse("1.0.0-1").unwrap()));
    assert!(!req.matches(&PackageVersion::parse("git-1").unwrap()));
    let git = PackageVersionReq::parse("git").unwrap();
    assert!(git.matches(&PackageVersion::parse("git-2").unwrap()));
    assert!(!git.matches(&PackageVersion::parse("dev-1").unwrap()));
}

#[test]
fn pessimistic_range_with_a_fourth_component() {
    let req = PackageVersionReq::parse("~> 2.1.0.10, < 2.1.1").unwrap();
    assert!(matches!(req, PackageVersionReq::SemVer(_)));
    for inside in ["2.1.0.10-1", "2.1.0.11-1", "2.1.0-1", "2.1.0-5"] {
        assert!(req.matches(&PackageVersion::parse(inside).unwrap()), "{inside}");
    }
    for outside in ["2.1.0.9-1", "2.1.1-1", "2.0.9-1", "2.2-1", "dev-1", "3-1"] {
        assert!(!req.matches(&PackageVersion::parse(outside).unwrap()), "{outside}");
    }
    let req = PackageVersionReq::parse("~> 1.2").unwrap();
    assert_eq!(req, range(">=1.2.0, <1.3.0"));
    assert_eq!(PackageVersionReq::parse("~> 1").unwrap(), range(">=1.0.0, <2.0.0"));
    // Escaped constraints are unescaped.
    assert_eq!(PackageVersionReq::parse("&gt;= 1.0").unwrap(), range(">=1.0"));
    assert_eq!(PackageVersionReq::parse("&lt; 2").unwrap().to_string(), "<2");
}

#[test]
fn version_order_within_the_kinds() {
    let order = |a: &str, b: &str| {
        PackageVersion::parse(a).unwrap().compare(&PackageVersion::parse(b).unwrap())
    };
    assert_eq!(order("1.0.0-1", "1.0.0-2"), Sign::Less);
    assert_eq!(order("1.0.1-1", "1.0.0-2"), Sign::Greater);
    assert_eq!(order("1.0-1", "1.0.0-1"), Sign::Equal);
    assert_eq!(order("1.0.0.10-1", "1.0.0-1"), Sign::Less);
    assert_eq!(order("1.10.0-1", "1.9.0-1"), Sign::Greater);
    // Development versions go by revision before marker.
    assert_eq!(order("dev-2", "scm-1"), Sign::Greater);
    assert_eq!(order("dev-1", "scm-1"), Sign::Less);
    assert_eq!(order("scm-1", "scm-1"), Sign::Equal);
    assert_eq!(order("abc-1", "abd-1"), Sign::Less);
    assert_eq!(order("zzz-1", "abd-2"), Sign::Less);
    assert!(PackageVersion::parse("1.0.0-1").unwrap() < PackageVersion::parse("1.0.0-2").unwrap());
}

#[test]
fn unusable_revisions_are_errors() {
    use_specrev_error("1.0.0-x", "x");
    use_specrev_error("1.0.0-", "");
    use_specrev_error("1.0.0-99999", "99999");
    use_specrev_error("dev-1a", "1a");
    assert_eq!(PackageVersion::parse("1.0.0-65535").unwrap().specrev(), 65535);
    assert_eq!(PackageVersion::parse("1.0.0-007").unwrap().to_string(), "1.0.0-7");
}

fn use_specrev_error(text: &str, specrev: &str) {
    assert_eq!(
        PackageVersion::parse(text),
        Err(lux_lib::version::PackageVersionParseError::Specrev(
            lux_lib::version::SpecrevParseError::InvalidSpecrev {
                specrev: specrev.to_string(),
                full_version: text.to_string(),
            }
        ))
    );
}

#[test]
fn version_and_requirement_convert_into_each_other() {
    let version = PackageVersion::parse("1.2.3-4").unwrap();
    let req = version.into_version_req();
    assert_eq!(req, range("=1.2.3"));
    assert!(req.matches(&version));
    assert_eq!(
        PackageVersion::try_from_req(&req),
        Ok(PackageVersion::parse("1.2.3-1").unwrap())
    );
    assert_eq!(
        PackageVersion::try_from_req(&PackageVersionReq::parse("==1.2").unwrap()),
        Ok(PackageVersion::parse("1.2-1").unwrap())
    );
    assert_eq!(
        PackageVersion::try_from_req(&PackageVersionReq::parse("== 2.1.0.10").unwrap()),
        Ok(PackageVersion::parse("2.1.0.10-1").unwrap())
    );
    assert_eq!(
        PackageVersion::try_from_req(&PackageVersionReq::parse("scm").unwrap()),
        Ok(PackageVersion::parse("scm-1").unwrap())
    );
    assert_eq!(
        PackageVersion::try_from_req(&PackageVersionReq::parse("git").unwrap()),
        Ok(PackageVersion::parse("git-1").unwrap())
    );
    assert_eq!(
        PackageVersion::try_from_req(&PackageVersionReq::Any),
        Err(lux_lib::version_req::VersionReqToVersionError::Any)
    );
    assert_eq!(
        PackageVersion::try_from_req(&PackageVersionReq::parse(">= 1.2").unwrap()),
        Err(lux_lib::version_req::VersionReqToVersionError::NonExactVersionReq(
            ">=1.2".to_string()
        ))
    );
    assert_eq!(
        PackageVersion::parse("dev-3").unwrap().into_version_req(),
        PackageVersionReq::DevVer(DevVersion::Dev)
    );
    assert_eq!(PackageVersion::parse("1.0.0.10-1").unwrap().to_modrev_string(), "1.0.0-10");
    assert!(PackageVersion::parse("1-1").unwrap().is_semver());
    assert_eq!(PackageVersion::default_dev_version(), PackageVersion::parse("dev-1").unwrap());
}

#[test]
fn white_space_of_every_kind_is_trimmed() {
    assert_eq!(
        PackageVersionReq::parse("\u{2003}\t>= 1.0\u{a0}\u{3000}\n").unwrap(),
        PackageVersionReq::parse(">= 1.0").unwrap()
    );
    assert_eq!(
        PackageVersionReq::parse("\u{85}*\u{2028}").unwrap(),
        PackageVersionReq::any()
    );
    // The zero-width space is no white space.
    assert_ne!(
        PackageVersionReq::parse("\u{200b}*").unwrap(),
        PackageVersionReq::any()
    );
}
