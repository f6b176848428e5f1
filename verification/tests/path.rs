use lux_lib::path::{BinPath, PackagePath};

#[test]
fn package_path_leading_trailing_delimiters() {
    let path = PackagePath::from_str(
        ";;/path/to/some/lib/lua/5.1/?.so;/path/to/another/lib/lua/5.1/?.so;;;",
    );
    assert_eq!(
        path,
        PackagePath::new(vec![
            "/path/to/some/lib/lua/5.1/?.so".into(),
            "/path/to/another/lib/lua/5.1/?.so".into(),
        ])
    );
    assert_eq!(
        format!("{}", path.to_string()),
        "/path/to/some/lib/lua/5.1/?.so;/path/to/another/lib/lua/5.1/?.so"
    );
}

#[test]
fn package_path_joined_drops_repetitions_and_keeps_order() {
    let path = PackagePath::new(vec!["b".into(), "a".into(), "b".into(), "c".into(), "a".into()]);
    assert_eq!(path.joined(), "b;a;c");
    assert!(!path.is_empty());
    assert!(PackagePath::default().is_empty());
    assert_eq!(PackagePath::default().joined(), "");
}

#[test]
fn package_path_prepend_puts_the_other_first() {
    let mut own = PackagePath::new(vec!["x".into(), "y".into()]);
    let other = PackagePath::new(vec!["a".into(), "x".into()]);
    own.prepend(&other);
    assert_eq!(own, PackagePath::new(vec!["a".into(), "x".into(), "x".into(), "y".into()]));
    assert_eq!(own.joined(), "a;x;y");
}

#[test]
fn bin_path_splits_and_joins_at_colons() {
    let mut path = BinPath::from_str("/usr/bin:/bin");
    assert_eq!(path, BinPath::new(vec!["/usr/bin".into(), "/bin".into()]));
    path.prepend(&BinPath::new(vec!["/tree/bin".into(), "/bin".into()]));
    assert_eq!(path.joined(), Some("/tree/bin:/bin:/usr/bin".to_string()));
    assert!(!path.is_empty());
    assert!(BinPath::default().is_empty());
}

#[test]
fn bin_path_with_a_colon_in_a_directory_has_no_text() {
    let path = BinPath::new(vec!["/a:b".into()]);
    assert_eq!(path.joined(), None);
}
