use lux_lib::hash::{sha256_hex_of, Integrity, IntegrityHash};

#[test]
fn integrity_with_a_matching_sha256_matches_whatever_else_is_there() {
    let sha256 = Integrity::parse("sha256-uU0nuZNNPgilLlLX2n2r+sSE7+N6U4DukIj3rOLvzek=").unwrap();
    let more = Integrity::parse(
        "sha512-deadbeef== sha256-uU0nuZNNPgilLlLX2n2r+sSE7+N6U4DukIj3rOLvzek= sha1-abc=",
    )
    .unwrap();
    let swapped = Integrity::from_hashes(vec![
        IntegrityHash {
            algorithm: "sha256".to_string(),
            digest: "uU0nuZNNPgilLlLX2n2r+sSE7+N6U4DukIj3rOLvzek=".to_string(),
        },
        IntegrityHash { algorithm: "sha512".to_string(), digest: "deadbeef==".to_string() },
    ]);
    assert!(sha256.matches(&more));
    assert!(more.matches(&sha256));
    assert!(swapped.matches(&more));
    assert!(more.matches(&swapped));
    let other = Integrity::parse("sha256-AAAAuZNNPgilLlLX2n2r+sSE7+N6U4DukIj3rOLvzek=").unwrap();
    assert!(!sha256.matches(&other));
    assert!(!other.matches(&more));
}

#[test]
fn integrity_is_written_as_it_is_read() {
    let text = "sha256-uU0nuZNNPgilLlLX2n2r+sSE7+N6U4DukIj3rOLvzek=";
    assert_eq!(Integrity::parse(text).unwrap().to_string(), text);
    let two = Integrity::parse("sha256-abc= sha512-def=").unwrap();
    assert_eq!(two.len(), 2);
    assert_eq!(two.to_string(), "sha512-def= sha256-abc=");
    assert!(Integrity::parse("md5-abc").is_none());
}

#[test]
fn integrity_of_bytes_is_the_sha256() {
    let sri = Integrity::of_bytes(b"hello world");
    assert_eq!(sri.to_string(), "sha256-uU0nuZNNPgilLlLX2n2r+sSE7+N6U4DukIj3rOLvzek=");
    assert_eq!(
        sha256_hex_of("hello world"),
        "b94d27b9934d3e08a52e52d7da7dabfac484efe37a5380ee9088f7ace2efcde9"
    );
    assert_eq!(
        sha256_hex_of(""),
        "e3b0c44298fc1c149afbf4c8996fb92427ae41e4649b934ca495991b7852b855"
    );
}

#[test]
fn hashes_are_written_in_lower_case_hex() {
    assert_eq!(
        lux_lib::hash::sha256_hex_of(""),
        "e3b0c44298fc1c149afbf4c8996fb92427ae41e4649b934ca495991b7852b855"
    );
    assert_eq!(
        lux_lib::hash::sha256_hex_of("abc"),
        "ba7816bf8f01cfea414140de5dae2223b00361a396177a9cb410ff61f20015ad"
    );
}
