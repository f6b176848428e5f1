use lux_lib::download::{
    classify_status, download_request, mk_packed_rock_name, unpack_rockspec, DownloadRequest,
    DownloadedPackedRockBytes, HttpOutcome, SearchAndDownloadError,
};
use lux_lib::package::{PackageName, PackageSpec, RemotePackage, RemotePackageSource};
use lux_lib::version::PackageVersion;
use std::io::Write;

fn archive(entries: &[(&str, &[u8])]) -> Vec<u8> {
    let mut writer = zip::ZipWriter::new(std::io::Cursor::new(Vec::new()));
    let options = zip::write::SimpleFileOptions::default()
        .compression_method(zip::CompressionMethod::Stored);
    for (name, content) in entries {
        writer.start_file(*name, options).unwrap();
        writer.write_all(content).unwrap();
    }
    writer.finish().unwrap().into_inner()
}

fn remote(source: RemotePackageSource) -> RemotePackage {
    RemotePackage::new(PackageSpec::parse("Foo", "1.0.0-1").unwrap(), source)
}

#[test]
fn what_is_fetched_depends_on_what_the_server_has() {
    let server = "https://luarocks.org".to_string();
    assert_eq!(
        download_request(&remote(RemotePackageSource::LuarocksRockspec(server.clone())), "linux-x86_64"),
        DownloadRequest::Rockspec { url: "https://luarocks.org/foo-1.0.0-1.rockspec".to_string() }
    );
    assert_eq!(
        download_request(&remote(RemotePackageSource::LuarocksSrcRock(server.clone())), "linux-x86_64"),
        DownloadRequest::SrcRock {
            url: "https://luarocks.org/foo-1.0.0-1.src.rock".to_string(),
            file_name: "foo-1.0.0-1.src.rock".to_string(),
        }
    );
    assert_eq!(
        download_request(&remote(RemotePackageSource::LuarocksBinaryRock(server)), "linux-x86_64"),
        DownloadRequest::BinaryRock {
            url: "https://luarocks.org/foo-1.0.0-1.linux-x86_64.rock".to_string(),
            file_name: "foo-1.0.0-1.linux-x86_64.rock".to_string(),
        }
    );
    assert_eq!(
        download_request(
            &remote(RemotePackageSource::RockspecContent("package = 'foo'".to_string())),
            "linux-x86_64"
        ),
        DownloadRequest::Inline { content: "package = 'foo'".to_string() }
    );
    assert_eq!(
        download_request(&remote(RemotePackageSource::Local), "linux-x86_64"),
        DownloadRequest::Local
    );
}

#[test]
fn archives_are_named_by_package_version_and_ending() {
    let name = PackageName::new("lua-cjson");
    let version = PackageVersion::parse("2.1.0.10-1").unwrap();
    assert_eq!(mk_packed_rock_name(&name, &version, "src.rock"), "lua-cjson-2.1.0.10-1.src.rock");
    assert_eq!(mk_packed_rock_name(&name, &version, "rockspec"), "lua-cjson-2.1.0.10-1.rockspec");
}

fn packed(bytes: Vec<u8>) -> DownloadedPackedRockBytes {
    DownloadedPackedRockBytes {
        name: PackageName::new("foo"),
        version: PackageVersion::parse("1.0.0-1").unwrap(),
        bytes,
        file_name: "foo-1.0.0-1.src.rock".to_string(),
    }
}

#[test]
fn the_rockspec_is_taken_out_of_the_archive() {
    let rock = packed(archive(&[
        ("foo.lua", b"return {}"),
        ("foo-1.0.0-1.rockspec", b"package = 'foo'\nversion = '1.0.0-1'\n"),
    ]));
    assert_eq!(unpack_rockspec(&rock), Ok("package = 'foo'\nversion = '1.0.0-1'\n".to_string()));
}

#[test]
fn an_archive_without_its_rockspec_is_an_error() {
    let rock = packed(archive(&[("foo-2.0.0-1.rockspec", b"package = 'foo'")]));
    assert_eq!(
        unpack_rockspec(&rock),
        Err(SearchAndDownloadError::RockspecNotFoundInSrcRock("foo-1.0.0-1.rockspec".to_string()))
    );
    assert!(matches!(unpack_rockspec(&packed(b"no archive".to_vec())), Err(SearchAndDownloadError::Zip(_))));
    let no_text = packed(archive(&[("foo-1.0.0-1.rockspec", &[0xff, 0xfe, 0x00])]));
    assert_eq!(unpack_rockspec(&no_text), Err(SearchAndDownloadError::Utf8));
}

#[test]
fn client_errors_are_told_from_server_errors() {
    assert_eq!(classify_status(200), HttpOutcome::Success);
    assert_eq!(classify_status(304), HttpOutcome::Success);
    assert_eq!(classify_status(399), HttpOutcome::Success);
    assert_eq!(classify_status(400), HttpOutcome::ClientError);
    assert_eq!(classify_status(404), HttpOutcome::ClientError);
    assert_eq!(classify_status(499), HttpOutcome::ClientError);
    assert_eq!(classify_status(500), HttpOutcome::ServerError);
    assert_eq!(classify_status(503), HttpOutcome::ServerError);
    assert_eq!(classify_status(599), HttpOutcome::ServerError);
    assert_eq!(classify_status(600), HttpOutcome::Success);
}

#[test]
fn an_entry_that_cannot_be_read_is_no_missing_rockspec() {
    let content = b"package = 'foo' -- a rockspec that is long enough to be found again";
    let mut bytes = archive(&[("foo-1.0.0-1.rockspec", content)]);
    let at = bytes.windows(content.len()).position(|w| w == content).unwrap();
    bytes[at] = b'P';
    assert!(matches!(unpack_rockspec(&packed(bytes)), Err(SearchAndDownloadError::Zip(_))));
}
